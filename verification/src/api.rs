//! The response envelope of the HTTP API and the client's view of it.

use vstd::prelude::*;

verus! {

/// Envelope of every API response: data on success, a message otherwise.
#[derive(Clone, Debug)]
pub struct ApiResponse<T> {
    pub success: bool,
    pub data: Option<T>,
    pub error: Option<String>,
}

impl<T> ApiResponse<T> {
    /// A successful response carrying `data`.
    pub fn ok(data: T) -> (r: Self)
        ensures
            is_success(r, data),
    {
        ApiResponse { success: true, data: Some(data), error: None }
    }

    /// A failed response carrying the message `msg`.
    pub fn err(msg: String) -> (r: Self)
        ensures
            is_refusal(r, msg@),
            r.error == Some(msg),
    {
        ApiResponse { success: false, data: None, error: Some(msg) }
    }

    /// What the client makes of a response: its data, or else its message,
    /// or else `Unknown error`.
    pub open spec fn spec_into_result(self) -> Result<T, Seq<char>> {
        match self.data {
            Some(d) => Ok(d),
            None => match self.error {
                Some(e) => Err(e@),
                None => Err("Unknown error"@),
            },
        }
    }

    /// The client's reading of a response: the data if present, else the
    /// error message, else `Unknown error`.
    pub fn into_result(self) -> (r: Result<T, String>)
        ensures
            match (r, self.spec_into_result()) {
                (Ok(a), Ok(b)) => a == b,
                (Err(a), Err(b)) => a@ == b,
                _ => false,
            },
    {
        match self.data {
            Some(d) => Ok(d),
            None => match self.error {
                Some(e) => Err(e),
                None => Err("Unknown error".to_string()),
            },
        }
    }
}

/// `resp` is a success carrying `data`.
pub open spec fn is_success<T>(resp: ApiResponse<T>, data: T) -> bool {
    resp.success && resp.data == Some(data) && resp.error.is_none()
}

/// `resp` is a failure carrying the message `msg`.
pub open spec fn is_refusal<T>(resp: ApiResponse<T>, msg: Seq<char>) -> bool {
    &&& !resp.success
    &&& resp.data.is_none()
    &&& match resp.error {
        Some(m) => m@ == msg,
        None => false,
    }
}

/// What the client reads from a successful response is the data sent.
pub proof fn lemma_ok_reads_back<T>(r: ApiResponse<T>, data: T)
    requires
        is_success(r, data),
    ensures
        r.spec_into_result() == Ok::<T, Seq<char>>(data),
{
}

/// What the client reads from a refusal is the message sent.
pub proof fn lemma_err_reads_back<T>(r: ApiResponse<T>, msg: Seq<char>)
    requires
        is_refusal(r, msg),
    ensures
        r.spec_into_result() == Err::<T, Seq<char>>(msg),
{
}

} // verus!
