//! Verified core of the media manager: codec and resolution profiles, the
//! ffmpeg command line, ffprobe output decoding, encode-job records and their
//! lifecycle, directory listing order, and the API response envelope.

pub mod media;
pub mod text;
pub mod numeral;
pub mod paths;
pub mod api;
pub mod order;
pub mod ffmpeg;
pub mod ids;
pub mod probe;
pub mod jobs;
pub mod routes;
pub mod browse;
pub mod client;
