//! The verified core of an IPTV player backend: the M3U playlist parser,
//! the Xtream Codes API logic, the decisions of the embedded LAN server (HLS
//! proxy rewriting, ffmpeg remux sessions, play resolution), local address
//! selection, and the rows and rules of the playlist store.

pub mod text;
pub mod m3u;
pub mod urls;
pub mod json;
pub mod xtream;
pub mod server;
pub mod net;
pub mod db;
pub mod commands;
