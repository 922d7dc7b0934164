//! A downloader that fetches a file in blocks, with several requests at a time.
//!
//! This library holds what a download decides and computes: how a file is divided into blocks,
//! which worker gets which block, what happens when one fails, where the bytes belong, what the
//! headers of requests and responses say, and what the user is shown. It sends, receives and
//! writes nothing itself.

pub mod blocks;
pub mod errors;
pub mod laws;
pub mod manager;
pub mod outside;
pub mod progress;
pub mod responses;
pub mod speed;
pub mod steps;
pub mod text;
pub mod util;
pub mod worker;
