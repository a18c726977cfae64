//! Verified core of a desktop annotation recorder.
//!
//! The library computes everything an annotation needs before any file is
//! touched: the save directory below the application data directory, the
//! copied file's name (a fresh identifier plus the lowercased source
//! extension), and the JSON line appended to the label log. A thin shell
//! around the library performs the actual filesystem work on the values
//! computed here.

pub mod pathname;
pub mod jsonl;
pub mod annotate;
