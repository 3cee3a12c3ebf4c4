//! Conversion of ASS subtitle dialogue into SRT text.
//!
//! The dialogue lines of an ASS file are read into captions, their
//! timestamps rewritten from hundredths to thousandths of a second, and the
//! captions written out as the numbered blocks of an SRT file.
pub mod text;
pub mod timestamp;
pub mod dialogue;
pub mod srt;
pub mod files;
pub mod convert;
