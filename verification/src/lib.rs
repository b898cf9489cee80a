//! Conversion core for paired telemetry recordings: a binary `.dat` file of
//! interleaved little-endian 16-bit samples and a textual `.hdr` file that
//! names the channels and gives each one a linear calibration.
//!
//! This crate holds the verified part of the pipeline: parsing the header
//! into per-channel metadata, decoding the raw byte stream into signed
//! 16-bit samples, and de-interleaving the sample stream into per-channel
//! columns.  Applying the floating-point calibration and writing the
//! columnar output file are left to the (unverified) caller, which hands
//! this crate plain lines, bytes and vectors and takes plain vectors back.

pub mod channel;
pub mod error;
pub mod header;
pub mod pipeline;
pub mod sample;
pub mod text;

pub use error::ConvertError;
pub use header::Header;
pub use header::parse_header;
pub use pipeline::channel_table;
pub use pipeline::convert_core;
