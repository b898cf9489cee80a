//! The verified front of the conversion pipeline: header text in, raw
//! bytes in, per-channel sample columns out.
//!
//! The caller still owes the unverifiable tail: reading the two input
//! files, converting the calibration tokens to 32-bit floats, applying
//! `raw * slope + offset` per channel, and writing the columnar output
//! file.

use vstd::prelude::*;

use crate::channel::channel_of;
use crate::channel::demux;
use crate::error::ConvertError;
use crate::header::{
    header_complete, header_consistent, kw_values, offset_kw, parse_header, series_kw, slope_kw,
    Header,
};
use crate::sample::decode_le;
use crate::sample::decode_samples;
use crate::text::str_views;

verus! {

/// Decodes the raw buffer and de-interleaves it into one column per
/// channel of `header`, in channel order.
pub fn channel_table(header: &Header, dat: &Vec<u8>) -> (r: Vec<Vec<i16>>)
    requires
        header.wf(),
    ensures
        r@.len() == header.channel_count(),
        forall|c: int|
            0 <= c < r@.len() ==> r@[c]@ == channel_of(
                decode_le(dat@),
                header.channel_count() as int,
                c,
            ),
{
    let samples = decode_samples(dat);
    demux(&samples, header.channels())
}

/// Runs the verified part of a conversion: parses the header lines and
/// de-interleaves the raw sample bytes into one column per channel.
///
/// Fails exactly as the header parser does; the raw buffer itself cannot
/// fail, any byte sequence being a valid sample stream.
pub fn convert_core(header_lines: &Vec<String>, dat: &Vec<u8>) -> (r: Result<
    (Header, Vec<Vec<i16>>),
    ConvertError,
>)
    ensures
        r is Ok <==> header_complete(header_lines@) && header_consistent(header_lines@),
        match r {
            Ok((h, cols)) => {
                &&& h.wf()
                &&& str_views(h.names@) == kw_values(header_lines@, series_kw())
                &&& str_views(h.slope_tokens@) == kw_values(header_lines@, slope_kw())
                &&& str_views(h.offset_tokens@) == kw_values(header_lines@, offset_kw())
                &&& cols@.len() == h.channel_count()
                &&& forall|c: int|
                    0 <= c < cols@.len() ==> cols@[c]@ == channel_of(
                        decode_le(dat@),
                        h.channel_count() as int,
                        c,
                    )
            },
            Err(e) => {
                &&& (e == ConvertError::HeaderFormat <==> !header_complete(header_lines@))
                &&& (e == ConvertError::HeaderConsistency <==> header_complete(header_lines@)
                    && !header_consistent(header_lines@))
            },
        },
{
    let header = match parse_header(header_lines) {
        Ok(h) => h,
        Err(e) => {
            return Err(e);
        },
    };
    let cols = channel_table(&header, dat);
    Ok((header, cols))
}

} // verus!
