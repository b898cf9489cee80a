//! The header parser.
//!
//! A header is a sequence of text lines.  Three of them are required, each
//! the first line beginning with its keyword followed by a space:
//! `SERIES` (channel names), `SLOPE` and `Y_OFFSET` (per-channel
//! calibration coefficients).  The rest of such a line, trimmed of
//! surrounding whitespace, is a `", "`-separated value list.  The three
//! lists are zipped index-wise: index `i` of each list describes channel
//! `i`.
//!
//! Numeric tokens are kept verbatim here; converting them to 32-bit
//! floats is floating-point work that the (unverified) caller does, and a
//! token that fails that conversion is the same header-format failure as
//! a missing keyword line.

use vstd::prelude::*;
use vstd::string::*;

use crate::error::ConvertError;
use crate::text::{is_sep_at, split_values, split_values_spec, str_views, trim_spec, trim_str};

verus! {

/// Per-channel metadata extracted from a header: channel names and the
/// numeric tokens of the two calibration lists.  Index `i` of each list
/// describes channel `i`; the shared length is the channel count and the
/// de-interleaving stride.
#[derive(Debug, PartialEq, Eq)]
pub struct Header {
    /// Channel names, in column order.
    pub names: Vec<String>,
    /// The `SLOPE` tokens, one per channel, still in textual form.
    pub slope_tokens: Vec<String>,
    /// The `Y_OFFSET` tokens, one per channel, still in textual form.
    pub offset_tokens: Vec<String>,
}

impl Header {
    /// The three lists are equally long and name at least one channel.
    pub open spec fn wf(self) -> bool {
        &&& self.names@.len() == self.slope_tokens@.len()
        &&& self.names@.len() == self.offset_tokens@.len()
        &&& self.names@.len() >= 1
    }

    /// The channel count, which is also the de-interleaving stride.
    pub open spec fn channel_count(self) -> nat {
        self.names@.len()
    }

    /// Returns the channel count.
    pub fn channels(&self) -> (n: usize)
        ensures
            n == self.channel_count(),
    {
        self.names.len()
    }
}

/// `line` is a keyword line for `kw` (the keyword with its trailing
/// space): it begins with `kw` and at least one character follows.
pub open spec fn is_kw_line(line: Seq<char>, kw: Seq<char>) -> bool {
    line.len() > kw.len() && line.take(kw.len() as int) == kw
}

/// The least index of a keyword line for `kw`, or `-1` if there is none.
pub open spec fn find_kw_line(lines: Seq<String>, kw: Seq<char>) -> int
    decreases lines.len(),
{
    if lines.len() == 0 {
        -1
    } else if is_kw_line(lines[0]@, kw) {
        0
    } else {
        let r = find_kw_line(lines.skip(1), kw);
        if r == -1 {
            -1
        } else {
            r + 1
        }
    }
}

/// The value list of the first keyword line for `kw`: the rest of the
/// line, trimmed, split on `", "`.  Meaningful only when such a line
/// exists.
pub open spec fn kw_values(lines: Seq<String>, kw: Seq<char>) -> Seq<Seq<char>> {
    split_values_spec(trim_spec(lines[find_kw_line(lines, kw)]@.skip(kw.len() as int)))
}

/// The `SERIES` keyword, with the space that separates it from its list.
pub open spec fn series_kw() -> Seq<char> {
    "SERIES "@
}

/// The `SLOPE` keyword, with its separating space.
pub open spec fn slope_kw() -> Seq<char> {
    "SLOPE "@
}

/// The `Y_OFFSET` keyword, with its separating space.
pub open spec fn offset_kw() -> Seq<char> {
    "Y_OFFSET "@
}

/// All three required keyword lines are present.
pub open spec fn header_complete(lines: Seq<String>) -> bool {
    &&& find_kw_line(lines, series_kw()) >= 0
    &&& find_kw_line(lines, slope_kw()) >= 0
    &&& find_kw_line(lines, offset_kw()) >= 0
}

/// The three value lists have one length.  Meaningful only for a
/// complete header.
pub open spec fn header_consistent(lines: Seq<String>) -> bool {
    &&& kw_values(lines, series_kw()).len() == kw_values(lines, slope_kw()).len()
    &&& kw_values(lines, series_kw()).len() == kw_values(lines, offset_kw()).len()
}

/// `find_kw_line` returns the least matching index: a scan that saw no
/// match up to `i` settles the result.
proof fn lemma_find_kw_first(lines: Seq<String>, kw: Seq<char>, i: int)
    requires
        0 <= i <= lines.len(),
        forall|k: int| 0 <= k < i ==> !is_kw_line(lines[k]@, kw),
        i < lines.len() ==> is_kw_line(lines[i]@, kw),
    ensures
        find_kw_line(lines, kw) == if i < lines.len() {
            i
        } else {
            -1
        },
    decreases lines.len(),
{
    if lines.len() == 0 {
    } else if i == 0 {
    } else {
        assert(!is_kw_line(lines[0]@, kw));
        assert forall|k: int| 0 <= k < i - 1 implies !is_kw_line(lines.skip(1)[k]@, kw) by {
            assert(lines.skip(1)[k] == lines[k + 1]);
        }
        if i - 1 < lines.len() - 1 {
            assert(lines.skip(1)[i - 1] == lines[i]);
        }
        lemma_find_kw_first(lines.skip(1), kw, i - 1);
    }
}

/// Tests whether `line` begins with `kw` and has at least one more
/// character.
fn line_has_keyword(line: &str, kw: &str) -> (r: bool)
    ensures
        r == is_kw_line(line@, kw@),
{
    let ll = line.unicode_len();
    let kl = kw.unicode_len();
    if ll <= kl {
        return false;
    }
    let mut j: usize = 0;
    while j < kl
        invariant
            j <= kl,
            kl == kw@.len(),
            ll == line@.len(),
            ll > kl,
            forall|k: int| 0 <= k < j ==> line@[k] == kw@[k],
        decreases kl - j,
    {
        if line.get_char(j) != kw.get_char(j) {
            proof {
                assert(line@.take(kl as int)[j as int] == line@[j as int]);
            }
            return false;
        }
        j = j + 1;
    }
    proof {
        assert(line@.take(kl as int) =~= kw@);
    }
    true
}

/// The least index of a keyword line for `kw` among `lines`, if any.
fn find_keyword_line(lines: &Vec<String>, kw: &str) -> (r: Option<usize>)
    ensures
        match r {
            Some(i) => i < lines@.len() && find_kw_line(lines@, kw@) == i,
            None => find_kw_line(lines@, kw@) == -1,
        },
{
    let mut i: usize = 0;
    while i < lines.len()
        invariant
            i <= lines@.len(),
            forall|k: int| 0 <= k < i ==> !is_kw_line(lines@[k]@, kw@),
        decreases lines@.len() - i,
    {
        if line_has_keyword(lines[i].as_str(), kw) {
            proof {
                lemma_find_kw_first(lines@, kw@, i as int);
            }
            return Some(i);
        }
        i = i + 1;
    }
    proof {
        lemma_find_kw_first(lines@, kw@, lines@.len() as int);
    }
    None
}

/// Extracts the value list of the first keyword line for `kw`: the rest
/// of the line, trimmed, split on `", "`.
fn extract_values(lines: &Vec<String>, kw: &str) -> (r: Option<Vec<String>>)
    ensures
        match r {
            Some(v) => {
                &&& find_kw_line(lines@, kw@) >= 0
                &&& str_views(v@) == kw_values(lines@, kw@)
                &&& v@.len() >= 1
            },
            None => find_kw_line(lines@, kw@) == -1,
        },
{
    match find_keyword_line(lines, kw) {
        None => None,
        Some(i) => {
            let line = lines[i].as_str();
            proof {
                assert(is_kw_line(line@, kw@)) by {
                    if find_kw_line(lines@, kw@) == i {
                        lemma_find_kw_is_match(lines@, kw@);
                    }
                }
            }
            let rest = line.substring_char(kw.unicode_len(), line.unicode_len());
            proof {
                assert(rest@ =~= line@.skip(kw@.len() as int));
            }
            let trimmed = trim_str(rest);
            Some(split_values(trimmed.as_str()))
        },
    }
}

/// A non-negative `find_kw_line` result points at a keyword line.
proof fn lemma_find_kw_is_match(lines: Seq<String>, kw: Seq<char>)
    requires
        find_kw_line(lines, kw) >= 0,
    ensures
        find_kw_line(lines, kw) < lines.len(),
        is_kw_line(lines[find_kw_line(lines, kw)]@, kw),
    decreases lines.len(),
{
    if lines.len() == 0 {
    } else if is_kw_line(lines[0]@, kw) {
    } else {
        lemma_find_kw_is_match(lines.skip(1), kw);
        assert(lines.skip(1)[find_kw_line(lines.skip(1), kw)] == lines[find_kw_line(lines, kw)]);
    }
}

/// Parses a header given as decoded text lines.
///
/// Returns the channel names and the two calibration token lists, taken
/// from the first `SERIES`, `SLOPE` and `Y_OFFSET` lines.  Fails with
/// `HeaderFormat` when one of the three lines is missing, and with
/// `HeaderConsistency` when the three lists differ in length.
pub fn parse_header(lines: &Vec<String>) -> (r: Result<Header, ConvertError>)
    ensures
        r is Ok <==> header_complete(lines@) && header_consistent(lines@),
        match r {
            Ok(h) => {
                &&& h.wf()
                &&& str_views(h.names@) == kw_values(lines@, series_kw())
                &&& str_views(h.slope_tokens@) == kw_values(lines@, slope_kw())
                &&& str_views(h.offset_tokens@) == kw_values(lines@, offset_kw())
            },
            Err(e) => {
                &&& (e == ConvertError::HeaderFormat <==> !header_complete(lines@))
                &&& (e == ConvertError::HeaderConsistency <==> header_complete(lines@)
                    && !header_consistent(lines@))
            },
        },
{
    let names = match extract_values(lines, "SERIES ") {
        Some(v) => v,
        None => {
            return Err(ConvertError::HeaderFormat);
        },
    };
    let slope_tokens = match extract_values(lines, "SLOPE ") {
        Some(v) => v,
        None => {
            return Err(ConvertError::HeaderFormat);
        },
    };
    let offset_tokens = match extract_values(lines, "Y_OFFSET ") {
        Some(v) => v,
        None => {
            return Err(ConvertError::HeaderFormat);
        },
    };
    proof {
        assert(str_views(names@).len() == names@.len());
        assert(str_views(slope_tokens@).len() == slope_tokens@.len());
        assert(str_views(offset_tokens@).len() == offset_tokens@.len());
    }
    if names.len() != slope_tokens.len() || names.len() != offset_tokens.len() {
        return Err(ConvertError::HeaderConsistency);
    }
    Ok(Header { names, slope_tokens, offset_tokens })
}

} // verus!
