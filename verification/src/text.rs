//! Small verified text utilities for the header grammar: trimming
//! surrounding whitespace and splitting a value list on the `", "`
//! separator, exactly as the header format uses them.

use vstd::prelude::*;
use vstd::string::*;

verus! {

/// The views of a sequence of owned strings.
pub open spec fn str_views(v: Seq<String>) -> Seq<Seq<char>> {
    Seq::new(v.len(), |i: int| v[i]@)
}

/// ASCII whitespace, the characters the header trimming removes.
pub open spec fn is_space_char(c: char) -> bool {
    c == ' ' || c == '\t' || c == '\n' || c == '\r' || c == '\u{b}' || c == '\u{c}'
}

/// `s` with its leading whitespace removed.
pub open spec fn trim_front_spec(s: Seq<char>) -> Seq<char>
    decreases s.len(),
{
    if s.len() > 0 && is_space_char(s[0]) {
        trim_front_spec(s.drop_first())
    } else {
        s
    }
}

/// `s` with its trailing whitespace removed.
pub open spec fn trim_back_spec(s: Seq<char>) -> Seq<char>
    decreases s.len(),
{
    if s.len() > 0 && is_space_char(s.last()) {
        trim_back_spec(s.drop_last())
    } else {
        s
    }
}

/// `s` with both surrounding stretches of whitespace removed.
pub open spec fn trim_spec(s: Seq<char>) -> Seq<char> {
    trim_back_spec(trim_front_spec(s))
}

/// A `", "` separator starts at position `i` of `s`.
pub open spec fn is_sep_at(s: Seq<char>, i: int) -> bool {
    0 <= i && i + 2 <= s.len() && s[i] == ',' && s[i + 1] == ' '
}

/// The tokens of `s` split on the `", "` separator, leftmost match first,
/// non-overlapping.  A string without the separator is one token, so the
/// result always holds at least one token.
pub open spec fn split_values_spec(s: Seq<char>) -> Seq<Seq<char>>
    decreases s.len(),
{
    if s.len() >= 2 && s[0] == ',' && s[1] == ' ' {
        seq![Seq::<char>::empty()] + split_values_spec(s.skip(2))
    } else if s.len() >= 1 {
        let rest = split_values_spec(s.skip(1));
        seq![seq![s[0]] + rest[0]] + rest.skip(1)
    } else {
        seq![Seq::<char>::empty()]
    }
}

/// Splitting never yields an empty token list.
pub proof fn lemma_split_values_len(s: Seq<char>)
    ensures
        split_values_spec(s).len() >= 1,
    decreases s.len(),
{
    if s.len() >= 2 && s[0] == ',' && s[1] == ' ' {
        lemma_split_values_len(s.skip(2));
    } else if s.len() >= 1 {
        lemma_split_values_len(s.skip(1));
    }
}

/// If the leftmost separator of `s` starts at `i`, the first token is
/// everything before it and the rest is the split of what follows it.
proof fn lemma_split_at_first_sep(s: Seq<char>, i: int)
    requires
        is_sep_at(s, i),
        forall|k: int| 0 <= k < i ==> !is_sep_at(s, k),
    ensures
        split_values_spec(s) == seq![s.take(i)] + split_values_spec(s.skip(i + 2)),
    decreases i,
{
    lemma_split_values_len(s.skip(i + 2));
    if i == 0 {
        assert(s.take(0) =~= Seq::<char>::empty());
        assert(s.skip(2) =~= s.skip(i + 2));
    } else {
        assert(!is_sep_at(s, 0));
        let rest = split_values_spec(s.skip(1));
        assert forall|k: int| 0 <= k < i - 1 implies !is_sep_at(s.skip(1), k) by {
            assert(!is_sep_at(s, k + 1));
        }
        assert(is_sep_at(s.skip(1), i - 1));
        lemma_split_at_first_sep(s.skip(1), i - 1);
        lemma_split_values_len(s.skip(1).skip(i + 1));
        assert(s.skip(1).skip(i + 1) =~= s.skip(i + 2));
        assert(seq![s[0]] + s.skip(1).take(i - 1) =~= s.take(i));
        assert(rest.skip(1) =~= split_values_spec(s.skip(i + 2)));
        assert(split_values_spec(s) =~~= seq![s.take(i)] + split_values_spec(s.skip(i + 2)));
    }
}

/// A string without any separator is a single token.
proof fn lemma_split_no_sep(s: Seq<char>)
    requires
        forall|k: int| 0 <= k < s.len() ==> !is_sep_at(s, k),
    ensures
        split_values_spec(s) == seq![s],
    decreases s.len(),
{
    if s.len() == 0 {
        assert(split_values_spec(s) =~~= seq![s]);
    } else {
        assert(!is_sep_at(s, 0));
        assert forall|k: int| 0 <= k < s.len() - 1 implies !is_sep_at(s.skip(1), k) by {
            assert(!is_sep_at(s, k + 1));
        }
        lemma_split_no_sep(s.skip(1));
        assert(seq![s[0]] + s.skip(1) =~= s);
        assert(split_values_spec(s) =~~= seq![s]);
    }
}

/// Recognises ASCII whitespace.
pub fn is_space(c: char) -> (r: bool)
    ensures
        r == is_space_char(c),
{
    c == ' ' || c == '\t' || c == '\n' || c == '\r' || c == '\u{b}' || c == '\u{c}'
}

/// Dropping `a` leading whitespace characters computes `trim_front_spec`.
proof fn lemma_trim_front_skip(s: Seq<char>, a: int)
    requires
        0 <= a <= s.len(),
        forall|k: int| 0 <= k < a ==> is_space_char(s[k]),
        a == s.len() || !is_space_char(s[a]),
    ensures
        trim_front_spec(s) == s.skip(a),
    decreases a,
{
    if a == 0 {
        assert(s.skip(0) =~= s);
    } else {
        assert(is_space_char(s[0]));
        assert forall|k: int| 0 <= k < a - 1 implies is_space_char(s.drop_first()[k]) by {
            assert(s.drop_first()[k] == s[k + 1]);
        }
        lemma_trim_front_skip(s.drop_first(), a - 1);
        assert(s.drop_first().skip(a - 1) =~= s.skip(a));
    }
}

/// Keeping everything before the trailing whitespace computes
/// `trim_back_spec`.
proof fn lemma_trim_back_take(s: Seq<char>, b: int)
    requires
        0 <= b <= s.len(),
        forall|k: int| b <= k < s.len() ==> is_space_char(s[k]),
        b == 0 || !is_space_char(s[b - 1]),
    ensures
        trim_back_spec(s) == s.take(b),
    decreases s.len(),
{
    if b == s.len() {
        assert(s.take(b) =~= s);
    } else {
        assert(is_space_char(s.last()));
        assert forall|k: int| b <= k < s.len() - 1 implies is_space_char(s.drop_last()[k]) by {
            assert(s.drop_last()[k] == s[k]);
        }
        lemma_trim_back_take(s.drop_last(), b);
        assert(s.drop_last().take(b) =~= s.take(b));
    }
}

/// Removes the surrounding whitespace of `s`.
pub fn trim_str(s: &str) -> (r: String)
    ensures
        r@ == trim_spec(s@),
{
    let n = s.unicode_len();
    let mut a: usize = 0;
    while a < n && is_space(s.get_char(a))
        invariant
            a <= n,
            n == s@.len(),
            forall|k: int| 0 <= k < a ==> is_space_char(s@[k]),
        decreases n - a,
    {
        a = a + 1;
    }
    proof {
        lemma_trim_front_skip(s@, a as int);
    }
    let mut b: usize = n;
    while b > a && is_space(s.get_char(b - 1))
        invariant
            a <= b <= n,
            n == s@.len(),
            forall|k: int| b <= k < n ==> is_space_char(s@[k]),
        decreases b,
    {
        b = b - 1;
    }
    proof {
        let t = s@.skip(a as int);
        assert forall|k: int| b - a <= k < t.len() implies is_space_char(t[k]) by {
            assert(t[k] == s@[k + a]);
        }
        if b > a {
            assert(t[b - a - 1] == s@[b - 1]);
            assert(!is_space_char(s@[b - 1]));
        }
        lemma_trim_back_take(t, b - a);
        assert(t.take(b - a) =~= s@.subrange(a as int, b as int));
    }
    let r = s.substring_char(a, b);
    String::from_str(r)
}

/// Splits `s` on each `", "` separator, leftmost first, and returns the
/// tokens as owned strings.  A string without the separator comes back as
/// the single token, so the result is never empty.
pub fn split_values(s: &str) -> (r: Vec<String>)
    ensures
        str_views(r@) == split_values_spec(s@),
        r@.len() >= 1,
{
    let n = s.unicode_len();
    let mut r: Vec<String> = Vec::new();
    let mut start: usize = 0;
    let mut i: usize = 0;
    proof {
        assert(s@.skip(0) =~= s@);
        assert(str_views(r@) =~= Seq::<Seq<char>>::empty());
    }
    while i < n
        invariant
            start <= i <= n,
            n == s@.len(),
            split_values_spec(s@) =~~= str_views(r@) + split_values_spec(s@.skip(start as int)),
            forall|k: int| start <= k < i ==> !is_sep_at(s@, k),
        decreases n - i,
    {
        if i + 1 < n && s.get_char(i) == ',' && s.get_char(i + 1) == ' ' {
            let tok = s.substring_char(start, i);
            let ghost old_r = r@;
            r.push(String::from_str(tok));
            proof {
                let rem = s@.skip(start as int);
                assert forall|k: int| 0 <= k < i - start implies !is_sep_at(rem, k) by {
                    assert(rem[k] == s@[k + start]);
                    assert(rem[k + 1] == s@[k + start + 1]);
                    assert(!is_sep_at(s@, k + start));
                }
                assert(rem[i - start] == s@[i as int]);
                assert(rem[i - start + 1] == s@[i + 1]);
                assert(is_sep_at(rem, i - start));
                lemma_split_at_first_sep(rem, i - start);
                assert(rem.take(i - start) =~= s@.subrange(start as int, i as int));
                assert(rem.skip(i - start + 2) =~= s@.skip(i + 2));
                assert(tok@ == s@.subrange(start as int, i as int));
                assert(str_views(r@) =~= str_views(old_r).push(tok@));
                assert(str_views(r@) + split_values_spec(s@.skip(i + 2)) =~~= str_views(old_r)
                    + split_values_spec(s@.skip(start as int)));
            }
            start = i + 2;
            i = i + 2;
        } else {
            proof {
                assert(!is_sep_at(s@, i as int));
            }
            i = i + 1;
        }
    }
    let tok = s.substring_char(start, n);
    let ghost old_r = r@;
    r.push(String::from_str(tok));
    proof {
        let rem = s@.skip(start as int);
        assert forall|k: int| 0 <= k < rem.len() implies !is_sep_at(rem, k) by {
            assert(rem[k] == s@[k + start]);
            if k + 1 < rem.len() {
                assert(rem[k + 1] == s@[k + start + 1]);
            }
            assert(!is_sep_at(s@, k + start));
        }
        lemma_split_no_sep(rem);
        assert(tok@ == rem);
        assert(str_views(r@) =~= str_views(old_r).push(tok@));
        assert(str_views(r@) =~~= split_values_spec(s@));
    }
    r
}

} // verus!
