//! The channel demultiplexer.
//!
//! The flat sample stream is row-major interleaved across `n` channels:
//! the sample at absolute position `i` belongs to channel `i mod n`, and
//! relative order within a channel is preserved.  Every sample is
//! assigned, so when the stream length is not a multiple of `n` the last
//! channels come out one sample shorter than the first.

use vstd::arithmetic::div_mod::lemma_fundamental_div_mod;
use vstd::arithmetic::div_mod::lemma_fundamental_div_mod_converse;
use vstd::prelude::*;

verus! {

/// The subsequence of `samples` that belongs to channel `c` of `n`: the
/// samples at positions congruent to `c` modulo `n`, in stream order.
pub open spec fn channel_of(samples: Seq<i16>, n: int, c: int) -> Seq<i16>
    decreases samples.len(),
{
    if samples.len() == 0 {
        Seq::empty()
    } else {
        let prefix = channel_of(samples.drop_last(), n, c);
        if (samples.len() - 1) % n == c {
            prefix.push(samples.last())
        } else {
            prefix
        }
    }
}

/// How many of the positions `0 .. len` are congruent to `c` modulo `n`:
/// the length of channel `c`.
pub open spec fn channel_len(len: int, n: int, c: int) -> int {
    if c < len {
        (len - 1 - c) / n + 1
    } else {
        0
    }
}

/// Channel `c` of `n` holds exactly the samples of the positions
/// congruent to `c` modulo `n`: its length is `channel_len`, and its
/// entry `j` is the sample at absolute position `j * n + c`.
pub proof fn lemma_channel_positions(samples: Seq<i16>, n: int, c: int)
    requires
        n >= 1,
        0 <= c < n,
    ensures
        channel_of(samples, n, c).len() == channel_len(samples.len() as int, n, c),
        forall|j: int|
            0 <= j < channel_of(samples, n, c).len() ==> channel_of(samples, n, c)[j] == samples[j
                * n + c],
    decreases samples.len(),
{
    let col = channel_of(samples, n, c);
    let len = samples.len() as int;
    if len == 0 {
    } else {
        let m = len - 1;
        let pre = channel_of(samples.drop_last(), n, c);
        lemma_channel_positions(samples.drop_last(), n, c);
        lemma_fundamental_div_mod(m, n);
        let d = m / n;
        let e = m % n;
        assert(0 <= e < n);
        assert(m == n * d + e);
        // A sample of the prefix indexed inside the old channel stays put.
        assert forall|j: int| 0 <= j < pre.len() implies
            0 <= j * n + c < m && pre[j] == samples[j * n + c] by {
            assert(c < m) by {
                if c >= m {
                    assert(channel_len(m, n, c) == 0);
                }
            }
            lemma_fundamental_div_mod(m - 1 - c, n);
            let q = (m - 1 - c) / n;
            assert(j <= q);
            assert(0 <= j * n + c <= m - 1) by (nonlinear_arith)
                requires
                    0 <= j <= q,
                    n >= 1,
                    0 <= c,
                    n * q <= m - 1 - c,
            ;
            assert(pre[j] == samples.drop_last()[j * n + c]);
            assert(samples.drop_last()[j * n + c] == samples[j * n + c]);
        }
        if e == c {
            // Position m itself belongs to channel c; it lands at the end.
            assert(m == n * d + c);
            assert(col == pre.push(samples.last()));
            if c < m {
                assert(d >= 1) by (nonlinear_arith)
                    requires
                        m == n * d + c,
                        c < m,
                        0 <= c < n,
                ;
                assert(m - 1 - c == (d - 1) * n + (n - 1)) by (nonlinear_arith)
                    requires
                        m == n * d + c,
                ;
                lemma_fundamental_div_mod_converse(m - 1 - c, n, d - 1, n - 1);
                assert(channel_len(m, n, c) == d);
                assert(m - c == d * n) by (nonlinear_arith)
                    requires
                        m == n * d + c,
                ;
                lemma_fundamental_div_mod_converse(m - c, n, d, 0);
                assert(channel_len(len, n, c) == d + 1);
            } else {
                // c == m: the first sample of the channel.
                assert(d == 0) by (nonlinear_arith)
                    requires
                        m == n * d + c,
                        c == m,
                        0 <= c < n,
                        n >= 1,
                ;
                assert(channel_len(m, n, c) == 0);
                lemma_fundamental_div_mod_converse(m - c, n, 0, 0);
                assert(channel_len(len, n, c) == 1);
            }
            assert(pre.len() == d);
            assert forall|j: int| 0 <= j < col.len() implies col[j] == samples[j * n + c] by {
                if j < pre.len() {
                    assert(col[j] == pre[j]);
                } else {
                    assert(j == d);
                    assert(j * n + c == m) by (nonlinear_arith)
                        requires
                            j == d,
                            m == n * d + c,
                    ;
                    assert(col[j] == samples.last());
                    assert(samples.last() == samples[m]);
                }
            }
        } else {
            // Position m belongs to another channel; channel c is unchanged.
            assert(col == pre);
            if c < m {
                if e > c {
                    assert(m - 1 - c == d * n + (e - c - 1)) by (nonlinear_arith)
                        requires
                            m == n * d + e,
                    ;
                    lemma_fundamental_div_mod_converse(m - 1 - c, n, d, e - c - 1);
                    assert(m - c == d * n + (e - c)) by (nonlinear_arith)
                        requires
                            m == n * d + e,
                    ;
                    lemma_fundamental_div_mod_converse(m - c, n, d, e - c);
                } else {
                    assert(e < c);
                    assert(m - 1 - c == (d - 1) * n + (n + e - c - 1)) by (nonlinear_arith)
                        requires
                            m == n * d + e,
                    ;
                    lemma_fundamental_div_mod_converse(m - 1 - c, n, d - 1, n + e - c - 1);
                    assert(m - c == (d - 1) * n + (n + e - c)) by (nonlinear_arith)
                        requires
                            m == n * d + e,
                    ;
                    lemma_fundamental_div_mod_converse(m - c, n, d - 1, n + e - c);
                }
                assert(channel_len(len, n, c) == channel_len(m, n, c));
            } else if c == m {
                // Impossible: position m would then be channel c itself.
                assert(false) by (nonlinear_arith)
                    requires
                        m == n * d + e,
                        0 <= e < n,
                        e != c,
                        c == m,
                        0 <= c < n,
                        n >= 1,
                ;
            } else {
                // c > m: the channel has no position yet in either length.
                assert(channel_len(m, n, c) == 0);
                assert(channel_len(len, n, c) == 0);
            }
        }
    }
}

/// Splits the flat sample stream into its `n` per-channel sequences.
pub fn demux(samples: &Vec<i16>, n: usize) -> (r: Vec<Vec<i16>>)
    requires
        n >= 1,
    ensures
        r@.len() == n,
        forall|c: int| 0 <= c < n ==> r@[c]@ == channel_of(samples@, n as int, c),
{
    let mut r: Vec<Vec<i16>> = Vec::new();
    let mut c: usize = 0;
    while c < n
        invariant
            c <= n,
            n >= 1,
            r@.len() == c,
            forall|k: int| 0 <= k < c ==> r@[k]@ == channel_of(samples@, n as int, k),
        decreases n - c,
    {
        let mut col: Vec<i16> = Vec::new();
        let mut i: usize = 0;
        while i < samples.len()
            invariant
                i <= samples@.len(),
                n >= 1,
                c < n,
                col@ == channel_of(samples@.take(i as int), n as int, c as int),
            decreases samples@.len() - i,
        {
            let ghost before = samples@.take(i as int);
            let ghost after = samples@.take(i + 1);
            proof {
                assert(after.drop_last() =~= before);
                assert(after.last() == samples@[i as int]);
            }
            if i % n == c {
                col.push(samples[i]);
            }
            i = i + 1;
        }
        proof {
            assert(samples@.take(samples@.len() as int) =~= samples@);
        }
        r.push(col);
        c = c + 1;
    }
    r
}

} // verus!
