//! Token estimates, and the split of an input count over the prompt cache.

use crate::text;
use vstd::prelude::*;

verus! {

/// A character of the block of common Chinese ideographs.
pub open spec fn is_ideograph(c: char) -> bool {
    '\u{4E00}' <= c <= '\u{9FFF}'
}

/// Number of ideographs in a text.
pub open spec fn ideographs(s: Seq<char>) -> nat
    decreases s.len(),
{
    if s.len() == 0 {
        0
    } else {
        ideographs(s.drop_last()) + if is_ideograph(s.last()) {
            1nat
        } else {
            0
        }
    }
}

/// The number of tokens that a text is taken to have: one for three halves of an ideograph and
/// one for four other characters, each rounded up, and never less than one.
pub open spec fn estimate(s: Seq<char>) -> int {
    let wide = ideographs(s);
    let other = s.len() - wide;
    let sum = (wide * 2 + 2) / 3 + (other + 3) / 4;
    if sum < 1 {
        1
    } else {
        sum
    }
}

/// A count that stops at the greatest `i32`.
pub open spec fn capped(n: int) -> int {
    if n > i32::MAX {
        i32::MAX as int
    } else {
        n
    }
}

/// Estimates the tokens of a text; the estimate stops at the greatest `i32`.
pub fn estimate_tokens(text: &str) -> (r: i32)
    ensures
        r == capped(estimate(text@)),
{
    let chars = text::chars_of(text);
    let mut wide: u64 = 0;
    let mut i: usize = 0;
    assert(text@.take(0) =~= Seq::empty());
    while i < chars.len()
        invariant
            i <= chars.len(),
            chars@ == text@,
            wide == ideographs(text@.take(i as int)),
            wide <= i,
        decreases chars.len() - i,
    {
        let c = chars[i];
        proof {
            assert(text@.take(i + 1).drop_last() =~= text@.take(i as int));
        }
        if '\u{4E00}' <= c && c <= '\u{9FFF}' {
            wide += 1;
        }
        i += 1;
    }
    assert(text@.take(chars.len() as int) =~= text@);
    let other: u64 = chars.len() as u64 - wide;
    let wide_tokens: u128 = (wide as u128 * 2 + 2) / 3;
    let other_tokens: u128 = (other as u128 + 3) / 4;
    let sum: u128 = wide_tokens + other_tokens;
    if sum < 1 {
        1
    } else if sum > i32::MAX as u128 {
        i32::MAX
    } else {
        sum as i32
    }
}

/// Adds to a running count, which stops at the greatest `i32`.
pub fn add_tokens(total: i32, more: i32) -> (r: i32)
    requires
        0 <= more,
    ensures
        r == capped(total + more),
{
    if total > i32::MAX - more {
        i32::MAX
    } else {
        total + more
    }
}

/// How much of a prompt the cache covers, all in estimated tokens.
#[derive(Debug, Clone, Copy)]
pub struct CacheUsage {
    /// Read from the cache.
    pub cache_read: i32,
    /// Read from the cache, or newly written to it.
    pub cache_covered_est: i32,
    /// The whole prompt.
    pub prompt_total_est: i32,
}

/// The number in `[low, high]` that is nearest to `n`.
pub open spec fn clamped(n: int, low: int, high: int) -> int {
    if n < low {
        low
    } else if n > high {
        high
    } else {
        n
    }
}

/// The share of `total` that `part` is of `whole`, rounded down.
pub open spec fn share(total: int, part: int, whole: int) -> int {
    total * part / whole
}

/// A real total split into new input, cache writes and cache reads, in the proportions of the
/// estimate.
pub open spec fn split(c: CacheUsage, total: int) -> (int, int, int) {
    if c.prompt_total_est <= 0 || total <= 0 {
        (total, 0, 0)
    } else {
        let whole = c.prompt_total_est as int;
        let covered_est = clamped(c.cache_covered_est as int, 0, whole);
        let read_est = clamped(c.cache_read as int, 0, covered_est);
        let covered = share(total, covered_est, whole);
        let read = share(total, read_est, whole);
        (total - covered, covered - read, read)
    }
}

proof fn lemma_share(total: int, part: int, whole: int)
    requires
        0 < whole,
        0 <= part <= whole,
        0 <= total,
    ensures
        0 <= share(total, part, whole) <= total,
{
    assert(0 <= total * part <= total * whole) by (nonlinear_arith)
        requires
            0 <= part <= whole,
            0 <= total,
    ;
    assert(0 <= total * part / whole <= total) by (nonlinear_arith)
        requires
            0 <= total * part <= total * whole,
            0 < whole,
    ;
}

proof fn lemma_share_order(total: int, a: int, b: int, whole: int)
    requires
        0 < whole,
        0 <= a <= b,
        0 <= total,
    ensures
        share(total, a, whole) <= share(total, b, whole),
{
    assert(total * a <= total * b) by (nonlinear_arith)
        requires
            0 <= a <= b,
            0 <= total,
    ;
    assert(total * a / whole <= total * b / whole) by (nonlinear_arith)
        requires
            total * a <= total * b,
            0 < whole,
    ;
}

/// The three parts of a split exclude each other and add up to the total; none is negative
/// where the total is not.
pub proof fn law_split_adds_up(c: CacheUsage, total: int)
    ensures
        split(c, total).0 + split(c, total).1 + split(c, total).2 == total,
        total >= 0 ==> split(c, total).0 >= 0 && split(c, total).1 >= 0 && split(c, total).2 >= 0,
{
    if c.prompt_total_est > 0 && total > 0 {
        let whole = c.prompt_total_est as int;
        let covered_est = clamped(c.cache_covered_est as int, 0, whole);
        let read_est = clamped(c.cache_read as int, 0, covered_est);
        lemma_share(total, covered_est, whole);
        lemma_share(total, read_est, whole);
        lemma_share_order(total, read_est, covered_est, whole);
    }
}

fn clamp(n: i32, low: i32, high: i32) -> (r: i32)
    requires
        low <= high,
    ensures
        r == clamped(n as int, low as int, high as int),
{
    if n < low {
        low
    } else if n > high {
        high
    } else {
        n
    }
}

fn share_of(total: i32, part: i32, whole: i32) -> (r: i32)
    requires
        0 < whole,
        0 <= part <= whole,
        0 <= total,
    ensures
        r == share(total as int, part as int, whole as int),
        0 <= r <= total,
{
    proof {
        lemma_share(total as int, part as int, whole as int);
        assert(0 <= total * part <= 0x7fff_ffff * 0x7fff_ffff) by (nonlinear_arith)
            requires
                0 <= total <= 0x7fff_ffff,
                0 <= part <= 0x7fff_ffff,
        ;
    }
    (total as i64 * part as i64 / whole as i64) as i32
}

impl CacheUsage {
    /// A prompt that the cache knows nothing of.
    pub fn none() -> (r: CacheUsage)
        ensures
            r == (CacheUsage { cache_read: 0, cache_covered_est: 0, prompt_total_est: 0 }),
    {
        CacheUsage { cache_read: 0, cache_covered_est: 0, prompt_total_est: 0 }
    }

    /// Splits a real total into new input, cache writes and cache reads.
    pub fn split_against_total(&self, total: i32) -> (r: (i32, i32, i32))
        ensures
            (r.0 as int, r.1 as int, r.2 as int) == split(*self, total as int),
            r.0 + r.1 + r.2 == total,
    {
        if self.prompt_total_est <= 0 || total <= 0 {
            return (total, 0, 0);
        }
        let whole = self.prompt_total_est;
        let covered_est = clamp(self.cache_covered_est, 0, whole);
        let read_est = clamp(self.cache_read, 0, covered_est);
        let covered = share_of(total, covered_est, whole);
        let read = share_of(total, read_est, whole);
        proof {
            lemma_share_order(total as int, read_est as int, covered_est as int, whole as int);
        }
        (total - covered, covered - read, read)
    }
}

/// The count that is told to a client that asks for one: never less than one.
pub fn reported_tokens(total: i32) -> (r: i32)
    ensures
        r == (if total < 1 {
            1
        } else {
            total
        }),
{
    if total < 1 {
        1
    } else {
        total
    }
}

proof fn lemma_ideographs(s: Seq<char>)
    ensures
        ideographs(s) == s.filter(|c: char| '\u{4E00}' <= c <= '\u{9FFF}').len(),
        ideographs(s) <= s.len(),
    decreases s.len(),
{
    reveal(Seq::filter);
    if s.len() > 0 {
        lemma_ideographs(s.drop_last());
    }
}

/// `n` things, `per` of which make one token with a rest counted as one more, are `tokens` tokens.
pub open spec fn rounded_up(tokens: int, things: int, per: int) -> bool {
    (tokens - 1) * per < things <= tokens * per
}

/// A text is taken to have one token for every four characters that are no ideographs, and two for
/// every three that are, each rounded up; but at least one token, and at most as many as an `i32`
/// holds.
pub proof fn law_estimate_goes_by_characters(text: &str, r: i32)
    requires
        call_ensures(estimate_tokens, (text,), r),
    ensures
        ({
            let wide = text@.filter(|c: char| '\u{4E00}' <= c <= '\u{9FFF}').len() as int;
            let other = text@.len() - wide;
            exists|a: int, b: int|
                #![trigger rounded_up(a, 2 * wide, 3), rounded_up(b, other, 4)]
                rounded_up(a, 2 * wide, 3) && rounded_up(b, other, 4) && r == (if a + b < 1 {
                    1
                } else if a + b > i32::MAX {
                    i32::MAX as int
                } else {
                    a + b
                })
        }),
{
    lemma_ideographs(text@);
    let wide = ideographs(text@) as int;
    let other = text@.len() - wide;
    let a = (wide * 2 + 2) / 3;
    let b = (other + 3) / 4;
    assert(rounded_up(a, 2 * wide, 3));
    assert(rounded_up(b, other, 4));
}

/// `part` is the share of `total` that corresponds to `estimate` of `whole`, rounded down.
pub open spec fn is_share(part: int, total: int, estimate: int, whole: int) -> bool {
    part * whole <= total * estimate < (part + 1) * whole
}

proof fn lemma_is_share(total: int, part: int, whole: int)
    requires
        0 < whole,
    ensures
        is_share(share(total, part, whole), total, part, whole),
{
    let x = total * part;
    assert((x / whole) * whole <= x < (x / whole + 1) * whole) by (nonlinear_arith)
        requires
            0 < whole,
    ;
}

/// `total` is divided as the estimate of a prompt is: what was read from the cache, and what the
/// cache covers in all, are the same shares of the total as of the estimate, rounded down; what is
/// covered but was not read was written, and the rest is new. Estimates out of range count as the
/// nearest in range. Without an estimate or a total all is new.
pub open spec fn divided(c: CacheUsage, total: int, fresh: int, written: int, read: int) -> bool {
    let whole = c.prompt_total_est as int;
    &&& fresh + written + read == total
    &&& whole <= 0 || total <= 0 ==> written == 0 && read == 0
    &&& whole > 0 && total > 0 ==> {
        &&& fresh >= 0 && written >= 0 && read >= 0
        &&& 0 <= c.cache_read <= c.cache_covered_est <= whole ==> is_share(
            read,
            total,
            c.cache_read as int,
            whole,
        ) && is_share(written + read, total, c.cache_covered_est as int, whole)
        &&& c.cache_covered_est >= whole ==> fresh == 0
        &&& c.cache_covered_est <= 0 ==> written == 0 && read == 0
        &&& c.cache_read <= 0 ==> read == 0
        &&& c.cache_read >= c.cache_covered_est ==> written == 0
    }
}

pub proof fn lemma_divided(c: CacheUsage, total: int)
    ensures
        divided(c, total, split(c, total).0, split(c, total).1, split(c, total).2),
{
    law_split_adds_up(c, total);
    if c.prompt_total_est > 0 && total > 0 {
        let whole = c.prompt_total_est as int;
        let covered_est = clamped(c.cache_covered_est as int, 0, whole);
        let read_est = clamped(c.cache_read as int, 0, covered_est);
        lemma_is_share(total, covered_est, whole);
        lemma_is_share(total, read_est, whole);
        assert(total * whole / whole == total) by (nonlinear_arith)
            requires
                0 < whole,
        ;
        assert(total * 0 / whole == 0) by (nonlinear_arith)
            requires
                0 < whole,
        ;
    }
}

/// A real total is split into new input, cache writes and cache reads as the estimate of the
/// prompt is.
pub proof fn law_split_keeps_proportions(c: CacheUsage, total: i32, r: (i32, i32, i32))
    requires
        call_ensures(CacheUsage::split_against_total, (&c, total), r),
    ensures
        divided(c, total as int, r.0 as int, r.1 as int, r.2 as int),
{
    lemma_divided(c, total as int);
}

/// A client that asks for a count is told the count, but at least one.
pub proof fn law_reported_count_is_positive(total: i32, r: i32)
    requires
        call_ensures(reported_tokens, (total,), r),
    ensures
        r >= 1,
        r >= total,
        r == total || r == 1,
{
}

} // verus!
