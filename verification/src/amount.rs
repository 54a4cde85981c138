use vstd::prelude::*;
use vstd::string::StrSliceExecFns;

use crate::text::is_space;
use crate::text::is_space_char;
use crate::text::lemma_ltrim_at;
use crate::text::lemma_rtrim_at;
use crate::text::ltrim_of;
use crate::text::rtrim_of;
use crate::text::trim_of;

verus! {

// Budget entries are fixed-point currency amounts, held as a signed count of
// hundredths. An input is accepted when, after trimming, it is an optionally
// signed decimal with at most sixteen integer digits and at most two
// fractional digits; either side of the point may be empty, but not both.
// Exponent notation and values finer than a hundredth are not amounts.

pub open spec fn is_digit_char(c: char) -> bool {
    48 <= c as u32 <= 57
}

/// The numeric value of a single decimal digit character.
pub open spec fn digit_of(c: char) -> int {
    c as u32 - 48
}

pub open spec fn all_digits(s: Seq<char>) -> bool {
    forall|i: int| 0 <= i < s.len() ==> is_digit_char(s[i])
}

/// The value of a run of decimal digits read most-significant first.
pub open spec fn digits_val(s: Seq<char>) -> int
    decreases s.len(),
{
    if s.len() == 0 {
        0
    } else {
        digits_val(s.drop_last()) * 10 + digit_of(s.last())
    }
}

/// The length of the longest digit prefix of a string.
pub open spec fn digit_prefix_len(s: Seq<char>) -> int
    decreases s.len(),
{
    if s.len() > 0 && is_digit_char(s[0]) {
        1 + digit_prefix_len(s.skip(1))
    } else {
        0
    }
}

/// The hundredths contributed by the fractional digits: one digit counts in
/// tenths, two in hundredths.
pub open spec fn frac_cents(f: Seq<char>) -> int {
    if f.len() == 0 {
        0
    } else if f.len() == 1 {
        digits_val(f) * 10
    } else {
        digits_val(f)
    }
}

/// Whether an unsigned amount body is well-formed: at most sixteen integer
/// digits, then either nothing or a point with at most two digits, with a
/// digit on at least one side of the point.
pub open spec fn body_valid(body: Seq<char>) -> bool {
    let n = digit_prefix_len(body);
    &&& n <= 16
    &&& if n == body.len() {
        n >= 1
    } else {
        &&& body[n] == '.'
        &&& body.len() - n - 1 <= 2
        &&& all_digits(body.skip(n + 1))
        &&& (n >= 1 || body.len() - n - 1 >= 1)
    }
}

/// The value in hundredths of a well-formed unsigned amount body.
pub open spec fn body_cents(body: Seq<char>) -> int {
    let n = digit_prefix_len(body);
    digits_val(body.take(n)) * 100 + if n == body.len() {
        0
    } else {
        frac_cents(body.skip(n + 1))
    }
}

/// The amount denoted by an already-trimmed input, in hundredths, or `None`
/// when the input is not a well-formed amount.
pub open spec fn amount_of(t: Seq<char>) -> Option<int> {
    let signed = t.len() > 0 && (t[0] == '-' || t[0] == '+');
    let neg = t.len() > 0 && t[0] == '-';
    let body = if signed {
        t.skip(1)
    } else {
        t
    };
    if body_valid(body) {
        if neg {
            Some(-body_cents(body))
        } else {
            Some(body_cents(body))
        }
    } else {
        None
    }
}

pub open spec fn pow10(n: nat) -> nat
    decreases n,
{
    if n == 0 {
        1
    } else {
        10 * pow10((n - 1) as nat)
    }
}

proof fn lemma_pow10_pos(n: nat)
    ensures
        pow10(n) >= 1,
    decreases n,
{
    if n > 0 {
        lemma_pow10_pos((n - 1) as nat);
    }
}

proof fn lemma_pow10_le(a: nat, b: nat)
    requires
        a <= b,
    ensures
        pow10(a) <= pow10(b),
    decreases b,
{
    if a < b {
        lemma_pow10_le(a, (b - 1) as nat);
        lemma_pow10_pos((b - 1) as nat);
    }
}

proof fn lemma_pow10_16()
    ensures
        pow10(16) == 10000000000000000,
{
    assert(pow10(0) == 1);
    assert(pow10(1) == 10);
    assert(pow10(2) == 100);
    assert(pow10(3) == 1000);
    assert(pow10(4) == 10000);
    assert(pow10(5) == 100000);
    assert(pow10(6) == 1000000);
    assert(pow10(7) == 10000000);
    assert(pow10(8) == 100000000);
    assert(pow10(9) == 1000000000);
    assert(pow10(10) == 10000000000);
    assert(pow10(11) == 100000000000);
    assert(pow10(12) == 1000000000000);
    assert(pow10(13) == 10000000000000);
    assert(pow10(14) == 100000000000000);
    assert(pow10(15) == 1000000000000000);
    assert(pow10(16) == 10000000000000000);
}

/// A run of digits is bounded by ten to the power of its length.
proof fn lemma_digits_val_bound(s: Seq<char>)
    requires
        all_digits(s),
    ensures
        0 <= digits_val(s) < pow10(s.len()),
    decreases s.len(),
{
    if s.len() > 0 {
        let t = s.drop_last();
        assert(forall|i: int| 0 <= i < t.len() ==> is_digit_char(#[trigger] t[i]));
        lemma_digits_val_bound(t);
        assert(is_digit_char(s.last()));
    }
}

proof fn lemma_digit_prefix_nonneg(s: Seq<char>)
    ensures
        digit_prefix_len(s) >= 0,
    decreases s.len(),
{
    if s.len() > 0 && is_digit_char(s[0]) {
        lemma_digit_prefix_nonneg(s.skip(1));
    }
}

proof fn lemma_digit_prefix_le_len(s: Seq<char>)
    ensures
        digit_prefix_len(s) <= s.len(),
    decreases s.len(),
{
    if s.len() > 0 && is_digit_char(s[0]) {
        lemma_digit_prefix_le_len(s.skip(1));
    }
}

/// If the first `k` characters are digits and the character at `k` (when
/// there is one) is not, the digit prefix has length exactly `k`.
proof fn lemma_digit_prefix_at(s: Seq<char>, k: int)
    requires
        0 <= k <= s.len(),
        forall|i: int| 0 <= i < k ==> is_digit_char(s[i]),
        k == s.len() || !is_digit_char(s[k]),
    ensures
        digit_prefix_len(s) == k,
    decreases k,
{
    if k > 0 {
        let t = s.skip(1);
        assert(forall|i: int| 0 <= i < k - 1 ==> is_digit_char(#[trigger] t[i]));
        lemma_digit_prefix_at(t, k - 1);
    }
}

/// A string whose first `k` characters are digits has a digit prefix of at
/// least `k`.
proof fn lemma_digit_prefix_at_least(s: Seq<char>, k: int)
    requires
        0 <= k <= s.len(),
        forall|i: int| 0 <= i < k ==> is_digit_char(s[i]),
    ensures
        digit_prefix_len(s) >= k,
    decreases k,
{
    if k == 0 {
        lemma_digit_prefix_nonneg(s);
    } else {
        let t = s.skip(1);
        assert(forall|i: int| 0 <= i < k - 1 ==> is_digit_char(#[trigger] t[i]));
        lemma_digit_prefix_at_least(t, k - 1);
    }
}

fn space_at(s: &str, i: usize) -> (r: bool)
    requires
        i <= s@.len(),
    ensures
        r == (i < s@.len() && is_space_char(s@[i as int])),
{
    if i < s.unicode_len() {
        is_space(s.get_char(i))
    } else {
        false
    }
}

fn space_end(s: &str, lo: usize, hi: usize) -> (r: bool)
    requires
        hi <= s@.len(),
    ensures
        r == (lo < hi && is_space_char(s@[hi - 1])),
{
    if lo < hi {
        is_space(s.get_char(hi - 1))
    } else {
        false
    }
}

fn digit_at(s: &str, i: usize, end: usize) -> (r: bool)
    requires
        end <= s@.len(),
    ensures
        r == (i < end && is_digit_char(s@[i as int])),
{
    if i < end {
        let c = s.get_char(i);
        let u = c as u32;
        48 <= u && u <= 57
    } else {
        false
    }
}

/// The index of the first non-whitespace character, or the length when the
/// whole string is whitespace.
fn scan_front(s: &str) -> (lo: usize)
    ensures
        0 <= lo <= s@.len(),
        forall|j: int| 0 <= j < lo ==> is_space_char(s@[j]),
        lo == s@.len() || !is_space_char(s@[lo as int]),
{
    let n = s.unicode_len();
    let mut lo: usize = 0;
    while space_at(s, lo)
        invariant
            0 <= lo <= n,
            n == s@.len(),
            forall|j: int| 0 <= j < lo ==> is_space_char(s@[j]),
        decreases s@.len() - lo,
    {
        lo = lo + 1;
    }
    lo
}

/// The end of the non-whitespace region that begins at `lo`.
fn scan_back(s: &str, lo: usize) -> (hi: usize)
    requires
        lo < s@.len(),
        !is_space_char(s@[lo as int]),
    ensures
        lo < hi <= s@.len(),
        forall|j: int| hi <= j < s@.len() ==> is_space_char(s@[j]),
        !is_space_char(s@[hi - 1]),
{
    let mut hi: usize = s.unicode_len();
    while space_end(s, lo, hi)
        invariant
            lo < hi <= s@.len(),
            !is_space_char(s@[lo as int]),
            forall|j: int| hi <= j < s@.len() ==> is_space_char(s@[j]),
        decreases hi,
    {
        hi = hi - 1;
    }
    hi
}

/// Reads a run of at most `max` digits starting at `start`. Returns the run's
/// value and its end, or `None` when more than `max` digits stand there.
fn scan_digits(s: &str, start: usize, end: usize, max: usize) -> (r: Option<(i64, usize)>)
    requires
        start <= end <= s@.len(),
        max <= 16,
    ensures
        match r {
            Some(p) => {
                &&& start <= p.1 <= end
                &&& p.1 - start <= max
                &&& (forall|j: int| start <= j < p.1 ==> is_digit_char(s@[j]))
                &&& (p.1 == end || !is_digit_char(s@[p.1 as int]))
                &&& p.0 == digits_val(s@.subrange(start as int, p.1 as int))
                &&& 0 <= p.0 < pow10((p.1 - start) as nat)
            },
            None => digit_prefix_len(s@.subrange(start as int, end as int)) > max,
        },
{
    proof {
        lemma_pow10_16();
    }
    let mut acc: i64 = 0;
    let mut i: usize = start;
    while digit_at(s, i, end)
        invariant
            start <= i <= end <= s@.len(),
            i - start <= max <= 16,
            forall|j: int| start <= j < i ==> is_digit_char(s@[j]),
            acc == digits_val(s@.subrange(start as int, i as int)),
            0 <= acc < pow10((i - start) as nat),
            pow10(16) == 10000000000000000,
        decreases end - i,
    {
        if i - start == max {
            proof {
                let sub = s@.subrange(start as int, end as int);
                assert forall|j: int| 0 <= j < max + 1 implies is_digit_char(sub[j]) by {
                    assert(sub[j] == s@[start + j]);
                }
                lemma_digit_prefix_at_least(sub, max as int + 1);
            }
            return None;
        }
        let c = s.get_char(i);
        let dv = (c as u32 - 48) as i64;
        proof {
            let a = s@.subrange(start as int, i as int);
            let b = s@.subrange(start as int, i + 1);
            assert(b.drop_last() =~= a);
            assert(b.last() == s@[i as int]);
            assert(pow10((i + 1 - start) as nat) == 10 * pow10((i - start) as nat));
            lemma_pow10_le((i - start) as nat, 15);
        }
        acc = acc * 10 + dv;
        i = i + 1;
    }
    Some((acc, i))
}

/// Parses a budget entry: whitespace is trimmed, then the remainder must be a
/// signed fixed-point amount. Returns its value in hundredths, or `None` for
/// any input that is not a well-formed amount.
#[verifier::rlimit(80)]
pub fn parse_amount(s: &str) -> (r: Option<i64>)
    ensures
        match amount_of(trim_of(s@)) {
            Some(v) => r == Some(v as i64) && v == v as i64,
            None => r is None,
        },
{
    proof {
        lemma_pow10_16();
    }
    let n = s.unicode_len();
    let lo = scan_front(s);
    proof {
        lemma_ltrim_at(s@, lo as int);
    }
    if lo == n {
        // Only whitespace: the trimmed input is empty and denotes no amount.
        assert(ltrim_of(s@) =~= Seq::<char>::empty());
        assert(trim_of(s@) =~= Seq::<char>::empty());
        return None;
    }
    let hi = scan_back(s, lo);
    let ghost t = s@.subrange(lo as int, hi as int);
    proof {
        let lt = s@.skip(lo as int);
        assert forall|i: int| hi - lo <= i < lt.len() implies is_space_char(lt[i]) by {
            assert(lt[i] == s@[lo + i]);
        }
        assert(lt[hi - lo - 1] == s@[hi - 1]);
        lemma_rtrim_at(lt, hi - lo);
        assert(lt.take(hi - lo) =~= t);
        assert(trim_of(s@) == t);
    }

    // Optional sign.
    let mut i: usize = lo;
    let mut neg = false;
    let c0 = s.get_char(lo);
    if c0 == '-' {
        neg = true;
        i = lo + 1;
    } else if c0 == '+' {
        i = lo + 1;
    }
    let ghost bs = i as int;
    let ghost body = s@.subrange(bs, hi as int);
    proof {
        assert(t[0] == s@[lo as int]);
        if bs > lo {
            assert(body =~= t.skip(1));
        } else {
            assert(body =~= t);
        }
    }

    // Integer digits.
    let scanned = scan_digits(s, i, hi, 16);
    let (acc, stop) = match scanned {
        None => {
            // More than sixteen integer digits: out of range.
            proof {
                assert(digit_prefix_len(body) > 16);
                assert(!body_valid(body));
            }
            return None;
        },
        Some(p) => p,
    };
    let d = stop - i;
    proof {
        assert forall|j: int| 0 <= j < d implies is_digit_char(body[j]) by {
            assert(body[j] == s@[bs + j]);
        }
        if (stop as int) < hi as int {
            assert(body[d as int] == s@[stop as int]);
        }
        lemma_digit_prefix_at(body, d as int);
        assert(body.take(d as int) =~= s@.subrange(bs, stop as int));
        lemma_digits_val_bound(body.take(d as int));
        lemma_pow10_le(d as nat, 16);
    }

    if stop == hi {
        if d == 0 {
            // Nothing but a sign: not an amount.
            assert(!body_valid(body));
            return None;
        }
        // Integer digits with no fractional part.
        assert(body_valid(body));
        assert(body_cents(body) == acc * 100);
        let cents: i64 = acc * 100;
        if neg {
            return Some(-cents);
        } else {
            return Some(cents);
        }
    }
    let c1 = s.get_char(stop);
    if c1 != '.' {
        // The digits end at something other than a point.
        assert(body[d as int] != '.');
        assert(!body_valid(body));
        return None;
    }
    let fstart = stop + 1;
    let ghost frac = body.skip(d + 1);
    proof {
        assert(frac =~= s@.subrange(fstart as int, hi as int));
    }

    // Fractional digits, at most two.
    let fscanned = scan_digits(s, fstart, hi, 2);
    let (facc, fstop) = match fscanned {
        None => {
            // More than two digits after the point.
            proof {
                lemma_digit_prefix_le_len(s@.subrange(fstart as int, hi as int));
                assert(body.len() - digit_prefix_len(body) - 1 > 2);
                assert(!body_valid(body));
            }
            return None;
        },
        Some(q) => q,
    };
    if fstop < hi {
        // A non-digit inside the fractional part.
        proof {
            assert(!is_digit_char(frac[fstop - fstart]));
            assert(!all_digits(frac));
            assert(!body_valid(body));
        }
        return None;
    }
    let fd = fstop - fstart;
    if d == 0 && fd == 0 {
        // A bare point with no digit on either side.
        assert(!body_valid(body));
        return None;
    }
    proof {
        assert forall|j: int| 0 <= j < frac.len() implies is_digit_char(frac[j]) by {
            assert(frac[j] == s@[fstart + j]);
        }
        assert(body_valid(body));
        assert(frac =~= s@.subrange(fstart as int, fstop as int));
        assert(facc == digits_val(frac));
        assert(pow10(0) == 1);
        assert(pow10(1) == 10);
        assert(pow10(2) == 100);
    }
    let scaled: i64 = if fd == 0 {
        0
    } else if fd == 1 {
        facc * 10
    } else {
        facc
    };
    assert(scaled == frac_cents(frac));
    let cents: i64 = acc * 100 + scaled;
    assert(body_cents(body) == cents);
    if neg {
        Some(-cents)
    } else {
        Some(cents)
    }
}

} // verus!
