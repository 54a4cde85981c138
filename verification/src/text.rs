use vstd::prelude::*;
use vstd::string::StrSliceExecFns;

verus! {

/// The characters that input trimming recognises as whitespace: the Unicode
/// White_Space set, as `str::trim` drops.
pub open spec fn is_space_char(c: char) -> bool {
    let u = c as u32;
    ||| u == 0x20
    ||| 0x09 <= u <= 0x0D
    ||| u == 0x85
    ||| u == 0xA0
    ||| u == 0x1680
    ||| 0x2000 <= u <= 0x200A
    ||| u == 0x2028
    ||| u == 0x2029
    ||| u == 0x202F
    ||| u == 0x205F
    ||| u == 0x3000
}

/// Reports whether one character is whitespace.
pub fn is_space(c: char) -> (r: bool)
    ensures
        r == is_space_char(c),
{
    let u = c as u32;
    u == 0x20 || (0x09 <= u && u <= 0x0D) || u == 0x85 || u == 0xA0 || u == 0x1680 || (0x2000 <= u
        && u <= 0x200A) || u == 0x2028 || u == 0x2029 || u == 0x202F || u == 0x205F || u == 0x3000
}

/// A string is blank when every character of it is whitespace; the empty
/// string is blank.
pub open spec fn all_space(s: Seq<char>) -> bool {
    forall|i: int| 0 <= i < s.len() ==> is_space_char(s[i])
}

/// The string with its leading whitespace removed.
pub open spec fn ltrim_of(s: Seq<char>) -> Seq<char>
    decreases s.len(),
{
    if s.len() > 0 && is_space_char(s[0]) {
        ltrim_of(s.skip(1))
    } else {
        s
    }
}

/// The string with its trailing whitespace removed.
pub open spec fn rtrim_of(s: Seq<char>) -> Seq<char>
    decreases s.len(),
{
    if s.len() > 0 && is_space_char(s.last()) {
        rtrim_of(s.drop_last())
    } else {
        s
    }
}

/// The string with whitespace removed from both ends.
pub open spec fn trim_of(s: Seq<char>) -> Seq<char> {
    rtrim_of(ltrim_of(s))
}

/// If the first `k` characters are whitespace and the character at `k` (when
/// there is one) is not, then left-trimming drops exactly those `k`.
pub proof fn lemma_ltrim_at(s: Seq<char>, k: int)
    requires
        0 <= k <= s.len(),
        forall|i: int| 0 <= i < k ==> is_space_char(s[i]),
        k == s.len() || !is_space_char(s[k]),
    ensures
        ltrim_of(s) == s.skip(k),
    decreases k,
{
    if k == 0 {
        assert(s.skip(0) =~= s);
    } else {
        let t = s.skip(1);
        assert(forall|i: int| 0 <= i < k - 1 ==> is_space_char(#[trigger] t[i]));
        lemma_ltrim_at(t, k - 1);
        assert(t.skip(k - 1) =~= s.skip(k));
    }
}

/// If every character from `h` on is whitespace and the character before `h`
/// (when there is one) is not, then right-trimming keeps exactly the first `h`.
pub proof fn lemma_rtrim_at(s: Seq<char>, h: int)
    requires
        0 <= h <= s.len(),
        forall|i: int| h <= i < s.len() ==> is_space_char(s[i]),
        h == 0 || !is_space_char(s[h - 1]),
    ensures
        rtrim_of(s) == s.take(h),
    decreases s.len() - h,
{
    if h == s.len() {
        assert(s.take(h) =~= s);
    } else {
        let t = s.drop_last();
        assert(forall|i: int| h <= i < t.len() ==> is_space_char(#[trigger] t[i]));
        lemma_rtrim_at(t, h);
        assert(t.take(h) =~= s.take(h));
    }
}

/// A blank string trims to the empty string, and conversely.
pub proof fn lemma_trim_empty(s: Seq<char>)
    ensures
        trim_of(s).len() == 0 <==> all_space(s),
    decreases s.len(),
{
    if s.len() > 0 && is_space_char(s[0]) {
        lemma_trim_empty(s.skip(1));
        if all_space(s.skip(1)) {
            assert forall|i: int| 0 <= i < s.len() implies is_space_char(s[i]) by {
                if i > 0 {
                    assert(is_space_char(s.skip(1)[i - 1]));
                }
            }
        }
        if all_space(s) {
            assert forall|i: int| 0 <= i < s.skip(1).len() implies is_space_char(
                s.skip(1)[i],
            ) by {
                assert(is_space_char(s[i + 1]));
            }
        }
    } else if s.len() > 0 {
        assert(ltrim_of(s) == s);
        lemma_rtrim_keeps_head(s);
        assert(!all_space(s));
    }
}

/// Right-trimming a string whose first character is not whitespace keeps a
/// non-empty result.
proof fn lemma_rtrim_keeps_head(s: Seq<char>)
    requires
        s.len() > 0,
        !is_space_char(s[0]),
    ensures
        rtrim_of(s).len() > 0,
    decreases s.len(),
{
    if s.len() > 0 && is_space_char(s.last()) {
        lemma_rtrim_keeps_head(s.drop_last());
    }
}

/// Reports whether the input is blank: empty or whitespace only, the guard
/// under which a note or task submission is ignored.
pub fn is_blank(s: &str) -> (r: bool)
    ensures
        r == all_space(s@),
{
    let n = s.unicode_len();
    let mut i: usize = 0;
    while i < n
        invariant
            0 <= i <= n,
            n == s@.len(),
            forall|j: int| 0 <= j < i ==> is_space_char(s@[j]),
        decreases n - i,
    {
        let c = s.get_char(i);
        if !is_space(c) {
            assert(!is_space_char(s@[i as int]));
            return false;
        }
        i = i + 1;
    }
    true
}

/// Character-for-character equality of two string slices.
pub fn str_eq(a: &str, b: &str) -> (r: bool)
    ensures
        r == (a@ == b@),
{
    let na = a.unicode_len();
    let nb = b.unicode_len();
    if na != nb {
        assert(a@ != b@);
        return false;
    }
    let mut i: usize = 0;
    while i < na
        invariant
            0 <= i <= na,
            na == a@.len(),
            na == b@.len(),
            forall|j: int| 0 <= j < i ==> a@[j] == b@[j],
        decreases na - i,
    {
        if a.get_char(i) != b.get_char(i) {
            assert(a@ != b@);
            return false;
        }
        i = i + 1;
    }
    assert(a@ =~= b@);
    true
}

} // verus!
