//! Character-level building blocks over `Seq<char>`: Unicode white space,
//! trimming, searching and literal comparison on ranges of a char buffer.
use vstd::prelude::*;

verus! {

/// The Unicode `White_Space` property, as `char::is_whitespace` tests it.
pub open spec fn is_white_space(c: char) -> bool {
    let v = c as u32;
    ||| 0x9 <= v <= 0xd
    ||| v == 0x20
    ||| v == 0x85
    ||| v == 0xa0
    ||| v == 0x1680
    ||| 0x2000 <= v <= 0x200a
    ||| v == 0x2028
    ||| v == 0x2029
    ||| v == 0x202f
    ||| v == 0x205f
    ||| v == 0x3000
}

/// The general category `Cc`, as `char::is_control` tests it.
pub open spec fn is_control(c: char) -> bool {
    let v = c as u32;
    v <= 0x1f || (0x7f <= v <= 0x9f)
}

/// `s` without its leading white space.
pub open spec fn trim_start(s: Seq<char>) -> Seq<char>
    decreases s.len(),
{
    if s.len() > 0 && is_white_space(s[0]) {
        trim_start(s.drop_first())
    } else {
        s
    }
}

/// `s` without its trailing white space.
pub open spec fn trim_end(s: Seq<char>) -> Seq<char>
    decreases s.len(),
{
    if s.len() > 0 && is_white_space(s.last()) {
        trim_end(s.drop_last())
    } else {
        s
    }
}

/// `s` without leading and trailing white space, as `str::trim` gives it.
pub open spec fn trim(s: Seq<char>) -> Seq<char> {
    trim_end(trim_start(s))
}

/// The first index at or after `i` at which `s` holds `c`, or `s.len()`.
pub open spec fn first_index_from(s: Seq<char>, c: char, i: int) -> int
    decreases s.len() - i,
{
    if i < 0 || i >= s.len() {
        s.len() as int
    } else if s[i] == c {
        i
    } else {
        first_index_from(s, c, i + 1)
    }
}

pub proof fn lemma_first_index_from_bounds(s: Seq<char>, c: char, i: int)
    requires
        0 <= i <= s.len(),
    ensures
        i <= first_index_from(s, c, i) <= s.len(),
        first_index_from(s, c, i) < s.len() ==> s[first_index_from(s, c, i)] == c,
        forall|k: int| i <= k < first_index_from(s, c, i) ==> s[k] != c,
    decreases s.len() - i,
{
    if i < s.len() && s[i] != c {
        lemma_first_index_from_bounds(s, c, i + 1);
    }
}

/// Index of the first white-space-free position in `buf[lo..hi]`, and the
/// end of the last one: `buf[a..b]` is the trimmed range.
pub fn trim_range(buf: &Vec<char>, lo: usize, hi: usize) -> (r: (usize, usize))
    requires
        lo <= hi <= buf@.len(),
    ensures
        lo <= r.0 <= r.1 <= hi,
        buf@.subrange(r.0 as int, r.1 as int) == trim(buf@.subrange(lo as int, hi as int)),
{
    let mut a = lo;
    while a < hi && is_white_space_exec(buf[a])
        invariant
            lo <= a <= hi <= buf@.len(),
            trim_start(buf@.subrange(lo as int, hi as int)) == trim_start(
                buf@.subrange(a as int, hi as int),
            ),
        decreases hi - a,
    {
        assert(buf@.subrange(a as int, hi as int).drop_first() =~= buf@.subrange(
            a + 1,
            hi as int,
        ));
        a = a + 1;
    }
    assert(trim_start(buf@.subrange(a as int, hi as int)) == buf@.subrange(a as int, hi as int));
    let mut b = hi;
    while b > a && is_white_space_exec(buf[b - 1])
        invariant
            lo <= a <= b <= hi <= buf@.len(),
            trim_end(buf@.subrange(a as int, hi as int)) == trim_end(
                buf@.subrange(a as int, b as int),
            ),
        decreases b - a,
    {
        assert(buf@.subrange(a as int, b as int).drop_last() =~= buf@.subrange(
            a as int,
            b - 1,
        ));
        b = b - 1;
    }
    (a, b)
}

pub fn is_white_space_exec(c: char) -> (b: bool)
    ensures
        b == is_white_space(c),
{
    let v = c as u32;
    (0x9 <= v && v <= 0xd) || v == 0x20 || v == 0x85 || v == 0xa0 || v == 0x1680 || (0x2000 <= v
        && v <= 0x200a) || v == 0x2028 || v == 0x2029 || v == 0x202f || v == 0x205f || v == 0x3000
}

pub fn is_control_exec(c: char) -> (b: bool)
    ensures
        b == is_control(c),
{
    let v = c as u32;
    v <= 0x1f || (0x7f <= v && v <= 0x9f)
}

/// The first index in `lo..hi` at which `buf` holds `c`, or `hi`.
pub fn find_char(buf: &Vec<char>, c: char, lo: usize, hi: usize) -> (r: usize)
    requires
        lo <= hi <= buf@.len(),
    ensures
        lo <= r <= hi,
        r - lo == first_index_from(buf@.subrange(lo as int, hi as int), c, 0),
{
    let ghost s = buf@.subrange(lo as int, hi as int);
    let mut k = lo;
    while k < hi && buf[k] != c
        invariant
            lo <= k <= hi <= buf@.len(),
            s == buf@.subrange(lo as int, hi as int),
            first_index_from(s, c, 0) == first_index_from(s, c, k - lo),
        decreases hi - k,
    {
        k = k + 1;
    }
    k
}

/// Whether `buf[lo..hi]` spells `lit`.
pub fn range_eq(buf: &Vec<char>, lo: usize, hi: usize, lit: &str) -> (b: bool)
    requires
        lo <= hi <= buf@.len(),
    ensures
        b == (buf@.subrange(lo as int, hi as int) == lit@),
{
    let n = lit.unicode_len();
    if hi - lo != n {
        return false;
    }
    let mut k: usize = 0;
    while k < n
        invariant
            lo <= hi <= buf@.len(),
            hi - lo == n == lit@.len(),
            k <= n,
            forall|j: int| 0 <= j < k ==> buf@[lo + j] == lit@[j],
        decreases n - k,
    {
        if buf[lo + k] != lit.get_char(k) {
            assert(buf@.subrange(lo as int, hi as int)[k as int] != lit@[k as int]);
            return false;
        }
        k = k + 1;
    }
    assert(buf@.subrange(lo as int, hi as int) =~= lit@);
    true
}

/// The characters of `s`, in order.
pub fn chars_of(s: &str) -> (v: Vec<char>)
    ensures
        v@ == s@,
{
    let mut v: Vec<char> = Vec::new();
    for c in it: s.chars()
        invariant
            v@ == it.seq().take(it.index() as int),
    {
        v.push(c);
    }
    v
}

} // verus!
