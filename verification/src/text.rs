//! Literal containment of one text in another, over code points.

use vstd::prelude::*;
use vstd::string::*;

verus! {

/// `needle` stands in `hay` at offset `at`.
pub open spec fn occurs_at(hay: Seq<char>, needle: Seq<char>, at: int) -> bool {
    0 <= at && at + needle.len() <= hay.len() && hay.subrange(at, at + needle.len()) == needle
}

/// `needle` is a literal substring of `hay`.
pub open spec fn contains(hay: Seq<char>, needle: Seq<char>) -> bool {
    exists|at: int| #[trigger] occurs_at(hay, needle, at)
}

/// `at` is the least offset at which `needle` stands in `hay`.
pub open spec fn is_first_offset(hay: Seq<char>, needle: Seq<char>, at: int) -> bool {
    occurs_at(hay, needle, at) && forall|b: int| 0 <= b < at ==> !#[trigger] occurs_at(hay, needle, b)
}

/// The least offset at which `needle` stands in `hay`, where it stands in it at all.
pub open spec fn first_offset(hay: Seq<char>, needle: Seq<char>) -> int {
    choose|at: int| is_first_offset(hay, needle, at)
}

/// The least offset of an occurrence is unique.
pub proof fn first_offset_is_unique(hay: Seq<char>, needle: Seq<char>, at: int)
    requires
        is_first_offset(hay, needle, at),
    ensures
        first_offset(hay, needle) == at,
{
    let q = first_offset(hay, needle);
    assert(is_first_offset(hay, needle, q));
}

/// The code points of `s`, in order.
pub fn chars_of(s: &str) -> (out: Vec<char>)
    ensures
        out@ == s@,
{
    let n: usize = s.unicode_len();
    let mut out: Vec<char> = Vec::new();
    let mut i: usize = 0;
    while i < n
        invariant
            n == s@.len(),
            i <= n,
            out@ == s@.subrange(0, i as int),
        decreases n - i,
    {
        out.push(s.get_char(i));
        assert(out@ =~= s@.subrange(0, i + 1));
        i += 1;
    }
    assert(out@ =~= s@);
    out
}

/// Whether the window `from..to` of `needle` stands in `hay` at offset `at`.
pub fn window_occurs_at(hay: &Vec<char>, needle: &Vec<char>, from: usize, to: usize, at: usize) -> (r: bool)
    requires
        from <= to <= needle@.len(),
    ensures
        r == occurs_at(hay@, needle@.subrange(from as int, to as int), at as int),
{
    let n: usize = to - from;
    let total: usize = hay.len();
    if n > total || at > total - n {
        return false;
    }
    let ghost w = needle@.subrange(from as int, to as int);
    let mut k: usize = 0;
    while k < n
        invariant
            n == to - from,
            from <= to <= needle@.len(),
            total == hay@.len(),
            at + n <= total,
            k <= n,
            w == needle@.subrange(from as int, to as int),
            hay@.subrange(at as int, at + k) == w.subrange(0, k as int),
        decreases n - k,
    {
        if hay[at + k] != needle[from + k] {
            proof {
                let h = hay@.subrange(at as int, at + n);
                assert(h[k as int] != w[k as int]);
            }
            return false;
        }
        assert(hay@.subrange(at as int, at + k + 1) =~= w.subrange(0, k + 1));
        k += 1;
    }
    assert(w.subrange(0, n as int) =~= w);
    true
}

/// Whether the window `from..to` of `needle` is a literal substring of `hay`.
pub fn window_contained(hay: &Vec<char>, needle: &Vec<char>, from: usize, to: usize) -> (r: bool)
    requires
        from <= to <= needle@.len(),
    ensures
        r == contains(hay@, needle@.subrange(from as int, to as int)),
{
    let ghost w = needle@.subrange(from as int, to as int);
    let mut at: usize = 0;
    while at <= hay.len()
        invariant
            from <= to <= needle@.len(),
            w == needle@.subrange(from as int, to as int),
            forall|b: int| 0 <= b < at ==> !#[trigger] occurs_at(hay@, w, b),
        decreases hay@.len() + 1 - at,
    {
        if window_occurs_at(hay, needle, from, to, at) {
            return true;
        }
        if at == hay.len() {
            return false;
        }
        at += 1;
    }
    false
}

/// Whether the window `from..to` of `hay` also stands in `hay` at an offset below `from`.
pub fn window_occurs_earlier(hay: &Vec<char>, from: usize, to: usize) -> (r: bool)
    requires
        from <= to <= hay@.len(),
    ensures
        r == !is_first_offset(hay@, hay@.subrange(from as int, to as int), from as int),
{
    let ghost w = hay@.subrange(from as int, to as int);
    assert(occurs_at(hay@, w, from as int));
    let mut at: usize = 0;
    while at < from
        invariant
            from <= to <= hay@.len(),
            at <= from,
            w == hay@.subrange(from as int, to as int),
            forall|b: int| 0 <= b < at ==> !#[trigger] occurs_at(hay@, w, b),
        decreases from - at,
    {
        if window_occurs_at(hay, hay, from, to, at) {
            return true;
        }
        at += 1;
    }
    false
}

} // verus!
