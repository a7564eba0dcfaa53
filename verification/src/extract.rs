//! The substrings that every sample shares.

use vstd::prelude::*;
use vstd::string::*;
use crate::text::{contains, is_first_offset, first_offset, first_offset_is_unique, occurs_at,
    chars_of, window_contained, window_occurs_earlier};

verus! {

/// The texts of a list of samples.
pub open spec fn sample_texts(samples: Seq<&str>) -> Seq<Seq<char>> {
    Seq::new(samples.len(), |k: int| samples[k]@)
}

/// The texts of a list of owned strings.
pub open spec fn string_texts(strings: Seq<String>) -> Seq<Seq<char>> {
    Seq::new(strings.len(), |k: int| strings[k]@)
}

/// `t` is not empty and a literal substring of every sample.
pub open spec fn is_common(samples: Seq<Seq<char>>, t: Seq<char>) -> bool {
    t.len() > 0 && forall|k: int| 0 <= k < samples.len() ==> contains(#[trigger] samples[k], t)
}

/// `t` is one of `texts`.
pub open spec fn lists(texts: Seq<Seq<char>>, t: Seq<char>) -> bool {
    exists|k: int| 0 <= k < texts.len() && #[trigger] texts[k] == t
}

/// `x` comes before `y` in the order of extraction: the longer text first, and
/// of two texts of one length the one that first occurs earlier in `first`.
pub open spec fn precedes(first: Seq<char>, x: Seq<char>, y: Seq<char>) -> bool {
    x.len() > y.len() || (x.len() == y.len() && first_offset(first, x) < first_offset(first, y))
}

/// `texts` is the extraction of `samples`: exactly the common substrings,
/// each once, in the order of extraction.
pub open spec fn is_extraction(samples: Seq<Seq<char>>, texts: Seq<Seq<char>>) -> bool {
    &&& forall|k: int| 0 <= k < texts.len() ==> is_common(samples, #[trigger] texts[k])
    &&& forall|t: Seq<char>| #[trigger] is_common(samples, t) ==> lists(texts, t)
    &&& forall|a: int, b: int|
        0 <= a < b < texts.len() ==> precedes(samples[0], #[trigger] texts[a], #[trigger] texts[b])
}

/// The extraction of `samples`, where they have one.
pub open spec fn extraction(samples: Seq<Seq<char>>) -> Seq<Seq<char>> {
    choose|texts: Seq<Seq<char>>| is_extraction(samples, texts)
}

/// Two extractions of the same samples hold the same text at each place that both have.
proof fn extractions_agree_at(samples: Seq<Seq<char>>, a: Seq<Seq<char>>, b: Seq<Seq<char>>, i: int)
    requires
        is_extraction(samples, a),
        is_extraction(samples, b),
        0 <= i < a.len(),
        i < b.len(),
    ensures
        a[i] == b[i],
    decreases i,
{
    assert forall|j: int| 0 <= j < i implies a[j] == b[j] by {
        extractions_agree_at(samples, a, b, j);
    }
    assert(is_common(samples, a[i]));
    assert(is_common(samples, b[i]));
    let m = choose|m: int| 0 <= m < b.len() && #[trigger] b[m] == a[i];
    let r = choose|r: int| 0 <= r < a.len() && #[trigger] a[r] == b[i];
    if m < i {
        assert(precedes(samples[0], a[m], a[i]));
    } else if r < i {
        assert(precedes(samples[0], b[r], b[i]));
    } else if m > i {
        assert(precedes(samples[0], b[i], b[m]));
        if r > i {
            assert(precedes(samples[0], a[i], a[r]));
        }
    }
}

/// Samples have one extraction at most: the contract of
/// `find_common_substrings` leaves no choice of what is found, nor of its order.
pub proof fn extraction_is_unique(samples: Seq<Seq<char>>, a: Seq<Seq<char>>, b: Seq<Seq<char>>)
    requires
        is_extraction(samples, a),
        is_extraction(samples, b),
    ensures
        a == b,
{
    if a.len() < b.len() {
        let extra = b[a.len() as int];
        assert(is_common(samples, extra));
        let r = choose|r: int| 0 <= r < a.len() && #[trigger] a[r] == extra;
        extractions_agree_at(samples, a, b, r);
        assert(precedes(samples[0], b[r], b[a.len() as int]));
    } else if b.len() < a.len() {
        let extra = a[b.len() as int];
        assert(is_common(samples, extra));
        let m = choose|m: int| 0 <= m < b.len() && #[trigger] b[m] == extra;
        extractions_agree_at(samples, a, b, m);
        assert(precedes(samples[0], a[m], a[b.len() as int]));
    }
    assert forall|i: int| 0 <= i < a.len() implies a[i] == b[i] by {
        extractions_agree_at(samples, a, b, i);
    }
    assert(a =~= b);
}

/// Whether the window `from..to` of `first` is a literal substring of each of `all`.
fn window_in_every(all: &Vec<Vec<char>>, first: &Vec<char>, from: usize, to: usize) -> (r: bool)
    requires
        from <= to <= first@.len(),
    ensures
        r == (forall|k: int|
            0 <= k < all@.len() ==> contains(
                (#[trigger] all@[k])@,
                first@.subrange(from as int, to as int),
            )),
{
    let mut k: usize = 0;
    while k < all.len()
        invariant
            from <= to <= first@.len(),
            k <= all@.len(),
            forall|m: int|
                0 <= m < k ==> contains(
                    (#[trigger] all@[m])@,
                    first@.subrange(from as int, to as int),
                ),
        decreases all@.len() - k,
    {
        if !window_contained(&all[k], first, from, to) {
            return false;
        }
        k += 1;
    }
    true
}

/// The code points of each sample.
fn chars_of_each(strings: &[&str]) -> (all: Vec<Vec<char>>)
    ensures
        all@.len() == strings@.len(),
        forall|k: int| 0 <= k < all@.len() ==> (#[trigger] all@[k])@ == strings@[k]@,
{
    let mut all: Vec<Vec<char>> = Vec::new();
    let mut k: usize = 0;
    while k < strings.len()
        invariant
            k <= strings@.len(),
            all@.len() == k,
            forall|m: int| 0 <= m < k ==> (#[trigger] all@[m])@ == strings@[m]@,
        decreases strings@.len() - k,
    {
        all.push(chars_of(strings[k]));
        k += 1;
    }
    all
}

/// Finds the substrings that all of `strings` share.
///
/// The result holds every non-empty text that is a literal substring of each
/// sample, once. Longer texts come first; texts of one length stand in the
/// order of their first occurrence in the first sample. Lengths and offsets
/// count code points.
pub fn find_common_substrings(strings: &[&str]) -> (found: Vec<String>)
    requires
        strings@.len() > 0,
    ensures
        is_extraction(sample_texts(strings@), string_texts(found@)),
        string_texts(found@) == extraction(sample_texts(strings@)),
{
    let all = chars_of_each(strings);
    let head: &str = strings[0];
    let first = chars_of(head);
    let n: usize = first.len();
    let ghost samples = sample_texts(strings@);
    let ghost f = first@;
    let mut found: Vec<String> = Vec::new();
    let mut len: usize = n;
    assert forall|t: Seq<char>| #[trigger] is_common(samples, t) implies t.len() <= n by {
        assert(contains(samples[0], t));
    }
    while len > 0
        invariant
            len <= n,
            n == f.len(),
            f == first@,
            f == head@,
            samples.len() > 0,
            f == samples[0],
            samples == sample_texts(strings@),
            all@.len() == strings@.len(),
            forall|k: int| 0 <= k < all@.len() ==> (#[trigger] all@[k])@ == strings@[k]@,
            forall|k: int|
                0 <= k < found@.len() ==> is_common(samples, #[trigger] string_texts(found@)[k]),
            forall|k: int| 0 <= k < found@.len() ==> (#[trigger] string_texts(found@)[k]).len() > len,
            forall|t: Seq<char>| #[trigger]
                is_common(samples, t) && t.len() > len ==> lists(string_texts(found@), t),
            forall|a: int, b: int|
                0 <= a < b < found@.len() ==> precedes(
                    f,
                    #[trigger] string_texts(found@)[a],
                    #[trigger] string_texts(found@)[b],
                ),
        decreases len,
    {
        let mut i: usize = 0;
        while i <= n - len
            invariant
                0 < len <= n,
                i <= n - len + 1,
                n == f.len(),
                f == first@,
                f == head@,
                samples.len() > 0,
            f == samples[0],
                samples == sample_texts(strings@),
                all@.len() == strings@.len(),
                forall|k: int| 0 <= k < all@.len() ==> (#[trigger] all@[k])@ == strings@[k]@,
                forall|k: int|
                    0 <= k < found@.len() ==> is_common(
                        samples,
                        #[trigger] string_texts(found@)[k],
                    ),
                forall|k: int|
                    0 <= k < found@.len() ==> {
                        let t = #[trigger] string_texts(found@)[k];
                        t.len() > len || (t.len() == len && first_offset(f, t) < i)
                    },
                forall|t: Seq<char>| #[trigger]
                    is_common(samples, t) && t.len() > len ==> lists(string_texts(found@), t),
                forall|t: Seq<char>, p: int|
                    is_common(samples, t) && t.len() == len && 0 <= p < i && #[trigger] occurs_at(
                        f,
                        t,
                        p,
                    ) ==> lists(string_texts(found@), t),
                forall|a: int, b: int|
                    0 <= a < b < found@.len() ==> precedes(
                        f,
                        #[trigger] string_texts(found@)[a],
                        #[trigger] string_texts(found@)[b],
                    ),
            decreases n - len + 1 - i,
        {
            let ghost w = f.subrange(i as int, i + len);
            let ghost before = string_texts(found@);
            let earlier = window_occurs_earlier(&first, i, i + len);
            let keep = !earlier && window_in_every(&all, &first, i, i + len);
            proof {
                assert(occurs_at(f, w, i as int));
                assert(keep == (is_first_offset(f, w, i as int) && is_common(samples, w))) by {
                    if !earlier {
                        if is_common(samples, w) {
                            assert forall|k: int| 0 <= k < all@.len() implies contains(
                                (#[trigger] all@[k])@,
                                w,
                            ) by {
                                assert(samples[k] == all@[k]@);
                            }
                        }
                        if forall|k: int| 0 <= k < all@.len() ==> contains((#[trigger] all@[k])@, w) {
                            assert forall|k: int| 0 <= k < samples.len() implies contains(
                                #[trigger] samples[k],
                                w,
                            ) by {
                                assert(samples[k] == all@[k]@);
                            }
                        }
                    }
                }
            }
            if keep {
                let piece: &str = head.substring_char(i, i + len);
                found.push(String::from_str(piece));
                proof {
                    let after = string_texts(found@);
                    assert(after =~= before.push(w));
                    first_offset_is_unique(f, w, i as int);
                    assert forall|t: Seq<char>| lists(before, t) implies lists(after, t) by {
                        let k = choose|k: int| 0 <= k < before.len() && #[trigger] before[k] == t;
                        assert(after[k] == t);
                    }
                    assert(after[before.len() as int] == w);
                    assert(lists(after, w));
                }
            }
            proof {
                let after = string_texts(found@);
                assert forall|t: Seq<char>, p: int|
                    is_common(samples, t) && t.len() == len && 0 <= p < i + 1 && #[trigger] occurs_at(
                        f,
                        t,
                        p,
                    ) implies lists(after, t) by {
                    if p == i {
                        assert(t == w);
                        if !keep {
                            let q = choose|q: int| 0 <= q < i && #[trigger] occurs_at(f, w, q);
                            assert(lists(before, t));
                        }
                    } else {
                        assert(lists(before, t));
                    }
                }
            }
            i += 1;
        }
        proof {
            assert forall|t: Seq<char>| #[trigger]
                is_common(samples, t) && t.len() > len - 1 implies lists(string_texts(found@), t) by {
                if t.len() == len {
                    assert(contains(samples[0], t));
                    let p = choose|p: int| #[trigger] occurs_at(f, t, p);
                    assert(occurs_at(f, t, p));
                }
            }
        }
        len -= 1;
    }
    proof {
        assert(is_extraction(samples, string_texts(found@)));
        extraction_is_unique(samples, string_texts(found@), extraction(samples));
    }
    found
}

} // verus!
