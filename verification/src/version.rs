//! Numeric comparison of dotted version strings. A version is split on `.`;
//! segments that do not read as an unsigned number are dropped from the
//! sequence (they do not become zero); positions missing from one side are
//! read as zero only at comparison time. The first position at which the two
//! sides differ decides; equal sequences are not newer.

use vstd::prelude::*;
use crate::text;

verus! {

/// A segment counts only if it is one or more digits whose value fits the
/// comparator's unsigned range.
pub open spec fn seg_numeric(s: Seq<char>) -> bool {
    s.len() > 0 && text::all_digits(s) && text::digits_val(s) <= u32::MAX
}

/// The values of the segments that count, in order.
pub open spec fn numeric_parts(segs: Seq<Seq<char>>) -> Seq<int>
    decreases segs.len(),
{
    if segs.len() == 0 {
        Seq::empty()
    } else {
        let rest = numeric_parts(segs.drop_last());
        if seg_numeric(segs.last()) {
            rest.push(text::digits_val(segs.last()))
        } else {
            rest
        }
    }
}

/// The parsed form of a version string.
pub open spec fn version_parts(s: Seq<char>) -> Seq<int> {
    numeric_parts(text::split_on(s, '.'))
}

pub open spec fn part_at(p: Seq<int>, i: int) -> int {
    if 0 <= i < p.len() {
        p[i]
    } else {
        0
    }
}

pub open spec fn max_len(a: Seq<int>, b: Seq<int>) -> int {
    if a.len() >= b.len() {
        a.len() as int
    } else {
        b.len() as int
    }
}

/// Walks positions from `i` upward; the first position where the sides
/// differ decides, and running out on both sides means not newer.
pub open spec fn newer_from(a: Seq<int>, b: Seq<int>, i: int) -> bool
    decreases max_len(a, b) - i,
{
    if i >= a.len() && i >= b.len() {
        false
    } else if part_at(a, i) > part_at(b, i) {
        true
    } else if part_at(a, i) < part_at(b, i) {
        false
    } else {
        newer_from(a, b, i + 1)
    }
}

/// Whether version string `latest` names a strictly newer version than
/// `current`.
pub open spec fn version_newer(latest: Seq<char>, current: Seq<char>) -> bool {
    newer_from(version_parts(latest), version_parts(current), 0)
}

/// Parses a version string into the values of its numeric segments.
fn parse_version_parts(s: &str) -> (r: Vec<u64>)
    ensures
        r@.map_values(|x: u64| x as int) == version_parts(s@),
        forall|i: int| 0 <= i < r@.len() ==> #[trigger] r@[i] <= u32::MAX,
{
    let segs = text::split_char(s, '.');
    let ghost vs = text::views_of(segs@);
    let mut parts: Vec<u64> = Vec::new();
    let mut i: usize = 0;
    assert(vs.take(0) =~~= Seq::<Seq<char>>::empty());
    assert(numeric_parts(vs.take(0)) =~= Seq::<int>::empty());
    while i < segs.len()
        invariant
            0 <= i <= segs.len(),
            vs == text::views_of(segs@),
            vs.len() == segs@.len(),
            parts@.map_values(|x: u64| x as int) == numeric_parts(vs.take(i as int)),
            forall|j: int| 0 <= j < parts@.len() ==> #[trigger] parts@[j] <= u32::MAX,
        decreases segs.len() - i,
    {
        let ghost prev = parts@;
        let ghost pi = i as int;
        assert(vs.take(pi + 1).drop_last() =~~= vs.take(pi));
        assert(vs.take(pi + 1).last() == vs[pi]);
        assert(segs@[pi]@ == vs[pi]);
        match text::parse_decimal(&segs[i]) {
            Some(v) => {
                proof {
                    text::lemma_digits_val_nonneg(vs[pi]);
                }
                if v <= u32::MAX as u64 {
                    parts.push(v);
                    assert(parts@.map_values(|x: u64| x as int) =~= prev.map_values(
                        |x: u64| x as int,
                    ).push(v as int));
                } else {
                    assert(!seg_numeric(vs[pi]));
                }
            },
            None => {
                assert(!seg_numeric(vs[pi]));
            },
        }
        i = i + 1;
        assert(parts@.map_values(|x: u64| x as int) == numeric_parts(vs.take(i as int)));
    }
    assert(vs.take(segs@.len() as int) =~~= vs);
    parts
}

/// Whether `latest` names a strictly newer version than `current`.
pub fn version_is_newer(latest: &str, current: &str) -> (b: bool)
    ensures
        b == version_newer(latest@, current@),
{
    let lp = parse_version_parts(latest);
    let cp = parse_version_parts(current);
    let ghost la = lp@.map_values(|x: u64| x as int);
    let ghost ca = cp@.map_values(|x: u64| x as int);
    let n = if lp.len() >= cp.len() {
        lp.len()
    } else {
        cp.len()
    };
    let mut i: usize = 0;
    while i < n
        invariant
            0 <= i <= n,
            n == max_len(la, ca),
            la == lp@.map_values(|x: u64| x as int),
            ca == cp@.map_values(|x: u64| x as int),
            la == version_parts(latest@),
            ca == version_parts(current@),
            newer_from(la, ca, 0) == newer_from(la, ca, i as int),
        decreases n - i,
    {
        let l: u64 = if i < lp.len() {
            lp[i]
        } else {
            0
        };
        let c: u64 = if i < cp.len() {
            cp[i]
        } else {
            0
        };
        assert(l as int == part_at(la, i as int));
        assert(c as int == part_at(ca, i as int));
        if l > c {
            assert(newer_from(la, ca, i as int));
            return true;
        }
        if l < c {
            assert(!newer_from(la, ca, i as int));
            return false;
        }
        i = i + 1;
    }
    assert(!newer_from(la, ca, i as int));
    false
}

} // verus!
