//! Airways from AIXM 4.5 `Rte` (route) and `Rsg` (route segment)
//! features.
//!
//! `Rte` is the airway's identity; each `Rsg` links a start fix to an end
//! fix with vertical limits. Segments carry no sequence number, so the
//! order of an airway's fixes is reconstructed by chaining segments end to
//! start.
//!
//! Segments are looked up by scanning a `Vec` and airways are grouped by
//! sorting their idents ([`crate::sorting`]), not through hash maps keyed
//! by strings: vstd relates map lookups to key equality only for keys
//! whose hashing it specifies (integers), so the grouping could not be
//! proved through a string-keyed map.
use crate::aixm::airspace::sat_u32;
use crate::aixm::convert::FieldsView;
use crate::aixm::fields::{fields_view, get, get_spec, Fields};
use crate::aixm::runway::has_prefix;
use crate::decimal::{dec_scaled, decimal_scaled};
use crate::domain::{Airway, AirwayKind, AirwayLeg};
use crate::sorting::{
    key_lt, lemma_key_total, lemma_text_lt_irreflexive, lemma_text_lt_total, lemma_text_lt_trans,
    sort_positions, sorted_by_keys, text_less, text_lt, SortKey,
};
use crate::text::{opt_view, push_lit, slice_chars, starts_with_lit, str_eq, string_from, to_chars, vec_eq};
use vstd::prelude::*;
use vstd::seq_lib::*;

verus! {

broadcast use group_to_multiset_ensures;

/// An `Rte` feature: the airway designator.
pub struct RteRaw {
    pub ident: String,
}

/// An `Rsg` feature: one segment of an airway.
pub struct RsgRaw {
    pub airway_ident: String,
    pub start_fix: String,
    pub end_fix: String,
    pub min_ft: Option<u32>,
    pub max_ft: Option<u32>,
    pub code_lvl: Option<String>,
    pub code_type: Option<String>,
}

/// RNAV and upper-level map onto the RNAV kinds; conventional routes onto
/// jet (upper) and victor (lower).
pub open spec fn airway_kind_spec(rnav: bool, upper: bool) -> AirwayKind {
    if rnav && upper {
        AirwayKind::RnavHigh
    } else if rnav {
        AirwayKind::RnavLow
    } else if upper {
        AirwayKind::Jet
    } else {
        AirwayKind::Victor
    }
}

pub fn airway_kind(rnav: bool, upper: bool) -> (r: AirwayKind)
    ensures
        r == airway_kind_spec(rnav, upper),
{
    match (rnav, upper) {
        (true, true) => AirwayKind::RnavHigh,
        (true, false) => AirwayKind::RnavLow,
        (false, true) => AirwayKind::Jet,
        (false, false) => AirwayKind::Victor,
    }
}

/// The kind is an RNAV route (T or Q).
pub open spec fn is_rnav_kind(k: AirwayKind) -> bool {
    k == AirwayKind::RnavLow || k == AirwayKind::RnavHigh
}

/// The kind is an upper route (Q or jet).
pub open spec fn is_upper_kind(k: AirwayKind) -> bool {
    k == AirwayKind::RnavHigh || k == AirwayKind::Jet
}

/// The kind tells both facts it is made from: whether the airway is RNAV
/// and whether it is upper-level; so the four combinations give four
/// different kinds (conventional upper is a jet route, conventional lower
/// a victor airway).
pub proof fn lemma_airway_kind_tells_rnav_and_level(rnav: bool, upper: bool)
    ensures
        is_rnav_kind(airway_kind_spec(rnav, upper)) == rnav,
        is_upper_kind(airway_kind_spec(rnav, upper)) == upper,
        forall|r2: bool, u2: bool| #[trigger] airway_kind_spec(r2, u2) == airway_kind_spec(rnav, upper) ==> r2
            == rnav && u2 == upper,
{
    assert forall|r2: bool, u2: bool| #[trigger] airway_kind_spec(r2, u2) == airway_kind_spec(rnav, upper) implies r2
        == rnav && u2 == upper by {
        assert(is_rnav_kind(airway_kind_spec(r2, u2)) == r2);
        assert(is_upper_kind(airway_kind_spec(r2, u2)) == u2);
    }
}

// ---- chaining -----------------------------------------------------------------

pub open spec fn derefs(s: Seq<&RsgRaw>) -> Seq<RsgRaw> {
    s.map_values(|r: &RsgRaw| *r)
}

/// Index of the first segment at or after `i` that starts at `f`
/// (`segs.len()` if none).
pub open spec fn next_seg(segs: Seq<RsgRaw>, f: Seq<char>, i: int) -> int
    decreases segs.len() - i,
{
    if i < 0 || i >= segs.len() {
        segs.len() as int
    } else if segs[i].start_fix@ == f {
        i
    } else {
        next_seg(segs, f, i + 1)
    }
}

/// The fixes reached from `cur` by following, at each fix, its first
/// segment, each with the limits of the segment that arrives there;
/// stops at a fix with no segment or at a fix already in `visited`.
pub open spec fn walk(segs: Seq<RsgRaw>, visited: Seq<Seq<char>>, cur: Seq<char>, fuel: nat) -> Seq<
    (Seq<char>, Option<u32>, Option<u32>),
>
    decreases fuel,
{
    if fuel == 0 {
        Seq::empty()
    } else {
        let i = next_seg(segs, cur, 0);
        if i >= segs.len() || visited.contains(segs[i].end_fix@) {
            Seq::empty()
        } else {
            seq![(segs[i].end_fix@, segs[i].min_ft, segs[i].max_ft)] + walk(
                segs,
                visited.push(segs[i].end_fix@),
                segs[i].end_fix@,
                (fuel - 1) as nat,
            )
        }
    }
}

pub open spec fn starts_at(segs: Seq<RsgRaw>, f: Seq<char>) -> bool {
    exists|i: int| 0 <= i < segs.len() && (#[trigger] segs[i]).start_fix@ == f
}

pub open spec fn ends_at(segs: Seq<RsgRaw>, f: Seq<char>) -> bool {
    exists|i: int| 0 <= i < segs.len() && (#[trigger] segs[i]).end_fix@ == f
}

/// Segment `i` starts at a fix no segment ends at.
pub open spec fn starts_source(segs: Seq<RsgRaw>, i: int) -> bool {
    !ends_at(segs, segs[i].start_fix@)
}

/// `h` is the head of the chain: the least fix (by text) that is only
/// ever a start, or, when every fix is reached by some segment, the least
/// start fix.
pub open spec fn is_head(segs: Seq<RsgRaw>, h: Seq<char>) -> bool {
    if exists|i: int| 0 <= i < segs.len() && #[trigger] starts_source(segs, i) {
        &&& starts_at(segs, h)
        &&& !ends_at(segs, h)
        &&& forall|i: int|
            0 <= i < segs.len() && #[trigger] starts_source(segs, i) ==> !text_lt(
                segs[i].start_fix@,
                h,
            )
    } else {
        &&& starts_at(segs, h)
        &&& forall|i: int| 0 <= i < segs.len() ==> !text_lt((#[trigger] segs[i]).start_fix@, h)
    }
}

pub open spec fn head_spec(segs: Seq<RsgRaw>) -> Seq<char> {
    choose|h: Seq<char>| is_head(segs, h)
}

/// The airway's fixes in chain order: the head (no limits), then the
/// fixes reached from it.
pub open spec fn chain_spec(segs: Seq<RsgRaw>) -> Seq<(Seq<char>, Option<u32>, Option<u32>)> {
    if segs.len() == 0 {
        Seq::empty()
    } else {
        let h = head_spec(segs);
        seq![(h, None, None)] + walk(segs, seq![h], h, segs.len())
    }
}

/// There is only one head.
pub proof fn lemma_head_unique(segs: Seq<RsgRaw>, a: Seq<char>, b: Seq<char>)
    requires
        is_head(segs, a),
        is_head(segs, b),
    ensures
        a == b,
{
    let ia = choose|i: int| 0 <= i < segs.len() && (#[trigger] segs[i]).start_fix@ == a;
    let ib = choose|i: int| 0 <= i < segs.len() && (#[trigger] segs[i]).start_fix@ == b;
    if exists|i: int| 0 <= i < segs.len() && #[trigger] starts_source(segs, i) {
        assert(starts_source(segs, ia));
        assert(starts_source(segs, ib));
    }
    assert(!text_lt(a, b));
    assert(!text_lt(b, a));
    lemma_text_lt_total(a, b);
}

// ---- order independence ------------------------------------------------------

/// No fix starts two different segments: the airway does not branch.
pub open spec fn unbranched(segs: Seq<RsgRaw>) -> bool {
    forall|i: int, j: int|
        0 <= i < segs.len() && 0 <= j < segs.len() && (#[trigger] segs[i]).start_fix@ == (
        #[trigger] segs[j]).start_fix@ ==> segs[i] == segs[j]
}

/// The same segments, listed in another order.
pub open spec fn same_segments(a: Seq<RsgRaw>, b: Seq<RsgRaw>) -> bool {
    &&& a.len() == b.len()
    &&& forall|x: RsgRaw|
        #![trigger a.contains(x)]
        #![trigger b.contains(x)]
        a.contains(x) <==> b.contains(x)
}

proof fn lemma_next_seg(segs: Seq<RsgRaw>, f: Seq<char>, i: int)
    requires
        0 <= i <= segs.len(),
    ensures
        i <= next_seg(segs, f, i) <= segs.len(),
        next_seg(segs, f, i) < segs.len() ==> segs[next_seg(segs, f, i)].start_fix@ == f,
        forall|j: int| i <= j < next_seg(segs, f, i) ==> (#[trigger] segs[j]).start_fix@ != f,
    decreases segs.len() - i,
{
    if i < segs.len() && segs[i].start_fix@ != f {
        lemma_next_seg(segs, f, i + 1);
    }
}

/// The least start fix among the first `n` segments.
proof fn least_start(s: Seq<RsgRaw>, n: int) -> (b: int)
    requires
        0 < n <= s.len(),
    ensures
        0 <= b < n,
        forall|j: int| 0 <= j < n ==> !text_lt((#[trigger] s[j]).start_fix@, s[b].start_fix@),
    decreases n,
{
    if n == 1 {
        lemma_text_lt_irreflexive(s[0].start_fix@);
        0
    } else {
        let b = least_start(s, n - 1);
        if text_lt(s[n - 1].start_fix@, s[b].start_fix@) {
            assert forall|j: int| 0 <= j < n implies !text_lt(
                (#[trigger] s[j]).start_fix@,
                s[n - 1].start_fix@,
            ) by {
                if j == n - 1 {
                    lemma_text_lt_irreflexive(s[j].start_fix@);
                } else if text_lt(s[j].start_fix@, s[n - 1].start_fix@) {
                    lemma_text_lt_trans(s[j].start_fix@, s[n - 1].start_fix@, s[b].start_fix@);
                }
            }
            n - 1
        } else {
            b
        }
    }
}

/// The least start fix among the sources in the first `n` segments.
proof fn least_source(s: Seq<RsgRaw>, n: int) -> (r: Option<int>)
    requires
        0 <= n <= s.len(),
    ensures
        match r {
            Some(b) => 0 <= b < n && starts_source(s, b) && forall|j: int|
                0 <= j < n && #[trigger] starts_source(s, j) ==> !text_lt(
                    s[j].start_fix@,
                    s[b].start_fix@,
                ),
            None => forall|j: int| 0 <= j < n ==> !#[trigger] starts_source(s, j),
        },
    decreases n,
{
    if n == 0 {
        None
    } else {
        let prev = least_source(s, n - 1);
        if !starts_source(s, n - 1) {
            prev
        } else {
            match prev {
                None => {
                    lemma_text_lt_irreflexive(s[n - 1].start_fix@);
                    Some(n - 1)
                },
                Some(b) => if text_lt(s[n - 1].start_fix@, s[b].start_fix@) {
                    assert forall|j: int| 0 <= j < n && #[trigger] starts_source(s, j) implies !text_lt(
                        s[j].start_fix@,
                        s[n - 1].start_fix@,
                    ) by {
                        if j == n - 1 {
                            lemma_text_lt_irreflexive(s[j].start_fix@);
                        } else if text_lt(s[j].start_fix@, s[n - 1].start_fix@) {
                            lemma_text_lt_trans(s[j].start_fix@, s[n - 1].start_fix@, s[b].start_fix@);
                        }
                    }
                    Some(n - 1)
                } else {
                    Some(b)
                },
            }
        }
    }
}

/// Every non-empty segment list has a head.
proof fn lemma_head_exists(s: Seq<RsgRaw>)
    requires
        s.len() > 0,
    ensures
        is_head(s, head_spec(s)),
{
    match least_source(s, s.len() as int) {
        Some(b) => {
            let h = s[b].start_fix@;
            assert(starts_at(s, h));
            assert(is_head(s, h));
        },
        None => {
            let b = least_start(s, s.len() as int);
            let h = s[b].start_fix@;
            assert(starts_at(s, h));
            assert(!exists|i: int| 0 <= i < s.len() && #[trigger] starts_source(s, i));
            assert(is_head(s, h));
        },
    }
}

proof fn lemma_ends_at_same(a: Seq<RsgRaw>, b: Seq<RsgRaw>, f: Seq<char>)
    requires
        same_segments(a, b),
    ensures
        ends_at(a, f) == ends_at(b, f),
        starts_at(a, f) == starts_at(b, f),
{
    if ends_at(a, f) {
        let i = choose|i: int| 0 <= i < a.len() && (#[trigger] a[i]).end_fix@ == f;
        assert(a.contains(a[i]));
        let k = choose|k: int| 0 <= k < b.len() && b[k] == a[i];
        assert(b[k].end_fix@ == f);
    }
    if ends_at(b, f) {
        let i = choose|i: int| 0 <= i < b.len() && (#[trigger] b[i]).end_fix@ == f;
        assert(b.contains(b[i]));
        let k = choose|k: int| 0 <= k < a.len() && a[k] == b[i];
        assert(a[k].end_fix@ == f);
    }
    if starts_at(a, f) {
        let i = choose|i: int| 0 <= i < a.len() && (#[trigger] a[i]).start_fix@ == f;
        assert(a.contains(a[i]));
        let k = choose|k: int| 0 <= k < b.len() && b[k] == a[i];
        assert(b[k].start_fix@ == f);
    }
    if starts_at(b, f) {
        let i = choose|i: int| 0 <= i < b.len() && (#[trigger] b[i]).start_fix@ == f;
        assert(b.contains(b[i]));
        let k = choose|k: int| 0 <= k < a.len() && a[k] == b[i];
        assert(a[k].start_fix@ == f);
    }
}

/// A head of `a` is a head of the same segments in any order.
proof fn lemma_head_same(a: Seq<RsgRaw>, b: Seq<RsgRaw>, h: Seq<char>)
    requires
        same_segments(a, b),
        is_head(a, h),
    ensures
        is_head(b, h),
{
    lemma_ends_at_same(a, b, h);
    let a_src = exists|i: int| 0 <= i < a.len() && #[trigger] starts_source(a, i);
    let b_src = exists|i: int| 0 <= i < b.len() && #[trigger] starts_source(b, i);
    // a segment of one list is a source there exactly when it is one in the other
    assert forall|k: int| 0 <= k < b.len() implies #[trigger] starts_source(b, k) == !ends_at(
        a,
        b[k].start_fix@,
    ) by {
        lemma_ends_at_same(a, b, b[k].start_fix@);
    }
    if a_src {
        let i = choose|i: int| 0 <= i < a.len() && #[trigger] starts_source(a, i);
        assert(a.contains(a[i]));
        let k = choose|k: int| 0 <= k < b.len() && b[k] == a[i];
        assert(starts_source(b, k));
        assert forall|k2: int| 0 <= k2 < b.len() && #[trigger] starts_source(b, k2) implies !text_lt(
            b[k2].start_fix@,
            h,
        ) by {
            assert(b.contains(b[k2]));
            let i2 = choose|i2: int| 0 <= i2 < a.len() && a[i2] == b[k2];
            assert(starts_source(a, i2));
        }
    } else {
        if b_src {
            let k = choose|k: int| 0 <= k < b.len() && #[trigger] starts_source(b, k);
            assert(b.contains(b[k]));
            let i = choose|i: int| 0 <= i < a.len() && a[i] == b[k];
            assert(starts_source(a, i));
        }
        assert forall|k2: int| 0 <= k2 < b.len() implies !text_lt((#[trigger] b[k2]).start_fix@, h) by {
            assert(b.contains(b[k2]));
            let i2 = choose|i2: int| 0 <= i2 < a.len() && a[i2] == b[k2];
            assert(!text_lt(a[i2].start_fix@, h));
        }
    }
}

proof fn lemma_walk_same(a: Seq<RsgRaw>, b: Seq<RsgRaw>, visited: Seq<Seq<char>>, cur: Seq<char>, fuel: nat)
    requires
        same_segments(a, b),
        unbranched(a),
    ensures
        walk(a, visited, cur, fuel) == walk(b, visited, cur, fuel),
    decreases fuel,
{
    if fuel > 0 {
        let ia = next_seg(a, cur, 0);
        let ib = next_seg(b, cur, 0);
        lemma_next_seg(a, cur, 0);
        lemma_next_seg(b, cur, 0);
        if ia < a.len() {
            assert(a.contains(a[ia]));
            let k = choose|k: int| 0 <= k < b.len() && b[k] == a[ia];
            assert(b[k].start_fix@ == cur);
            assert(ib < b.len());
        }
        if ib < b.len() {
            assert(b.contains(b[ib]));
            let k = choose|k: int| 0 <= k < a.len() && a[k] == b[ib];
            assert(a[k].start_fix@ == cur);
            assert(ia < a.len());
            assert(a[k] == a[ia]);
            lemma_walk_same(a, b, visited.push(a[ia].end_fix@), a[ia].end_fix@, (fuel - 1) as nat);
        }
    }
}

/// The fixes of an airway that does not branch come out in the same
/// order however its segments are listed: chaining depends on the
/// segments, not on where they stand in the file.
pub proof fn lemma_chain_ignores_segment_order(a: Seq<RsgRaw>, b: Seq<RsgRaw>)
    requires
        same_segments(a, b),
        unbranched(a),
    ensures
        chain_spec(a) == chain_spec(b),
{
    if a.len() > 0 {
        lemma_head_exists(a);
        lemma_head_exists(b);
        lemma_head_same(a, b, head_spec(a));
        lemma_head_unique(b, head_spec(a), head_spec(b));
        lemma_walk_same(a, b, seq![head_spec(a)], head_spec(a), a.len());
    }
}

pub open spec fn vview(vs: Seq<Vec<char>>) -> Seq<Seq<char>> {
    vs.map_values(|v: Vec<char>| v@)
}

pub open spec fn fix_view(e: (String, Option<u32>, Option<u32>)) -> (Seq<char>, Option<u32>, Option<u32>) {
    (e.0@, e.1, e.2)
}

/// Whether `t` is among `vs`.
fn contains_text(vs: &Vec<Vec<char>>, t: &Vec<char>) -> (r: bool)
    ensures
        r == vview(vs@).contains(t@),
{
    let mut i: usize = 0;
    while i < vs.len()
        invariant
            0 <= i <= vs@.len(),
            forall|j: int| 0 <= j < i ==> (#[trigger] vs@[j])@ != t@,
        decreases vs.len() - i,
    {
        if vec_eq(&vs[i], t) {
            assert(vview(vs@)[i as int] == t@);
            return true;
        }
        i = i + 1;
    }
    assert forall|j: int| 0 <= j < vview(vs@).len() implies vview(vs@)[j] != t@ by {
        assert(vs@[j]@ != t@);
    }
    false
}

fn find_next(segs: &[&RsgRaw], cur: &Vec<char>) -> (r: usize)
    ensures
        r == next_seg(derefs(segs@), cur@, 0),
        r <= segs@.len(),
{
    let ghost s = derefs(segs@);
    let mut i: usize = 0;
    while i < segs.len()
        invariant
            0 <= i <= segs@.len(),
            s == derefs(segs@),
            next_seg(s, cur@, 0) == next_seg(s, cur@, i as int),
        decreases segs.len() - i,
    {
        let st = to_chars(segs[i].start_fix.as_str());
        if vec_eq(&st, cur) {
            return i;
        }
        i = i + 1;
    }
    i
}

fn ends_somewhere(segs: &[&RsgRaw], f: &Vec<char>) -> (r: bool)
    ensures
        r == ends_at(derefs(segs@), f@),
{
    let ghost s = derefs(segs@);
    let mut i: usize = 0;
    while i < segs.len()
        invariant
            0 <= i <= segs@.len(),
            s == derefs(segs@),
            forall|j: int| 0 <= j < i ==> (#[trigger] s[j]).end_fix@ != f@,
        decreases segs.len() - i,
    {
        let e = to_chars(segs[i].end_fix.as_str());
        if vec_eq(&e, f) {
            assert(s[i as int].end_fix@ == f@);
            return true;
        }
        i = i + 1;
    }
    false
}

fn find_head(segs: &[&RsgRaw]) -> (h: Vec<char>)
    requires
        segs@.len() > 0,
    ensures
        is_head(derefs(segs@), h@),
{
    let ghost s = derefs(segs@);
    let n = segs.len();
    let mut best_any: usize = 0;
    let mut best_src: Option<usize> = None;
    let mut i: usize = 0;
    while i < n
        invariant
            n == segs@.len(),
            s == derefs(segs@),
            0 <= i <= n,
            best_any < n,
            i > 0 ==> best_any < i,
            forall|j: int| 0 <= j < i ==> !text_lt((#[trigger] s[j]).start_fix@, s[best_any as int].start_fix@),
            match best_src {
                Some(b) => b < i && starts_source(s, b as int) && forall|j: int|
                    0 <= j < i && #[trigger] starts_source(s, j) ==> !text_lt(
                        s[j].start_fix@,
                        s[b as int].start_fix@,
                    ),
                None => forall|j: int| 0 <= j < i ==> !#[trigger] starts_source(s, j),
            },
        decreases n - i,
    {
        let st = to_chars(segs[i].start_fix.as_str());
        let cur_any = to_chars(segs[best_any].start_fix.as_str());
        if i == 0 || text_less(&st, &cur_any) {
            proof {
                assert forall|j: int| 0 <= j < i + 1 implies !text_lt(
                    (#[trigger] s[j]).start_fix@,
                    st@,
                ) by {
                    if j == i {
                        lemma_text_lt_irreflexive(st@);
                    } else if text_lt(s[j].start_fix@, st@) {
                        lemma_text_lt_trans(s[j].start_fix@, st@, cur_any@);
                    }
                }
            }
            best_any = i;
        }
        if !ends_somewhere(segs, &st) {
            assert(starts_source(s, i as int));
            match best_src {
                None => {
                    proof {
                        lemma_text_lt_irreflexive(st@);
                    }
                    best_src = Some(i);
                },
                Some(b) => {
                    let cur_src = to_chars(segs[b].start_fix.as_str());
                    if text_less(&st, &cur_src) {
                        proof {
                            assert forall|j: int|
                                0 <= j < i + 1 && #[trigger] starts_source(s, j) implies !text_lt(
                                s[j].start_fix@,
                                st@,
                            ) by {
                                if j == i {
                                    lemma_text_lt_irreflexive(st@);
                                } else if text_lt(s[j].start_fix@, st@) {
                                    lemma_text_lt_trans(s[j].start_fix@, st@, cur_src@);
                                }
                            }
                        }
                        best_src = Some(i);
                    }
                },
            }
        }
        i = i + 1;
    }
    match best_src {
        Some(b) => {
            let h = to_chars(segs[b].start_fix.as_str());
            assert(s[b as int].start_fix@ == h@);
            assert(starts_source(s, b as int));
            h
        },
        None => {
            let h = to_chars(segs[best_any].start_fix.as_str());
            assert(s[best_any as int].start_fix@ == h@);
            h
        },
    }
}

/// Orders an airway's segments into one sequence of fixes by chaining
/// start → end: from the head, each step follows the first segment that
/// starts at the current fix, and stops at a fix already reached. Each
/// fix carries the limits of the segment arriving at it (the head none).
/// A linear airway comes out whole, whatever the order of its segments;
/// at a branch the segment listed first is followed, so there the order
/// of the listing decides the path; a cycle stops at the repeat.
pub fn chain_fixes(segs: &[&RsgRaw]) -> (r: Vec<(String, Option<u32>, Option<u32>)>)
    ensures
        r@.map_values(|e: (String, Option<u32>, Option<u32>)| fix_view(e)) == chain_spec(derefs(segs@)),
{
    let ghost s = derefs(segs@);
    if segs.len() == 0 {
        let r: Vec<(String, Option<u32>, Option<u32>)> = Vec::new();
        assert(r@.map_values(|e: (String, Option<u32>, Option<u32>)| fix_view(e)) =~= Seq::empty());
        return r;
    }
    let head = find_head(segs);
    proof {
        lemma_head_unique(s, head@, head_spec(s));
    }
    let mut order: Vec<(String, Option<u32>, Option<u32>)> = Vec::new();
    order.push((string_from(&head), None, None));
    let mut visited: Vec<Vec<char>> = Vec::new();
    let first = head.clone();
    assert(first@ =~= head@);
    visited.push(first);
    let mut cur = head;
    let mut fuel: usize = segs.len();
    let mut done = false;
    proof {
        assert(vview(visited@) =~= seq![cur@]);
        assert(order@.map_values(|e: (String, Option<u32>, Option<u32>)| fix_view(e)) =~= seq![
            (cur@, None, None),
        ]);
    }
    while !done && fuel > 0
        invariant
            s == derefs(segs@),
            s.len() > 0,
            order@.map_values(|e: (String, Option<u32>, Option<u32>)| fix_view(e)) + walk(
                s,
                vview(visited@),
                cur@,
                fuel as nat,
            ) == chain_spec(s),
            done ==> walk(s, vview(visited@), cur@, fuel as nat) == Seq::<
                (Seq<char>, Option<u32>, Option<u32>),
            >::empty(),
        decreases fuel as int + if done {
            0int
        } else {
            1int
        },
    {
        let i = find_next(segs, &cur);
        if i == segs.len() {
            done = true;
        } else {
            let end = to_chars(segs[i].end_fix.as_str());
            if contains_text(&visited, &end) {
                done = true;
            } else {
                let ghost old_order = order@.map_values(
                    |e: (String, Option<u32>, Option<u32>)| fix_view(e),
                );
                let ghost old_visited = vview(visited@);
                let entry = (segs[i].end_fix.clone(), segs[i].min_ft, segs[i].max_ft);
                order.push(entry);
                let e2 = end.clone();
                assert(e2@ =~= end@);
                visited.push(e2);
                proof {
                    assert(order@.map_values(|e: (String, Option<u32>, Option<u32>)| fix_view(e))
                        =~= old_order.push((end@, s[i as int].min_ft, s[i as int].max_ft)));
                    assert(vview(visited@) =~= old_visited.push(end@));
                    assert(old_order.push((end@, s[i as int].min_ft, s[i as int].max_ft)) + walk(
                        s,
                        vview(visited@),
                        end@,
                        (fuel - 1) as nat,
                    ) =~= old_order + (seq![(end@, s[i as int].min_ft, s[i as int].max_ft)] + walk(
                        s,
                        old_visited.push(end@),
                        end@,
                        (fuel - 1) as nat,
                    )));
                }
                cur = end;
                fuel = fuel - 1;
            }
        }
    }
    proof {
        assert(walk(s, vview(visited@), cur@, fuel as nat) =~= Seq::<
            (Seq<char>, Option<u32>, Option<u32>),
        >::empty());
    }
    order
}

// ---- assembly -----------------------------------------------------------------

/// The texts of `s` without repeats, each at its first occurrence.
pub open spec fn dedup_firsts(s: Seq<Seq<char>>) -> Seq<Seq<char>>
    decreases s.len(),
{
    if s.len() == 0 {
        Seq::empty()
    } else {
        let d = dedup_firsts(s.drop_last());
        if d.contains(s.last()) {
            d
        } else {
            d.push(s.last())
        }
    }
}

pub open spec fn rte_idents(rtes: Seq<RteRaw>) -> Seq<Seq<char>> {
    dedup_firsts(rtes.map_values(|r: RteRaw| r.ident@))
}

/// Some segment belongs to the airway `id`.
pub open spec fn has_segment(rsgs: Seq<RsgRaw>, id: Seq<char>) -> bool {
    exists|i: int| 0 <= i < rsgs.len() && (#[trigger] rsgs[i]).airway_ident@ == id
}

/// The airway idents: those of the `Rte` features without repeats, in
/// order, then those only segments name, ascending.
pub open spec fn airway_idents_ok(rtes: Seq<RteRaw>, rsgs: Seq<RsgRaw>, ids: Seq<Seq<char>>) -> bool {
    let d = rte_idents(rtes);
    let rest = ids.skip(d.len() as int);
    &&& d.len() <= ids.len()
    &&& ids.take(d.len() as int) == d
    &&& forall|a: int, b: int| #![trigger rest[a], rest[b]] 0 <= a < b < rest.len() ==> text_lt(rest[a], rest[b])
    &&& forall|x: Seq<char>| #[trigger] rest.contains(x) <==> has_segment(rsgs, x) && !d.contains(x)
}

/// The segments of airway `id`, in input order.
pub open spec fn segs_of(rsgs: Seq<RsgRaw>, id: Seq<char>) -> Seq<RsgRaw> {
    rsgs.filter(|s: RsgRaw| s.airway_ident@ == id)
}

pub open spec fn is_upper(s: RsgRaw) -> bool {
    s.code_lvl matches Some(l) && l@ == "U"@
}

pub open spec fn is_rnav(s: RsgRaw) -> bool {
    s.code_type matches Some(t) && t@ == "RNAV"@
}

/// An airway with no segments is `Other`; otherwise it is RNAV when all
/// its segments are and upper-level when any of them is.
pub open spec fn kind_spec(rsgs: Seq<RsgRaw>, id: Seq<char>) -> AirwayKind {
    if !has_segment(rsgs, id) {
        AirwayKind::Other
    } else {
        airway_kind_spec(
            forall|i: int|
                0 <= i < rsgs.len() && (#[trigger] rsgs[i]).airway_ident@ == id ==> is_rnav(rsgs[i]),
            exists|i: int|
                0 <= i < rsgs.len() && (#[trigger] rsgs[i]).airway_ident@ == id && is_upper(rsgs[i]),
        )
    }
}

pub open spec fn leg_view(l: AirwayLeg) -> (Seq<char>, u32, Seq<char>, Option<u32>, Option<u32>) {
    (l.airway_ident@, l.seq, l.fix_ident@, l.min_altitude_ft, l.max_altitude_ft)
}

/// The legs of airway `id` along its chain, numbered from 1.
pub open spec fn numbered(id: Seq<char>, ch: Seq<(Seq<char>, Option<u32>, Option<u32>)>) -> Seq<
    (Seq<char>, u32, Seq<char>, Option<u32>, Option<u32>),
> {
    Seq::new(ch.len(), |k: int| (id, (k + 1) as u32, ch[k].0, ch[k].1, ch[k].2))
}

/// The legs of the airways `ids`, airway after airway.
pub open spec fn legs_spec(rsgs: Seq<RsgRaw>, ids: Seq<Seq<char>>) -> Seq<
    (Seq<char>, u32, Seq<char>, Option<u32>, Option<u32>),
>
    decreases ids.len(),
{
    if ids.len() == 0 {
        Seq::empty()
    } else {
        legs_spec(rsgs, ids.drop_last()) + numbered(ids.last(), chain_spec(segs_of(rsgs, ids.last())))
    }
}

/// The idents of the `Rte` features without repeats, in order.
fn rte_ident_list(rtes: &[RteRaw]) -> (ids: Vec<Vec<char>>)
    ensures
        vview(ids@) == rte_idents(rtes@),
{
    let mut ids: Vec<Vec<char>> = Vec::new();
    let mut i: usize = 0;
    while i < rtes.len()
        invariant
            0 <= i <= rtes@.len(),
            vview(ids@) == rte_idents(rtes@.take(i as int)),
        decreases rtes.len() - i,
    {
        let v = to_chars(rtes[i].ident.as_str());
        let ghost m = rtes@.take(i + 1).map_values(|r: RteRaw| r.ident@);
        proof {
            assert(m.drop_last() =~= rtes@.take(i as int).map_values(|r: RteRaw| r.ident@));
            assert(m.last() == v@);
        }
        if !contains_text(&ids, &v) {
            ids.push(v);
            assert(vview(ids@) =~= rte_idents(rtes@.take(i + 1)));
        }
        i = i + 1;
    }
    assert(rtes@.take(rtes@.len() as int) =~= rtes@);
    ids
}

proof fn lemma_sorted_insert(rest: Seq<Seq<char>>, pos: int, v: Seq<char>)
    requires
        0 <= pos <= rest.len(),
        forall|a: int, b: int| #![trigger rest[a], rest[b]] 0 <= a < b < rest.len() ==> text_lt(rest[a], rest[b]),
        forall|j: int| 0 <= j < pos ==> text_lt(#[trigger] rest[j], v),
        forall|j: int| pos <= j < rest.len() ==> text_lt(v, #[trigger] rest[j]),
    ensures
        forall|a: int, b: int|
            #![trigger rest.insert(pos, v)[a], rest.insert(pos, v)[b]]
            0 <= a < b < rest.len() + 1 ==> text_lt(rest.insert(pos, v)[a], rest.insert(pos, v)[b]),
{
    let r = rest.insert(pos, v);
    assert forall|a: int, b: int|
        #![trigger r[a], r[b]]
        0 <= a < b < rest.len() + 1 implies text_lt(r[a], r[b]) by {
        if a < pos {
            assert(r[a] == rest[a]);
            if b < pos {
                assert(r[b] == rest[b]);
            } else if b == pos {
            } else {
                assert(r[b] == rest[b - 1]);
            }
        } else if a == pos {
            assert(r[b] == rest[b - 1]);
        } else {
            assert(r[a] == rest[a - 1] && r[b] == rest[b - 1]);
        }
    }
}

/// Inserts `v`, which `rest` lacks, at its place in ascending `rest`.
fn insert_sorted(rest: &mut Vec<Vec<char>>, v: Vec<char>)
    requires
        forall|a: int, b: int|
            #![trigger old(rest)@[a], old(rest)@[b]]
            0 <= a < b < old(rest)@.len() ==> text_lt(old(rest)@[a]@, old(rest)@[b]@),
        !vview(old(rest)@).contains(v@),
    ensures
        forall|a: int, b: int|
            #![trigger final(rest)@[a], final(rest)@[b]]
            0 <= a < b < final(rest)@.len() ==> text_lt(final(rest)@[a]@, final(rest)@[b]@),
        forall|x: Seq<char>| #[trigger] vview(final(rest)@).contains(x) <==> vview(old(rest)@).contains(x) || x == v@,
{
    let ghost old_v = vview(rest@);
    let mut pos: usize = 0;
    while pos < rest.len() && text_less(&rest[pos], &v)
        invariant
            0 <= pos <= rest@.len(),
            old_v == vview(rest@),
            forall|j: int| 0 <= j < pos ==> text_lt((#[trigger] rest@[j])@, v@),
        decreases rest.len() - pos,
    {
        pos = pos + 1;
    }
    proof {
        assert(forall|a: int, b: int| #![trigger old_v[a], old_v[b]] 0 <= a < b < old_v.len() ==> text_lt(old_v[a], old_v[b]));
        if pos < rest.len() {
            assert(rest@[pos as int]@ != v@) by {
                assert(old_v[pos as int] == rest@[pos as int]@);
            }
            lemma_text_lt_total(rest@[pos as int]@, v@);
        }
        assert forall|j: int| pos <= j < old_v.len() implies text_lt(v@, #[trigger] old_v[j]) by {
            if j > pos {
                assert(text_lt(old_v[pos as int], old_v[j]));
                lemma_text_lt_trans(v@, old_v[pos as int], old_v[j]);
            }
        }
        lemma_sorted_insert(old_v, pos as int, v@);
    }
    let ghost vv = v@;
    rest.insert(pos, v);
    proof {
        assert(vview(rest@) =~= old_v.insert(pos as int, vv));
        assert forall|a: int, b: int|
            #![trigger rest@[a], rest@[b]]
            0 <= a < b < rest@.len() implies text_lt(rest@[a]@, rest@[b]@) by {
            assert(vview(rest@)[a] == rest@[a]@);
            assert(vview(rest@)[b] == rest@[b]@);
        }
        assert forall|x: Seq<char>| #[trigger] vview(rest@).contains(x) <==> old_v.contains(x) || x == vv by {
            if old_v.contains(x) {
                let j = choose|j: int| 0 <= j < old_v.len() && old_v[j] == x;
                if j < pos {
                    assert(vview(rest@)[j] == x);
                } else {
                    assert(vview(rest@)[j + 1] == x);
                }
            }
            if x == vv {
                assert(vview(rest@)[pos as int] == x);
            }
            if vview(rest@).contains(x) {
                let j = choose|j: int| 0 <= j < vview(rest@).len() && vview(rest@)[j] == x;
                if j < pos {
                    assert(old_v[j] == x);
                } else if j > pos {
                    assert(old_v[j - 1] == x);
                }
            }
        }
    }
}

/// The idents that only segments name, ascending.
fn segment_only_idents(rsgs: &[RsgRaw], known: &Vec<Vec<char>>) -> (rest: Vec<Vec<char>>)
    ensures
        forall|a: int, b: int|
            #![trigger rest@[a], rest@[b]]
            0 <= a < b < rest@.len() ==> text_lt(rest@[a]@, rest@[b]@),
        forall|x: Seq<char>|
            #[trigger] vview(rest@).contains(x) <==> has_segment(rsgs@, x) && !vview(known@).contains(x),
{
    let mut rest: Vec<Vec<char>> = Vec::new();
    let mut i: usize = 0;
    while i < rsgs.len()
        invariant
            0 <= i <= rsgs@.len(),
            forall|a: int, b: int|
                #![trigger rest@[a], rest@[b]]
                0 <= a < b < rest@.len() ==> text_lt(rest@[a]@, rest@[b]@),
            forall|x: Seq<char>|
                #[trigger] vview(rest@).contains(x) <==> has_segment(rsgs@.take(i as int), x)
                    && !vview(known@).contains(x),
        decreases rsgs.len() - i,
    {
        let v = to_chars(rsgs[i].airway_ident.as_str());
        proof {
            assert forall|x: Seq<char>| has_segment(rsgs@.take(i + 1), x) <==> has_segment(
                rsgs@.take(i as int),
                x,
            ) || x == v@ by {
                if has_segment(rsgs@.take(i + 1), x) {
                    let j = choose|j: int| 0 <= j < i + 1 && (#[trigger] rsgs@.take(i + 1)[j]).airway_ident@ == x;
                    if j < i {
                        assert(rsgs@.take(i as int)[j] == rsgs@.take(i + 1)[j]);
                    }
                }
                if has_segment(rsgs@.take(i as int), x) {
                    let j = choose|j: int| 0 <= j < i && (#[trigger] rsgs@.take(i as int)[j]).airway_ident@ == x;
                    assert(rsgs@.take(i as int)[j] == rsgs@.take(i + 1)[j]);
                }
                if x == v@ {
                    assert(rsgs@.take(i + 1)[i as int] == rsgs@[i as int]);
                }
            }
        }
        if !contains_text(known, &v) && !contains_text(&rest, &v) {
            insert_sorted(&mut rest, v);
        }
        i = i + 1;
    }
    assert(rsgs@.take(rsgs@.len() as int) =~= rsgs@);
    rest
}

/// The segments of airway `id`, in input order.
fn segments_of<'a>(rsgs: &'a [RsgRaw], id: &Vec<char>) -> (segs: Vec<&'a RsgRaw>)
    ensures
        derefs(segs@) == segs_of(rsgs@, id@),
{
    let mut segs: Vec<&RsgRaw> = Vec::new();
    let mut j: usize = 0;
    proof {
        reveal(Seq::filter);
        assert(derefs(segs@) =~= segs_of(rsgs@.take(0), id@));
    }
    while j < rsgs.len()
        invariant
            0 <= j <= rsgs@.len(),
            derefs(segs@) == segs_of(rsgs@.take(j as int), id@),
        decreases rsgs.len() - j,
    {
        let ghost before = derefs(segs@);
        proof {
            reveal(Seq::filter);
            assert(rsgs@.take(j + 1).drop_last() =~= rsgs@.take(j as int));
            assert(rsgs@.take(j + 1).last() == rsgs@[j as int]);
        }
        let a = to_chars(rsgs[j].airway_ident.as_str());
        if vec_eq(&a, id) {
            segs.push(&rsgs[j]);
            assert(derefs(segs@) =~= before.push(rsgs@[j as int]));
        } else {
            assert(derefs(segs@) =~= before);
        }
        j = j + 1;
    }
    assert(rsgs@.take(rsgs@.len() as int) =~= rsgs@);
    segs
}

fn upper_seg(s: &RsgRaw) -> (r: bool)
    ensures
        r == is_upper(*s),
{
    match &s.code_lvl {
        Some(l) => str_eq(l.as_str(), "U"),
        None => false,
    }
}

fn rnav_seg(s: &RsgRaw) -> (r: bool)
    ensures
        r == is_rnav(*s),
{
    match &s.code_type {
        Some(t) => str_eq(t.as_str(), "RNAV"),
        None => false,
    }
}

fn kind_of(rsgs: &[RsgRaw], id: &Vec<char>) -> (k: AirwayKind)
    ensures
        k == kind_spec(rsgs@, id@),
{
    let mut any = false;
    let mut upper = false;
    let mut rnav = true;
    let mut j: usize = 0;
    while j < rsgs.len()
        invariant
            0 <= j <= rsgs@.len(),
            any == exists|i: int| 0 <= i < j && (#[trigger] rsgs@[i]).airway_ident@ == id@,
            upper == exists|i: int|
                0 <= i < j && (#[trigger] rsgs@[i]).airway_ident@ == id@ && is_upper(rsgs@[i]),
            rnav == forall|i: int|
                0 <= i < j && (#[trigger] rsgs@[i]).airway_ident@ == id@ ==> is_rnav(rsgs@[i]),
        decreases rsgs.len() - j,
    {
        let a = to_chars(rsgs[j].airway_ident.as_str());
        if vec_eq(&a, id) {
            any = true;
            if upper_seg(&rsgs[j]) {
                upper = true;
            }
            if !rnav_seg(&rsgs[j]) {
                rnav = false;
            }
        }
        j = j + 1;
    }
    if !any {
        AirwayKind::Other
    } else {
        airway_kind(rnav, upper)
    }
}

/// The airways named by the routes and segments, each with the kind its
/// segments give, and their chained legs.
pub open spec fn airways_assembled(
    rtes: Seq<RteRaw>,
    rsgs: Seq<RsgRaw>,
    airways: Seq<Airway>,
    legs: Seq<AirwayLeg>,
) -> bool {
    &&& airway_idents_ok(rtes, rsgs, airways.map_values(|a: Airway| a.ident@))
    &&& forall|k: int|
        0 <= k < airways.len() ==> (#[trigger] airways[k]).kind == kind_spec(rsgs, airways[k].ident@)
    &&& legs.map_values(|l: AirwayLeg| leg_view(l)) == legs_spec(
        rsgs,
        airways.map_values(|a: Airway| a.ident@),
    )
}

/// Builds airways and their ordered legs. Airway idents come from the
/// `Rte` features (first occurrences, in order), then the idents that
/// only segments name (ascending), so none is lost; kind and legs come
/// from each airway's segments.
pub fn assemble_airways(rtes: &[RteRaw], rsgs: &[RsgRaw]) -> (r: (Vec<Airway>, Vec<AirwayLeg>))
    ensures
        airways_assembled(rtes@, rsgs@, r.0@, r.1@),
{
    let mut ids = rte_ident_list(rtes);
    let ghost d = vview(ids@);
    let rest = segment_only_idents(rsgs, &ids);
    let mut t: usize = 0;
    while t < rest.len()
        invariant
            0 <= t <= rest@.len(),
            vview(ids@) == d + vview(rest@.take(t as int)),
        decreases rest.len() - t,
    {
        let c = rest[t].clone();
        assert(c@ =~= rest@[t as int]@);
        let ghost old_ids = vview(ids@);
        ids.push(c);
        proof {
            assert(vview(ids@) =~= old_ids.push(rest@[t as int]@));
            assert(vview(rest@.take(t + 1)) =~= vview(rest@.take(t as int)).push(rest@[t as int]@));
        }
        assert(vview(ids@) =~= d + vview(rest@.take(t + 1)));
        t = t + 1;
    }
    proof {
        assert(rest@.take(rest@.len() as int) =~= rest@);
        let all = vview(ids@);
        assert(all.take(d.len() as int) =~= d);
        assert(all.skip(d.len() as int) =~= vview(rest@));
        assert forall|a: int, b: int|
            #![trigger vview(rest@)[a], vview(rest@)[b]]
            0 <= a < b < vview(rest@).len() implies text_lt(vview(rest@)[a], vview(rest@)[b]) by {
            assert(text_lt(rest@[a]@, rest@[b]@));
        }
    }
    let mut airways: Vec<Airway> = Vec::new();
    let mut legs: Vec<AirwayLeg> = Vec::new();
    let mut k: usize = 0;
    while k < ids.len()
        invariant
            0 <= k <= ids@.len(),
            airways@.len() == k,
            airway_idents_ok(rtes@, rsgs@, vview(ids@)),
            forall|q: int|
                0 <= q < k ==> (#[trigger] airways@[q]).ident@ == ids@[q]@ && airways@[q].kind
                    == kind_spec(rsgs@, ids@[q]@),
            legs@.map_values(|l: AirwayLeg| leg_view(l)) == legs_spec(
                rsgs@,
                vview(ids@).take(k as int),
            ),
        decreases ids.len() - k,
    {
        let id = &ids[k];
        let kind = kind_of(rsgs, id);
        airways.push(Airway { ident: string_from(id), kind });
        let segs = segments_of(rsgs, id);
        let chain = chain_fixes(&segs);
        let ghost before = legs@.map_values(|l: AirwayLeg| leg_view(l));
        let ghost ch = chain_spec(segs_of(rsgs@, id@));
        let mut c: usize = 0;
        while c < chain.len()
            invariant
                0 <= c <= chain@.len(),
                chain@.map_values(|e: (String, Option<u32>, Option<u32>)| fix_view(e)) == ch,
                legs@.map_values(|l: AirwayLeg| leg_view(l)) == before + numbered(id@, ch).take(
                    c as int,
                ),
            decreases chain.len() - c,
        {
            let (fix, min, max) = &chain[c];
            assert(fix_view(chain@[c as int]) == ch[c as int]);
            let ghost old_legs = legs@.map_values(|l: AirwayLeg| leg_view(l));
            let leg = AirwayLeg {
                airway_ident: string_from(id),
                seq: (c + 1) as u32,
                fix_ident: fix.clone(),
                min_altitude_ft: *min,
                max_altitude_ft: *max,
            };
            assert(leg_view(leg) == numbered(id@, ch)[c as int]);
            legs.push(leg);
            assert(legs@.map_values(|l: AirwayLeg| leg_view(l)) =~= old_legs.push(numbered(id@, ch)[c as int]));
            assert(numbered(id@, ch).take(c + 1) =~= numbered(id@, ch).take(c as int).push(numbered(id@, ch)[c as int]));
            assert(legs@.map_values(|l: AirwayLeg| leg_view(l)) =~= before + numbered(id@, ch).take(
                c + 1,
            ));
            c = c + 1;
        }
        proof {
            assert(numbered(id@, ch).take(chain@.len() as int) =~= numbered(id@, ch));
            assert(vview(ids@).take(k + 1).drop_last() =~= vview(ids@).take(k as int));
            assert(vview(ids@).take(k + 1).last() == id@);
        }
        k = k + 1;
    }
    proof {
        assert(vview(ids@).take(ids@.len() as int) =~= vview(ids@));
        assert(airways@.map_values(|a: Airway| a.ident@) =~= vview(ids@));
    }
    (airways, legs)
}

// ---- raw features -------------------------------------------------------------

/// `k` is a segment's `…Uid{role}/codeId` path: `RsgUid/`, then any fix
/// type, ending in `Uid{role}/codeId`.
pub open spec fn is_role_key(k: Seq<char>, role: Seq<char>) -> bool {
    let suffix = "Uid"@ + role + "/codeId"@;
    has_prefix(k, "RsgUid/"@) && suffix.len() <= k.len() && k.skip(k.len() - suffix.len()) == suffix
}

/// The first non-empty value recorded under a role path, from entry `i`
/// on.
pub open spec fn role_fix_spec(f: FieldsView, role: Seq<char>, i: int) -> Option<Seq<char>>
    decreases f.len() - i,
{
    if i < 0 || i >= f.len() {
        None
    } else if is_role_key(f[i].0, role) && f[i].1.len() > 0 {
        Some(f[i].1)
    } else {
        role_fix_spec(f, role, i + 1)
    }
}

/// A segment endpoint's `codeId` by role (`"Sta"` or `"End"`), whatever
/// the fix type in its path (`DpnUidSta`, `VorUidEnd`, …).
pub fn role_fix(f: &Fields, role: &str) -> (r: Option<String>)
    ensures
        opt_view(r) == role_fix_spec(fields_view(f@), role@, 0),
{
    let mut suffix = to_chars("Uid");
    push_lit(&mut suffix, role);
    push_lit(&mut suffix, "/codeId");
    let ghost fv = fields_view(f@);
    let mut i: usize = 0;
    while i < f.len()
        invariant
            0 <= i <= f@.len(),
            fv == fields_view(f@),
            suffix@ == "Uid"@ + role@ + "/codeId"@,
            role_fix_spec(fv, role@, 0) == role_fix_spec(fv, role@, i as int),
        decreases f.len() - i,
    {
        let k = to_chars(f[i].0.as_str());
        let v = to_chars(f[i].1.as_str());
        let mut ends = false;
        if suffix.len() <= k.len() {
            let tail = slice_chars(&k, k.len() - suffix.len(), k.len());
            assert(tail@ =~= k@.skip(k@.len() - suffix@.len()));
            ends = vec_eq(&tail, &suffix);
        }
        if starts_with_lit(&k, "RsgUid/") && ends && v.len() > 0 {
            return Some(f[i].1.clone());
        }
        i = i + 1;
    }
    None
}

/// A vertical limit in feet: a flight level (`FL`) times 100, or feet
/// (`FT`); any other unit, or an unreadable value, gives `None`.
pub open spec fn fl_to_ft_spec(f: FieldsView, val_key: Seq<char>, uom_key: Seq<char>) -> Option<u32> {
    match get_spec(f, val_key) {
        Some(t) => {
            let uom = get_spec(f, uom_key);
            let v = if uom == Some("FL"@) {
                dec_scaled(t, 100, 0)
            } else if uom == Some("FT"@) {
                dec_scaled(t, 1, 0)
            } else {
                None
            };
            match v {
                Some(x) => Some(sat_u32(x)),
                None => None,
            }
        },
        None => None,
    }
}

fn sat_u32_exec(x: i128) -> (r: u32)
    ensures
        r == sat_u32(x as int),
{
    if x < 0 {
        0
    } else if x > 0xFFFF_FFFF {
        0xFFFF_FFFF
    } else {
        x as u32
    }
}

pub fn fl_to_ft(f: &Fields, val_key: &str, uom_key: &str) -> (r: Option<u32>)
    ensures
        r == fl_to_ft_spec(fields_view(f@), val_key@, uom_key@),
{
    let t = match get(f, val_key) {
        Some(t) => to_chars(t.as_str()),
        None => return None,
    };
    let (fl, ft) = match get(f, uom_key) {
        Some(u) => (str_eq(u.as_str(), "FL"), str_eq(u.as_str(), "FT")),
        None => (false, false),
    };
    let v = if fl {
        decimal_scaled(&t, 100, 0)
    } else if ft {
        decimal_scaled(&t, 1, 0)
    } else {
        None
    };
    match v {
        Some(x) => Some(sat_u32_exec(x)),
        None => None,
    }
}

pub open spec fn rte_outcome(f: FieldsView, r: Option<RteRaw>) -> bool {
    match get_spec(f, "RteUid/txtDesig"@) {
        Some(id) => r matches Some(x) && x.ident@ == id,
        None => r is None,
    }
}

/// An `Rte` feature: its designator, at `RteUid/txtDesig`.
pub fn rte_raw_from_paths(f: &Fields) -> (r: Option<RteRaw>)
    ensures
        rte_outcome(fields_view(f@), r),
{
    match get(f, "RteUid/txtDesig") {
        Some(ident) => Some(RteRaw { ident }),
        None => None,
    }
}

pub open spec fn rsg_outcome(f: FieldsView, r: Option<RsgRaw>) -> bool {
    match (
        get_spec(f, "RsgUid/RteUid/txtDesig"@),
        role_fix_spec(f, "Sta"@, 0),
        role_fix_spec(f, "End"@, 0),
    ) {
        (Some(awy), Some(sta), Some(end)) => r matches Some(x) && x.airway_ident@ == awy
            && x.start_fix@ == sta && x.end_fix@ == end && x.min_ft == fl_to_ft_spec(
            f,
            "valDistVerLower"@,
            "uomDistVerLower"@,
        ) && x.max_ft == fl_to_ft_spec(f, "valDistVerUpper"@, "uomDistVerUpper"@) && opt_view(
            x.code_lvl,
        ) == get_spec(f, "codeLvl"@) && opt_view(x.code_type) == get_spec(f, "codeType"@),
        _ => r is None,
    }
}

/// An `Rsg` feature read by path.
pub fn rsg_raw_from_paths(f: &Fields) -> (r: Option<RsgRaw>)
    ensures
        rsg_outcome(fields_view(f@), r),
{
    let airway_ident = match get(f, "RsgUid/RteUid/txtDesig") {
        Some(x) => x,
        None => return None,
    };
    let start_fix = match role_fix(f, "Sta") {
        Some(x) => x,
        None => return None,
    };
    let end_fix = match role_fix(f, "End") {
        Some(x) => x,
        None => return None,
    };
    Some(
        RsgRaw {
            airway_ident,
            start_fix,
            end_fix,
            min_ft: fl_to_ft(f, "valDistVerLower", "uomDistVerLower"),
            max_ft: fl_to_ft(f, "valDistVerUpper", "uomDistVerUpper"),
            code_lvl: get(f, "codeLvl"),
            code_type: get(f, "codeType"),
        },
    )
}

} // verus!
