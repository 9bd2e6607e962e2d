//! Grouping procedure leg rows into procedures, transitions and legs.
//!
//! Rows sharing (airport, kind, procedure ident) form one procedure; rows
//! of a procedure sharing a transition form one transition, and legs are
//! ordered by their sequence numbers. A leg's continuation records repeat
//! its (airport, procedure, transition, sequence number) key; only the
//! first record seen for a key is kept.
//!
//! Grouping and de-duplication sort the rows' keys ([`crate::sorting`])
//! and scan `Vec`s rather than going through hash maps or ordered maps
//! keyed by strings: vstd relates map lookups to key equality only for
//! keys whose hashing or ordering it specifies (integers), so a
//! string-keyed map would leave the grouping unproved.
use crate::cifp::decode::non_empty;
use crate::cifp::extract::{nonempty_spec, ProcedureLegRow};
use crate::domain::{
    AltitudeConstraint, Procedure, ProcedureKind, ProcedureLeg, ProcedureTransition,
    SpeedConstraint, TransitionKind,
};
use crate::sorting::{
    group_lt, group_starts, key_lt, lemma_group_has_start, lemma_group_order, lemma_key_total,
    lemma_start_is_first, lemma_text_lt_asym, lemma_text_lt_irreflexive, lemma_text_lt_total,
    lemma_text_lt_trans, same_group, sort_positions, sorted_by_keys, starts_group, text_less,
    text_lt, SortKey,
};
use crate::text::{
    opt_view, chars_eq, is_ascii_digit, is_digit, push_all, push_lit, slice_chars, string_from, to_chars,
    trim, vec_eq,
};
use vstd::prelude::*;
use vstd::seq_lib::*;

verus! {

broadcast use group_to_multiset_ensures;

// ---- altitude and transition kind -----------------------------------------

/// Altitude Description: `+`/`-`/`B` select at-or-above, at-or-below and
/// between; any other code is an `At` constraint on the first altitude.
pub open spec fn altitude_spec(desc: char, altitude1_ft: Option<u32>, altitude2_ft: Option<u32>) -> Option<
    AltitudeConstraint,
> {
    if desc == '+' {
        match altitude1_ft {
            Some(a) => Some(AltitudeConstraint::AtOrAbove(a)),
            None => None,
        }
    } else if desc == '-' {
        match altitude1_ft {
            Some(a) => Some(AltitudeConstraint::AtOrBelow(a)),
            None => None,
        }
    } else if desc == 'B' {
        match (altitude1_ft, altitude2_ft) {
            (Some(a), Some(b)) => Some(
                AltitudeConstraint::Between {
                    lower: if a <= b {
                        a
                    } else {
                        b
                    },
                    upper: if a <= b {
                        b
                    } else {
                        a
                    },
                },
            ),
            _ => None,
        }
    } else {
        match altitude1_ft {
            Some(a) => Some(AltitudeConstraint::At(a)),
            None => None,
        }
    }
}

/// Decodes a leg's altitude description and its two altitude fields.
pub fn altitude_constraint(desc: char, altitude1_ft: Option<u32>, altitude2_ft: Option<u32>) -> (r:
    Option<AltitudeConstraint>)
    ensures
        r == altitude_spec(desc, altitude1_ft, altitude2_ft),
{
    match desc {
        '+' => match altitude1_ft {
            Some(a) => Some(AltitudeConstraint::AtOrAbove(a)),
            None => None,
        },
        '-' => match altitude1_ft {
            Some(a) => Some(AltitudeConstraint::AtOrBelow(a)),
            None => None,
        },
        'B' => match (altitude1_ft, altitude2_ft) {
            (Some(a), Some(b)) => {
                let lower = if a <= b {
                    a
                } else {
                    b
                };
                let upper = if a <= b {
                    b
                } else {
                    a
                };
                Some(AltitudeConstraint::Between { lower, upper })
            },
            _ => None,
        },
        _ => match altitude1_ft {
            Some(a) => Some(AltitudeConstraint::At(a)),
            None => None,
        },
    }
}

/// Route Type classification: an approach's `'Z'` is its missed approach
/// and `'A'` an approach transition; otherwise a leg without a transition
/// ident is on the common route, and SID/STAR transitions (runway or
/// enroute) are all `Enroute`.
pub open spec fn transition_kind_spec(kind: ProcedureKind, route_type: char, has_transition_ident: bool) -> TransitionKind {
    if kind == ProcedureKind::Approach && route_type == 'Z' {
        TransitionKind::Missed
    } else if !has_transition_ident {
        TransitionKind::Common
    } else if kind == ProcedureKind::Approach {
        if route_type == 'A' {
            TransitionKind::Approach
        } else {
            TransitionKind::Common
        }
    } else {
        TransitionKind::Enroute
    }
}

pub fn transition_kind(kind: ProcedureKind, route_type: char, has_transition_ident: bool) -> (r:
    TransitionKind)
    ensures
        r == transition_kind_spec(kind, route_type, has_transition_ident),
{
    if kind == ProcedureKind::Approach && route_type == 'Z' {
        return TransitionKind::Missed;
    }
    if !has_transition_ident {
        return TransitionKind::Common;
    }
    match kind {
        ProcedureKind::Approach => if route_type == 'A' {
            TransitionKind::Approach
        } else {
            TransitionKind::Common
        },
        ProcedureKind::Sid | ProcedureKind::Star => TransitionKind::Enroute,
    }
}

// ---- runway idents ----------------------------------------------------------

/// Index of the first digit of `s` at or after `i` (`s.len()` if none).
pub open spec fn first_digit_from(s: Seq<char>, i: int) -> int
    decreases s.len() - i,
{
    if i < 0 || i >= s.len() {
        s.len() as int
    } else if is_digit(s[i]) {
        i
    } else {
        first_digit_from(s, i + 1)
    }
}

/// End of the run of digits of `s` that starts at `i`.
pub open spec fn digits_end_from(s: Seq<char>, i: int) -> int
    decreases s.len() - i,
{
    if 0 <= i < s.len() && is_digit(s[i]) {
        digits_end_from(s, i + 1)
    } else {
        i
    }
}

/// The runway number at the first digit run of `s`, with an `L`/`C`/`R`
/// that follows it; `None` when `s` holds no digit.
pub open spec fn runway_number_spec(s: Seq<char>) -> Option<Seq<char>> {
    let f = first_digit_from(s, 0);
    if f >= s.len() {
        None
    } else {
        let e = digits_end_from(s, f);
        if e < s.len() && (s[e] == 'L' || s[e] == 'C' || s[e] == 'R') {
            Some(s.subrange(f, e + 1))
        } else {
            Some(s.subrange(f, e))
        }
    }
}

/// The runway a SID/STAR transition ident names: `"RW"` then a runway
/// number (`"RW28L"` names `"28L"`); others name none.
pub open spec fn runway_transition_spec(t: Seq<char>) -> Option<Seq<char>> {
    if t.len() >= 2 && t[0] == 'R' && t[1] == 'W' {
        runway_number_spec(t.skip(2))
    } else {
        None
    }
}

pub open spec fn opt_chars(o: Option<Vec<char>>) -> Option<Seq<char>> {
    match o {
        Some(v) => Some(v@),
        None => None,
    }
}

fn runway_number_chars(v: &Vec<char>) -> (r: Option<Vec<char>>)
    ensures
        opt_chars(r) == runway_number_spec(v@),
{
    let mut f: usize = 0;
    while f < v.len() && !is_ascii_digit(v[f])
        invariant
            0 <= f <= v.len(),
            first_digit_from(v@, 0) == first_digit_from(v@, f as int),
        decreases v.len() - f,
    {
        f = f + 1;
    }
    if f == v.len() {
        return None;
    }
    let mut e: usize = f;
    while e < v.len() && is_ascii_digit(v[e])
        invariant
            f <= e <= v.len(),
            digits_end_from(v@, f as int) == digits_end_from(v@, e as int),
        decreases v.len() - e,
    {
        e = e + 1;
    }
    if e < v.len() && (v[e] == 'L' || v[e] == 'C' || v[e] == 'R') {
        Some(slice_chars(v, f, e + 1))
    } else {
        Some(slice_chars(v, f, e))
    }
}

/// The runway number in a procedure or transition ident: the first digit
/// run and an `L`/`C`/`R` after it (`"10RZ"` gives `"10R"`), or `None`
/// when it has no digit (circling approaches such as `"VOR-A"`).
pub fn extract_runway_number(s: &str) -> (r: Option<String>)
    ensures
        opt_view(r) == runway_number_spec(s@),
{
    let v = to_chars(s);
    match runway_number_chars(&v) {
        Some(w) => Some(string_from(&w)),
        None => None,
    }
}

/// An approach ident names its runway after a one- or two-letter type code
/// (`"I28L"`, `"H10RZ"`); circling approaches name none.
pub fn derive_approach_runway_ident(procedure_ident: &str) -> (r: Option<String>)
    ensures
        opt_view(r) == runway_number_spec(procedure_ident@),
{
    extract_runway_number(procedure_ident)
}

fn runway_transition_chars(ident: &Vec<char>) -> (r: Option<Vec<char>>)
    ensures
        opt_chars(r) == runway_transition_spec(ident@),
{
    if ident.len() >= 2 && ident[0] == 'R' && ident[1] == 'W' {
        let rest = slice_chars(ident, 2, ident.len());
        assert(rest@ =~= ident@.skip(2));
        runway_number_chars(&rest)
    } else {
        None
    }
}

/// The runway named by a SID/STAR transition ident (`"RW28L"` gives
/// `"28L"`); `"ALL"` and enroute fixes name none.
pub fn runway_transition_number(transition_ident: &str) -> (r: Option<String>)
    ensures
        opt_view(r) == runway_transition_spec(transition_ident@),
{
    let v = to_chars(transition_ident);
    match runway_transition_chars(&v) {
        Some(w) => Some(string_from(&w)),
        None => None,
    }
}

/// `o` is the one runway of `s`: `Some(x)` when `s` is exactly `{x}`,
/// `None` when `s` is empty or holds two different runways.
pub open spec fn agreed_runway(o: Option<Seq<char>>, s: Set<Seq<char>>) -> bool {
    match o {
        Some(x) => s.contains(x) && forall|y: Seq<char>| s.contains(y) ==> y == x,
        None => forall|x: Seq<char>| s.contains(x) ==> exists|y: Seq<char>| s.contains(y) && y != x,
    }
}

/// The runways named by the transitions in `ts`.
pub open spec fn runways_named(ts: Seq<&ProcedureTransition>) -> Set<Seq<char>> {
    Set::new(
        |x: Seq<char>|
            exists|k: int| 0 <= k < ts.len() && runway_transition_spec(#[trigger] ts[k].ident@) == Some(x),
    )
}

/// What the runway transitions seen so far say.
enum Vote {
    Nothing,
    One(Vec<char>),
    Split,
}

spec fn vote_ok(v: Vote, s: Set<Seq<char>>) -> bool {
    match v {
        Vote::Nothing => forall|x: Seq<char>| !s.contains(x),
        Vote::One(w) => s.contains(w@) && forall|y: Seq<char>| s.contains(y) ==> y == w@,
        Vote::Split => exists|x: Seq<char>, y: Seq<char>| s.contains(x) && s.contains(y) && x != y,
    }
}

fn cast_vote(v: &Vote, x: Vec<char>, Ghost(s): Ghost<Set<Seq<char>>>) -> (r: Vote)
    requires
        vote_ok(*v, s),
    ensures
        vote_ok(r, s.insert(x@)),
{
    match v {
        Vote::Nothing => {
            assert forall|y: Seq<char>| s.insert(x@).contains(y) implies y == x@ by {
                assert(!s.contains(y));
            }
            Vote::One(x)
        },
        Vote::One(w) => {
            if vec_eq(w, &x) {
                Vote::One(x)
            } else {
                assert(s.insert(x@).contains(w@) && s.insert(x@).contains(x@));
                Vote::Split
            }
        },
        Vote::Split => {
            proof {
                let (a, b) = choose|a: Seq<char>, b: Seq<char>|
                    s.contains(a) && s.contains(b) && a != b;
                assert(s.insert(x@).contains(a) && s.insert(x@).contains(b));
            }
            Vote::Split
        },
    }
}

fn vote_result(v: &Vote, Ghost(s): Ghost<Set<Seq<char>>>) -> (r: Option<String>)
    requires
        vote_ok(*v, s),
    ensures
        agreed_runway(opt_view(r), s),
{
    match v {
        Vote::Nothing => None,
        Vote::One(w) => Some(string_from(w)),
        Vote::Split => {
            assert forall|x: Seq<char>| s.contains(x) implies exists|y: Seq<char>|
                s.contains(y) && y != x by {
                let (a, b) = choose|a: Seq<char>, b: Seq<char>| s.contains(a) && s.contains(b) && a != b;
                if a == x {
                    assert(s.contains(b) && b != x);
                } else {
                    assert(s.contains(a) && a != x);
                }
            }
            None
        },
    }
}

proof fn lemma_named_step(ts: Seq<&ProcedureTransition>, m: int)
    requires
        0 <= m < ts.len(),
    ensures
        runways_named(ts.take(m + 1)) == if runway_transition_spec(ts[m].ident@) is Some {
            runways_named(ts.take(m)).insert(runway_transition_spec(ts[m].ident@)->0)
        } else {
            runways_named(ts.take(m))
        },
{
    let a = runways_named(ts.take(m + 1));
    let b = runways_named(ts.take(m));
    let c = if runway_transition_spec(ts[m].ident@) is Some {
        b.insert(runway_transition_spec(ts[m].ident@)->0)
    } else {
        b
    };
    assert forall|x: Seq<char>| #[trigger] a.contains(x) implies c.contains(x) by {
        let k = choose|k: int|
            0 <= k < m + 1 && runway_transition_spec(#[trigger] ts.take(m + 1)[k].ident@) == Some(x);
        if k < m {
            assert(ts.take(m + 1)[k] == ts.take(m)[k]);
        }
    }
    assert forall|x: Seq<char>| #[trigger] c.contains(x) implies a.contains(x) by {
        if b.contains(x) {
            let k = choose|k: int|
                0 <= k < m && runway_transition_spec(#[trigger] ts.take(m)[k].ident@) == Some(x);
            assert(ts.take(m + 1)[k] == ts.take(m)[k]);
        } else {
            assert(ts.take(m + 1)[m] == ts[m]);
        }
    }
    assert(a =~= c);
}

/// A SID/STAR serves one runway only when all its runway transitions name
/// the same one; with several runways, or none, it is `None`.
pub fn derive_sid_star_runway_ident(transitions: &[&ProcedureTransition]) -> (r: Option<String>)
    ensures
        agreed_runway(opt_view(r), runways_named(transitions@)),
{
    let mut vote = Vote::Nothing;
    let mut i: usize = 0;
    proof {
        assert(runways_named(transitions@.take(0)) =~= Set::empty());
    }
    while i < transitions.len()
        invariant
            0 <= i <= transitions.len(),
            vote_ok(vote, runways_named(transitions@.take(i as int))),
        decreases transitions.len() - i,
    {
        let ghost before = runways_named(transitions@.take(i as int));
        proof {
            lemma_named_step(transitions@, i as int);
        }
        let ident = to_chars(transitions[i].ident.as_str());
        match runway_transition_chars(&ident) {
            Some(x) => {
                vote = cast_vote(&vote, x, Ghost(before));
            },
            None => {},
        }
        i = i + 1;
    }
    proof {
        assert(transitions@.take(transitions@.len() as int) =~= transitions@);
    }
    vote_result(&vote, Ghost(runways_named(transitions@)))
}

// ---- ids and keys -----------------------------------------------------------

pub open spec fn kind_label(kind: ProcedureKind) -> Seq<char> {
    match kind {
        ProcedureKind::Sid => "SID"@,
        ProcedureKind::Star => "STAR"@,
        ProcedureKind::Approach => "APPROACH"@,
    }
}

fn kind_str(kind: ProcedureKind) -> (r: &'static str)
    ensures
        r@ == kind_label(kind),
{
    match kind {
        ProcedureKind::Sid => "SID",
        ProcedureKind::Star => "STAR",
        ProcedureKind::Approach => "APPROACH",
    }
}

/// A procedure's id: `"{airport}:{SID|STAR|APPROACH}:{ident}"`.
pub open spec fn procedure_id_spec(airport_icao: Seq<char>, kind: ProcedureKind, ident: Seq<char>) -> Seq<char> {
    airport_icao + seq![':'] + kind_label(kind) + seq![':'] + ident
}

fn procedure_id_chars(airport_icao: &str, kind: ProcedureKind, ident: &str) -> (r: Vec<char>)
    ensures
        r@ == procedure_id_spec(airport_icao@, kind, ident@),
{
    let mut v = to_chars(airport_icao);
    v.push(':');
    push_lit(&mut v, kind_str(kind));
    v.push(':');
    push_lit(&mut v, ident);
    assert(v@ =~= procedure_id_spec(airport_icao@, kind, ident@));
    v
}

pub fn procedure_id_for(airport_icao: &str, kind: ProcedureKind, ident: &str) -> (r: String)
    ensures
        r@ == procedure_id_spec(airport_icao@, kind, ident@),
{
    string_from(&procedure_id_chars(airport_icao, kind, ident))
}

pub open spec fn row_procedure_id(r: ProcedureLegRow) -> Seq<char> {
    procedure_id_spec(r.airport_icao@, r.kind, r.procedure_ident@)
}

pub open spec fn row_transition_kind(r: ProcedureLegRow) -> TransitionKind {
    transition_kind_spec(r.kind, r.route_type, r.transition_ident@.len() > 0)
}

pub open spec fn common_label() -> Seq<char> {
    "__COMMON__"@
}

pub open spec fn missed_label() -> Seq<char> {
    "__MISSED__"@
}

/// The common route and the missed approach carry no transition ident of
/// their own and get a fixed label in the transition id.
pub open spec fn row_label(r: ProcedureLegRow) -> Seq<char> {
    match row_transition_kind(r) {
        TransitionKind::Common => common_label(),
        TransitionKind::Missed => missed_label(),
        _ => r.transition_ident@,
    }
}

/// A transition's id: `"{procedure id}:{label}"`.
pub open spec fn row_transition_id(r: ProcedureLegRow) -> Seq<char> {
    row_procedure_id(r) + seq![':'] + row_label(r)
}

pub open spec fn row_transition_ident(r: ProcedureLegRow) -> Seq<char> {
    if row_label(r) == common_label() || row_label(r) == missed_label() {
        Seq::empty()
    } else {
        row_label(r)
    }
}

/// The transition id, ident and kind of a row.
fn transition_parts(row: &ProcedureLegRow, pid: &Vec<char>) -> (r: (Vec<char>, Vec<char>, TransitionKind))
    requires
        pid@ == row_procedure_id(*row),
    ensures
        r.0@ == row_transition_id(*row),
        r.1@ == row_transition_ident(*row),
        r.2 == row_transition_kind(*row),
{
    let ti = to_chars(row.transition_ident.as_str());
    let kind = transition_kind(row.kind, row.route_type, ti.len() > 0);
    let label = match kind {
        TransitionKind::Common => to_chars("__COMMON__"),
        TransitionKind::Missed => to_chars("__MISSED__"),
        _ => ti,
    };
    let mut id = pid.clone();
    assert(id@ =~= pid@);
    id.push(':');
    push_all(&mut id, &label);
    assert(id@ =~= row_transition_id(*row));
    let ident = if chars_eq(&label, "__COMMON__") || chars_eq(&label, "__MISSED__") {
        Vec::new()
    } else {
        label
    };
    assert(ident@ =~= row_transition_ident(*row));
    (id, ident, kind)
}

/// Prefix-free coding of a text: each char followed by `'1'`, then
/// `"00"`; concatenated codes of several texts determine each of them.
pub open spec fn enc(s: Seq<char>) -> Seq<char>
    decreases s.len(),
{
    if s.len() == 0 {
        seq!['0', '0']
    } else {
        seq![s[0], '1'] + enc(s.drop_first())
    }
}

proof fn lemma_enc_prefix_free(a: Seq<char>, b: Seq<char>, x: Seq<char>, y: Seq<char>)
    requires
        enc(a) + x == enc(b) + y,
    ensures
        a == b,
        x == y,
    decreases a.len(),
{
    let ea = enc(a) + x;
    let eb = enc(b) + y;
    assert(ea[1] == eb[1]);
    if a.len() == 0 {
        if b.len() > 0 {
            assert(eb[1] == '1');
        }
        assert(x =~= ea.skip(2));
        assert(y =~= eb.skip(2));
        assert(a =~= b);
    } else {
        if b.len() == 0 {
            assert(ea[1] == '1');
        }
        assert(ea[0] == eb[0]);
        assert(ea.skip(2) =~= enc(a.drop_first()) + x);
        assert(eb.skip(2) =~= enc(b.drop_first()) + y);
        lemma_enc_prefix_free(a.drop_first(), b.drop_first(), x, y);
        assert(a =~= seq![a[0]] + a.drop_first());
        assert(b =~= seq![b[0]] + b.drop_first());
    }
}

fn push_enc(out: &mut Vec<char>, s: &str)
    ensures
        final(out)@ == old(out)@ + enc(s@),
{
    let v = to_chars(s);
    let ghost start = out@;
    let mut i: usize = 0;
    proof {
        assert(v@.skip(0) =~= v@);
    }
    while i < v.len()
        invariant
            0 <= i <= v.len(),
            v@ == s@,
            out@ + enc(v@.skip(i as int)) == start + enc(v@),
        decreases v.len() - i,
    {
        let ghost before = out@;
        assert(v@.skip(i as int).drop_first() =~= v@.skip(i + 1));
        assert(enc(v@.skip(i as int)) == seq![v@[i as int], '1'] + enc(v@.skip(i + 1)));
        out.push(v[i]);
        out.push('1');
        assert(out@ + enc(v@.skip(i + 1)) =~= before + enc(v@.skip(i as int)));
        i = i + 1;
    }
    assert(v@.skip(i as int) =~= Seq::<char>::empty());
    out.push('0');
    out.push('0');
    assert(out@ =~= start + enc(v@));
}

/// The key under which a leg record and its continuation records
/// coincide.
pub open spec fn leg_key(r: ProcedureLegRow) -> (Seq<char>, Seq<char>, Seq<char>, u32) {
    (r.airport_icao@, r.procedure_ident@, r.transition_ident@, r.seq)
}

spec fn leg_text(r: ProcedureLegRow) -> Seq<char> {
    enc(r.airport_icao@) + enc(r.procedure_ident@) + enc(r.transition_ident@)
}

proof fn lemma_leg_text_injective(r: ProcedureLegRow, q: ProcedureLegRow)
    requires
        leg_text(r) == leg_text(q),
    ensures
        r.airport_icao@ == q.airport_icao@,
        r.procedure_ident@ == q.procedure_ident@,
        r.transition_ident@ == q.transition_ident@,
{
    let (a1, b1, c1) = (r.airport_icao@, r.procedure_ident@, r.transition_ident@);
    let (a2, b2, c2) = (q.airport_icao@, q.procedure_ident@, q.transition_ident@);
    assert(leg_text(r) =~= enc(a1) + (enc(b1) + enc(c1)));
    assert(leg_text(q) =~= enc(a2) + (enc(b2) + enc(c2)));
    lemma_enc_prefix_free(a1, a2, enc(b1) + enc(c1), enc(b2) + enc(c2));
    lemma_enc_prefix_free(b1, b2, enc(c1), enc(c2));
    assert(enc(c1) =~= enc(c1) + Seq::<char>::empty());
    assert(enc(c2) =~= enc(c2) + Seq::<char>::empty());
    lemma_enc_prefix_free(c1, c2, Seq::<char>::empty(), Seq::<char>::empty());
}

fn leg_text_chars(row: &ProcedureLegRow) -> (r: Vec<char>)
    ensures
        r@ == leg_text(*row),
{
    let mut v: Vec<char> = Vec::new();
    push_enc(&mut v, row.airport_icao.as_str());
    push_enc(&mut v, row.procedure_ident.as_str());
    push_enc(&mut v, row.transition_ident.as_str());
    assert(v@ =~= leg_text(*row));
    v
}

// ---- the grouping -------------------------------------------------------------

/// Row `i` is the first with its leg key; the rows after it with the same
/// key are continuation records and are dropped.
pub open spec fn is_kept(rows: Seq<ProcedureLegRow>, i: int) -> bool {
    &&& 0 <= i < rows.len()
    &&& forall|j: int| 0 <= j < i ==> leg_key(#[trigger] rows[j]) != leg_key(rows[i])
}

/// Row `i` is the first kept row of its procedure.
pub open spec fn opens_procedure(rows: Seq<ProcedureLegRow>, i: int) -> bool {
    &&& is_kept(rows, i)
    &&& forall|j: int|
        0 <= j < i && is_kept(rows, j) ==> row_procedure_id(#[trigger] rows[j]) != row_procedure_id(
            rows[i],
        )
}

/// Row `i` is the first kept row of its transition.
pub open spec fn opens_transition(rows: Seq<ProcedureLegRow>, i: int) -> bool {
    &&& is_kept(rows, i)
    &&& forall|j: int|
        0 <= j < i && is_kept(rows, j) ==> row_transition_id(#[trigger] rows[j]) != row_transition_id(
            rows[i],
        )
}

pub open spec fn speed_spec(speed_limit_kt: Option<u32>) -> Option<SpeedConstraint> {
    match speed_limit_kt {
        Some(s) => Some(SpeedConstraint::AtOrBelow(s)),
        None => None,
    }
}

/// The leg built from row `r`.
pub open spec fn leg_from(l: ProcedureLeg, r: ProcedureLegRow) -> bool {
    &&& l.transition_id@ == row_transition_id(r)
    &&& l.seq == r.seq
    &&& l.path_and_term == r.path_and_term
    &&& opt_view(l.fix_ident) == nonempty_spec(trim(r.fix_ident@))
    &&& l.course_mdeg == r.magnetic_course_mdeg
    &&& l.altitude == altitude_spec(r.altitude_desc, r.altitude1_ft, r.altitude2_ft)
    &&& l.speed == speed_spec(r.speed_limit_kt)
    &&& l.turn_direction == r.turn_direction
}

/// The transition built from row `r`.
pub open spec fn transition_from(t: ProcedureTransition, r: ProcedureLegRow) -> bool {
    &&& t.id@ == row_transition_id(r)
    &&& t.procedure_id@ == row_procedure_id(r)
    &&& t.ident@ == row_transition_ident(r)
    &&& t.kind == row_transition_kind(r)
}

/// The runways named by the transitions of `ts` that belong to the
/// procedure `procedure_id`.
pub open spec fn runways_offered(ts: Seq<ProcedureTransition>, procedure_id: Seq<char>) -> Set<Seq<char>> {
    Set::new(
        |x: Seq<char>|
            exists|k: int|
                0 <= k < ts.len() && ts[k].procedure_id@ == procedure_id && runway_transition_spec(
                    #[trigger] ts[k].ident@,
                ) == Some(x),
    )
}

/// The procedure built from row `r`, its runway taken from its ident
/// (approaches) or from the runway transitions among `ts` (SIDs, STARs).
pub open spec fn procedure_from(p: Procedure, r: ProcedureLegRow, ts: Seq<ProcedureTransition>) -> bool {
    &&& p.id@ == row_procedure_id(r)
    &&& p.airport_icao@ == r.airport_icao@
    &&& p.kind == r.kind
    &&& p.ident@ == r.procedure_ident@
    &&& if r.kind == ProcedureKind::Approach {
        opt_view(p.runway_ident) == runway_number_spec(r.procedure_ident@)
    } else {
        agreed_runway(opt_view(p.runway_ident), runways_offered(ts, p.id@))
    }
}

/// Leg order: by transition id, then sequence number, then input order.
pub open spec fn leg_before(rows: Seq<ProcedureLegRow>, i: int, j: int) -> bool {
    let a = row_transition_id(rows[i]);
    let b = row_transition_id(rows[j]);
    ||| text_lt(a, b)
    ||| a == b && rows[i].seq < rows[j].seq
    ||| a == b && rows[i].seq == rows[j].seq && i < j
}

/// `legs` are the kept rows, at positions `pos`, in leg order.
pub open spec fn legs_arranged(rows: Seq<ProcedureLegRow>, pos: Seq<usize>, legs: Seq<ProcedureLeg>) -> bool {
    &&& pos.len() == legs.len()
    &&& forall|k: int|
        0 <= k < pos.len() ==> is_kept(rows, #[trigger] pos[k] as int) && leg_from(
            legs[k],
            rows[pos[k] as int],
        )
    &&& forall|i: int| is_kept(rows, i) ==> pos.contains(i as usize)
    &&& forall|k: int, l: int|
        #![trigger pos[k], pos[l]]
        0 <= k < l < pos.len() ==> leg_before(rows, pos[k] as int, pos[l] as int)
}

#[derive(Debug, Clone, PartialEq)]
pub struct ParsedProcedures {
    pub procedures: Vec<Procedure>,
    pub transitions: Vec<ProcedureTransition>,
    pub legs: Vec<ProcedureLeg>,
}

spec fn opens_key(rows: Seq<ProcedureLegRow>, keys: Seq<SortKey>, i: int) -> bool {
    &&& is_kept(rows, i)
    &&& forall|j: int| 0 <= j < i && is_kept(rows, j) ==> (#[trigger] keys[j]).text@ != keys[i].text@
}

spec fn starts_listed(keys: Seq<SortKey>, p: Seq<usize>, g: Seq<usize>) -> bool {
    &&& forall|t: int| 0 <= t < g.len() ==> #[trigger] g[t] < p.len() && starts_group(keys, p, g[t] as int)
    &&& forall|k: int| 0 <= k < p.len() && starts_group(keys, p, k) ==> g.contains(k as usize)
    &&& forall|t: int, u: int|
        #![trigger g[t], g[u]]
        0 <= t < u < g.len() ==> g[t] < g[u] && group_lt(
            keys[p[g[t] as int] as int],
            keys[p[g[u] as int] as int],
        )
}

spec fn kept_listed(rows: Seq<ProcedureLegRow>, kept: Seq<usize>) -> bool {
    &&& forall|t: int| 0 <= t < kept.len() ==> is_kept(rows, #[trigger] kept[t] as int)
    &&& forall|i: int| is_kept(rows, i) ==> kept.contains(i as usize)
    &&& kept.no_duplicates()
}

proof fn lemma_same_elems(a: Seq<usize>, b: Seq<usize>)
    requires
        a.to_multiset() == b.to_multiset(),
    ensures
        forall|x: usize| #![trigger a.contains(x)] #![trigger b.contains(x)] a.contains(x) == b.contains(x),
{
    a.to_multiset_ensures();
    b.to_multiset_ensures();
    assert forall|x: usize| #![trigger a.contains(x)] #![trigger b.contains(x)] a.contains(x) == b.contains(x) by {
        assert(a.to_multiset().count(x) == b.to_multiset().count(x));
        assert(a.contains(x) <==> a.to_multiset().count(x) > 0);
        assert(b.contains(x) <==> b.to_multiset().count(x) > 0);
    }
}

proof fn lemma_dedup(
    rows: Seq<ProcedureLegRow>,
    keys: Seq<SortKey>,
    p: Seq<usize>,
    g: Seq<usize>,
    kept: Seq<usize>,
)
    requires
        keys.len() == rows.len(),
        forall|i: int|
            0 <= i < keys.len() ==> (#[trigger] keys[i]).idx == i && keys[i].text@ == leg_text(rows[i])
                && keys[i].num == rows[i].seq,
        sorted_by_keys(keys, p),
        p.len() <= usize::MAX,
        forall|x: usize| x < rows.len() ==> #[trigger] p.contains(x),
        starts_listed(keys, p, g),
        kept.len() == g.len(),
        forall|t: int| 0 <= t < g.len() ==> #[trigger] kept[t] == p[g[t] as int],
    ensures
        kept_listed(rows, kept),
{
    assert forall|t: int| 0 <= t < kept.len() implies is_kept(rows, #[trigger] kept[t] as int) by {
        let x = kept[t] as int;
        let k = g[t] as int;
        assert(p[k] < keys.len());
        assert forall|j: int| 0 <= j < x implies leg_key(#[trigger] rows[j]) != leg_key(rows[x]) by {
            if leg_key(rows[j]) == leg_key(rows[x]) {
                assert(keys[j].text@ == leg_text(rows[j]) && keys[j].num == rows[j].seq);
                assert(keys[x].text@ == leg_text(rows[x]) && keys[x].num == rows[x].seq);
                assert(p.contains(j as usize));
                let m = choose|m: int| 0 <= m < p.len() && p[m] == j as usize;
                assert(keys[j].text@ == keys[x].text@);
                lemma_start_is_first(keys, p, k, m);
            }
        }
    }
    assert forall|i: int| is_kept(rows, i) implies kept.contains(i as usize) by {
        assert(p.contains(i as usize));
        let m = choose|m: int| 0 <= m < p.len() && p[m] == i as usize;
        let k = lemma_group_has_start(keys, p, m);
        assert(g.contains(k as usize));
        let t = choose|t: int| 0 <= t < g.len() && g[t] == k as usize;
        let y = p[k] as int;
        assert(p[k] < keys.len());
        lemma_start_is_first(keys, p, k, m);
        if y < i {
            assert(keys[y].text@ == leg_text(rows[y]) && keys[y].num == rows[y].seq);
            assert(keys[i].text@ == leg_text(rows[i]) && keys[i].num == rows[i].seq);
            lemma_leg_text_injective(rows[y], rows[i]);
            assert(leg_key(rows[y]) == leg_key(rows[i]));
        }
        assert(kept[t] == i as usize);
    }
    assert forall|t: int, u: int| 0 <= t < kept.len() && 0 <= u < kept.len() && t != u implies kept[t]
        != kept[u] by {
        let (a, b) = if t < u {
            (t, u)
        } else {
            (u, t)
        };
        assert(kept[a] == p[g[a] as int] && kept[b] == p[g[b] as int]);
        let ka = keys[p[g[a] as int] as int];
        let kb = keys[p[g[b] as int] as int];
        lemma_group_order(ka, kb, kb);
    }
}

proof fn lemma_openers(
    rows: Seq<ProcedureLegRow>,
    keys: Seq<SortKey>,
    kept: Seq<usize>,
    p: Seq<usize>,
    g: Seq<usize>,
)
    requires
        keys.len() == rows.len(),
        forall|i: int| 0 <= i < keys.len() ==> (#[trigger] keys[i]).idx == i && keys[i].num == 0,
        kept_listed(rows, kept),
        sorted_by_keys(keys, p),
        p.len() <= usize::MAX,
        p.to_multiset() == kept.to_multiset(),
        starts_listed(keys, p, g),
    ensures
        forall|t: int| 0 <= t < g.len() ==> opens_key(rows, keys, #[trigger] p[g[t] as int] as int),
        forall|i: int|
            opens_key(rows, keys, i) ==> exists|t: int| 0 <= t < g.len() && #[trigger] p[g[t] as int] == i,
        forall|t: int, u: int|
            #![trigger g[t], g[u]]
            0 <= t < u < g.len() ==> text_lt(
                keys[p[g[t] as int] as int].text@,
                keys[p[g[u] as int] as int].text@,
            ),
{
    lemma_same_elems(p, kept);
    assert forall|m: int| 0 <= m < p.len() implies is_kept(rows, #[trigger] p[m] as int) by {
        assert(p.contains(p[m]));
        assert(kept.contains(p[m]));
        let t = choose|t: int| 0 <= t < kept.len() && kept[t] == p[m];
    }
    assert forall|t: int| 0 <= t < g.len() implies opens_key(rows, keys, #[trigger] p[g[t] as int] as int) by {
        let k = g[t] as int;
        let x = p[k] as int;
        assert(is_kept(rows, x));
        assert forall|j: int| 0 <= j < x && is_kept(rows, j) implies (#[trigger] keys[j]).text@
            != keys[x].text@ by {
            if keys[j].text@ == keys[x].text@ {
                assert(kept.contains(j as usize));
                assert(p.contains(j as usize));
                let m = choose|m: int| 0 <= m < p.len() && p[m] == j as usize;
                lemma_start_is_first(keys, p, k, m);
            }
        }
    }
    assert forall|i: int| opens_key(rows, keys, i) implies exists|t: int|
        0 <= t < g.len() && #[trigger] p[g[t] as int] == i by {
        assert(kept.contains(i as usize));
        assert(p.contains(i as usize));
        let m = choose|m: int| 0 <= m < p.len() && p[m] == i as usize;
        let k = lemma_group_has_start(keys, p, m);
        assert(g.contains(k as usize));
        let t = choose|t: int| 0 <= t < g.len() && g[t] == k as usize;
        let y = p[k] as int;
        lemma_start_is_first(keys, p, k, m);
        assert(is_kept(rows, y));
        assert(p[g[t] as int] == i);
    }
    assert forall|t: int, u: int|
        #![trigger g[t], g[u]]
        0 <= t < u < g.len() implies text_lt(
        keys[p[g[t] as int] as int].text@,
        keys[p[g[u] as int] as int].text@,
    ) by {
        assert(p[g[t] as int] < keys.len() && p[g[u] as int] < keys.len());
    }
}

proof fn lemma_legs(rows: Seq<ProcedureLegRow>, keys: Seq<SortKey>, kept: Seq<usize>, p: Seq<usize>)
    requires
        keys.len() == rows.len(),
        forall|i: int|
            0 <= i < keys.len() ==> (#[trigger] keys[i]).idx == i && keys[i].text@ == row_transition_id(
                rows[i],
            ) && keys[i].num == rows[i].seq,
        kept_listed(rows, kept),
        sorted_by_keys(keys, p),
        p.to_multiset() == kept.to_multiset(),
    ensures
        forall|k: int| 0 <= k < p.len() ==> is_kept(rows, #[trigger] p[k] as int),
        forall|i: int| is_kept(rows, i) ==> p.contains(i as usize),
        forall|k: int, l: int|
            #![trigger p[k], p[l]]
            0 <= k < l < p.len() ==> leg_before(rows, p[k] as int, p[l] as int),
{
    lemma_same_elems(p, kept);
    assert forall|m: int| 0 <= m < p.len() implies is_kept(rows, #[trigger] p[m] as int) by {
        assert(p.contains(p[m]));
        assert(kept.contains(p[m]));
        let t = choose|t: int| 0 <= t < kept.len() && kept[t] == p[m];
    }
    assert forall|i: int| is_kept(rows, i) implies p.contains(i as usize) by {
        assert(kept.contains(i as usize));
    }
    kept.lemma_multiset_has_no_duplicates();
    p.lemma_multiset_has_no_duplicates_conv();
    assert forall|k: int, l: int|
        #![trigger p[k], p[l]]
        0 <= k < l < p.len() implies leg_before(rows, p[k] as int, p[l] as int) by {
        let a = keys[p[k] as int];
        let b = keys[p[l] as int];
        assert(p[k] < keys.len() && p[l] < keys.len());
        lemma_key_total(a, b);
        assert(!key_lt(b, a));
    }
}

/// The index of `target` among the strictly ascending `ids`.
fn find_text(ids: &Vec<Vec<char>>, target: &Vec<char>) -> (r: Option<usize>)
    requires
        forall|i: int, j: int|
            #![trigger ids@[i], ids@[j]]
            0 <= i < j < ids@.len() ==> text_lt(ids@[i]@, ids@[j]@),
    ensures
        match r {
            Some(k) => k < ids@.len() && ids@[k as int]@ == target@,
            None => forall|k: int| 0 <= k < ids@.len() ==> (#[trigger] ids@[k])@ != target@,
        },
{
    let mut lo: usize = 0;
    let mut hi: usize = ids.len();
    while lo < hi
        invariant
            0 <= lo <= hi <= ids@.len(),
            forall|i: int, j: int|
                #![trigger ids@[i], ids@[j]]
                0 <= i < j < ids@.len() ==> text_lt(ids@[i]@, ids@[j]@),
            forall|k: int| 0 <= k < lo ==> text_lt((#[trigger] ids@[k])@, target@),
            forall|k: int| hi <= k < ids@.len() ==> text_lt(target@, (#[trigger] ids@[k])@),
        decreases hi - lo,
    {
        let mid = lo + (hi - lo) / 2;
        if text_less(&ids[mid], target) {
            proof {
                assert forall|k: int| 0 <= k < mid + 1 implies text_lt((#[trigger] ids@[k])@, target@) by {
                    if k < mid {
                        assert(text_lt(ids@[k]@, ids@[mid as int]@));
                        lemma_text_lt_trans(ids@[k]@, ids@[mid as int]@, target@);
                    }
                }
            }
            lo = mid + 1;
        } else if text_less(target, &ids[mid]) {
            proof {
                assert forall|k: int| mid <= k < ids@.len() implies text_lt(target@, (#[trigger] ids@[k])@) by {
                    if k > mid {
                        assert(text_lt(ids@[mid as int]@, ids@[k]@));
                        lemma_text_lt_trans(target@, ids@[mid as int]@, ids@[k]@);
                    }
                }
            }
            hi = mid;
        } else {
            proof {
                lemma_text_lt_total(ids@[mid as int]@, target@);
            }
            return Some(mid);
        }
    }
    proof {
        assert forall|k: int| 0 <= k < ids@.len() implies (#[trigger] ids@[k])@ != target@ by {
            lemma_text_lt_irreflexive(target@);
        }
    }
    None
}

proof fn lemma_offered_step(ts: Seq<ProcedureTransition>, m: int, id: Seq<char>)
    requires
        0 <= m < ts.len(),
    ensures
        runways_offered(ts.take(m + 1), id) == if ts[m].procedure_id@ == id && runway_transition_spec(
            ts[m].ident@,
        ) is Some {
            runways_offered(ts.take(m), id).insert(runway_transition_spec(ts[m].ident@)->0)
        } else {
            runways_offered(ts.take(m), id)
        },
{
    let a = runways_offered(ts.take(m + 1), id);
    let b = runways_offered(ts.take(m), id);
    let hit = ts[m].procedure_id@ == id && runway_transition_spec(ts[m].ident@) is Some;
    let c = if hit {
        b.insert(runway_transition_spec(ts[m].ident@)->0)
    } else {
        b
    };
    assert forall|x: Seq<char>| #[trigger] a.contains(x) implies c.contains(x) by {
        let k = choose|k: int|
            0 <= k < m + 1 && ts.take(m + 1)[k].procedure_id@ == id && runway_transition_spec(
                #[trigger] ts.take(m + 1)[k].ident@,
            ) == Some(x);
        if k < m {
            assert(ts.take(m + 1)[k] == ts.take(m)[k]);
        }
    }
    assert forall|x: Seq<char>| #[trigger] c.contains(x) implies a.contains(x) by {
        if b.contains(x) {
            let k = choose|k: int|
                0 <= k < m && ts.take(m)[k].procedure_id@ == id && runway_transition_spec(
                    #[trigger] ts.take(m)[k].ident@,
                ) == Some(x);
            assert(ts.take(m + 1)[k] == ts.take(m)[k]);
        } else {
            assert(ts.take(m + 1)[m] == ts[m]);
        }
    }
    assert(a =~= c);
}

fn make_leg(row: &ProcedureLegRow) -> (l: ProcedureLeg)
    ensures
        leg_from(l, *row),
{
    let pid = procedure_id_chars(row.airport_icao.as_str(), row.kind, row.procedure_ident.as_str());
    let (tid, _ident, _kind) = transition_parts(row, &pid);
    let speed = match row.speed_limit_kt {
        Some(s) => Some(SpeedConstraint::AtOrBelow(s)),
        None => None,
    };
    ProcedureLeg {
        transition_id: string_from(&tid),
        seq: row.seq,
        path_and_term: row.path_and_term,
        fix_ident: non_empty(row.fix_ident.as_str()),
        course_mdeg: row.magnetic_course_mdeg,
        altitude: altitude_constraint(row.altitude_desc, row.altitude1_ft, row.altitude2_ft),
        speed,
        turn_direction: row.turn_direction,
    }
}

/// `p` is built from a row that opens its procedure.
pub open spec fn procedure_from_opener(
    rows: Seq<ProcedureLegRow>,
    p: Procedure,
    ts: Seq<ProcedureTransition>,
) -> bool {
    exists|i: int| #[trigger] opens_procedure(rows, i) && procedure_from(p, rows[i], ts)
}

/// `t` is built from a row that opens its transition.
pub open spec fn transition_from_opener(rows: Seq<ProcedureLegRow>, t: ProcedureTransition) -> bool {
    exists|i: int| #[trigger] opens_transition(rows, i) && transition_from(t, rows[i])
}

/// `ps` holds one procedure per procedure id among the kept rows, in
/// ascending id order, each built from the first kept row with its id.
pub open spec fn procedures_built(
    rows: Seq<ProcedureLegRow>,
    ps: Seq<Procedure>,
    ts: Seq<ProcedureTransition>,
) -> bool {
    &&& forall|k: int| 0 <= k < ps.len() ==> procedure_from_opener(rows, #[trigger] ps[k], ts)
    &&& forall|i: int|
        opens_procedure(rows, i) ==> exists|k: int|
            0 <= k < ps.len() && (#[trigger] ps[k]).id@ == row_procedure_id(rows[i])
    &&& forall|k: int, l: int|
        #![trigger ps[k], ps[l]]
        0 <= k < l < ps.len() ==> text_lt(ps[k].id@, ps[l].id@)
}

/// `ts` holds one transition per transition id among the kept rows, in
/// ascending id order, each built from the first kept row with its id.
pub open spec fn transitions_built(rows: Seq<ProcedureLegRow>, ts: Seq<ProcedureTransition>) -> bool {
    &&& forall|k: int| 0 <= k < ts.len() ==> transition_from_opener(rows, #[trigger] ts[k])
    &&& forall|i: int|
        opens_transition(rows, i) ==> exists|k: int|
            0 <= k < ts.len() && (#[trigger] ts[k]).id@ == row_transition_id(rows[i])
    &&& forall|k: int, l: int|
        #![trigger ts[k], ts[l]]
        0 <= k < l < ts.len() ==> text_lt(ts[k].id@, ts[l].id@)
}

spec fn keys_of(
    rows: Seq<ProcedureLegRow>,
    keys: Seq<SortKey>,
    text: spec_fn(ProcedureLegRow) -> Seq<char>,
    by_seq: bool,
) -> bool {
    &&& keys.len() == rows.len()
    &&& forall|j: int|
        0 <= j < keys.len() ==> (#[trigger] keys[j]).idx == j && keys[j].text@ == text(rows[j])
            && keys[j].num == (if by_seq {
            rows[j].seq as u64
        } else {
            0u64
        })
}

spec fn leg_text_fn() -> spec_fn(ProcedureLegRow) -> Seq<char> {
    |r: ProcedureLegRow| leg_text(r)
}

spec fn transition_id_fn() -> spec_fn(ProcedureLegRow) -> Seq<char> {
    |r: ProcedureLegRow| row_transition_id(r)
}

spec fn procedure_id_fn() -> spec_fn(ProcedureLegRow) -> Seq<char> {
    |r: ProcedureLegRow| row_procedure_id(r)
}

/// The sort keys of all rows: by leg key, by (transition id, sequence
/// number), by procedure id and by transition id.
fn row_keys(rows: &[ProcedureLegRow]) -> (r: (Vec<SortKey>, Vec<SortKey>, Vec<SortKey>, Vec<SortKey>))
    ensures
        keys_of(rows@, r.0@, leg_text_fn(), true),
        keys_of(rows@, r.1@, transition_id_fn(), true),
        keys_of(rows@, r.2@, procedure_id_fn(), false),
        keys_of(rows@, r.3@, transition_id_fn(), false),
{
    let n = rows.len();
    let mut dedup_keys: Vec<SortKey> = Vec::new();
    let mut leg_keys: Vec<SortKey> = Vec::new();
    let mut proc_keys: Vec<SortKey> = Vec::new();
    let mut trans_keys: Vec<SortKey> = Vec::new();
    let mut i: usize = 0;
    while i < n
        invariant
            0 <= i <= n,
            n == rows@.len(),
            dedup_keys@.len() == i,
            leg_keys@.len() == i,
            proc_keys@.len() == i,
            trans_keys@.len() == i,
            forall|j: int|
                0 <= j < i ==> (#[trigger] dedup_keys@[j]).idx == j && dedup_keys@[j].text@ == leg_text(
                    rows@[j],
                ) && dedup_keys@[j].num == rows@[j].seq as u64,
            forall|j: int|
                0 <= j < i ==> (#[trigger] leg_keys@[j]).idx == j && leg_keys@[j].text@
                    == row_transition_id(rows@[j]) && leg_keys@[j].num == rows@[j].seq as u64,
            forall|j: int|
                0 <= j < i ==> (#[trigger] proc_keys@[j]).idx == j && proc_keys@[j].text@
                    == row_procedure_id(rows@[j]) && proc_keys@[j].num == 0u64,
            forall|j: int|
                0 <= j < i ==> (#[trigger] trans_keys@[j]).idx == j && trans_keys@[j].text@
                    == row_transition_id(rows@[j]) && trans_keys@[j].num == 0u64,
        decreases n - i,
    {
        let row = &rows[i];
        let pid = procedure_id_chars(row.airport_icao.as_str(), row.kind, row.procedure_ident.as_str());
        let (tid, _ident, _kind) = transition_parts(row, &pid);
        let tid2 = tid.clone();
        assert(tid2@ =~= tid@);
        dedup_keys.push(SortKey { text: leg_text_chars(row), num: row.seq as u64, idx: i });
        leg_keys.push(SortKey { text: tid2, num: row.seq as u64, idx: i });
        trans_keys.push(SortKey { text: tid, num: 0, idx: i });
        proc_keys.push(SortKey { text: pid, num: 0, idx: i });
        i = i + 1;
    }
    (dedup_keys, leg_keys, proc_keys, trans_keys)
}

/// The rows that are the first with their leg key.
fn kept_rows(rows: &[ProcedureLegRow], keys: &Vec<SortKey>) -> (kept: Vec<usize>)
    requires
        keys_of(rows@, keys@, leg_text_fn(), true),
    ensures
        kept_listed(rows@, kept@),
        forall|t: int| 0 <= t < kept@.len() ==> #[trigger] kept@[t] < rows@.len(),
{
    let mut all: Vec<usize> = Vec::new();
    let mut i: usize = 0;
    while i < rows.len()
        invariant
            0 <= i <= rows@.len(),
            all@.len() == i,
            keys@.len() == rows@.len(),
            forall|j: int| 0 <= j < i ==> #[trigger] all@[j] == j,
        decreases rows.len() - i,
    {
        all.push(i);
        i = i + 1;
    }
    let ghost all_v = all@;
    let p1 = sort_positions(keys, all);
    let g1 = group_starts(keys, &p1);
    let mut kept: Vec<usize> = Vec::new();
    let mut t: usize = 0;
    while t < g1.len()
        invariant
            0 <= t <= g1@.len(),
            kept@.len() == t,
            starts_listed(keys@, p1@, g1@),
            forall|s: int| 0 <= s < t ==> #[trigger] kept@[s] == p1@[g1@[s] as int],
        decreases g1.len() - t,
    {
        kept.push(p1[g1[t]]);
        t = t + 1;
    }
    proof {
        lemma_same_elems(p1@, all_v);
        assert forall|x: usize| x < rows@.len() implies #[trigger] p1@.contains(x) by {
            assert(all_v[x as int] == x);
            assert(all_v.contains(x));
        }
        assert forall|j: int| 0 <= j < keys@.len() implies (#[trigger] keys@[j]).idx == j
            && keys@[j].text@ == leg_text(rows@[j]) && keys@[j].num == rows@[j].seq by {}
        assert(p1@.len() == p1.len());
        lemma_dedup(rows@, keys@, p1@, g1@, kept@);
    }
    kept
}

fn arrange_legs(rows: &[ProcedureLegRow], keys: &Vec<SortKey>, kept: &Vec<usize>) -> (legs: Vec<
    ProcedureLeg,
>)
    requires
        keys_of(rows@, keys@, transition_id_fn(), true),
        kept_listed(rows@, kept@),
        forall|t: int| 0 <= t < kept@.len() ==> #[trigger] kept@[t] < rows@.len(),
    ensures
        exists|pos: Seq<usize>| legs_arranged(rows@, pos, legs@),
{
    let k2 = kept.clone();
    assert(k2@ =~= kept@);
    let p2 = sort_positions(keys, k2);
    proof {
        assert forall|j: int| 0 <= j < keys@.len() implies (#[trigger] keys@[j]).idx == j
            && keys@[j].text@ == row_transition_id(rows@[j]) && keys@[j].num == rows@[j].seq by {}
        lemma_legs(rows@, keys@, kept@, p2@);
    }
    let mut legs: Vec<ProcedureLeg> = Vec::new();
    let mut k: usize = 0;
    while k < p2.len()
        invariant
            0 <= k <= p2@.len(),
            legs@.len() == k,
            forall|q: int| 0 <= q < p2@.len() ==> is_kept(rows@, #[trigger] p2@[q] as int),
            forall|q: int| 0 <= q < k ==> leg_from(#[trigger] legs@[q], rows@[p2@[q] as int]),
        decreases p2.len() - k,
    {
        legs.push(make_leg(&rows[p2[k]]));
        k = k + 1;
    }
    assert(legs_arranged(rows@, p2@, legs@));
    legs
}

fn first_transitions(rows: &[ProcedureLegRow], keys: &Vec<SortKey>, kept: &Vec<usize>) -> (ts: Vec<
    ProcedureTransition,
>)
    requires
        keys_of(rows@, keys@, transition_id_fn(), false),
        kept_listed(rows@, kept@),
        forall|t: int| 0 <= t < kept@.len() ==> #[trigger] kept@[t] < rows@.len(),
    ensures
        transitions_built(rows@, ts@),
{
    let k3 = kept.clone();
    assert(k3@ =~= kept@);
    let p = sort_positions(keys, k3);
    let g = group_starts(keys, &p);
    proof {
        assert(p@.len() == p.len());
        lemma_openers(rows@, keys@, kept@, p@, g@);
        assert forall|j: int| #![trigger rows@[j]] 0 <= j < rows@.len() implies keys@[j].text@
            == row_transition_id(rows@[j]) by {
            assert(keys@[j].idx == j);
        }
        assert forall|x: int| opens_transition(rows@, x) == opens_key(rows@, keys@, x) by {
            if is_kept(rows@, x) {
                assert(keys@[x].text@ == row_transition_id(rows@[x]));
            }
        }
    }
    let mut ts: Vec<ProcedureTransition> = Vec::new();
    let mut t: usize = 0;
    while t < g.len()
        invariant
            0 <= t <= g@.len(),
            ts@.len() == t,
            starts_listed(keys@, p@, g@),
            sorted_by_keys(keys@, p@),
            keys@.len() == rows@.len(),
            forall|s: int|
                0 <= s < t ==> transition_from(#[trigger] ts@[s], rows@[p@[g@[s] as int] as int]),
        decreases g.len() - t,
    {
        let row = &rows[p[g[t]]];
        let pid = procedure_id_chars(row.airport_icao.as_str(), row.kind, row.procedure_ident.as_str());
        let (tid, ident, kind) = transition_parts(row, &pid);
        ts.push(
            ProcedureTransition {
                id: string_from(&tid),
                procedure_id: string_from(&pid),
                ident: string_from(&ident),
                kind,
            },
        );
        t = t + 1;
    }
    proof {
        assert forall|q: int| 0 <= q < ts@.len() implies transition_from_opener(
            rows@,
            #[trigger] ts@[q],
        ) by {
            let i = p@[g@[q] as int] as int;
            assert(opens_key(rows@, keys@, i));
            assert(opens_transition(rows@, i));
        }
        assert forall|i: int| opens_transition(rows@, i) implies exists|q: int|
            0 <= q < ts@.len() && (#[trigger] ts@[q]).id@ == row_transition_id(rows@[i]) by {
            assert(opens_key(rows@, keys@, i));
            let q = choose|q: int| 0 <= q < g@.len() && #[trigger] p@[g@[q] as int] == i;
            assert(transition_from(ts@[q], rows@[p@[g@[q] as int] as int]));
        }
        assert forall|a: int, b: int|
            #![trigger ts@[a], ts@[b]]
            0 <= a < b < ts@.len() implies text_lt(ts@[a].id@, ts@[b].id@) by {
            assert(transition_from(ts@[a], rows@[p@[g@[a] as int] as int]));
            assert(transition_from(ts@[b], rows@[p@[g@[b] as int] as int]));
            assert(g@[a] < g@[b]);
        }
    }
    ts
}

/// The runway votes of the transitions `ts` for the procedures `ids`.
fn count_votes(ids: &Vec<Vec<char>>, ts: &Vec<ProcedureTransition>) -> (votes: Vec<Vote>)
    requires
        forall|a: int, b: int|
            #![trigger ids@[a], ids@[b]]
            0 <= a < b < ids@.len() ==> text_lt(ids@[a]@, ids@[b]@),
    ensures
        votes@.len() == ids@.len(),
        forall|q: int|
            0 <= q < ids@.len() ==> vote_ok(#[trigger] votes@[q], runways_offered(ts@, ids@[q]@)),
{
    let mut votes: Vec<Vote> = Vec::new();
    let mut t: usize = 0;
    while t < ids.len()
        invariant
            0 <= t <= ids@.len(),
            votes@.len() == t,
            forall|s: int| 0 <= s < t ==> #[trigger] votes@[s] == Vote::Nothing,
        decreases ids.len() - t,
    {
        votes.push(Vote::Nothing);
        t = t + 1;
    }
    proof {
        assert forall|q: int| 0 <= q < ids@.len() implies vote_ok(
            #[trigger] votes@[q],
            runways_offered(ts@.take(0), ids@[q]@),
        ) by {
            assert(votes@[q] == Vote::Nothing);
        }
    }
    let mut m: usize = 0;
    while m < ts.len()
        invariant
            0 <= m <= ts@.len(),
            votes@.len() == ids@.len(),
            forall|a: int, b: int|
                #![trigger ids@[a], ids@[b]]
                0 <= a < b < ids@.len() ==> text_lt(ids@[a]@, ids@[b]@),
            forall|q: int|
                0 <= q < ids@.len() ==> vote_ok(
                    #[trigger] votes@[q],
                    runways_offered(ts@.take(m as int), ids@[q]@),
                ),
        decreases ts.len() - m,
    {
        let ident = to_chars(ts[m].ident.as_str());
        let owner = to_chars(ts[m].procedure_id.as_str());
        proof {
            assert forall|q: int| 0 <= q < ids@.len() implies runways_offered(
                ts@.take(m + 1),
                #[trigger] ids@[q]@,
            ) == if ts@[m as int].procedure_id@ == ids@[q]@ && runway_transition_spec(
                ts@[m as int].ident@,
            ) is Some {
                runways_offered(ts@.take(m as int), ids@[q]@).insert(
                    runway_transition_spec(ts@[m as int].ident@)->0,
                )
            } else {
                runways_offered(ts@.take(m as int), ids@[q]@)
            } by {
                lemma_offered_step(ts@, m as int, ids@[q]@);
            }
        }
        match runway_transition_chars(&ident) {
            Some(x) => {
                match find_text(ids, &owner) {
                    Some(q) => {
                        let ghost before = runways_offered(ts@.take(m as int), ids@[q as int]@);
                        let nv = cast_vote(&votes[q], x, Ghost(before));
                        votes.set(q, nv);
                        proof {
                            assert forall|a: int| 0 <= a < ids@.len() && a != q implies ids@[a]@
                                != ids@[q as int]@ by {
                                if a < q {
                                    assert(text_lt(ids@[a]@, ids@[q as int]@));
                                    lemma_text_lt_asym(ids@[a]@, ids@[q as int]@);
                                } else {
                                    assert(text_lt(ids@[q as int]@, ids@[a]@));
                                    lemma_text_lt_asym(ids@[q as int]@, ids@[a]@);
                                }
                            }
                        }
                    },
                    None => {},
                }
            },
            None => {},
        }
        m = m + 1;
    }
    proof {
        assert(ts@.take(ts@.len() as int) =~= ts@);
    }
    votes
}

fn first_procedures(
    rows: &[ProcedureLegRow],
    keys: &Vec<SortKey>,
    kept: &Vec<usize>,
    ts: &Vec<ProcedureTransition>,
) -> (ps: Vec<Procedure>)
    requires
        keys_of(rows@, keys@, procedure_id_fn(), false),
        kept_listed(rows@, kept@),
        forall|t: int| 0 <= t < kept@.len() ==> #[trigger] kept@[t] < rows@.len(),
    ensures
        procedures_built(rows@, ps@, ts@),
{
    let k4 = kept.clone();
    assert(k4@ =~= kept@);
    let p = sort_positions(keys, k4);
    let g = group_starts(keys, &p);
    proof {
        assert(p@.len() == p.len());
        lemma_openers(rows@, keys@, kept@, p@, g@);
        assert forall|j: int| #![trigger rows@[j]] 0 <= j < rows@.len() implies keys@[j].text@
            == row_procedure_id(rows@[j]) by {
            assert(keys@[j].idx == j);
        }
        assert forall|x: int| opens_procedure(rows@, x) == opens_key(rows@, keys@, x) by {
            if is_kept(rows@, x) {
                assert(keys@[x].text@ == row_procedure_id(rows@[x]));
            }
        }
    }
    let mut ids: Vec<Vec<char>> = Vec::new();
    let mut t: usize = 0;
    while t < g.len()
        invariant
            0 <= t <= g@.len(),
            ids@.len() == t,
            starts_listed(keys@, p@, g@),
            sorted_by_keys(keys@, p@),
            keys@.len() == rows@.len(),
            forall|s: int|
                0 <= s < t ==> (#[trigger] ids@[s])@ == row_procedure_id(rows@[p@[g@[s] as int] as int]),
        decreases g.len() - t,
    {
        let row = &rows[p[g[t]]];
        ids.push(procedure_id_chars(row.airport_icao.as_str(), row.kind, row.procedure_ident.as_str()));
        t = t + 1;
    }
    proof {
        assert forall|a: int, b: int|
            #![trigger ids@[a], ids@[b]]
            0 <= a < b < ids@.len() implies text_lt(ids@[a]@, ids@[b]@) by {
            assert(g@[a] < g@[b]);
            assert(keys@[p@[g@[a] as int] as int].text@ == ids@[a]@);
            assert(keys@[p@[g@[b] as int] as int].text@ == ids@[b]@);
        }
    }
    let votes = count_votes(&ids, ts);
    let mut ps: Vec<Procedure> = Vec::new();
    let mut t: usize = 0;
    while t < g.len()
        invariant
            0 <= t <= g@.len(),
            ps@.len() == t,
            ids@.len() == g@.len(),
            votes@.len() == ids@.len(),
            starts_listed(keys@, p@, g@),
            sorted_by_keys(keys@, p@),
            keys@.len() == rows@.len(),
            forall|s: int|
                0 <= s < ids@.len() ==> (#[trigger] ids@[s])@ == row_procedure_id(
                    rows@[p@[g@[s] as int] as int],
                ),
            forall|q: int|
                0 <= q < ids@.len() ==> vote_ok(#[trigger] votes@[q], runways_offered(ts@, ids@[q]@)),
            forall|s: int|
                0 <= s < t ==> procedure_from(#[trigger] ps@[s], rows@[p@[g@[s] as int] as int], ts@),
        decreases g.len() - t,
    {
        let row = &rows[p[g[t]]];
        let runway_ident = match row.kind {
            ProcedureKind::Approach => derive_approach_runway_ident(row.procedure_ident.as_str()),
            _ => vote_result(&votes[t], Ghost(runways_offered(ts@, ids@[t as int]@))),
        };
        ps.push(
            Procedure {
                id: string_from(&ids[t]),
                airport_icao: row.airport_icao.clone(),
                kind: row.kind,
                ident: row.procedure_ident.clone(),
                runway_ident,
            },
        );
        t = t + 1;
    }
    proof {
        assert forall|q: int| 0 <= q < ps@.len() implies procedure_from_opener(
            rows@,
            #[trigger] ps@[q],
            ts@,
        ) by {
            let i = p@[g@[q] as int] as int;
            assert(opens_key(rows@, keys@, i));
            assert(opens_procedure(rows@, i));
        }
        assert forall|i: int| opens_procedure(rows@, i) implies exists|q: int|
            0 <= q < ps@.len() && (#[trigger] ps@[q]).id@ == row_procedure_id(rows@[i]) by {
            assert(opens_key(rows@, keys@, i));
            let q = choose|q: int| 0 <= q < g@.len() && #[trigger] p@[g@[q] as int] == i;
            assert(procedure_from(ps@[q], rows@[p@[g@[q] as int] as int], ts@));
        }
        assert forall|a: int, b: int|
            #![trigger ps@[a], ps@[b]]
            0 <= a < b < ps@.len() implies text_lt(ps@[a].id@, ps@[b].id@) by {
            assert(procedure_from(ps@[a], rows@[p@[g@[a] as int] as int], ts@));
            assert(procedure_from(ps@[b], rows@[p@[g@[b] as int] as int], ts@));
            assert(ids@[a]@ == ps@[a].id@);
        }
    }
    ps
}

/// Groups flat leg rows (one per CIFP line) into procedures, transitions
/// and legs. Procedures and transitions come in ascending order of their
/// ids, each built from the first kept row with that id; legs come grouped
/// by transition id and ordered by sequence number.
pub fn build_procedures(rows: &[ProcedureLegRow]) -> (r: ParsedProcedures)
    ensures
        procedures_built(rows@, r.procedures@, r.transitions@),
        transitions_built(rows@, r.transitions@),
        exists|pos: Seq<usize>| legs_arranged(rows@, pos, r.legs@),
{
    let (dedup_keys, leg_keys, proc_keys, trans_keys) = row_keys(rows);
    let kept = kept_rows(rows, &dedup_keys);
    let legs = arrange_legs(rows, &leg_keys, &kept);
    let transitions = first_transitions(rows, &trans_keys, &kept);
    let procedures = first_procedures(rows, &proc_keys, &kept, &transitions);
    let ghost pos = choose|pos: Seq<usize>| legs_arranged(rows@, pos, legs@);
    let r = ParsedProcedures { procedures, transitions, legs };
    assert(legs_arranged(rows@, pos, r.legs@));
    r
}

proof fn lemma_transition_opener(rows: Seq<ProcedureLegRow>, i: int)
    requires
        is_kept(rows, i),
    ensures
        exists|j: int| #[trigger] opens_transition(rows, j) && row_transition_id(rows[j]) == row_transition_id(rows[i]),
    decreases i,
{
    if opens_transition(rows, i) {
        assert(opens_transition(rows, i) && row_transition_id(rows[i]) == row_transition_id(rows[i]));
    } else {
        let j = choose|j: int|
            0 <= j < i && is_kept(rows, j) && row_transition_id(#[trigger] rows[j]) == row_transition_id(rows[i]);
        lemma_transition_opener(rows, j);
    }
}

proof fn lemma_procedure_opener(rows: Seq<ProcedureLegRow>, i: int)
    requires
        is_kept(rows, i),
    ensures
        exists|j: int| #[trigger] opens_procedure(rows, j) && row_procedure_id(rows[j]) == row_procedure_id(rows[i]),
    decreases i,
{
    if opens_procedure(rows, i) {
        assert(opens_procedure(rows, i) && row_procedure_id(rows[i]) == row_procedure_id(rows[i]));
    } else {
        let j = choose|j: int|
            0 <= j < i && is_kept(rows, j) && row_procedure_id(#[trigger] rows[j]) == row_procedure_id(rows[i]);
        lemma_procedure_opener(rows, j);
    }
}

/// What [`build_procedures`] builds links up: every leg names a transition
/// that was built, and every transition names a procedure that was built.
pub proof fn lemma_procedures_link_up(
    rows: Seq<ProcedureLegRow>,
    ps: Seq<Procedure>,
    ts: Seq<ProcedureTransition>,
    legs: Seq<ProcedureLeg>,
)
    requires
        procedures_built(rows, ps, ts),
        transitions_built(rows, ts),
        exists|pos: Seq<usize>| legs_arranged(rows, pos, legs),
    ensures
        forall|k: int|
            0 <= k < legs.len() ==> exists|m: int|
                0 <= m < ts.len() && (#[trigger] ts[m]).id@ == (#[trigger] legs[k]).transition_id@,
        forall|m: int|
            0 <= m < ts.len() ==> exists|q: int|
                0 <= q < ps.len() && (#[trigger] ps[q]).id@ == (#[trigger] ts[m]).procedure_id@,
{
    let pos = choose|pos: Seq<usize>| legs_arranged(rows, pos, legs);
    assert forall|k: int| 0 <= k < legs.len() implies exists|m: int|
        0 <= m < ts.len() && (#[trigger] ts[m]).id@ == (#[trigger] legs[k]).transition_id@ by {
        let i = pos[k] as int;
        assert(is_kept(rows, i) && leg_from(legs[k], rows[i]));
        lemma_transition_opener(rows, i);
        let j = choose|j: int| #[trigger] opens_transition(rows, j) && row_transition_id(rows[j]) == row_transition_id(rows[i]);
        let m = choose|m: int| 0 <= m < ts.len() && (#[trigger] ts[m]).id@ == row_transition_id(rows[j]);
        assert(ts[m].id@ == legs[k].transition_id@);
    }
    assert forall|m: int| 0 <= m < ts.len() implies exists|q: int|
        0 <= q < ps.len() && (#[trigger] ps[q]).id@ == (#[trigger] ts[m]).procedure_id@ by {
        assert(transition_from_opener(rows, ts[m]));
        let i = choose|i: int| #[trigger] opens_transition(rows, i) && transition_from(ts[m], rows[i]);
        lemma_procedure_opener(rows, i);
        let j = choose|j: int| #[trigger] opens_procedure(rows, j) && row_procedure_id(rows[j]) == row_procedure_id(rows[i]);
        let q = choose|q: int| 0 <= q < ps.len() && (#[trigger] ps[q]).id@ == row_procedure_id(rows[j]);
        assert(ps[q].id@ == ts[m].procedure_id@);
    }
}

/// The rows that are the first of their leg key: one leg each.
pub open spec fn first_of_key_rows(rows: Seq<ProcedureLegRow>) -> Set<usize> {
    Set::new(|u: usize| is_kept(rows, u as int))
}

/// The legs [`build_procedures`] builds: exactly one per leg key, taken
/// from the first row with that key (later duplicates ignored); the legs
/// of one transition stand together, and their sequence numbers never
/// fall.
pub proof fn lemma_legs_grouped(rows: Seq<ProcedureLegRow>, legs: Seq<ProcedureLeg>)
    requires
        exists|pos: Seq<usize>| legs_arranged(rows, pos, legs),
    ensures
        legs.len() == first_of_key_rows(rows).len(),
        forall|k: int, l: int, m: int|
            0 <= k < l < m < legs.len() && (#[trigger] legs[k]).transition_id@ == (#[trigger] legs[m]).transition_id@
                ==> (#[trigger] legs[l]).transition_id@ == legs[k].transition_id@,
        forall|k: int, l: int|
            0 <= k < l < legs.len() && (#[trigger] legs[k]).transition_id@ == (#[trigger] legs[l]).transition_id@
                ==> legs[k].seq <= legs[l].seq,
{
    let pos = choose|pos: Seq<usize>| legs_arranged(rows, pos, legs);
    // Leg order: transition ids never fall.
    assert forall|k: int, l: int| 0 <= k < l < legs.len() implies text_lt(
        legs[k].transition_id@,
        legs[l].transition_id@,
    ) || (legs[k].transition_id@ == legs[l].transition_id@ && legs[k].seq <= legs[l].seq) by {
        assert(leg_before(rows, pos[k] as int, pos[l] as int));
        assert(is_kept(rows, pos[k] as int) && leg_from(legs[k], rows[pos[k] as int]));
        assert(is_kept(rows, pos[l] as int) && leg_from(legs[l], rows[pos[l] as int]));
    }
    assert forall|k: int, l: int, m: int|
        0 <= k < l < m < legs.len() && (#[trigger] legs[k]).transition_id@ == (#[trigger] legs[m]).transition_id@
        implies (#[trigger] legs[l]).transition_id@ == legs[k].transition_id@ by {
        let (a, b, c) = (legs[k].transition_id@, legs[l].transition_id@, legs[m].transition_id@);
        if b != a {
            assert(text_lt(a, b));
            assert(text_lt(b, c));
            lemma_text_lt_trans(a, b, c);
            lemma_text_lt_irreflexive(a);
        }
    }
    assert forall|k: int, l: int|
        0 <= k < l < legs.len() && (#[trigger] legs[k]).transition_id@ == (#[trigger] legs[l]).transition_id@
        implies legs[k].seq <= legs[l].seq by {
        lemma_text_lt_irreflexive(legs[k].transition_id@);
    }
    // One leg per kept row.
    assert(pos.no_duplicates()) by {
        assert forall|k: int, l: int| 0 <= k < pos.len() && 0 <= l < pos.len() && k != l implies pos[k] != pos[l] by {
            let (a, b) = if k < l { (k, l) } else { (l, k) };
            assert(leg_before(rows, pos[a] as int, pos[b] as int));
            if pos[a] == pos[b] {
                lemma_text_lt_irreflexive(row_transition_id(rows[pos[a] as int]));
            }
        }
    }
    pos.unique_seq_to_set();
    assert(pos.to_set() =~= first_of_key_rows(rows)) by {
        assert forall|u: usize| pos.to_set().contains(u) implies first_of_key_rows(rows).contains(u) by {
            let k = choose|k: int| 0 <= k < pos.len() && pos[k] == u;
            assert(is_kept(rows, pos[k] as int));
        }
        assert forall|u: usize| first_of_key_rows(rows).contains(u) implies pos.to_set().contains(u) by {
            assert(is_kept(rows, u as int));
            assert(pos.contains((u as int) as usize));
        }
    }
}

/// No two procedures, and no two transitions, that [`build_procedures`]
/// builds share an id: their ids strictly ascend.
pub proof fn lemma_ids_distinct(rows: Seq<ProcedureLegRow>, ps: Seq<Procedure>, ts: Seq<ProcedureTransition>)
    requires
        procedures_built(rows, ps, ts),
        transitions_built(rows, ts),
    ensures
        forall|k: int, l: int| 0 <= k < l < ps.len() ==> (#[trigger] ps[k]).id@ != (#[trigger] ps[l]).id@,
        forall|k: int, l: int| 0 <= k < l < ts.len() ==> (#[trigger] ts[k]).id@ != (#[trigger] ts[l]).id@,
{
    assert forall|k: int, l: int| 0 <= k < l < ps.len() implies (#[trigger] ps[k]).id@ != (#[trigger] ps[l]).id@ by {
        lemma_text_lt_asym(ps[k].id@, ps[l].id@);
    }
    assert forall|k: int, l: int| 0 <= k < l < ts.len() implies (#[trigger] ts[k]).id@ != (#[trigger] ts[l]).id@ by {
        lemma_text_lt_asym(ts[k].id@, ts[l].id@);
    }
}

} // verus!
