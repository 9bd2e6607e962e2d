//! Phase-of-flight and landing analysis of a GPS track for post-flight
//! review.
//!
//! Times are milliseconds since the Unix epoch and durations are
//! milliseconds; groundspeeds are thousandths of a knot (a speed in knots
//! scaled by 1000 and rounded down keeps every threshold comparison).
use crate::text::{push_lit, string_from, to_chars};
use vstd::prelude::*;

verus! {

/// Below this groundspeed the aircraft is on the ground (5 kt).
pub const TAXI_SPEED_THRESHOLD_MKT: i64 = 5_000;

/// From this groundspeed on the aircraft is airborne (40 kt).
pub const AIRBORNE_SPEED_THRESHOLD_MKT: i64 = 40_000;

/// A touch-and-go's ground time is brief; a longer stay on the ground is
/// a full-stop landing followed by a separate departure.
pub const TOUCH_AND_GO_MAX_GROUND_SECONDS: i64 = 90;

#[derive(Debug, Clone, Copy, PartialEq, Eq, Structural)]
pub enum PhaseKind {
    Ground,
    Taxi,
    Airborne,
}

/// One track point reduced to what phase analysis reads: its time and
/// the groundspeed derived for it.
#[derive(Debug, Clone, Copy, PartialEq, Eq, Structural)]
pub struct PhaseSample {
    pub ts_ms: i64,
    pub ground_speed_mkt: i64,
}

pub open spec fn classify_spec(ground_speed_mkt: i64) -> PhaseKind {
    if ground_speed_mkt < TAXI_SPEED_THRESHOLD_MKT {
        PhaseKind::Ground
    } else if ground_speed_mkt < AIRBORNE_SPEED_THRESHOLD_MKT {
        PhaseKind::Taxi
    } else {
        PhaseKind::Airborne
    }
}

/// The phase a groundspeed indicates.
pub fn classify(ground_speed_mkt: i64) -> (r: PhaseKind)
    ensures
        r == classify_spec(ground_speed_mkt),
{
    if ground_speed_mkt < TAXI_SPEED_THRESHOLD_MKT {
        PhaseKind::Ground
    } else if ground_speed_mkt < AIRBORNE_SPEED_THRESHOLD_MKT {
        PhaseKind::Taxi
    } else {
        PhaseKind::Airborne
    }
}

#[derive(Debug, Clone, Copy, PartialEq, Eq, Structural)]
pub struct PhaseSegment {
    pub kind: PhaseKind,
    pub start_ms: i64,
    pub end_ms: i64,
}

pub open spec fn dur(s: PhaseSegment) -> int {
    s.end_ms - s.start_ms
}

/// A span fits a duration (at most `i64::MAX` milliseconds either way).
pub open spec fn fits(x: int) -> bool {
    -i64::MAX <= x <= i64::MAX
}

impl PhaseSegment {
    /// How long the segment lasted.
    pub fn duration(&self) -> (r: i64)
        requires
            fits(dur(*self)),
        ensures
            r == dur(*self),
    {
        self.end_ms - self.start_ms
    }
}

/// The segments of `samples`: each maximal run of consecutive samples in
/// one phase becomes one segment, from the first sample's time to the
/// last's.
pub open spec fn segments_spec(samples: Seq<PhaseSample>) -> Seq<PhaseSegment>
    decreases samples.len(),
{
    if samples.len() == 0 {
        Seq::empty()
    } else {
        let prev = segments_spec(samples.drop_last());
        let p = samples.last();
        let k = classify_spec(p.ground_speed_mkt);
        if prev.len() > 0 && prev.last().kind == k {
            prev.update(
                prev.len() - 1,
                PhaseSegment { kind: k, start_ms: prev.last().start_ms, end_ms: p.ts_ms },
            )
        } else {
            prev.push(PhaseSegment { kind: k, start_ms: p.ts_ms, end_ms: p.ts_ms })
        }
    }
}

/// Collapses the per-sample phase classification into contiguous
/// segments.
pub fn segment_phases(samples: &[PhaseSample]) -> (r: Vec<PhaseSegment>)
    ensures
        r@ == segments_spec(samples@),
{
    let mut segments: Vec<PhaseSegment> = Vec::new();
    let mut i: usize = 0;
    while i < samples.len()
        invariant
            0 <= i <= samples@.len(),
            segments@ == segments_spec(samples@.take(i as int)),
        decreases samples.len() - i,
    {
        let p = samples[i];
        let kind = classify(p.ground_speed_mkt);
        proof {
            assert(samples@.take(i + 1).drop_last() =~= samples@.take(i as int));
            assert(samples@.take(i + 1).last() == p);
        }
        let n = segments.len();
        if n > 0 && segments[n - 1].kind == kind {
            let last = segments[n - 1];
            segments.set(n - 1, PhaseSegment { kind, start_ms: last.start_ms, end_ms: p.ts_ms });
        } else {
            segments.push(PhaseSegment { kind, start_ms: p.ts_ms, end_ms: p.ts_ms });
        }
        i = i + 1;
    }
    assert(samples@.take(samples@.len() as int) =~= samples@);
    segments
}

/// Segment phases alternate: neighbouring segments differ in phase.
pub proof fn lemma_segments_alternate(samples: Seq<PhaseSample>)
    ensures
        forall|k: int|
            0 <= k < segments_spec(samples).len() - 1 ==> (#[trigger] segments_spec(samples)[k]).kind
                != segments_spec(samples)[k + 1].kind,
    decreases samples.len(),
{
    if samples.len() > 0 {
        lemma_segments_alternate(samples.drop_last());
    }
}

/// Every sample's phase appears: the segments cover the samples run by
/// run, so there are no more segments than samples, and some segment
/// whenever there is a sample.
pub proof fn lemma_segments_count(samples: Seq<PhaseSample>)
    ensures
        segments_spec(samples).len() <= samples.len(),
        samples.len() > 0 ==> segments_spec(samples).len() > 0,
    decreases samples.len(),
{
    if samples.len() > 0 {
        lemma_segments_count(samples.drop_last());
    }
}

#[derive(Debug, Clone, Copy, PartialEq, Eq, Structural)]
pub enum LandingKind {
    TouchAndGo,
    FullStop,
}

#[derive(Debug, Clone, PartialEq)]
pub struct FlightSummary {
    pub total_ms: i64,
    pub taxi_ms: i64,
    pub airborne_ms: i64,
    pub landings: Vec<LandingKind>,
}

/// Total duration of the segments of phase `kind` among the first `n`.
pub open spec fn time_in(segs: Seq<PhaseSegment>, kind: PhaseKind, n: int) -> int
    decreases n,
{
    if n <= 0 {
        0
    } else {
        time_in(segs, kind, n - 1) + if segs[n - 1].kind == kind {
            dur(segs[n - 1])
        } else {
            0
        }
    }
}

/// Total duration of segments `i..j`.
pub open spec fn run_time(segs: Seq<PhaseSegment>, i: int, j: int) -> int
    decreases j - i,
{
    if j <= i {
        0
    } else {
        run_time(segs, i, j - 1) + dur(segs[j - 1])
    }
}

/// The first airborne segment at or after `i` (`segs.len()` if none).
pub open spec fn next_airborne(segs: Seq<PhaseSegment>, i: int) -> int
    decreases segs.len() - i,
{
    if i < 0 || i >= segs.len() {
        segs.len() as int
    } else if segs[i].kind == PhaseKind::Airborne {
        i
    } else {
        next_airborne(segs, i + 1)
    }
}

/// Segment `i` is airborne and the next is not: a landing.
pub open spec fn is_landing(segs: Seq<PhaseSegment>, i: int) -> bool {
    0 <= i && i + 1 < segs.len() && segs[i].kind == PhaseKind::Airborne && segs[i + 1].kind
        != PhaseKind::Airborne
}

/// A landing is a touch-and-go when the aircraft took off again within
/// the limit; otherwise (a longer stay, or the end of the track) a full
/// stop.
pub open spec fn landing_kind(segs: Seq<PhaseSegment>, i: int) -> LandingKind {
    let j = next_airborne(segs, i + 1);
    if run_time(segs, i + 1, j) <= TOUCH_AND_GO_MAX_GROUND_SECONDS * 1000 && j < segs.len() {
        LandingKind::TouchAndGo
    } else {
        LandingKind::FullStop
    }
}

/// The landings among the first `n` segments, in order.
pub open spec fn landings_spec(segs: Seq<PhaseSegment>, n: int) -> Seq<LandingKind>
    decreases n,
{
    if n <= 0 {
        Seq::empty()
    } else if is_landing(segs, n - 1) {
        landings_spec(segs, n - 1).push(landing_kind(segs, n - 1))
    } else {
        landings_spec(segs, n - 1)
    }
}

/// The sums `summarize` forms stay within the duration range (beyond it
/// the durations the analysis adds up overflow).
pub open spec fn sums_fit(segs: Seq<PhaseSegment>) -> bool {
    &&& forall|k: int| 0 <= k < segs.len() ==> fits(dur(#[trigger] segs[k]))
    &&& forall|n: int|
        0 <= n <= segs.len() ==> fits(#[trigger] time_in(segs, PhaseKind::Taxi, n)) && fits(
            time_in(segs, PhaseKind::Airborne, n),
        )
    &&& forall|i: int, j: int|
        #![trigger is_landing(segs, i), run_time(segs, i + 1, j)]
        is_landing(segs, i) && i + 1 <= j <= next_airborne(segs, i + 1) ==> fits(
            run_time(segs, i + 1, j),
        )
    &&& segs.len() > 0 ==> fits(segs.last().end_ms - segs[0].start_ms)
}

proof fn lemma_next_airborne_bounds(segs: Seq<PhaseSegment>, i: int)
    requires
        0 <= i <= segs.len(),
    ensures
        i <= next_airborne(segs, i) <= segs.len(),
        next_airborne(segs, i) < segs.len() ==> segs[next_airborne(segs, i)].kind
            == PhaseKind::Airborne,
        forall|k: int| i <= k < next_airborne(segs, i) ==> (#[trigger] segs[k]).kind != PhaseKind::Airborne,
    decreases segs.len() - i,
{
    if i < segs.len() && segs[i].kind != PhaseKind::Airborne {
        lemma_next_airborne_bounds(segs, i + 1);
    }
}

/// Ground time after the landing at `i` and where it ends.
fn ground_after(segs: &[PhaseSegment], i: usize) -> (r: (i64, usize))
    requires
        sums_fit(segs@),
        is_landing(segs@, i as int),
    ensures
        r.1 == next_airborne(segs@, i + 1),
        r.0 == run_time(segs@, i + 1, r.1 as int),
{
    proof {
        lemma_next_airborne_bounds(segs@, i + 1);
    }
    assert(i + 1 < segs@.len());
    assert(segs@.len() == segs.len());
    let mut ground: i64 = 0;
    let mut j: usize = i + 1;
    while j < segs.len() && segs[j].kind != PhaseKind::Airborne
        invariant
            sums_fit(segs@),
            is_landing(segs@, i as int),
            i + 1 <= j <= next_airborne(segs@, i + 1) <= segs@.len(),
            next_airborne(segs@, i + 1) == next_airborne(segs@, j as int),
            ground == run_time(segs@, i + 1, j as int),
        decreases segs.len() - j,
    {
        proof {
            lemma_next_airborne_bounds(segs@, j + 1);
            assert(next_airborne(segs@, j as int) == next_airborne(segs@, j + 1));
            assert(is_landing(segs@, i as int));
            assert(fits(run_time(segs@, i + 1, j + 1)));
            assert(fits(dur(segs@[j as int])));
        }
        ground = ground + segs[j].duration();
        j = j + 1;
    }
    (ground, j)
}

proof fn lemma_prefix_fits_extend(s: Seq<PhaseSegment>, m: int)
    requires
        0 <= m,
        forall|q: int|
            0 <= q <= m ==> fits(#[trigger] time_in(s, PhaseKind::Taxi, q)) && fits(
                time_in(s, PhaseKind::Airborne, q),
            ),
        fits(time_in(s, PhaseKind::Taxi, m + 1)),
        fits(time_in(s, PhaseKind::Airborne, m + 1)),
    ensures
        forall|q: int|
            0 <= q <= m + 1 ==> fits(#[trigger] time_in(s, PhaseKind::Taxi, q)) && fits(
                time_in(s, PhaseKind::Airborne, q),
            ),
{
}

/// Whether a segmented track can be summarized: each duration and every
/// sum [`summarize`] forms stays within the duration range. Tracks with
/// real timestamps always can.
pub fn summary_fits(segments: &[PhaseSegment]) -> (r: bool)
    ensures
        r == sums_fit(segments@),
{
    let ghost s = segments@;
    let n = segments.len();
    let lim: i128 = 0x7fff_ffff_ffff_ffff;
    let mut k: usize = 0;
    while k < n
        invariant
            0 <= k <= n,
            n == s.len(),
            s == segments@,
            lim == i64::MAX,
            forall|m: int| 0 <= m < k ==> fits(dur(#[trigger] s[m])),
        decreases n - k,
    {
        let d: i128 = segments[k].end_ms as i128 - segments[k].start_ms as i128;
        if d < -lim || d > lim {
            assert(!fits(dur(s[k as int])));
            return false;
        }
        k = k + 1;
    }
    let mut taxi: i128 = 0;
    let mut air: i128 = 0;
    let mut m: usize = 0;
    while m < n
        invariant
            0 <= m <= n,
            n == s.len(),
            s == segments@,
            lim == i64::MAX,
            forall|q: int| 0 <= q < n ==> fits(dur(#[trigger] s[q])),
            taxi == time_in(s, PhaseKind::Taxi, m as int),
            air == time_in(s, PhaseKind::Airborne, m as int),
            forall|q: int|
                0 <= q <= m ==> fits(#[trigger] time_in(s, PhaseKind::Taxi, q)) && fits(
                    time_in(s, PhaseKind::Airborne, q),
                ),
        decreases n - m,
    {
        let d: i128 = segments[m].end_ms as i128 - segments[m].start_ms as i128;
        assert(fits(dur(s[m as int])));
        match segments[m].kind {
            PhaseKind::Taxi => {
                taxi = taxi + d;
            },
            PhaseKind::Airborne => {
                air = air + d;
            },
            PhaseKind::Ground => {},
        }
        assert(taxi == time_in(s, PhaseKind::Taxi, m + 1));
        assert(air == time_in(s, PhaseKind::Airborne, m + 1));
        if taxi < -lim || taxi > lim || air < -lim || air > lim {
            assert(!(fits(time_in(s, PhaseKind::Taxi, m + 1)) && fits(time_in(s, PhaseKind::Airborne, m + 1))));
            return false;
        }
        proof {
            lemma_prefix_fits_extend(s, m as int);
        }
        m = m + 1;
    }
    let mut i: usize = 0;
    while i < n
        invariant
            0 <= i <= n,
            n == s.len(),
            s == segments@,
            lim == i64::MAX,
            forall|q: int| 0 <= q < n ==> fits(dur(#[trigger] s[q])),
            forall|i2: int, j: int|
                #![trigger is_landing(s, i2), run_time(s, i2 + 1, j)]
                0 <= i2 < i && is_landing(s, i2) && i2 + 1 <= j <= next_airborne(s, i2 + 1) ==> fits(
                    run_time(s, i2 + 1, j),
                ),
        decreases n - i,
    {
        if i + 1 < n && segments[i].kind == PhaseKind::Airborne && segments[i + 1].kind
            != PhaseKind::Airborne {
            assert(is_landing(s, i as int));
            let mut run: i128 = 0;
            let mut j: usize = i + 1;
            proof {
                lemma_next_airborne_bounds(s, i + 1);
            }
            while j < n && segments[j].kind != PhaseKind::Airborne
                invariant
                    0 <= i < n,
                    is_landing(s, i as int),
                    n == s.len(),
                    s == segments@,
                    lim == i64::MAX,
                    forall|q: int| 0 <= q < n ==> fits(dur(#[trigger] s[q])),
                    i + 1 <= j <= next_airborne(s, i + 1) <= n,
                    next_airborne(s, i + 1) == next_airborne(s, j as int),
                    run == run_time(s, i + 1, j as int),
                    forall|j2: int|
                        i + 1 <= j2 <= j ==> fits(#[trigger] run_time(s, i + 1, j2)),
                decreases n - j,
            {
                proof {
                    lemma_next_airborne_bounds(s, j + 1);
                }
                assert(fits(dur(s[j as int])));
                run = run + (segments[j].end_ms as i128 - segments[j].start_ms as i128);
                assert(run == run_time(s, i + 1, j + 1));
                if run < -lim || run > lim {
                    assert(is_landing(s, i as int));
                    assert(!fits(run_time(s, i + 1, j + 1)));
                    return false;
                }
                j = j + 1;
            }
            proof {
                assert forall|i2: int, j2: int|
                    #![trigger is_landing(s, i2), run_time(s, i2 + 1, j2)]
                    0 <= i2 < i + 1 && is_landing(s, i2) && i2 + 1 <= j2 <= next_airborne(s, i2 + 1)
                        implies fits(run_time(s, i2 + 1, j2)) by {
                    if i2 == i {
                        assert(j2 <= j);
                    }
                }
            }
        }
        i = i + 1;
    }
    if n > 0 {
        let t: i128 = segments[n - 1].end_ms as i128 - segments[0].start_ms as i128;
        if t < -lim || t > lim {
            return false;
        }
    }
    true
}

/// How many of `landings` are of `kind`.
pub open spec fn count_kind(landings: Seq<LandingKind>, kind: LandingKind) -> nat
    decreases landings.len(),
{
    if landings.len() == 0 {
        0
    } else {
        count_kind(landings.drop_last(), kind) + if landings.last() == kind {
            1nat
        } else {
            0nat
        }
    }
}

/// The touch-and-go and full-stop counts of a list of landings.
pub fn landing_counts(landings: &[LandingKind]) -> (r: (usize, usize))
    ensures
        r.0 == count_kind(landings@, LandingKind::TouchAndGo),
        r.1 == count_kind(landings@, LandingKind::FullStop),
        r.0 + r.1 == landings@.len(),
{
    let mut tg: usize = 0;
    let mut fs: usize = 0;
    let mut i: usize = 0;
    while i < landings.len()
        invariant
            0 <= i <= landings@.len(),
            tg == count_kind(landings@.take(i as int), LandingKind::TouchAndGo),
            fs == count_kind(landings@.take(i as int), LandingKind::FullStop),
            tg + fs == i,
        decreases landings.len() - i,
    {
        assert(landings@.take(i + 1).drop_last() =~= landings@.take(i as int));
        match landings[i] {
            LandingKind::TouchAndGo => tg = tg + 1,
            LandingKind::FullStop => fs = fs + 1,
        }
        i = i + 1;
    }
    assert(landings@.take(landings@.len() as int) =~= landings@);
    (tg, fs)
}

/// Total, taxi and airborne time of a segmented track, and its landings:
/// each airborne → non-airborne transition, a touch-and-go when the
/// ground time until the next airborne segment is brief and there is
/// one, else a full stop.
pub fn summarize(segments: &[PhaseSegment]) -> (r: FlightSummary)
    requires
        sums_fit(segments@),
    ensures
        r.taxi_ms == time_in(segments@, PhaseKind::Taxi, segments@.len() as int),
        r.airborne_ms == time_in(segments@, PhaseKind::Airborne, segments@.len() as int),
        r.total_ms == if segments@.len() == 0 {
            0
        } else {
            segments@.last().end_ms - segments@[0].start_ms
        },
        r.landings@ == landings_spec(segments@, segments@.len() as int),
{
    let n = segments.len();
    let mut taxi: i64 = 0;
    let mut airborne: i64 = 0;
    let mut k: usize = 0;
    while k < n
        invariant
            n == segments@.len(),
            sums_fit(segments@),
            0 <= k <= n,
            taxi == time_in(segments@, PhaseKind::Taxi, k as int),
            airborne == time_in(segments@, PhaseKind::Airborne, k as int),
        decreases n - k,
    {
        proof {
            assert(fits(time_in(segments@, PhaseKind::Taxi, k + 1)));
            assert(fits(time_in(segments@, PhaseKind::Airborne, k + 1)));
            assert(fits(dur(segments@[k as int])));
        }
        match segments[k].kind {
            PhaseKind::Taxi => taxi = taxi + segments[k].duration(),
            PhaseKind::Airborne => airborne = airborne + segments[k].duration(),
            PhaseKind::Ground => {},
        }
        k = k + 1;
    }
    let mut landings: Vec<LandingKind> = Vec::new();
    let mut i: usize = 0;
    while i < n
        invariant
            n == segments@.len(),
            sums_fit(segments@),
            0 <= i <= n,
            landings@ == landings_spec(segments@, i as int),
        decreases n - i,
    {
        if segments[i].kind == PhaseKind::Airborne && i + 1 < n && segments[i + 1].kind
            != PhaseKind::Airborne {
            let (ground, j) = ground_after(segments, i);
            let kind = if ground <= TOUCH_AND_GO_MAX_GROUND_SECONDS * 1000 && j < n {
                LandingKind::TouchAndGo
            } else {
                LandingKind::FullStop
            };
            landings.push(kind);
        }
        i = i + 1;
    }
    let total = if n == 0 {
        0
    } else {
        segments[n - 1].end_ms - segments[0].start_ms
    };
    FlightSummary { total_ms: total, taxi_ms: taxi, airborne_ms: airborne, landings }
}

/// There is one landing per airborne → non-airborne transition.
pub proof fn lemma_landing_count(segs: Seq<PhaseSegment>, n: int)
    requires
        0 <= n <= segs.len(),
    ensures
        landings_spec(segs, n).len() == Set::new(|i: int| 0 <= i < n && is_landing(segs, i)).len(),
    decreases n,
{
    let s = Set::new(|i: int| 0 <= i < n && is_landing(segs, i));
    if n == 0 {
        assert(s =~= Set::empty());
    } else {
        lemma_landing_count(segs, n - 1);
        let t = Set::new(|i: int| 0 <= i < n - 1 && is_landing(segs, i));
        lemma_landing_set_finite(segs, n - 1);
        if is_landing(segs, n - 1) {
            assert(s =~= t.insert(n - 1));
        } else {
            assert(s =~= t);
        }
    }
}

proof fn lemma_landing_set_finite(segs: Seq<PhaseSegment>, n: int)
    requires
        0 <= n,
    ensures
        Set::new(|i: int| 0 <= i < n && is_landing(segs, i)).finite(),
    decreases n,
{
    let s = Set::new(|i: int| 0 <= i < n && is_landing(segs, i));
    if n == 0 {
        assert(s =~= Set::empty());
    } else {
        lemma_landing_set_finite(segs, n - 1);
        let t = Set::new(|i: int| 0 <= i < n - 1 && is_landing(segs, i));
        assert(s =~= t.insert(n - 1) || s =~= t);
        if is_landing(segs, n - 1) {
            assert(s =~= t.insert(n - 1));
        } else {
            assert(s =~= t);
        }
    }
}

/// A touch-and-go is always followed by another airborne segment: the
/// track never ends on one.
pub proof fn lemma_touch_and_go_takes_off_again(segs: Seq<PhaseSegment>, i: int)
    requires
        is_landing(segs, i),
        landing_kind(segs, i) == LandingKind::TouchAndGo,
    ensures
        exists|j: int| i + 1 < j < segs.len() && segs[j].kind == PhaseKind::Airborne,
{
    lemma_next_airborne_bounds(segs, i + 1);
    let j = next_airborne(segs, i + 1);
    assert(segs[i + 1].kind != PhaseKind::Airborne);
    assert(j != i + 1);
}


/// The XML text for one character of a track's name: the five
/// characters XML reserves as entities, every other as itself.
pub open spec fn xml_char(c: char) -> Seq<char> {
    if c == '&' {
        "&amp;"@
    } else if c == '<' {
        "&lt;"@
    } else if c == '>' {
        "&gt;"@
    } else if c == '"' {
        "&quot;"@
    } else if c == '\'' {
        "&apos;"@
    } else {
        seq![c]
    }
}

/// `s` escaped for XML text and attribute values, character by character.
pub open spec fn xml_escaped(s: Seq<char>) -> Seq<char>
    decreases s.len(),
{
    if s.len() == 0 {
        Seq::empty()
    } else {
        xml_escaped(s.drop_last()) + xml_char(s.last())
    }
}

/// Escaped text holds none of the characters XML reserves for markup
/// and quoting: `<`, `>`, `"`, `'`.
pub proof fn lemma_escaped_has_no_markup(s: Seq<char>)
    ensures
        forall|i: int|
            0 <= i < xml_escaped(s).len() ==> {
                let c = #[trigger] xml_escaped(s)[i];
                c != '<' && c != '>' && c != '"' && c != '\''
            },
    decreases s.len(),
{
    if s.len() > 0 {
        lemma_escaped_has_no_markup(s.drop_last());
        let prev = xml_escaped(s.drop_last());
        let tail = xml_char(s.last());
        reveal_strlit("&amp;");
        reveal_strlit("&lt;");
        reveal_strlit("&gt;");
        reveal_strlit("&quot;");
        reveal_strlit("&apos;");
        assert forall|i: int| 0 <= i < xml_escaped(s).len() implies {
            let c = #[trigger] xml_escaped(s)[i];
            c != '<' && c != '>' && c != '"' && c != '\''
        } by {
            if i < prev.len() {
                assert(xml_escaped(s)[i] == prev[i]);
            } else {
                assert(xml_escaped(s)[i] == tail[i - prev.len()]);
            }
        }
    }
}

/// Escapes the characters XML reserves, for text written into a GPX
/// document.
pub fn escape_xml(s: &str) -> (r: String)
    ensures
        r@ == xml_escaped(s@),
{
    let v = to_chars(s);
    let mut out: Vec<char> = Vec::new();
    let mut i: usize = 0;
    while i < v.len()
        invariant
            0 <= i <= v@.len(),
            v@ == s@,
            out@ == xml_escaped(v@.take(i as int)),
        decreases v.len() - i,
    {
        let c = v[i];
        assert(v@.take(i + 1).drop_last() =~= v@.take(i as int));
        if c == '&' {
            push_lit(&mut out, "&amp;");
        } else if c == '<' {
            push_lit(&mut out, "&lt;");
        } else if c == '>' {
            push_lit(&mut out, "&gt;");
        } else if c == '"' {
            push_lit(&mut out, "&quot;");
        } else if c == '\'' {
            push_lit(&mut out, "&apos;");
        } else {
            out.push(c);
            assert(out@ =~= xml_escaped(v@.take(i as int)) + seq![c]);
        }
        i = i + 1;
    }
    assert(v@.take(v@.len() as int) =~= v@);
    string_from(&out)
}
} // verus!
