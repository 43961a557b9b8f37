//! Edge-triggered threshold detection.
//!
//! The detector is a two-state machine (`Below` / `Above`) fed the raw
//! milli-dB level of each buffer. It reports a crossing exactly once per
//! excursion above the threshold: on the first evaluation at or above the
//! threshold (the comparison is inclusive), and not again until the level
//! has dropped back below the threshold and re-armed the detector.

use vstd::prelude::*;
use crate::smoothing::{db_to_amplitude, spec_db_to_amplitude};

verus! {

/// The two states of the edge detector.
#[derive(Clone, Copy, Debug, PartialEq, Eq, Structural)]
pub enum DetectorState {
    /// The last evaluated level was below the threshold (or none was yet).
    Below,
    /// The last evaluated level was at or above the threshold.
    Above,
}

/// Immutable threshold configuration, fixed at startup: the threshold in
/// whole decibels, the same value in milli-dB for level comparisons, and
/// its linear-amplitude equivalent in millionths of full scale.
pub struct ThresholdConfig {
    /// The configured threshold, in whole decibels.
    pub threshold_db: i32,
    /// The same threshold in milli-dB.
    pub threshold_mdb: i32,
    /// `10^(threshold_db/20)` in millionths of full scale.
    pub linear_threshold_micro: u32,
}

impl ThresholdConfig {
    /// The derived fields agree with the threshold.
    pub open spec fn wf(self) -> bool {
        &&& -120 <= self.threshold_db <= 0
        &&& self.threshold_mdb == 1000 * self.threshold_db
        &&& self.linear_threshold_micro == spec_db_to_amplitude(self.threshold_db as int)
    }

    /// Build the configuration from a whole-decibel threshold. A threshold
    /// outside `[-120, 0]` is invalid (it lies outside the range of levels
    /// the meter can report) and is rejected before any stream is started.
    pub fn new(threshold_db: i32) -> (r: Option<ThresholdConfig>)
        ensures
            r is Some <==> -120 <= threshold_db <= 0,
            r is Some ==> r->0.wf() && r->0.threshold_db == threshold_db,
    {
        if threshold_db < -120 || threshold_db > 0 {
            None
        } else {
            let linear = db_to_amplitude(threshold_db);
            Some(ThresholdConfig {
                threshold_db,
                threshold_mdb: 1000 * threshold_db,
                linear_threshold_micro: linear,
            })
        }
    }
}

/// Whether an evaluation reports a crossing: only a level at or above the
/// threshold seen while the detector is still in `Below` does.
pub open spec fn spec_detector_crossed(st: DetectorState, raw_mdb: int, threshold_mdb: int) -> bool {
    st == DetectorState::Below && raw_mdb >= threshold_mdb
}

/// The detector state after evaluating one level: it tracks whether that
/// level was at or above the threshold.
pub open spec fn spec_detector_next(st: DetectorState, raw_mdb: int, threshold_mdb: int) -> DetectorState {
    if raw_mdb >= threshold_mdb {
        DetectorState::Above
    } else {
        DetectorState::Below
    }
}

/// The detector state after evaluating a whole sequence of levels in order.
pub open spec fn spec_run_state(st: DetectorState, levels: Seq<i32>, threshold_mdb: int) -> DetectorState
    decreases levels.len(),
{
    if levels.len() == 0 {
        st
    } else {
        spec_run_state(
            spec_detector_next(st, levels[0] as int, threshold_mdb),
            levels.drop_first(),
            threshold_mdb,
        )
    }
}

/// The sequence of crossing reports produced by evaluating `levels` in order.
pub open spec fn spec_run_outputs(st: DetectorState, levels: Seq<i32>, threshold_mdb: int) -> Seq<bool>
    decreases levels.len(),
{
    if levels.len() == 0 {
        Seq::empty()
    } else {
        seq![spec_detector_crossed(st, levels[0] as int, threshold_mdb)] + spec_run_outputs(
            spec_detector_next(st, levels[0] as int, threshold_mdb),
            levels.drop_first(),
            threshold_mdb,
        )
    }
}

/// One-shot threshold detector.
pub struct ThresholdDetector {
    /// Whether the previous level was below or at-or-above the threshold.
    pub state: DetectorState,
}

impl ThresholdDetector {
    /// A fresh detector, armed: the next level at or above the threshold
    /// will report a crossing.
    pub fn new() -> (r: ThresholdDetector)
        ensures
            r.state == DetectorState::Below,
    {
        ThresholdDetector { state: DetectorState::Below }
    }

    /// Evaluate one raw level against the threshold. Reports `true` exactly
    /// when this level is at or above the threshold (inclusive: equality
    /// counts as crossed) and the previous one was not.
    pub fn evaluate(&mut self, raw_mdb: i32, config: &ThresholdConfig) -> (crossed: bool)
        ensures
            crossed == spec_detector_crossed(
                old(self).state,
                raw_mdb as int,
                config.threshold_mdb as int,
            ),
            final(self).state == spec_detector_next(
                old(self).state,
                raw_mdb as int,
                config.threshold_mdb as int,
            ),
    {
        if raw_mdb >= config.threshold_mdb {
            let crossed = self.state == DetectorState::Below;
            self.state = DetectorState::Above;
            crossed
        } else {
            self.state = DetectorState::Below;
            false
        }
    }
}

/// Running the detector over two sequences in a row is running it over
/// their concatenation: the final state composes and the reports append.
pub proof fn lemma_run_append(st: DetectorState, a: Seq<i32>, b: Seq<i32>, threshold_mdb: int)
    ensures
        spec_run_state(st, a + b, threshold_mdb)
            == spec_run_state(spec_run_state(st, a, threshold_mdb), b, threshold_mdb),
        spec_run_outputs(st, a + b, threshold_mdb)
            == spec_run_outputs(st, a, threshold_mdb)
                + spec_run_outputs(spec_run_state(st, a, threshold_mdb), b, threshold_mdb),
    decreases a.len(),
{
    if a.len() == 0 {
        assert(a + b =~= b);
        assert(spec_run_outputs(st, a, threshold_mdb) + spec_run_outputs(st, b, threshold_mdb)
            =~= spec_run_outputs(st, b, threshold_mdb));
    } else {
        let st1 = spec_detector_next(st, a[0] as int, threshold_mdb);
        assert((a + b).drop_first() =~= a.drop_first() + b);
        lemma_run_append(st1, a.drop_first(), b, threshold_mdb);
        assert(spec_run_outputs(st, a + b, threshold_mdb)
            =~= spec_run_outputs(st, a, threshold_mdb)
                + spec_run_outputs(spec_run_state(st, a, threshold_mdb), b, threshold_mdb));
    }
}

/// While the level stays at or above the threshold, a detector already in
/// `Above` reports nothing and stays in `Above`.
pub proof fn lemma_detector_saturated(levels: Seq<i32>, threshold_mdb: int)
    requires
        forall|i: int| 0 <= i < levels.len() ==> levels[i] >= threshold_mdb,
    ensures
        spec_run_state(DetectorState::Above, levels, threshold_mdb) == DetectorState::Above,
        spec_run_outputs(DetectorState::Above, levels, threshold_mdb)
            =~= Seq::new(levels.len(), |i: int| false),
    decreases levels.len(),
{
    if levels.len() > 0 {
        lemma_detector_saturated(levels.drop_first(), threshold_mdb);
    }
}

/// One-shot law: over a nonempty run of levels all at or above the
/// threshold, an armed detector reports a crossing on the first evaluation
/// and on no other, however long the excursion lasts, and ends in `Above`.
pub proof fn lemma_detector_one_shot(levels: Seq<i32>, threshold_mdb: int)
    requires
        levels.len() >= 1,
        forall|i: int| 0 <= i < levels.len() ==> levels[i] >= threshold_mdb,
    ensures
        spec_run_outputs(DetectorState::Below, levels, threshold_mdb).len() == levels.len(),
        spec_run_outputs(DetectorState::Below, levels, threshold_mdb)[0] == true,
        forall|i: int| 1 <= i < levels.len()
            ==> spec_run_outputs(DetectorState::Below, levels, threshold_mdb)[i] == false,
        spec_run_state(DetectorState::Below, levels, threshold_mdb) == DetectorState::Above,
{
    lemma_detector_saturated(levels.drop_first(), threshold_mdb);
}

/// While the level stays below the threshold, no crossing is reported from
/// any starting state, and the detector ends re-armed in `Below`.
pub proof fn lemma_detector_re_arms(st: DetectorState, levels: Seq<i32>, threshold_mdb: int)
    requires
        forall|i: int| 0 <= i < levels.len() ==> levels[i] < threshold_mdb,
    ensures
        spec_run_outputs(st, levels, threshold_mdb) =~= Seq::new(levels.len(), |i: int| false),
        levels.len() >= 1 ==> spec_run_state(st, levels, threshold_mdb) == DetectorState::Below,
    decreases levels.len(),
{
    if levels.len() > 0 {
        lemma_detector_re_arms(DetectorState::Below, levels.drop_first(), threshold_mdb);
    }
}

/// Re-arm law: an excursion above the threshold, a fall below it, and a
/// second excursion produce exactly two crossing reports — one at the start
/// of each excursion — and nothing else.
pub proof fn lemma_detector_two_excursions(
    rise1: Seq<i32>,
    fall: Seq<i32>,
    rise2: Seq<i32>,
    threshold_mdb: int,
)
    requires
        rise1.len() >= 1,
        fall.len() >= 1,
        rise2.len() >= 1,
        forall|i: int| 0 <= i < rise1.len() ==> rise1[i] >= threshold_mdb,
        forall|i: int| 0 <= i < fall.len() ==> fall[i] < threshold_mdb,
        forall|i: int| 0 <= i < rise2.len() ==> rise2[i] >= threshold_mdb,
    ensures
        ({
            let out = spec_run_outputs(DetectorState::Below, rise1 + fall + rise2, threshold_mdb);
            &&& out.len() == rise1.len() + fall.len() + rise2.len()
            &&& forall|i: int| 0 <= i < out.len()
                ==> (out[i] <==> (i == 0 || i == rise1.len() + fall.len()))
        }),
{
    lemma_run_append(DetectorState::Below, rise1 + fall, rise2, threshold_mdb);
    lemma_run_append(DetectorState::Below, rise1, fall, threshold_mdb);
    lemma_detector_one_shot(rise1, threshold_mdb);
    lemma_detector_re_arms(DetectorState::Above, fall, threshold_mdb);
    lemma_detector_one_shot(rise2, threshold_mdb);
    let out = spec_run_outputs(DetectorState::Below, rise1 + fall + rise2, threshold_mdb);
    let out1 = spec_run_outputs(DetectorState::Below, rise1, threshold_mdb);
    let out2 = spec_run_outputs(DetectorState::Above, fall, threshold_mdb);
    let out3 = spec_run_outputs(DetectorState::Below, rise2, threshold_mdb);
    assert(rise1 + fall + rise2 == (rise1 + fall) + rise2);
    assert(out =~= (out1 + out2) + out3);
    assert forall|i: int| 0 <= i < out.len()
        implies (out[i] <==> (i == 0 || i == rise1.len() + fall.len())) by {
        if i < rise1.len() {
            assert(out[i] == out1[i]);
        } else if i < rise1.len() + fall.len() {
            assert(out[i] == out2[i - rise1.len()]);
        } else {
            assert(out[i] == out3[i - rise1.len() - fall.len()]);
        }
    }
}

} // verus!
