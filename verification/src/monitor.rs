//! The per-buffer monitoring step: what the audio callback computes.
//!
//! One `Monitor` holds the meter, the smoother, the detector and the
//! threshold configuration. `process_buffer` is the whole of one callback
//! invocation, minus the I/O around it: meter the buffer, smooth the raw
//! level for display, evaluate the threshold edge, and fold the results
//! into the shared state. The embedding program converts the device's
//! samples to micro-amplitudes, takes its lock, and calls this.

use vstd::prelude::*;
use crate::detector::{
    spec_detector_crossed, spec_detector_next, DetectorState, ThresholdConfig, ThresholdDetector,
};
use crate::level::{spec_level, LevelMeter, MICRO_FULL_SCALE};
use crate::smoothing::{spec_smooth_step, Smoother};
use crate::state::{spec_state_update, SharedLevelState};

verus! {

/// The complete per-buffer computation of the monitoring pipeline.
pub struct Monitor {
    /// Peak meter with the configured silence floor.
    pub meter: LevelMeter,
    /// Display smoother.
    pub smoother: Smoother,
    /// One-shot threshold detector.
    pub detector: ThresholdDetector,
    /// The threshold being watched.
    pub config: ThresholdConfig,
}

impl Monitor {
    /// All parts well-formed.
    pub open spec fn wf(self) -> bool {
        &&& self.meter.wf()
        &&& self.smoother.wf()
        &&& self.config.wf()
    }

    /// A monitor at startup: smoother at the floor, detector armed.
    pub fn new(config: ThresholdConfig, floor_mdb: i32, alpha_num: u32, alpha_den: u32) -> (r:
        Monitor)
        requires
            config.wf(),
            -1000000 <= floor_mdb <= 0,
            1 <= alpha_num <= alpha_den <= 1000000,
        ensures
            r.wf(),
            r.config == config,
            r.meter.floor_mdb == floor_mdb,
            r.smoother.alpha_num == alpha_num,
            r.smoother.alpha_den == alpha_den,
            r.smoother.smoothed == floor_mdb,
            r.detector.state == DetectorState::Below,
    {
        Monitor {
            meter: LevelMeter::new(floor_mdb),
            smoother: Smoother::new(alpha_num, alpha_den, floor_mdb),
            detector: ThresholdDetector::new(),
            config,
        }
    }

    /// One audio callback's worth of computation. Returns whether this
    /// buffer newly crossed the threshold; the raw level, the smoothed
    /// level (also used as the display level) and the crossing report are
    /// folded into `shared`, whose crossed flag is sticky.
    pub fn process_buffer(&mut self, samples: &Vec<u32>, shared: &mut SharedLevelState) -> (crossed:
        bool)
        requires
            old(self).wf(),
            forall|i: int| 0 <= i < samples@.len() ==> samples@[i] <= MICRO_FULL_SCALE,
        ensures
            final(self).wf(),
            final(self).meter == old(self).meter,
            final(self).config == old(self).config,
            ({
                let raw = spec_level(samples@, old(self).meter.floor_mdb as int);
                let smoothed = spec_smooth_step(
                    old(self).smoother.smoothed as int,
                    raw,
                    old(self).smoother.alpha_num as int,
                    old(self).smoother.alpha_den as int,
                );
                &&& final(self).smoother.smoothed == smoothed
                &&& final(self).smoother.alpha_num == old(self).smoother.alpha_num
                &&& final(self).smoother.alpha_den == old(self).smoother.alpha_den
                &&& crossed == spec_detector_crossed(
                    old(self).detector.state,
                    raw,
                    old(self).config.threshold_mdb as int,
                )
                &&& final(self).detector.state == spec_detector_next(
                    old(self).detector.state,
                    raw,
                    old(self).config.threshold_mdb as int,
                )
                &&& *final(shared) == spec_state_update(
                    *old(shared),
                    raw as i32,
                    smoothed as i32,
                    smoothed as i32,
                    crossed,
                )
            }),
    {
        let raw = self.meter.measure(samples);
        let smoothed = self.smoother.step(raw);
        let crossed = self.detector.evaluate(raw, &self.config);
        shared.update(raw, smoothed, smoothed, crossed);
        crossed
    }
}

} // verus!
