//! Shared level snapshot and the consumer-side copy of it.
//!
//! `SharedLevelState` is the one value the audio callback and the consumer
//! loop both touch: the callback overwrites the level fields once per
//! buffer, the consumer copies them out once per tick. The crossed flag is
//! sticky: an update can set it, never clear it, so a crossing observed by
//! the callback can not be missed by a consumer that polls later. The
//! cross-thread plumbing (a mutex or equivalent) is the embedding
//! program's concern; this type carries the values and the update rule.

use vstd::prelude::*;

verus! {

/// The latest levels and the sticky crossed flag, in milli-dB.
pub struct SharedLevelState {
    /// The most recent raw level.
    pub current_mdb: i32,
    /// The most recent smoothed level.
    pub smoothed_mdb: i32,
    /// The level actually shown (here: the smoothed level).
    pub display_mdb: i32,
    /// Whether any evaluation so far reported a threshold crossing.
    pub threshold_crossed: bool,
}

/// What one callback write leaves in the shared state: the three levels
/// replaced, the crossed flag only ever raised.
pub open spec fn spec_state_update(
    s: SharedLevelState,
    current_mdb: i32,
    smoothed_mdb: i32,
    display_mdb: i32,
    crossed_now: bool,
) -> SharedLevelState {
    SharedLevelState {
        current_mdb,
        smoothed_mdb,
        display_mdb,
        threshold_crossed: s.threshold_crossed || crossed_now,
    }
}

/// A whole run of callback writes, applied in order.
pub open spec fn spec_state_update_all(
    s: SharedLevelState,
    writes: Seq<(i32, i32, i32, bool)>,
) -> SharedLevelState
    decreases writes.len(),
{
    if writes.len() == 0 {
        s
    } else {
        spec_state_update_all(
            spec_state_update(s, writes[0].0, writes[0].1, writes[0].2, writes[0].3),
            writes.drop_first(),
        )
    }
}

impl SharedLevelState {
    /// The state at startup: every level at the silence floor, not crossed.
    pub fn new(floor_mdb: i32) -> (r: SharedLevelState)
        ensures
            r.current_mdb == floor_mdb,
            r.smoothed_mdb == floor_mdb,
            r.display_mdb == floor_mdb,
            !r.threshold_crossed,
    {
        SharedLevelState {
            current_mdb: floor_mdb,
            smoothed_mdb: floor_mdb,
            display_mdb: floor_mdb,
            threshold_crossed: false,
        }
    }

    /// One callback write: replace the levels, raise (never clear) the
    /// crossed flag.
    pub fn update(
        &mut self,
        current_mdb: i32,
        smoothed_mdb: i32,
        display_mdb: i32,
        crossed_now: bool,
    )
        ensures
            *final(self) == spec_state_update(
                *old(self),
                current_mdb,
                smoothed_mdb,
                display_mdb,
                crossed_now,
            ),
            final(self).threshold_crossed == (old(self).threshold_crossed || crossed_now),
    {
        self.current_mdb = current_mdb;
        self.smoothed_mdb = smoothed_mdb;
        self.display_mdb = display_mdb;
        self.threshold_crossed = self.threshold_crossed || crossed_now;
    }
}

/// Consistency law for consumer snapshots: once the crossed flag is set in
/// the shared state, no later run of callback writes — whatever levels they
/// carry — can make any snapshot observe it cleared.
pub proof fn lemma_crossed_flag_is_sticky(s: SharedLevelState, writes: Seq<(i32, i32, i32, bool)>)
    requires
        s.threshold_crossed,
    ensures
        spec_state_update_all(s, writes).threshold_crossed,
    decreases writes.len(),
{
    if writes.len() > 0 {
        lemma_crossed_flag_is_sticky(
            spec_state_update(s, writes[0].0, writes[0].1, writes[0].2, writes[0].3),
            writes.drop_first(),
        );
    }
}

/// The consumer-side state, rebuilt from a shared snapshot once per tick.
/// Not shared with the audio thread.
pub struct AppState {
    /// Name of the audio input device being monitored.
    pub device_name: String,
    /// The most recent raw level, in milli-dB.
    pub current_mdb: i32,
    /// The level to display, in milli-dB.
    pub display_mdb: i32,
    /// The configured threshold, in whole decibels.
    pub threshold_db: i32,
    /// Status line shown to the user.
    pub status: String,
    /// Whether the threshold has been crossed.
    pub threshold_reached: bool,
}

impl AppState {
    /// The consumer state at startup, with every level at the floor.
    pub fn new(device_name: String, threshold_db: i32, floor_mdb: i32, status: String) -> (r:
        AppState)
        ensures
            r.device_name == device_name,
            r.current_mdb == floor_mdb,
            r.display_mdb == floor_mdb,
            r.threshold_db == threshold_db,
            r.status == status,
            !r.threshold_reached,
    {
        AppState {
            device_name,
            current_mdb: floor_mdb,
            display_mdb: floor_mdb,
            threshold_db,
            status,
            threshold_reached: false,
        }
    }

    /// One consumer tick: copy the levels and the crossed flag out of a
    /// shared snapshot; the device name, threshold and status stay.
    pub fn update_from_shared(&mut self, shared: &SharedLevelState)
        ensures
            final(self).current_mdb == shared.current_mdb,
            final(self).display_mdb == shared.display_mdb,
            final(self).threshold_reached == shared.threshold_crossed,
            final(self).device_name == old(self).device_name,
            final(self).threshold_db == old(self).threshold_db,
            final(self).status == old(self).status,
    {
        self.current_mdb = shared.current_mdb;
        self.display_mdb = shared.display_mdb;
        self.threshold_reached = shared.threshold_crossed;
    }

    /// Replace the status line (for stream errors reported asynchronously).
    pub fn set_status(&mut self, status: String)
        ensures
            final(self).status == status,
            final(self).device_name == old(self).device_name,
            final(self).current_mdb == old(self).current_mdb,
            final(self).display_mdb == old(self).display_mdb,
            final(self).threshold_db == old(self).threshold_db,
            final(self).threshold_reached == old(self).threshold_reached,
    {
        self.status = status;
    }
}

} // verus!
