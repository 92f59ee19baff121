//! The state that the control loop carries from tick to tick: the setpoint,
//! which follows the power source, and the tick counter that paces reports.
//! Temperatures are in millidegrees Celsius, as the sensor reports them.
use vstd::prelude::*;

verus! {

/// How far the setpoint rises while on AC power, in millidegrees.
pub const AC_ADJUSTMENT: i64 = 6000;

/// A status report is due once every this many ticks.
pub const REPORT_INTERVAL: u64 = 12;

/// What the setpoint logic knows.
pub struct SetpointModel {
    pub base_target: int,
    pub ac_adjustment: int,
    pub power_online: bool,
    pub target: int,
}

/// The setpoint that belongs to a power state.
pub open spec fn target_for(base_target: int, ac_adjustment: int, online: bool) -> int {
    if online {
        base_target + ac_adjustment
    } else {
        base_target
    }
}

impl SetpointModel {
    pub open spec fn wf(self) -> bool {
        self.target == target_for(self.base_target, self.ac_adjustment, self.power_online)
    }
}

/// The setpoint state after the power source is seen to be `online`, and
/// the new setpoint if it changed: it changes only on an edge of the power
/// state, to the base on battery and to the base plus the adjustment on AC.
pub open spec fn observe_outcome(m: SetpointModel, online: bool) -> (SetpointModel, Option<int>) {
    if m.power_online == online {
        (m, None)
    } else {
        let t = target_for(m.base_target, m.ac_adjustment, online);
        (SetpointModel { power_online: online, target: t, ..m }, Some(t))
    }
}

/// The setpoint state after each of `seen` is observed in turn.
pub open spec fn observe_run(m: SetpointModel, seen: Seq<bool>) -> SetpointModel
    decreases seen.len(),
{
    if seen.len() == 0 {
        m
    } else {
        observe_run(observe_outcome(m, seen[0]).0, seen.drop_first())
    }
}

/// Whether a power supply's `online` reading means that it is online.
pub fn is_online(reading: i32) -> (r: bool)
    ensures
        r == (reading == 1),
{
    reading == 1
}

/// The control loop's state between ticks.
pub struct ControlState {
    pub base_target: i64,
    pub ac_adjustment: i64,
    pub power_online: bool,
    pub target: i64,
    pub iterations: u64,
}

impl View for ControlState {
    type V = SetpointModel;

    open spec fn view(&self) -> SetpointModel {
        SetpointModel {
            base_target: self.base_target as int,
            ac_adjustment: self.ac_adjustment as int,
            power_online: self.power_online,
            target: self.target as int,
        }
    }
}

impl ControlState {
    pub open spec fn wf(&self) -> bool {
        &&& self@.wf()
        &&& i64::MIN <= self.base_target + self.ac_adjustment <= i64::MAX
    }

    /// The state at startup: on battery, aiming at `base_target`, no tick
    /// taken yet.
    pub fn new(base_target: i64, ac_adjustment: i64) -> (r: ControlState)
        requires
            i64::MIN <= base_target + ac_adjustment <= i64::MAX,
        ensures
            r.wf(),
            r.base_target == base_target,
            r.ac_adjustment == ac_adjustment,
            !r.power_online,
            r.target == base_target,
            r.iterations == 0,
    {
        ControlState { base_target, ac_adjustment, power_online: false, target: base_target, iterations: 0 }
    }

    /// Records the power state just read; returns the new setpoint where it
    /// changed.
    pub fn observe_power(&mut self, online: bool) -> (r: Option<i64>)
        requires
            old(self).wf(),
        ensures
            final(self).wf(),
            (final(self)@, opt_i64(r)) == observe_outcome(old(self)@, online),
            final(self).iterations == old(self).iterations,
    {
        if self.power_online != online {
            if online {
                self.target = self.base_target + self.ac_adjustment;
            } else {
                self.target = self.base_target;
            }
            self.power_online = online;
            Some(self.target)
        } else {
            None
        }
    }

    /// Whether this tick reports its readings.
    pub fn should_report(&self) -> (r: bool)
        ensures
            r == (self.iterations % REPORT_INTERVAL == 0),
    {
        self.iterations % REPORT_INTERVAL == 0
    }

    /// Ends a tick. The counter wraps to zero after `u64::MAX`.
    pub fn advance(&mut self)
        ensures
            final(self)@ == old(self)@,
            final(self).base_target == old(self).base_target,
            final(self).ac_adjustment == old(self).ac_adjustment,
            final(self).iterations == if old(self).iterations == u64::MAX {
                0
            } else {
                (old(self).iterations + 1) as u64
            },
    {
        self.iterations = self.iterations.wrapping_add(1);
    }
}

pub open spec fn opt_i64(o: Option<i64>) -> Option<int> {
    match o {
        Some(v) => Some(v as int),
        None => None,
    }
}

/// Seeing the same power state twice changes nothing the second time: the
/// adjustment is never applied twice.
pub proof fn lemma_observe_idempotent(m: SetpointModel, online: bool)
    ensures
        observe_outcome(observe_outcome(m, online).0, online) == (observe_outcome(m, online).0, None::<int>),
{
}

/// Going onto AC and back onto battery returns the setpoint to the base,
/// and going onto battery and back onto AC returns it to the base plus the
/// adjustment.
pub proof fn lemma_observe_symmetric(m: SetpointModel)
    requires
        m.wf(),
    ensures
        observe_outcome(observe_outcome(m, true).0, false).0.target == m.base_target,
        observe_outcome(observe_outcome(m, false).0, true).0.target == m.base_target + m.ac_adjustment,
{
}

/// After any sequence of power readings the setpoint is the one that belongs
/// to the last reading: the base on battery, the base plus the adjustment on
/// AC, however many readings repeat.
pub proof fn lemma_observe_run(m: SetpointModel, seen: Seq<bool>)
    requires
        m.wf(),
    ensures
        observe_run(m, seen).wf(),
        observe_run(m, seen).base_target == m.base_target,
        observe_run(m, seen).ac_adjustment == m.ac_adjustment,
        seen.len() > 0 ==> observe_run(m, seen).power_online == seen.last(),
        seen.len() > 0 ==> observe_run(m, seen).target == target_for(
            m.base_target,
            m.ac_adjustment,
            seen.last(),
        ),
    decreases seen.len(),
{
    if seen.len() > 0 {
        let rest = seen.drop_first();
        lemma_observe_run(observe_outcome(m, seen[0]).0, rest);
        if rest.len() > 0 {
            assert(rest.last() == seen.last());
        }
    }
}

} // verus!
