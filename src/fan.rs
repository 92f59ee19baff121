//! One fan driven in manual mode: its speed range, the speed last commanded,
//! and the decision of which speed to write, if any.
use vstd::prelude::*;

verus! {

pub open spec fn clamp_spec(value: int, min: int, max: int) -> int {
    if value < min {
        min
    } else if value > max {
        max
    } else {
        value
    }
}

/// `value`, raised to `min` or lowered to `max` where it lies outside them.
pub fn clamp(value: i32, min: i32, max: i32) -> (r: i32)
    ensures
        r == clamp_spec(value as int, min as int, max as int),
{
    if value < min {
        min
    } else if value > max {
        max
    } else {
        value
    }
}

/// What the control logic knows of a fan.
pub struct FanModel {
    pub min_speed: int,
    pub max_speed: int,
    /// The speed last written, if any has been.
    pub commanded: Option<int>,
}

impl FanModel {
    pub open spec fn wf(self) -> bool {
        &&& self.min_speed <= self.max_speed
        &&& (self.commanded matches Some(c) ==> self.min_speed <= c <= self.max_speed)
    }
}

pub open spec fn opt_int(o: Option<i32>) -> Option<int> {
    match o {
        Some(v) => Some(v as int),
        None => None,
    }
}

/// The fan after it is asked for `raw`, and the speed to write, if any: the
/// clamped speed is written unless it is the speed already commanded.
pub open spec fn dispatch_outcome(f: FanModel, raw: int) -> (FanModel, Option<int>) {
    let s = clamp_spec(raw, f.min_speed, f.max_speed);
    (
        FanModel { commanded: Some(s), ..f },
        if f.commanded == Some(s) {
            None
        } else {
            Some(s)
        },
    )
}

/// The fan after it is asked for each of `raws` in turn, and what each of
/// those requests wrote.
pub open spec fn dispatch_run(f: FanModel, raws: Seq<int>) -> (FanModel, Seq<Option<int>>)
    decreases raws.len(),
{
    if raws.len() == 0 {
        (f, Seq::empty())
    } else {
        let (g, w) = dispatch_outcome(f, raws[0]);
        let (h, ws) = dispatch_run(g, raws.drop_first());
        (h, seq![w] + ws)
    }
}

/// A fan in manual mode.
pub struct Fan {
    pub identifier: String,
    pub min_speed: i32,
    pub max_speed: i32,
    /// The speed last written; `None` until the first write, since the
    /// hardware's own speed at startup is unknown.
    pub cur_speed: Option<i32>,
}

impl View for Fan {
    type V = FanModel;

    open spec fn view(&self) -> FanModel {
        FanModel {
            min_speed: self.min_speed as int,
            max_speed: self.max_speed as int,
            commanded: opt_int(self.cur_speed),
        }
    }
}

impl Fan {
    pub open spec fn wf(&self) -> bool {
        self@.wf()
    }

    /// A fan with the speed range `[min_speed, max_speed]` and no speed
    /// commanded yet.
    pub fn new(identifier: String, min_speed: i32, max_speed: i32) -> (r: Fan)
        requires
            min_speed <= max_speed,
        ensures
            r.identifier == identifier,
            r.min_speed == min_speed,
            r.max_speed == max_speed,
            r.cur_speed.is_none(),
            r.wf(),
    {
        Fan { identifier, min_speed, max_speed, cur_speed: None }
    }

    /// Asks the fan for `raw_speed`: the speed clamped into the fan's range
    /// becomes the commanded speed, and is returned as the value to write
    /// unless it equals the speed already commanded.
    pub fn dispatch(&mut self, raw_speed: i32) -> (r: Option<i32>)
        requires
            old(self).wf(),
        ensures
            (final(self)@, opt_int(r)) == dispatch_outcome(old(self)@, raw_speed as int),
            final(self).identifier == old(self).identifier,
            final(self).wf(),
            final(self).cur_speed == Some(clamp_spec(raw_speed as int, old(self).min_speed as int, old(self).max_speed as int) as i32),
            r matches Some(w) ==> old(self).min_speed <= w <= old(self).max_speed,
    {
        let speed = clamp(raw_speed, self.min_speed, self.max_speed);
        let write = match self.cur_speed {
            Some(c) => c != speed,
            None => true,
        };
        self.cur_speed = Some(speed);
        if write {
            Some(speed)
        } else {
            None
        }
    }
}

pub open spec fn all_wf(fans: Seq<Fan>) -> bool {
    forall|i: int| 0 <= i < fans.len() ==> (#[trigger] fans[i]).wf()
}

/// Asks every fan for `raw_speed`; the result holds, fan by fan, the speed
/// to write, if any.
pub fn dispatch_all(fans: &mut Vec<Fan>, raw_speed: i32) -> (r: Vec<Option<i32>>)
    requires
        all_wf(old(fans)@),
    ensures
        r.len() == final(fans).len() == old(fans).len(),
        all_wf(final(fans)@),
        forall|i: int|
            0 <= i < r.len() ==> (#[trigger] final(fans)@[i]@, opt_int(r@[i])) == dispatch_outcome(
                old(fans)@[i]@,
                raw_speed as int,
            ) && final(fans)@[i].identifier == old(fans)@[i].identifier,
{
    let mut writes: Vec<Option<i32>> = Vec::new();
    let n = fans.len();
    let mut i: usize = 0;
    while i < n
        invariant
            n == fans.len() == old(fans).len(),
            i <= n,
            writes.len() == i,
            all_wf(fans@),
            forall|j: int| i <= j < n ==> fans@[j] == old(fans)@[j],
            forall|j: int|
                0 <= j < i ==> (#[trigger] fans@[j]@, opt_int(writes@[j])) == dispatch_outcome(
                    old(fans)@[j]@,
                    raw_speed as int,
                ) && fans@[j].identifier == old(fans)@[j].identifier,
        decreases n - i,
    {
        let w = fans[i].dispatch(raw_speed);
        writes.push(w);
        i += 1;
    }
    writes
}

/// The range of the shared controller output: from the lowest minimum to the
/// highest maximum of the fans.
pub fn output_bounds(fans: &Vec<Fan>) -> (r: (i32, i32))
    requires
        fans.len() > 0,
    ensures
        exists|i: int| 0 <= i < fans.len() && r.0 == (#[trigger] fans@[i]).min_speed,
        exists|i: int| 0 <= i < fans.len() && r.1 == (#[trigger] fans@[i]).max_speed,
        forall|i: int| 0 <= i < fans.len() ==> r.0 <= (#[trigger] fans@[i]).min_speed,
        forall|i: int| 0 <= i < fans.len() ==> r.1 >= (#[trigger] fans@[i]).max_speed,
{
    let mut lo = fans[0].min_speed;
    let mut hi = fans[0].max_speed;
    let mut i: usize = 1;
    while i < fans.len()
        invariant
            1 <= i <= fans.len(),
            exists|j: int| 0 <= j < i && lo == (#[trigger] fans@[j]).min_speed,
            exists|j: int| 0 <= j < i && hi == (#[trigger] fans@[j]).max_speed,
            forall|j: int| 0 <= j < i ==> lo <= (#[trigger] fans@[j]).min_speed,
            forall|j: int| 0 <= j < i ==> hi >= (#[trigger] fans@[j]).max_speed,
        decreases fans.len() - i,
    {
        if fans[i].min_speed < lo {
            lo = fans[i].min_speed;
        }
        if fans[i].max_speed > hi {
            hi = fans[i].max_speed;
        }
        i += 1;
    }
    (lo, hi)
}

proof fn lemma_silent_run(f: FanModel, raws: Seq<int>, s: int)
    requires
        f.commanded == Some(s),
        forall|i: int| 0 <= i < raws.len() ==> clamp_spec(#[trigger] raws[i], f.min_speed, f.max_speed) == s,
    ensures
        dispatch_run(f, raws).1.len() == raws.len(),
        forall|i: int| 0 <= i < raws.len() ==> (#[trigger] dispatch_run(f, raws).1[i]).is_none(),
    decreases raws.len(),
{
    if raws.len() > 0 {
        let g = dispatch_outcome(f, raws[0]).0;
        assert(g == f);
        let rest = raws.drop_first();
        assert forall|i: int| 0 <= i < rest.len() implies clamp_spec(
            #[trigger] rest[i],
            g.min_speed,
            g.max_speed,
        ) == s by {
            assert(rest[i] == raws[i + 1]);
        }
        lemma_silent_run(g, rest, s);
        let ws = dispatch_run(f, raws).1;
        assert forall|i: int| 0 <= i < raws.len() implies (#[trigger] ws[i]).is_none() by {
            if i > 0 {
                assert(ws[i] == dispatch_run(g, rest).1[i - 1]);
            }
        }
    }
}

/// When every requested speed clamps to the same value, only the first
/// request can write: every later one leaves the fan alone.
pub proof fn lemma_steady_request_writes_at_most_once(f: FanModel, raws: Seq<int>)
    requires
        raws.len() > 0,
        forall|i: int|
            0 <= i < raws.len() ==> clamp_spec(#[trigger] raws[i], f.min_speed, f.max_speed)
                == clamp_spec(raws[0], f.min_speed, f.max_speed),
    ensures
        dispatch_run(f, raws).1.len() == raws.len(),
        forall|i: int| 1 <= i < raws.len() ==> (#[trigger] dispatch_run(f, raws).1[i]).is_none(),
{
    let s = clamp_spec(raws[0], f.min_speed, f.max_speed);
    let g = dispatch_outcome(f, raws[0]).0;
    let rest = raws.drop_first();
    assert forall|i: int| 0 <= i < rest.len() implies clamp_spec(
        #[trigger] rest[i],
        g.min_speed,
        g.max_speed,
    ) == s by {
        assert(rest[i] == raws[i + 1]);
    }
    lemma_silent_run(g, rest, s);
    let ws = dispatch_run(f, raws).1;
    assert forall|i: int| 1 <= i < raws.len() implies (#[trigger] ws[i]).is_none() by {
        assert(ws[i] == dispatch_run(g, rest).1[i - 1]);
    }
}

/// Whatever speeds are requested, every speed written and the speed
/// commanded at the end lie within the fan's range.
pub proof fn lemma_commands_within_bounds(f: FanModel, raws: Seq<int>)
    requires
        f.wf(),
    ensures
        dispatch_run(f, raws).0.wf(),
        dispatch_run(f, raws).0.min_speed == f.min_speed,
        dispatch_run(f, raws).0.max_speed == f.max_speed,
        dispatch_run(f, raws).1.len() == raws.len(),
        forall|i: int|
            0 <= i < raws.len() ==> (#[trigger] dispatch_run(f, raws).1[i] matches Some(w) ==> f.min_speed
                <= w <= f.max_speed),
    decreases raws.len(),
{
    if raws.len() > 0 {
        let g = dispatch_outcome(f, raws[0]).0;
        let rest = raws.drop_first();
        lemma_commands_within_bounds(g, rest);
        let ws = dispatch_run(f, raws).1;
        assert forall|i: int| 0 <= i < raws.len() implies (#[trigger] ws[i] matches Some(w)
            ==> f.min_speed <= w <= f.max_speed) by {
            if i > 0 {
                assert(ws[i] == dispatch_run(g, rest).1[i - 1]);
            }
        }
    }
}

} // verus!
