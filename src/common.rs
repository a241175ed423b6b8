use vstd::prelude::*;
use crate::id::ID;
use crate::message::{Envelope, CounterMsg};

verus! {

/// Who to tell when an entity dies.
#[derive(Clone, Copy, Debug, PartialEq, Eq, Structural)]
pub struct DeathCounter {
    pub dst: ID,
}

/// A one-time wiring request handed to an entity.
#[derive(Clone, Copy, Debug, PartialEq, Eq, Structural)]
pub enum IDRegistration {
    /// Send a counter message to this entity on death.
    DeathCounter(ID),
}

impl DeathCounter {
    pub fn new(dst: ID) -> (r: Self)
        ensures
            r.dst == dst,
    {
        DeathCounter { dst }
    }

    /// The counter message that adds `amt` to the watched entity, sent by
    /// `sender` (the empty identity when there is none).
    pub fn inc(&self, sender: Option<ID>, amt: i32) -> (r: Envelope<CounterMsg>)
        ensures
            r == (Envelope {
                priority: 0,
                letter: CounterMsg(amt),
                recv: self.dst,
                sender: match sender {
                    Some(s) => s,
                    None => ID::spec_empty(),
                },
            }),
    {
        let s = match sender {
            Some(s) => s,
            None => ID::empty(),
        };
        Envelope::new(CounterMsg(amt), self.dst, s)
    }
}

/// One coordinate moved from `a` toward `b` by at most `speed`.
pub open spec fn step_axis(a: i32, b: i32, speed: i32) -> i32 {
    if b as int - a as int > speed as int {
        (a as int + speed as int) as i32
    } else if a as int - b as int > speed as int {
        (a as int - speed as int) as i32
    } else {
        b
    }
}

/// A position moved toward `to` by at most `speed` along each axis.
pub open spec fn step_toward(from: (i32, i32), to: (i32, i32), speed: i32) -> (i32, i32) {
    (step_axis(from.0, to.0, speed), step_axis(from.1, to.1, speed))
}

pub fn step_axis_exec(a: i32, b: i32, speed: i32) -> (r: i32)
    requires
        speed >= 0,
    ensures
        r == step_axis(a, b, speed),
{
    let d: i64 = b as i64 - a as i64;
    if d > speed as i64 {
        (a as i64 + speed as i64) as i32
    } else if -d > speed as i64 {
        (a as i64 - speed as i64) as i32
    } else {
        b
    }
}

pub fn step_toward_exec(from: (i32, i32), to: (i32, i32), speed: i32) -> (r: (i32, i32))
    requires
        speed >= 0,
    ensures
        r == step_toward(from, to, speed),
{
    (step_axis_exec(from.0, to.0, speed), step_axis_exec(from.1, to.1, speed))
}

/// `v` kept within the range of `i32`.
pub open spec fn clamp_i32(v: int) -> i32 {
    if v < i32::MIN {
        i32::MIN
    } else if v > i32::MAX {
        i32::MAX
    } else {
        v as i32
    }
}

pub fn clamp_i64(v: i64) -> (r: i32)
    ensures
        r == clamp_i32(v as int),
{
    if v < i32::MIN as i64 {
        i32::MIN
    } else if v > i32::MAX as i64 {
        i32::MAX
    } else {
        v as i32
    }
}

} // verus!
