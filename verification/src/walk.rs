//! The decisions of a cursor walk over a sub-database: which cursor movement
//! each step makes, and whether the item it lands on is handed out, ends the
//! walk, or is an error. Whoever drives the cursor makes the movement and
//! reports the result code and, for walks with an end, how the key it landed
//! on compares with that end.
use vstd::prelude::*;
use crate::err::{Error, MDBX_NOTFOUND, MDBX_RESULT_TRUE, MDBX_SUCCESS};

verus! {

/// A cursor movement.
#[derive(Clone, Copy, Debug, PartialEq, Eq, Structural)]
pub enum Op {
    First,
    Last,
    Next,
    Prev,
    NextDup,
    SetKey,
    SetLowerbound,
    SetUpperbound,
}

/// What a walk covers.
#[derive(Clone, Copy, Debug, PartialEq, Eq, Structural)]
pub enum Kind {
    /// Every item, first to last.
    All,
    /// Every item, last to first.
    Rev,
    /// The values of one key of a DUPSORT sub-database.
    Dup,
    /// `start..end`: from `start` towards `end`, `end` left out; when
    /// `start` is past `end`, downwards.
    Range,
    /// `start..=end`: as `Range`, `end` included.
    RangeInclusive,
    /// `start..`: from `start` to the last item.
    RangeFrom,
    /// `..end`: from the first item up to `end`, `end` left out.
    RangeTo,
    /// `..=end`: from the first item up to `end`, `end` included.
    RangeToInclusive,
}

/// One cursor call to make: the movement, and whether the cursor's key is
/// set to the walk's start key (or to the key of a `Dup` walk) before it.
#[derive(Clone, Copy, Debug, PartialEq, Eq, Structural)]
pub struct Call {
    pub op: Op,
    pub load_start: bool,
}

/// What to do with the result of a cursor call.
#[derive(Clone, Copy, Debug, PartialEq, Eq, Structural)]
pub enum Step {
    /// Hand out the item the cursor is on.
    Yield,
    /// The walk has nothing more to hand out now.
    Stop,
    /// libmdbx reported an error.
    Fail(Error),
}

/// The state of a walk: what it covers, whether a cursor call has found an
/// item yet, and which way it moves.
#[derive(Clone, Copy, Debug, PartialEq, Eq, Structural)]
pub struct Walk {
    pub kind: Kind,
    pub started: bool,
    pub forward: bool,
}

/// Whether the walk compares keys with an end key.
pub open spec fn has_end(kind: Kind) -> bool {
    kind == Kind::Range || kind == Kind::RangeInclusive || kind == Kind::RangeTo
        || kind == Kind::RangeToInclusive
}

/// Whether the walk starts from a start key.
pub open spec fn has_start(kind: Kind) -> bool {
    kind == Kind::Range || kind == Kind::RangeInclusive || kind == Kind::RangeFrom
}

/// The cursor call of the next step, given how the start key compares with
/// the end key (looked at only on the first call of a `Range` or
/// `RangeInclusive` walk), and the state after choosing it.
pub open spec fn call_spec(w: Walk, start_vs_end: i32) -> (Walk, Call) {
    match w.kind {
        Kind::All => (w, if w.started { Call { op: Op::Next, load_start: false } } else { Call { op: Op::First, load_start: true } }),
        Kind::Rev => (w, if w.started { Call { op: Op::Prev, load_start: false } } else { Call { op: Op::Last, load_start: true } }),
        Kind::Dup => (w, if w.started { Call { op: Op::NextDup, load_start: false } } else { Call { op: Op::SetKey, load_start: true } }),
        Kind::RangeFrom => (w, if w.started { Call { op: Op::Next, load_start: false } } else { Call { op: Op::SetLowerbound, load_start: true } }),
        Kind::RangeTo | Kind::RangeToInclusive => (w, if w.started { Call { op: Op::Next, load_start: false } } else { Call { op: Op::First, load_start: false } }),
        Kind::Range | Kind::RangeInclusive => {
            if w.started {
                (w, Call { op: if w.forward { Op::Next } else { Op::Prev }, load_start: false })
            } else if start_vs_end <= 0 {
                (Walk { forward: true, ..w }, Call { op: Op::SetLowerbound, load_start: true })
            } else {
                (Walk { forward: false, ..w }, Call { op: Op::SetUpperbound, load_start: true })
            }
        },
    }
}

/// Whether a key that compares with the end key as `key_vs_end` lies past
/// the end, for a walk of this kind moving this way.
pub open spec fn past_end(kind: Kind, forward: bool, key_vs_end: i32) -> bool {
    match kind {
        Kind::Range => if forward { key_vs_end >= 0 } else { key_vs_end <= 0 },
        Kind::RangeInclusive => if forward { key_vs_end > 0 } else { key_vs_end < 0 },
        Kind::RangeTo => key_vs_end >= 0,
        Kind::RangeToInclusive => key_vs_end > 0,
        _ => false,
    }
}

/// Whether a result code means the cursor landed on an item. The plain walks
/// accept only success; the range walks also accept libmdbx's "true".
pub open spec fn landed(kind: Kind, code: i32) -> bool {
    if has_end(kind) || has_start(kind) {
        code == MDBX_SUCCESS || code == MDBX_RESULT_TRUE
    } else {
        code == MDBX_SUCCESS
    }
}

/// The step for a cursor result, given how the key the cursor landed on
/// compares with the end key (looked at only for walks with an end, and
/// only when the cursor landed), and the state after it.
pub open spec fn result_spec(w: Walk, code: i32, key_vs_end: i32) -> (Walk, Step) {
    if landed(w.kind, code) {
        (
            Walk { started: true, ..w },
            if past_end(w.kind, w.forward, key_vs_end) { Step::Stop } else { Step::Yield },
        )
    } else if code == MDBX_NOTFOUND {
        (w, Step::Stop)
    } else {
        (w, Step::Fail(Error(code)))
    }
}

impl Walk {
    /// A walk of the given kind that has not moved yet.
    pub fn new(kind: Kind) -> (r: Walk)
        ensures
            r == (Walk { kind, started: false, forward: true }),
    {
        Walk { kind, started: false, forward: true }
    }

    /// Chooses the cursor call of the next step.
    pub fn call(&mut self, start_vs_end: i32) -> (r: Call)
        ensures
            (*final(self), r) == call_spec(*old(self), start_vs_end),
    {
        match self.kind {
            Kind::All => if self.started {
                Call { op: Op::Next, load_start: false }
            } else {
                Call { op: Op::First, load_start: true }
            },
            Kind::Rev => if self.started {
                Call { op: Op::Prev, load_start: false }
            } else {
                Call { op: Op::Last, load_start: true }
            },
            Kind::Dup => if self.started {
                Call { op: Op::NextDup, load_start: false }
            } else {
                Call { op: Op::SetKey, load_start: true }
            },
            Kind::RangeFrom => if self.started {
                Call { op: Op::Next, load_start: false }
            } else {
                Call { op: Op::SetLowerbound, load_start: true }
            },
            Kind::RangeTo | Kind::RangeToInclusive => if self.started {
                Call { op: Op::Next, load_start: false }
            } else {
                Call { op: Op::First, load_start: false }
            },
            Kind::Range | Kind::RangeInclusive => {
                if self.started {
                    Call { op: if self.forward { Op::Next } else { Op::Prev }, load_start: false }
                } else if start_vs_end <= 0 {
                    self.forward = true;
                    Call { op: Op::SetLowerbound, load_start: true }
                } else {
                    self.forward = false;
                    Call { op: Op::SetUpperbound, load_start: true }
                }
            },
        }
    }

    /// Decides what a cursor result means.
    pub fn on_result(&mut self, code: i32, key_vs_end: i32) -> (r: Step)
        ensures
            (*final(self), r) == result_spec(*old(self), code, key_vs_end),
    {
        let ranged = match self.kind {
            Kind::All | Kind::Rev | Kind::Dup => false,
            _ => true,
        };
        let ok = if ranged {
            code == MDBX_SUCCESS || code == MDBX_RESULT_TRUE
        } else {
            code == MDBX_SUCCESS
        };
        if ok {
            self.started = true;
            let past = match self.kind {
                Kind::Range => if self.forward {
                    key_vs_end >= 0
                } else {
                    key_vs_end <= 0
                },
                Kind::RangeInclusive => if self.forward {
                    key_vs_end > 0
                } else {
                    key_vs_end < 0
                },
                Kind::RangeTo => key_vs_end >= 0,
                Kind::RangeToInclusive => key_vs_end > 0,
                _ => false,
            };
            if past {
                Step::Stop
            } else {
                Step::Yield
            }
        } else if code == MDBX_NOTFOUND {
            Step::Stop
        } else {
            Step::Fail(Error(code))
        }
    }

    /// Whether the driver must compare the landed key with the end key.
    pub fn needs_end_compare(&self) -> (r: bool)
        ensures
            r == has_end(self.kind),
    {
        match self.kind {
            Kind::Range | Kind::RangeInclusive | Kind::RangeTo | Kind::RangeToInclusive => true,
            _ => false,
        }
    }
}

/// Law: every item a walk hands out lies within its bounds: for a walk with
/// an end, a key compared with the end is below it (at or below it for the
/// inclusive kinds) when the walk moves forward, above it (at or above it)
/// when it moves backward; and an item is handed out only on a result code
/// that means the cursor landed on one.
pub proof fn law_yield_within_bounds(w: Walk, code: i32, key_vs_end: i32)
    ensures
        result_spec(w, code, key_vs_end).1 == Step::Yield ==> {
            &&& landed(w.kind, code)
            &&& (w.kind == Kind::Range && w.forward) ==> key_vs_end < 0
            &&& (w.kind == Kind::Range && !w.forward) ==> key_vs_end > 0
            &&& (w.kind == Kind::RangeInclusive && w.forward) ==> key_vs_end <= 0
            &&& (w.kind == Kind::RangeInclusive && !w.forward) ==> key_vs_end >= 0
            &&& w.kind == Kind::RangeTo ==> key_vs_end < 0
            &&& w.kind == Kind::RangeToInclusive ==> key_vs_end <= 0
        },
{
}

/// Law: a walk seeks only on its first step. Until a cursor call has landed
/// on an item, each call seeks (to the first or last item, to the key, or to
/// the start key); once one has, each call moves one item on, always the same
/// way, and the walk stays started whatever the later results.
pub proof fn law_seek_then_move(w: Walk, start_vs_end: i32, code: i32, key_vs_end: i32)
    ensures
        !w.started ==> match call_spec(w, start_vs_end).1.op {
            Op::Next | Op::Prev | Op::NextDup => false,
            _ => true,
        },
        w.started ==> {
            let (w2, c) = call_spec(w, start_vs_end);
            &&& w2 == w
            &&& !c.load_start
            &&& (c.op == Op::Next || c.op == Op::Prev || c.op == Op::NextDup)
        },
        w.started ==> result_spec(w, code, key_vs_end).0.started,
        result_spec(w, code, key_vs_end).0.forward == w.forward,
        result_spec(w, code, key_vs_end).0.kind == w.kind,
{
}

/// Law: a range walk moves downwards exactly when its start key lies past
/// its end key.
pub proof fn law_range_direction(kind: Kind, start_vs_end: i32)
    requires
        kind == Kind::Range || kind == Kind::RangeInclusive,
    ensures
        ({
            let (w2, c) = call_spec(Walk { kind, started: false, forward: true }, start_vs_end);
            &&& w2.forward == (start_vs_end <= 0)
            &&& c.op == (if start_vs_end <= 0 { Op::SetLowerbound } else { Op::SetUpperbound })
            &&& c.load_start
        }),
{
}

/// Law: the first cursor call of each kind of walk. A walk over all items
/// goes to the first item, a reversed one to the last; a walk over the values
/// of a key, and each walk with a start key, first loads that key: `a..` and
/// forward `a..b` / `a..=b` go to the first key at or after it, a `a..b` or
/// `a..=b` whose start lies past its end goes to the last key at or before
/// the start and then moves downwards; `..b` and `..=b` go to the first item.
pub proof fn law_first_call(w: Walk, start_vs_end: i32)
    requires
        !w.started,
    ensures
        ({
            let (w2, c) = call_spec(w, start_vs_end);
            &&& w2.kind == w.kind
            &&& !w2.started
            &&& w.kind == Kind::All ==> c.op == Op::First
            &&& w.kind == Kind::Rev ==> c.op == Op::Last
            &&& w.kind == Kind::Dup ==> c.op == Op::SetKey && c.load_start
            &&& w.kind == Kind::RangeFrom ==> c.op == Op::SetLowerbound && c.load_start
            &&& (w.kind == Kind::RangeTo || w.kind == Kind::RangeToInclusive) ==> c.op == Op::First
            &&& (w.kind == Kind::Range || w.kind == Kind::RangeInclusive) && start_vs_end <= 0 ==> (
            c.op == Op::SetLowerbound && c.load_start && w2.forward)
            &&& (w.kind == Kind::Range || w.kind == Kind::RangeInclusive) && start_vs_end > 0 ==> (
            c.op == Op::SetUpperbound && c.load_start && !w2.forward)
        }),
{
}

/// Law: every later cursor call moves one item on without reloading a key:
/// to the next item for walks over all items and the upward ranges, to the
/// previous one for a reversed walk, to the next value of the key for a walk
/// over one key's values, and for `a..b` / `a..=b` in the direction the first
/// call chose. The walk's state does not change.
pub proof fn law_later_call(w: Walk, start_vs_end: i32)
    requires
        w.started,
    ensures
        ({
            let (w2, c) = call_spec(w, start_vs_end);
            &&& w2 == w
            &&& !c.load_start
            &&& (w.kind == Kind::All || w.kind == Kind::RangeFrom || w.kind == Kind::RangeTo
                || w.kind == Kind::RangeToInclusive) ==> c.op == Op::Next
            &&& w.kind == Kind::Rev ==> c.op == Op::Prev
            &&& w.kind == Kind::Dup ==> c.op == Op::NextDup
            &&& (w.kind == Kind::Range || w.kind == Kind::RangeInclusive) ==> c.op == (if w.forward {
                Op::Next
            } else {
                Op::Prev
            })
        }),
{
}

/// Law: what each result code gives, for every kind of walk and every
/// comparison with the end key.
/// - Walks without an end key hand out every item the cursor lands on: those
///   over all items, reversed, or over one key's values on success (the first
///   value and every later one alike), `a..` on success or "true".
/// - Walks with an end key hand out a landed item exactly when its key lies
///   within the end: below it (`..b`, forward `a..b`), at or below it (`..=b`,
///   forward `a..=b`), above it (downward `a..b`), at or above it (downward
///   `a..=b`); otherwise they stop.
/// - Not found stops every walk; any other code is an error carrying it.
/// - A landing marks the walk started, and nothing changes its kind or direction.
pub proof fn law_result(w: Walk, code: i32, key_vs_end: i32)
    ensures
        ({
            let (w2, st) = result_spec(w, code, key_vs_end);
            let plain = w.kind == Kind::All || w.kind == Kind::Rev || w.kind == Kind::Dup;
            let hit = if plain {
                code == MDBX_SUCCESS
            } else {
                code == MDBX_SUCCESS || code == MDBX_RESULT_TRUE
            };
            &&& w2.kind == w.kind
            &&& w2.forward == w.forward
            &&& w2.started == (w.started || hit)
            &&& (plain && code == MDBX_SUCCESS) ==> st == Step::Yield
            &&& (w.kind == Kind::RangeFrom && hit) ==> st == Step::Yield
            &&& (w.kind == Kind::RangeTo && hit) ==> (st == Step::Yield <==> key_vs_end < 0)
            &&& (w.kind == Kind::RangeToInclusive && hit) ==> (st == Step::Yield <==> key_vs_end
                <= 0)
            &&& (w.kind == Kind::Range && w.forward && hit) ==> (st == Step::Yield <==> key_vs_end
                < 0)
            &&& (w.kind == Kind::Range && !w.forward && hit) ==> (st == Step::Yield <==> key_vs_end
                > 0)
            &&& (w.kind == Kind::RangeInclusive && w.forward && hit) ==> (st == Step::Yield
                <==> key_vs_end <= 0)
            &&& (w.kind == Kind::RangeInclusive && !w.forward && hit) ==> (st == Step::Yield
                <==> key_vs_end >= 0)
            &&& hit ==> (st == Step::Yield || st == Step::Stop)
            &&& code == MDBX_NOTFOUND ==> st == Step::Stop
            &&& (!hit && code != MDBX_NOTFOUND) ==> st == Step::Fail(Error(code))
        }),
{
}

} // verus!
