use vstd::prelude::*;

verus! {

/// An event on a timebase: a named one, or the timebase's origin.
#[derive(Debug, Clone, Copy, PartialEq, Eq, Hash, PartialOrd, Ord)]
pub enum Event<E> {
    Event(E),
    T0,
}

/// The identity of a node as plain integers: the timebase, a tag (0 for the
/// origin, 1 for a named event) and the event (0 for the origin).
pub type NodeCode = (usize, u8, usize);

/// A node of the graph: a timebase and one of its events.
#[derive(Debug, Clone, Copy, PartialEq, Eq, Hash, PartialOrd, Ord)]
pub struct TimebaseEventKey {
    pub timebase: usize,
    pub event: Event<usize>,
}

impl View for TimebaseEventKey {
    type V = NodeCode;

    open spec fn view(&self) -> NodeCode {
        match self.event {
            Event::Event(e) => (self.timebase, 1u8, e),
            Event::T0 => (self.timebase, 0u8, 0usize),
        }
    }
}

impl TimebaseEventKey {
    /// The key of a named event.
    pub fn new(timebase: usize, event: usize) -> (key: Self)
        ensures
            key == (TimebaseEventKey { timebase, event: Event::Event(event) }),
    {
        Self { timebase, event: Event::Event(event) }
    }

    /// The key of a timebase's origin.
    pub fn new_t0(timebase: usize) -> (key: Self)
        ensures
            key == (TimebaseEventKey { timebase, event: Event::T0 }),
    {
        Self { timebase, event: Event::T0 }
    }

    /// The key of the origin of this key's timebase.
    pub fn t0_key(&self) -> (key: Self)
        ensures
            key == (TimebaseEventKey { timebase: self.timebase, event: Event::T0 }),
    {
        TimebaseEventKey::new_t0(self.timebase)
    }

    /// The key as plain integers.
    ///
    /// The origin of a timebase has the code that `origin_of` gives for every
    /// node of that timebase.
    pub fn code(&self) -> (code: NodeCode)
        ensures
            code == self@,
    {
        match self.event {
            Event::Event(e) => (self.timebase, 1u8, e),
            Event::T0 => (self.timebase, 0u8, 0usize),
        }
    }
}

/// The key of a named event, as the contracts write it.
pub open spec fn event_key(timebase: usize, event: usize) -> TimebaseEventKey {
    TimebaseEventKey { timebase, event: Event::Event(event) }
}

/// The key of a timebase's origin, as the contracts write it.
pub open spec fn origin_key(timebase: usize) -> TimebaseEventKey {
    TimebaseEventKey { timebase, event: Event::T0 }
}

/// The code of the origin of the timebase that a node belongs to.
pub open spec fn origin_of(code: NodeCode) -> NodeCode {
    (code.0, 0u8, 0usize)
}

/// Two keys with the same code are the same key.
pub proof fn code_is_injective(a: TimebaseEventKey, b: TimebaseEventKey)
    requires
        a@ == b@,
    ensures
        a == b,
{
}

/// A named event's code differs from the code of any origin.
pub proof fn event_is_not_origin(timebase: usize, event: usize, other: usize)
    ensures
        (TimebaseEventKey { timebase, event: Event::Event(event) })@ != (TimebaseEventKey {
            timebase: other,
            event: Event::T0,
        })@,
{
}

} // verus!
