use vstd::prelude::*;

verus! {

/// Handle of a reset controller line, as handed out by the platform.
#[derive(Debug, PartialEq, Eq, Structural)]
pub struct Reset {
    pub line: usize,
}

impl Reset {
    /// Wraps the platform's handle of a reset controller line.
    pub fn new(line: usize) -> (r: Self)
        ensures
            r.line == line,
    {
        Reset { line }
    }
}

/// Handle of a clock that was found and enabled at probe time.
#[derive(Debug, PartialEq, Eq, Structural)]
pub struct EnabledClock {
    pub line: usize,
}

impl EnabledClock {
    /// Wraps the platform's handle of an enabled clock.
    pub fn new(line: usize) -> (r: Self)
        ensures
            r.line == line,
    {
        EnabledClock { line }
    }
}

/// A slot that holds a capability until it is taken, and never again after.
///
/// The slot is meant to sit behind a lock; every `take_once` then runs on
/// its own, so the calls form a sequence of the shape `take_post` describes.
pub struct TakeOnce<T> {
    slot: Option<T>,
}

impl<T> View for TakeOnce<T> {
    type V = Option<T>;

    closed spec fn view(&self) -> Option<T> {
        self.slot
    }
}

/// One `take_once` turned the slot `before` into `after` and returned `r`.
pub open spec fn take_post<T>(before: Option<T>, after: Option<T>, r: Option<T>) -> bool {
    r == before && after.is_none()
}

impl<T> TakeOnce<T> {
    /// A slot that holds `cap`, or nothing when the resource was absent.
    pub fn new(cap: Option<T>) -> (r: Self)
        ensures
            r@ == cap,
    {
        TakeOnce { slot: cap }
    }

    /// Whether the capability is still held.
    pub fn is_held(&self) -> (r: bool)
        ensures
            r == self@.is_some(),
    {
        self.slot.is_some()
    }

    /// Removes the capability and hands it to the caller, leaving the slot
    /// empty.
    pub fn take_once(&mut self) -> (r: Option<T>)
        ensures
            take_post(old(self)@, final(self)@, r),
    {
        self.slot.take()
    }
}

/// Number of results in `rs` that carry a capability.
pub open spec fn count_taken<T>(rs: Seq<Option<T>>) -> nat
    decreases rs.len(),
{
    if rs.len() == 0 {
        0
    } else {
        (if rs[0].is_some() { 1nat } else { 0nat }) + count_taken(rs.drop_first())
    }
}

/// However many `take_once` calls are made on one slot, one after the
/// other as the lock orders them, exactly one receives the capability when
/// the slot was full, and none when it was empty; all others see it taken.
pub proof fn lemma_take_once_exclusive<T>(slots: Seq<Option<T>>, rs: Seq<Option<T>>)
    requires
        slots.len() == rs.len() + 1,
        forall|i: int| 0 <= i < rs.len() ==> take_post(#[trigger] slots[i], slots[i + 1], rs[i]),
    ensures
        count_taken(rs) == (if rs.len() > 0 && slots[0].is_some() { 1nat } else { 0nat }),
    decreases rs.len(),
{
    if rs.len() > 0 {
        let tail_slots = slots.drop_first();
        let tail_rs = rs.drop_first();
        assert forall|i: int| 0 <= i < tail_rs.len() implies take_post(
            #[trigger] tail_slots[i],
            tail_slots[i + 1],
            tail_rs[i],
        ) by {
            assert(take_post(slots[i + 1], slots[i + 2], rs[i + 1]));
        }
        lemma_take_once_exclusive(tail_slots, tail_rs);
        assert(take_post(slots[0], slots[1], rs[0]));
    }
}

} // verus!
