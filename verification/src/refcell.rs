//! A cell that checks borrows while the program runs: any number of readers,
//! or one writer, never both.
//!
//! The cell is changed through `&mut self`, and a guard is a token that is
//! handed back to the cell in a call of its `release`. What the functions
//! state is the bookkeeping of the guards, exactly: in which states a request
//! is granted, and which state each request and each release leaves behind.
//! A wrapper that puts a cell behind a shared handle, with guards that
//! release themselves, calls these functions and decides nothing itself.

use crate::cell::Cell;
use std::marker::PhantomData;
use vstd::prelude::*;

verus! {

/// How a [`RefCell`] is borrowed at the moment.
#[derive(Clone, Copy, Debug, PartialEq, Eq, Structural)]
pub enum RefState {
    /// No guard is out.
    Unshared,
    /// So many read guards are out, and no write guard.
    Shared(usize),
    /// One write guard is out, and no read guard.
    Exclusive,
}

impl RefState {
    /// A shared state counts at least one reader.
    pub open spec fn wf(self) -> bool {
        self matches RefState::Shared(n) ==> n >= 1
    }

    /// The number of read guards that are out.
    pub open spec fn readers(self) -> nat {
        match self {
            RefState::Shared(n) => n as nat,
            _ => 0,
        }
    }

    /// The number of write guards that are out.
    pub open spec fn writers(self) -> nat {
        match self {
            RefState::Exclusive => 1,
            _ => 0,
        }
    }

    /// Whether a request for a read guard is granted in this state.
    pub open spec fn grants_read(self) -> bool {
        !(self is Exclusive)
    }

    /// Whether a request for a write guard is granted in this state.
    pub open spec fn grants_write(self) -> bool {
        self is Unshared
    }

    /// The state that a request for a read guard leaves behind: one more
    /// reader where it is granted, the same state where it is denied.
    pub open spec fn after_borrow(self) -> RefState {
        match self {
            RefState::Unshared => RefState::Shared(1),
            RefState::Shared(n) => RefState::Shared((n + 1) as usize),
            RefState::Exclusive => RefState::Exclusive,
        }
    }

    /// The state that a request for a write guard leaves behind: exclusive
    /// where it is granted, the same state where it is denied.
    pub open spec fn after_borrow_mut(self) -> RefState {
        match self {
            RefState::Unshared => RefState::Exclusive,
            _ => self,
        }
    }

    /// The state that the release of one read guard leaves behind.
    pub open spec fn after_read_release(self) -> RefState
        recommends
            self is Shared,
            self.wf(),
    {
        match self {
            RefState::Shared(n) if n > 1 => RefState::Shared((n - 1) as usize),
            _ => RefState::Unshared,
        }
    }

    /// The state that the release of the write guard leaves behind.
    pub open spec fn after_write_release(self) -> RefState
        recommends
            self is Exclusive,
    {
        RefState::Unshared
    }
}

/// A value together with the record of how it is borrowed.
///
/// Read and write access is asked for with [`RefCell::borrow`] and
/// [`RefCell::borrow_mut`]. Each request is answered at once: with a guard
/// where the access is compatible with the guards that are out, with `None`
/// where it is not.
pub struct RefCell<T> {
    value: T,
    state: Cell<RefState>,
}

/// Stands for one granted read access to a [`RefCell`] of `T`.
pub struct Ref<T> {
    of: PhantomData<T>,
}

/// Stands for the one granted write access to a [`RefCell`] of `T`.
pub struct RefMut<T> {
    of: PhantomData<T>,
}

impl<T> RefCell<T> {
    /// A cell never counts zero readers as shared.
    #[verifier::type_invariant]
    spec fn inv(self) -> bool {
        self.state@.wf()
    }

    /// The value inside.
    pub closed spec fn value(&self) -> T {
        self.value
    }

    /// How the cell is borrowed.
    pub closed spec fn spec_state(&self) -> RefState {
        self.state@
    }

    /// How the cell is borrowed.
    #[verifier::when_used_as_spec(spec_state)]
    pub fn state(&self) -> (state: RefState)
        ensures
            state == self.state(),
            state.wf(),
    {
        proof {
            use_type_invariant(self);
        }
        self.state.get()
    }

    /// A cell that holds `value` and has no guard out.
    pub fn new(value: T) -> (cell: Self)
        ensures
            cell.value() == value,
            cell.state() == RefState::Unshared,
    {
        RefCell { value, state: Cell::new(RefState::Unshared) }
    }

    /// Asks for read access.
    ///
    /// Granted unless a write guard is out; the cell then counts one more
    /// reader. Denied while a write guard is out; the cell is then left as it
    /// was.
    pub fn borrow(&mut self) -> (guard: Option<Ref<T>>)
        requires
            old(self).state().readers() < usize::MAX,
        ensures
            guard is Some <==> old(self).state().grants_read(),
            final(self).state() == old(self).state().after_borrow(),
            final(self).state().wf(),
            final(self).value() == old(self).value(),
    {
        proof {
            use_type_invariant(&*self);
        }
        match self.state.get() {
            RefState::Unshared => {
                self.state.set(RefState::Shared(1));
                Some(Ref { of: PhantomData })
            },
            RefState::Shared(n) => {
                self.state.set(RefState::Shared(n + 1));
                Some(Ref { of: PhantomData })
            },
            RefState::Exclusive => None,
        }
    }

    /// Asks for write access.
    ///
    /// Granted where no guard of either kind is out; the cell is then
    /// exclusive. Denied otherwise; the cell is then left as it was.
    pub fn borrow_mut(&mut self) -> (guard: Option<RefMut<T>>)
        ensures
            guard is Some <==> old(self).state().grants_write(),
            final(self).state() == old(self).state().after_borrow_mut(),
            final(self).state().wf(),
            final(self).value() == old(self).value(),
    {
        proof {
            use_type_invariant(&*self);
        }
        if let RefState::Unshared = self.state.get() {
            self.state.set(RefState::Exclusive);
            Some(RefMut { of: PhantomData })
        } else {
            None
        }
    }
}

/// Hands a mutable reference on unchanged. A field of a cell is lent to a
/// call only, never directly, because the cell has a type invariant.
fn reborrow<'a, T>(slot: &'a mut T) -> (same: &'a mut T)
    ensures
        *same == *old(slot),
        *final(slot) == *final(same),
    no_unwind
{
    slot
}

impl<T> Ref<T> {
    /// The value of `cell`, read under this guard.
    pub fn deref<'a>(&self, cell: &'a RefCell<T>) -> (value: &'a T)
        requires
            cell.state() is Shared,
        ensures
            *value == cell.value(),
    {
        &cell.value
    }

    /// Gives the read access back to `cell`, which counts one reader less;
    /// with the last reader gone it is unshared again.
    pub fn release(self, cell: &mut RefCell<T>)
        requires
            old(cell).state() is Shared,
        ensures
            final(cell).state() == old(cell).state().after_read_release(),
            final(cell).state().wf(),
            final(cell).value() == old(cell).value(),
    {
        proof {
            use_type_invariant(&*cell);
        }
        match cell.state.get() {
            RefState::Shared(n) => {
                if n == 1 {
                    cell.state.set(RefState::Unshared);
                } else {
                    cell.state.set(RefState::Shared(n - 1));
                }
            },
            RefState::Exclusive | RefState::Unshared => unreached(),
        }
    }
}

impl<T> RefMut<T> {
    /// The value of `cell`, read under this guard.
    pub fn deref<'a>(&self, cell: &'a RefCell<T>) -> (value: &'a T)
        requires
            cell.state() is Exclusive,
        ensures
            *value == cell.value(),
    {
        &cell.value
    }

    /// The value of `cell`, open for writing under this guard: what is
    /// written through the reference is the cell's value from then on.
    pub fn deref_mut<'a>(&mut self, cell: &'a mut RefCell<T>) -> (value: &'a mut T)
        requires
            old(cell).state() is Exclusive,
        ensures
            *value == old(cell).value(),
            final(cell).value() == *final(value),
            final(cell).state() == old(cell).state(),
    {
        reborrow(&mut cell.value)
    }

    /// Gives the write access back to `cell`, which is unshared again.
    pub fn release(self, cell: &mut RefCell<T>)
        requires
            old(cell).state() is Exclusive,
        ensures
            final(cell).state() == old(cell).state().after_write_release(),
            final(cell).value() == old(cell).value(),
    {
        match cell.state.get() {
            RefState::Exclusive => {
                cell.state.set(RefState::Unshared);
            },
            RefState::Shared(_) | RefState::Unshared => unreached(),
        }
    }
}

/// A request or a release, as a cell sees it.
pub enum Event {
    /// A call of [`RefCell::borrow`].
    Borrow,
    /// A call of [`RefCell::borrow_mut`].
    BorrowMut,
    /// A call of [`Ref::release`].
    ReleaseRead,
    /// A call of [`RefMut::release`].
    ReleaseWrite,
}

/// A cell's state next to a count of the guards that were handed out and not
/// yet released. The counts are kept apart from the state on purpose: that
/// the state agrees with them is what [`readers_xor_writer`] proves.
pub struct Ledger {
    pub state: RefState,
    pub live_readers: nat,
    pub live_writers: nat,
}

impl Ledger {
    /// A new cell: unshared, and no guard alive.
    pub open spec fn start() -> Ledger {
        Ledger { state: RefState::Unshared, live_readers: 0, live_writers: 0 }
    }

    /// Whether `event` can happen here: a release needs a live guard of its
    /// kind, and a request for read access needs room in the reader count.
    pub open spec fn admits(self, event: Event) -> bool {
        match event {
            Event::Borrow => self.state.readers() < usize::MAX,
            Event::BorrowMut => true,
            Event::ReleaseRead => self.live_readers >= 1,
            Event::ReleaseWrite => self.live_writers >= 1,
        }
    }

    /// The ledger after `event`: the state moves as the called function
    /// says, and a guard is counted from the call that hands it out to the
    /// call that releases it.
    pub open spec fn step(self, event: Event) -> Ledger {
        match event {
            Event::Borrow => if self.state.grants_read() {
                Ledger {
                    state: self.state.after_borrow(),
                    live_readers: self.live_readers + 1,
                    live_writers: self.live_writers,
                }
            } else {
                Ledger { state: self.state.after_borrow(), ..self }
            },
            Event::BorrowMut => if self.state.grants_write() {
                Ledger {
                    state: self.state.after_borrow_mut(),
                    live_readers: self.live_readers,
                    live_writers: self.live_writers + 1,
                }
            } else {
                Ledger { state: self.state.after_borrow_mut(), ..self }
            },
            Event::ReleaseRead => Ledger {
                state: self.state.after_read_release(),
                live_readers: (self.live_readers - 1) as nat,
                live_writers: self.live_writers,
            },
            Event::ReleaseWrite => Ledger {
                state: self.state.after_write_release(),
                live_readers: self.live_readers,
                live_writers: (self.live_writers - 1) as nat,
            },
        }
    }

    /// The ledger of a new cell after `events`, in order.
    pub open spec fn run(events: Seq<Event>) -> Ledger
        decreases events.len(),
    {
        if events.len() == 0 {
            Ledger::start()
        } else {
            Ledger::run(events.drop_last()).step(events.last())
        }
    }

    /// Whether each of `events` can happen at its turn on a new cell.
    pub open spec fn admissible(events: Seq<Event>) -> bool
        decreases events.len(),
    {
        events.len() > 0 ==> {
            &&& Ledger::admissible(events.drop_last())
            &&& Ledger::run(events.drop_last()).admits(events.last())
        }
    }

    /// The state counts exactly the live guards, and these are readers only
    /// or a single writer.
    pub open spec fn consistent(self) -> bool {
        &&& self.state.wf()
        &&& self.state.readers() == self.live_readers
        &&& self.state.writers() == self.live_writers
        &&& self.live_writers <= 1
        &&& !(self.live_readers >= 1 && self.live_writers >= 1)
    }
}

/// Readers or one writer, never both: after any admissible run of requests
/// and releases on a new cell there is at most one live write guard, no live
/// read guard beside it, and the cell's state counts the live guards exactly.
pub proof fn readers_xor_writer(events: Seq<Event>)
    requires
        Ledger::admissible(events),
    ensures
        Ledger::run(events).consistent(),
    decreases events.len(),
{
    if events.len() > 0 {
        readers_xor_writer(events.drop_last());
    }
}

/// The same at every point of the run: each prefix of an admissible run is
/// admissible and leaves a consistent ledger.
pub proof fn readers_xor_writer_throughout(events: Seq<Event>, k: int)
    requires
        Ledger::admissible(events),
        0 <= k <= events.len(),
    ensures
        Ledger::admissible(events.take(k)),
        Ledger::run(events.take(k)).consistent(),
    decreases events.len(),
{
    if k == events.len() {
        assert(events.take(k) =~= events);
    } else {
        assert(events.drop_last().take(k) =~= events.take(k));
        readers_xor_writer_throughout(events.drop_last(), k);
    }
    readers_xor_writer(events.take(k));
}

/// A live guard can be released: where a run admits a release, the cell is
/// in the state that the releasing function asks for.
pub proof fn live_guard_can_be_released(events: Seq<Event>, release: Event)
    requires
        Ledger::admissible(events),
        Ledger::run(events).admits(release),
    ensures
        release is ReleaseRead ==> Ledger::run(events).state is Shared,
        release is ReleaseWrite ==> Ledger::run(events).state is Exclusive,
{
    readers_xor_writer(events);
}

/// Write access is granted exactly where no guard is out, of either kind.
pub proof fn write_granted_iff_no_guard(state: RefState)
    requires
        state.wf(),
    ensures
        state.grants_write() <==> state.readers() == 0 && state.writers() == 0,
        !state.grants_write() ==> state.after_borrow_mut() == state,
        state.grants_write() ==> state.after_borrow_mut().writers() == 1,
{
}

/// Read access is granted exactly where no write guard is out, other readers
/// or not, and a granted request adds one reader.
pub proof fn read_granted_iff_no_writer(state: RefState)
    requires
        state.readers() < usize::MAX,
    ensures
        state.grants_read() <==> state.writers() == 0,
        !state.grants_read() ==> state.after_borrow() == state,
        state.grants_read() ==> state.after_borrow().readers() == state.readers() + 1,
        state.grants_read() ==> state.after_borrow().writers() == 0,
{
}

/// Once the last read guard is released, write access is granted.
pub proof fn last_reader_release_grants_write(state: RefState)
    requires
        state.wf(),
        state.readers() == 1,
    ensures
        state.after_read_release().grants_write(),
{
}

/// While another read guard stays out, the release of one leaves the cell
/// shared, so write access is still denied.
pub proof fn reader_release_keeps_others(state: RefState)
    requires
        state.readers() > 1,
    ensures
        state.after_read_release().readers() == state.readers() - 1,
        !state.after_read_release().grants_write(),
        state.after_read_release().grants_read(),
{
}

/// Once the write guard is released, both kinds of access are granted.
pub proof fn writer_release_grants_both(state: RefState)
    requires
        state is Exclusive,
    ensures
        state.after_write_release().grants_read(),
        state.after_write_release().grants_write(),
{
}

} // verus!
