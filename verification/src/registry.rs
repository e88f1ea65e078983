//! Handle registries: arenas of monotonically numbered slots with
//! exclusive checkout. Stores, sessions and scans are all kept in
//! registries of this shape; an operation borrows the slot's value
//! and returns it when done, and a second caller meanwhile is turned
//! away with `Busy`.

use vstd::prelude::*;
use crate::error::{Error, ErrorKind};

verus! {

/// One registry slot: a handle and its value, absent while borrowed.
struct Slot<T> {
    handle: u64,
    value: Option<T>,
}

/// An arena of handle-keyed slots. Handles are never zero and never
/// reused.
pub struct Registry<T> {
    slots: Vec<Slot<T>>,
    next: u64,
}

impl<T> Registry<T> {
    /// The handles in slot order.
    pub closed spec fn spec_handles(&self) -> Seq<u64> {
        self.slots@.map_values(|s: Slot<T>| s.handle)
    }

    /// The slot values in slot order; `None` marks a borrowed slot.
    pub closed spec fn spec_values(&self) -> Seq<Option<T>> {
        self.slots@.map_values(|s: Slot<T>| s.value)
    }

    /// The next handle to be issued.
    pub closed spec fn spec_next(&self) -> u64 {
        self.next
    }

    /// Well-formedness: one value slot per handle, and handles are
    /// nonzero, distinct and below the counter.
    pub open spec fn wf(&self) -> bool {
        &&& self.spec_next() >= 1
        &&& self.spec_values().len() == self.spec_handles().len()
        &&& (forall|i: int|
            0 <= i < self.spec_handles().len() ==> 0 < #[trigger] self.spec_handles()[i]
                < self.spec_next())
        &&& (forall|i: int, j: int|
            #![trigger self.spec_handles()[i], self.spec_handles()[j]]
            0 <= i < j < self.spec_handles().len() ==> self.spec_handles()[i]
                != self.spec_handles()[j])
    }

    /// Whether a handle is registered.
    pub open spec fn has_handle(&self, h: u64) -> bool {
        exists|i: int| 0 <= i < self.spec_handles().len() && #[trigger] self.spec_handles()[i] == h
    }

    /// The slot position of a handle.
    pub open spec fn handle_index(&self, h: u64) -> int {
        choose|i: int| 0 <= i < self.spec_handles().len() && #[trigger] self.spec_handles()[i] == h
    }

    /// An empty registry. Handles start at one; zero is the invalid
    /// handle.
    pub fn new() -> (r: Registry<T>)
        ensures
            r.wf(),
            r.spec_handles().len() == 0,
            r.spec_next() == 1,
    {
        let r = Registry { slots: Vec::new(), next: 1 };
        proof {
            assert(r.spec_handles() =~= Seq::<u64>::empty());
            assert(r.spec_values() =~= Seq::<Option<T>>::empty());
        }
        r
    }

    /// Find the slot of a handle.
    fn find(&self, h: u64) -> (r: Option<usize>)
        requires
            self.wf(),
        ensures
            r is Some <==> self.has_handle(h),
            r matches Some(i) ==> 0 <= i < self.spec_handles().len() && self.spec_handles()[i as int]
                == h && i == self.handle_index(h),
    {
        let mut i: usize = 0;
        while i < self.slots.len()
            invariant
                self.wf(),
                0 <= i <= self.spec_handles().len(),
                self.spec_handles().len() == self.slots@.len(),
                forall|k: int| 0 <= k < i ==> #[trigger] self.spec_handles()[k] != h,
            decreases self.slots.len() - i,
        {
            if self.slots[i].handle == h {
                proof {
                    assert(self.spec_handles()[i as int] == h);
                    assert(self.has_handle(h));
                    let idx = self.handle_index(h);
                    assert(self.spec_handles()[idx] == h);
                    if idx < i as int {
                        assert(self.spec_handles()[idx] != h);
                        assert(false);
                    }
                    if idx > i as int {
                        assert(self.spec_handles()[i as int] != self.spec_handles()[idx]);
                        assert(false);
                    }
                }
                return Option::Some(i);
            }
            i = i + 1;
        }
        Option::None
    }

    /// Whether another handle can still be issued.
    pub fn can_create(&self) -> (r: bool)
        ensures
            r == (self.spec_next() < u64::MAX),
    {
        self.next < u64::MAX
    }

    /// Register a value and issue its handle.
    pub fn create(&mut self, value: T) -> (r: u64)
        requires
            old(self).wf(),
            old(self).spec_next() < u64::MAX,
        ensures
            final(self).wf(),
            r == old(self).spec_next(),
            r != 0,
            final(self).spec_next() == old(self).spec_next() + 1,
            final(self).spec_handles() == old(self).spec_handles().push(r),
            final(self).spec_values() == old(self).spec_values().push(Option::Some(value)),
            final(self).has_handle(r),
    {
        let h = self.next;
        let ghost pre = *self;
        self.slots.push(Slot { handle: h, value: Option::Some(value) });
        self.next = self.next + 1;
        proof {
            assert(self.spec_handles() =~= pre.spec_handles().push(h));
            assert(self.spec_values() =~= pre.spec_values().push(Option::Some(value)));
            assert(self.spec_handles()[self.spec_handles().len() - 1] == h);
            assert forall|a: int, b: int|
                0 <= a < b < self.spec_handles().len() implies self.spec_handles()[a]
                != self.spec_handles()[b] by {
                if b == self.spec_handles().len() - 1 {
                    assert(pre.spec_handles()[a] < pre.spec_next());
                }
            }
        }
        h
    }

    /// Check a value out of its slot for exclusive use. An unknown
    /// handle reports `NotFound`; a slot already checked out reports
    /// `Busy`.
    pub fn borrow(&mut self, h: u64) -> (r: Result<T, Error>)
        requires
            old(self).wf(),
        ensures
            final(self).wf(),
            final(self).spec_next() == old(self).spec_next(),
            final(self).spec_handles() == old(self).spec_handles(),
            !old(self).has_handle(h) ==> r is Err && r->Err_0.kind == ErrorKind::NotFound && final(self).spec_values() == old(self).spec_values(),
            old(self).has_handle(h) ==> {
                let i = old(self).handle_index(h);
                match old(self).spec_values()[i] {
                    Option::None => r is Err && r->Err_0.kind == ErrorKind::Busy && final(self).spec_values() == old(self).spec_values(),
                    Option::Some(v) => r == Result::<T, Error>::Ok(v) && final(self).spec_values()
                        == old(self).spec_values().update(i, Option::<T>::None),
                }
            },
    {
        let i = match self.find(h) {
            Option::None => {
                return Result::Err(
                    Error::new(ErrorKind::NotFound, String::from_str("invalid handle")),
                );
            },
            Option::Some(i) => i,
        };
        let ghost pre = *self;
        let mut slot = self.slots.remove(i);
        match slot.value {
            Option::None => {
                self.slots.insert(i, slot);
                proof {
                    assert(self.spec_handles() =~= pre.spec_handles());
                    assert(self.spec_values() =~= pre.spec_values());
                }
                Result::Err(Error::new(ErrorKind::Busy, String::from_str("handle in use")))
            },
            Option::Some(v) => {
                self.slots.insert(i, Slot { handle: h, value: Option::None });
                proof {
                    assert(self.spec_handles() =~= pre.spec_handles());
                    assert(self.spec_values() =~= pre.spec_values().update(
                        i as int,
                        Option::<T>::None,
                    ));
                }
                Result::Ok(v)
            },
        }
    }

    /// Return a checked-out value to its slot. An unknown handle
    /// reports `NotFound`.
    pub fn release(&mut self, h: u64, value: T) -> (r: Result<(), Error>)
        requires
            old(self).wf(),
        ensures
            final(self).wf(),
            final(self).spec_next() == old(self).spec_next(),
            final(self).spec_handles() == old(self).spec_handles(),
            !old(self).has_handle(h) ==> r is Err && r->Err_0.kind == ErrorKind::NotFound && final(self).spec_values() == old(self).spec_values(),
            old(self).has_handle(h) ==> r is Ok && final(self).spec_values() == old(self).spec_values().update(old(self).handle_index(h), Option::Some(value)),
    {
        let i = match self.find(h) {
            Option::None => {
                return Result::Err(
                    Error::new(ErrorKind::NotFound, String::from_str("invalid handle")),
                );
            },
            Option::Some(i) => i,
        };
        let ghost pre = *self;
        self.slots.remove(i);
        self.slots.insert(i, Slot { handle: h, value: Option::Some(value) });
        proof {
            assert(self.spec_handles() =~= pre.spec_handles());
            assert(self.spec_values() =~= pre.spec_values().update(i as int, Option::Some(value)));
        }
        Result::Ok(())
    }

    /// Drop a slot, handing its value back when it is at rest. An
    /// unknown handle reports `NotFound`. A slot still checked out
    /// reports `Busy`, but the handle is unregistered all the same:
    /// the borrower's later release fails as an unknown handle and the
    /// value closes with it.
    pub fn remove(&mut self, h: u64) -> (r: Result<T, Error>)
        requires
            old(self).wf(),
        ensures
            final(self).wf(),
            final(self).spec_next() == old(self).spec_next(),
            !old(self).has_handle(h) ==> r is Err && r->Err_0.kind == ErrorKind::NotFound && final(self).spec_handles() == old(self).spec_handles() && final(self).spec_values() == old(self).spec_values(),
            old(self).has_handle(h) ==> final(self).spec_handles() == old(
                self,
            ).spec_handles().remove(old(self).handle_index(h)) && final(self).spec_values() == old(
                self,
            ).spec_values().remove(old(self).handle_index(h)),
            old(self).has_handle(h) ==> {
                let i = old(self).handle_index(h);
                match old(self).spec_values()[i] {
                    Option::None => r is Err && r->Err_0.kind == ErrorKind::Busy,
                    Option::Some(v) => r == Result::<T, Error>::Ok(v),
                }
            },
    {
        let i = match self.find(h) {
            Option::None => {
                return Result::Err(
                    Error::new(ErrorKind::NotFound, String::from_str("invalid handle")),
                );
            },
            Option::Some(i) => i,
        };
        let ghost pre = *self;
        let slot = self.slots.remove(i);
        proof {
            assert(self.spec_handles() =~= pre.spec_handles().remove(i as int));
            assert(self.spec_values() =~= pre.spec_values().remove(i as int));
            assert forall|a: int, b: int|
                0 <= a < b < self.spec_handles().len() implies self.spec_handles()[a]
                != self.spec_handles()[b] by {
                let a0 = if a < i as int {
                    a
                } else {
                    a + 1
                };
                let b0 = if b < i as int {
                    b
                } else {
                    b + 1
                };
                assert(self.spec_handles()[a] == pre.spec_handles()[a0]);
                assert(self.spec_handles()[b] == pre.spec_handles()[b0]);
            }
        }
        match slot.value {
            Option::None => Result::Err(
                Error::new(ErrorKind::Busy, String::from_str("handle in use")),
            ),
            Option::Some(v) => Result::Ok(v),
        }
    }

    /// The invalid handle: issued by no registry.
    pub fn invalid_handle() -> (r: u64)
        ensures
            r == 0,
    {
        0
    }
}

/// An opaque handle to a set of entries handed across the boundary.
/// Zero is the invalid handle, issued by no registry.
#[derive(Clone, Copy, Debug, PartialEq, Eq, Structural)]
pub struct EntrySetHandle(u64);

impl EntrySetHandle {
    /// The invalid handle.
    pub fn invalid() -> (r: EntrySetHandle)
        ensures
            r.spec_value() == 0,
    {
        EntrySetHandle(0)
    }

    /// Wrap a registry handle.
    pub fn from_value(v: u64) -> (r: EntrySetHandle)
        ensures
            r.spec_value() == v,
    {
        EntrySetHandle(v)
    }

    /// The numeric value of the handle.
    pub fn value(&self) -> (r: u64)
        ensures
            r == self.spec_value(),
    {
        self.0
    }

    /// The numeric value, in specifications.
    pub closed spec fn spec_value(&self) -> u64 {
        self.0
    }
}

} // verus!
