use vstd::prelude::*;

verus! {

/// Errors reported by the storage engine.
#[derive(Debug, Clone, Copy, PartialEq, Eq, Structural)]
pub enum EcsError {
    /// The column is held by a handle that the requested access conflicts with.
    BorrowConflict,
    /// The column stores another kind of component than the one asserted.
    TypeMismatch,
    /// The entity identifier has not been allocated yet.
    EntityOutOfRange,
}

/// Who currently holds a column: nobody, some readers, or one writer.
#[derive(Debug, Clone, Copy, PartialEq, Eq, Structural)]
pub enum BorrowState {
    Free,
    Shared(usize),
    Exclusive,
}

/// The state after one more shared holder joins.
pub open spec fn shared_acquired(s: BorrowState) -> BorrowState {
    match s {
        BorrowState::Shared(n) => BorrowState::Shared((n + 1) as usize),
        _ => BorrowState::Shared(1),
    }
}

/// The state after one holder (exclusive or shared) leaves.
pub open spec fn released(s: BorrowState) -> BorrowState {
    match s {
        BorrowState::Shared(n) => if n > 1 {
            BorrowState::Shared((n - 1) as usize)
        } else {
            BorrowState::Free
        },
        _ => BorrowState::Free,
    }
}

/// A state that a live borrow can be in: shared counts are positive.
pub open spec fn state_ok(s: BorrowState) -> bool {
    match s {
        BorrowState::Shared(n) => n > 0,
        _ => true,
    }
}

/// Storage for one kind of component: one optional slot per entity, and the
/// borrow state that guards access to the slots.
pub struct Column<V> {
    kind: u64,
    slots: Vec<Option<V>>,
    state: BorrowState,
}

impl<V> Column<V> {
    /// The kind of component this column was created for.
    pub closed spec fn spec_kind(&self) -> u64 {
        self.kind
    }

    /// The slots, indexed by entity.
    pub closed spec fn slots(&self) -> Seq<Option<V>> {
        self.slots@
    }

    /// The current borrow state.
    pub closed spec fn state(&self) -> BorrowState {
        self.state
    }

    /// A new, unborrowed column of `len` absent slots.
    pub fn new(kind: u64, len: usize) -> (c: Self)
        ensures
            c.spec_kind() == kind,
            c.slots() == Seq::new(len as nat, |i: int| None::<V>),
            c.state() == BorrowState::Free,
    {
        let mut slots: Vec<Option<V>> = Vec::with_capacity(len);
        let mut i: usize = 0;
        while i < len
            invariant
                i <= len,
                slots@ == Seq::new(i as nat, |j: int| None::<V>),
            decreases len - i,
        {
            slots.push(None);
            i = i + 1;
            assert(slots@ =~= Seq::new(i as nat, |j: int| None::<V>));
        }
        Column { kind, slots, state: BorrowState::Free }
    }

    pub fn len(&self) -> (r: usize)
        ensures
            r == self.slots().len(),
    {
        self.slots.len()
    }

    /// Whether this column stores components of `kind`.
    pub fn type_matches(&self, kind: u64) -> (r: bool)
        ensures
            r == (self.spec_kind() == kind),
    {
        self.kind == kind
    }

    pub fn kind(&self) -> (r: u64)
        ensures
            r == self.spec_kind(),
    {
        self.kind
    }

    pub fn borrow_state(&self) -> (r: BorrowState)
        ensures
            r == self.state(),
    {
        self.state
    }

    /// Appends one absent slot, whatever the column stores.
    pub fn grow_by_one(&mut self)
        ensures
            final(self).slots() == old(self).slots().push(None),
            final(self).spec_kind() == old(self).spec_kind(),
            final(self).state() == old(self).state(),
    {
        self.slots.push(None);
    }

    /// Takes exclusive access: only a free column of the asserted kind.
    pub fn borrow_mut(&mut self, kind: u64) -> (r: Result<(), EcsError>)
        ensures
            final(self).spec_kind() == old(self).spec_kind(),
            final(self).slots() == old(self).slots(),
            old(self).spec_kind() != kind ==> r == Err::<(), EcsError>(EcsError::TypeMismatch),
            old(self).spec_kind() == kind && old(self).state() != BorrowState::Free ==> r == Err::<
                (),
                EcsError,
            >(EcsError::BorrowConflict),
            r is Ok <==> (old(self).spec_kind() == kind && old(self).state() == BorrowState::Free),
            r is Ok ==> final(self).state() == BorrowState::Exclusive,
            r is Err ==> final(self).state() == old(self).state(),
    {
        if self.kind != kind {
            return Err(EcsError::TypeMismatch);
        }
        match self.state {
            BorrowState::Free => {
                self.state = BorrowState::Exclusive;
                Ok(())
            },
            _ => Err(EcsError::BorrowConflict),
        }
    }

    /// Takes shared access: a column of the asserted kind that no writer holds.
    pub fn borrow(&mut self, kind: u64) -> (r: Result<(), EcsError>)
        requires
            old(self).state() != BorrowState::Shared(usize::MAX),
        ensures
            final(self).spec_kind() == old(self).spec_kind(),
            final(self).slots() == old(self).slots(),
            old(self).spec_kind() != kind ==> r == Err::<(), EcsError>(EcsError::TypeMismatch),
            old(self).spec_kind() == kind && old(self).state() == BorrowState::Exclusive ==> r
                == Err::<(), EcsError>(EcsError::BorrowConflict),
            r is Ok <==> (old(self).spec_kind() == kind && old(self).state()
                != BorrowState::Exclusive),
            r is Ok ==> final(self).state() == shared_acquired(old(self).state()),
            r is Err ==> final(self).state() == old(self).state(),
    {
        if self.kind != kind {
            return Err(EcsError::TypeMismatch);
        }
        match self.state {
            BorrowState::Free => {
                self.state = BorrowState::Shared(1);
                Ok(())
            },
            BorrowState::Shared(n) => {
                self.state = BorrowState::Shared(n + 1);
                Ok(())
            },
            BorrowState::Exclusive => Err(EcsError::BorrowConflict),
        }
    }

    /// Gives back one borrow (exclusive or shared).
    pub fn release(&mut self)
        ensures
            final(self).spec_kind() == old(self).spec_kind(),
            final(self).slots() == old(self).slots(),
            final(self).state() == released(old(self).state()),
    {
        match self.state {
            BorrowState::Shared(n) => {
                if n > 1 {
                    self.state = BorrowState::Shared(n - 1);
                } else {
                    self.state = BorrowState::Free;
                }
            },
            _ => {
                self.state = BorrowState::Free;
            },
        }
    }

    /// The slot of entity `i`.
    pub fn get(&self, i: usize) -> (r: Option<&V>)
        requires
            i < self.slots().len(),
        ensures
            r == match self.slots()[i as int] {
                Some(v) => Some(&v),
                None => None::<&V>,
            },
    {
        self.slots[i].as_ref()
    }

    /// Replaces the slot of entity `i`; the previous value is dropped.
    pub fn set(&mut self, i: usize, value: Option<V>)
        requires
            i < old(self).slots().len(),
        ensures
            final(self).slots() == old(self).slots().update(i as int, value),
            final(self).spec_kind() == old(self).spec_kind(),
            final(self).state() == old(self).state(),
    {
        self.slots.set(i, value);
    }

    /// Whether entity `i` has a value in this column.
    pub fn is_present(&self, i: usize) -> (r: bool)
        requires
            i < self.slots().len(),
        ensures
            r == self.slots()[i as int] is Some,
    {
        self.slots[i].is_some()
    }
}

} // verus!
