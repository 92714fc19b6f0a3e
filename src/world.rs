use vstd::prelude::*;

use crate::column::{released, shared_acquired, state_ok, BorrowState, Column, EcsError};

verus! {

/// What a world holds, abstractly: the number of entities allocated so far,
/// the slots of each kind of component that has ever been attached, and who
/// holds each of those columns.
pub struct WorldModel<T> {
    pub count: nat,
    pub columns: Map<u64, Seq<Option<T>>>,
    pub borrows: Map<u64, BorrowState>,
}

impl<T> WorldModel<T> {
    /// Every column is as long as the entity count, and each has a borrow state.
    pub open spec fn wf(self) -> bool {
        &&& self.borrows.dom() == self.columns.dom()
        &&& forall|k: u64| #[trigger]
            self.columns.contains_key(k) ==> self.columns[k].len() == self.count && state_ok(
                self.borrows[k],
            )
    }

    /// A world with no entity and no column.
    pub open spec fn empty() -> Self {
        WorldModel { count: 0, columns: Map::empty(), borrows: Map::empty() }
    }

    /// One more entity: every column gains one absent slot at its index.
    pub open spec fn with_new_entity(self) -> Self {
        WorldModel {
            count: self.count + 1,
            columns: Map::new(
                |k: u64| self.columns.contains_key(k),
                |k: u64| self.columns[k].push(None),
            ),
            borrows: self.borrows,
        }
    }

    /// The same world with the borrow state of column `k` replaced.
    pub open spec fn with_borrow(self, k: u64, s: BorrowState) -> Self {
        WorldModel { borrows: self.borrows.insert(k, s), ..self }
    }

    /// A fresh column for `k` of `count` slots, with `v` in slot `e` alone.
    pub open spec fn fresh_column(self, e: int, v: T) -> Seq<Option<T>> {
        Seq::new(self.count, |i: int| if i == e { Some(v) } else { None })
    }

    /// The outcome of attaching `v` of kind `k` to entity `e`.
    pub open spec fn attach(self, e: int, k: u64, v: T) -> Result<Self, EcsError> {
        if e < 0 || e >= self.count {
            Err(EcsError::EntityOutOfRange)
        } else if self.columns.contains_key(k) {
            if self.borrows[k] != BorrowState::Free {
                Err(EcsError::BorrowConflict)
            } else {
                Ok(
                    WorldModel {
                        columns: self.columns.insert(k, self.columns[k].update(e, Some(v))),
                        ..self
                    },
                )
            }
        } else {
            Ok(
                WorldModel {
                    columns: self.columns.insert(k, self.fresh_column(e, v)),
                    borrows: self.borrows.insert(k, BorrowState::Free),
                    ..self
                },
            )
        }
    }

    /// A handle on column `k`, exclusive or shared, may be held in this world.
    pub open spec fn holds(self, k: u64, exclusive: bool) -> bool {
        &&& self.columns.contains_key(k)
        &&& if exclusive {
            self.borrows[k] == BorrowState::Exclusive
        } else {
            self.borrows[k] is Shared
        }
    }

    /// Entity `e` has a value in every column of `kinds`.
    pub open spec fn in_join(self, kinds: Seq<u64>, e: int) -> bool {
        &&& 0 <= e < self.count
        &&& forall|j: int|
            0 <= j < kinds.len() ==> #[trigger] self.columns[kinds[j]][e] is Some
    }
}

/// Access to one column, obtained from `World::borrow_component_vec_mut` or
/// `World::borrow_component_vec` and given back with `World::release`.
pub struct ColumnHandle {
    kind: u64,
    exclusive: bool,
}

impl ColumnHandle {
    pub closed spec fn spec_kind(&self) -> u64 {
        self.kind
    }

    pub closed spec fn spec_exclusive(&self) -> bool {
        self.exclusive
    }

    /// The kind of the column this handle gives access to.
    pub fn kind(&self) -> (r: u64)
        ensures
            r == self.spec_kind(),
    {
        self.kind
    }

    /// Whether this handle may write.
    pub fn is_exclusive(&self) -> (r: bool)
        ensures
            r == self.spec_exclusive(),
    {
        self.exclusive
    }
}

/// The kinds of the columns that `hs` give access to, in order.
pub open spec fn handle_kinds(hs: Seq<ColumnHandle>) -> Seq<u64> {
    hs.map_values(|h: ColumnHandle| h.spec_kind())
}

/// Entities and their components, stored column by column.
pub struct World<T> {
    entities_count: usize,
    component_vecs: Vec<Column<T>>,
}

impl<T> World<T> {
    spec fn has_kind(&self, k: u64) -> bool {
        exists|i: int|
            0 <= i < self.component_vecs@.len() && #[trigger] self.component_vecs@[i].spec_kind()
                == k
    }

    spec fn index_of(&self, k: u64) -> int {
        choose|i: int|
            0 <= i < self.component_vecs@.len() && #[trigger] self.component_vecs@[i].spec_kind()
                == k
    }

    /// Kinds are unique among the columns, every column is as long as the
    /// entity count, and shared counts are positive.
    pub closed spec fn wf(&self) -> bool {
        &&& forall|i: int, j: int|
            0 <= i < j < self.component_vecs@.len() ==> #[trigger] self.component_vecs@[i].spec_kind()
                != #[trigger] self.component_vecs@[j].spec_kind()
        &&& forall|i: int|
            0 <= i < self.component_vecs@.len() ==> #[trigger] self.component_vecs@[i].slots().len()
                == self.entities_count
        &&& forall|i: int|
            0 <= i < self.component_vecs@.len() ==> state_ok(
                #[trigger] self.component_vecs@[i].state(),
            )
    }

    proof fn lemma_index(&self, i: int)
        requires
            self.wf(),
            0 <= i < self.component_vecs@.len(),
        ensures
            self.has_kind(self.component_vecs@[i].spec_kind()),
            self.index_of(self.component_vecs@[i].spec_kind()) == i,
            self@.columns.contains_key(self.component_vecs@[i].spec_kind()),
            self@.columns[self.component_vecs@[i].spec_kind()] == self.component_vecs@[i].slots(),
            self@.borrows[self.component_vecs@[i].spec_kind()] == self.component_vecs@[i].state(),
    {
        let k = self.component_vecs@[i].spec_kind();
        assert(self.has_kind(k));
        let j = self.index_of(k);
        if j < i {
            assert(self.component_vecs@[j].spec_kind() != self.component_vecs@[i].spec_kind());
        } else if i < j {
            assert(self.component_vecs@[i].spec_kind() != self.component_vecs@[j].spec_kind());
        }
    }

    /// A well-formed world has a well-formed model.
    pub proof fn lemma_view_wf(&self)
        requires
            self.wf(),
        ensures
            self@.wf(),
    {
        assert forall|k: u64| #[trigger] self@.columns.contains_key(k) implies self@.columns[k].len()
            == self@.count && state_ok(self@.borrows[k]) by {
            self.lemma_index(self.index_of(k));
        }
    }

    /// Changing column `i` in place changes the model at that column's kind only.
    proof fn lemma_frame(a: &World<T>, b: &World<T>, i: int)
        requires
            a.wf(),
            b.wf(),
            a.entities_count == b.entities_count,
            a.component_vecs@.len() == b.component_vecs@.len(),
            0 <= i < a.component_vecs@.len(),
            forall|j: int|
                0 <= j < a.component_vecs@.len() ==> (#[trigger] b.component_vecs@[j]).spec_kind()
                    == a.component_vecs@[j].spec_kind(),
            forall|j: int|
                0 <= j < a.component_vecs@.len() && j != i ==> #[trigger] b.component_vecs@[j]
                    == a.component_vecs@[j],
        ensures
            b@ == (WorldModel {
                columns: a@.columns.insert(
                    a.component_vecs@[i].spec_kind(),
                    b.component_vecs@[i].slots(),
                ),
                borrows: a@.borrows.insert(
                    a.component_vecs@[i].spec_kind(),
                    b.component_vecs@[i].state(),
                ),
                ..a@
            }),
    {
        let ki = a.component_vecs@[i].spec_kind();
        let m = WorldModel {
            columns: a@.columns.insert(ki, b.component_vecs@[i].slots()),
            borrows: a@.borrows.insert(ki, b.component_vecs@[i].state()),
            ..a@
        };
        a.lemma_index(i);
        b.lemma_index(i);
        assert forall|k: u64| #[trigger] b@.columns.contains_key(k) == m.columns.contains_key(k) by {
            if b.has_kind(k) {
                a.lemma_index(b.index_of(k));
            }
            if a.has_kind(k) {
                b.lemma_index(a.index_of(k));
            }
        }
        assert forall|k: u64| #[trigger] b@.columns.contains_key(k) implies b@.columns[k]
            == m.columns[k] && b@.borrows[k] == m.borrows[k] by {
            let j = b.index_of(k);
            a.lemma_index(j);
            b.lemma_index(j);
        }
        assert(b@.columns =~= m.columns);
        assert(b@.borrows =~= m.borrows);
    }

    /// Appending a column of a new kind adds that kind to the model.
    proof fn lemma_push(a: &World<T>, b: &World<T>, c: Column<T>)
        requires
            a.wf(),
            b.wf(),
            a.entities_count == b.entities_count,
            b.component_vecs@ == a.component_vecs@.push(c),
            !a@.columns.contains_key(c.spec_kind()),
        ensures
            b@ == (WorldModel {
                columns: a@.columns.insert(c.spec_kind(), c.slots()),
                borrows: a@.borrows.insert(c.spec_kind(), c.state()),
                ..a@
            }),
    {
        let m = WorldModel {
            columns: a@.columns.insert(c.spec_kind(), c.slots()),
            borrows: a@.borrows.insert(c.spec_kind(), c.state()),
            ..a@
        };
        let n = a.component_vecs@.len() as int;
        b.lemma_index(n);
        assert forall|k: u64| #[trigger] b@.columns.contains_key(k) == m.columns.contains_key(k) by {
            if b.has_kind(k) {
                let j = b.index_of(k);
                if j < n {
                    a.lemma_index(j);
                }
            }
            if a.has_kind(k) {
                b.lemma_index(a.index_of(k));
            }
        }
        assert forall|k: u64| #[trigger] b@.columns.contains_key(k) implies b@.columns[k]
            == m.columns[k] && b@.borrows[k] == m.borrows[k] by {
            let j = b.index_of(k);
            b.lemma_index(j);
            if j < n {
                a.lemma_index(j);
            }
        }
        assert(b@.columns =~= m.columns);
        assert(b@.borrows =~= m.borrows);
    }

    /// The position of the column of `kind`, if there is one.
    fn find(&self, kind: u64) -> (r: Option<usize>)
        requires
            self.wf(),
        ensures
            r is None <==> !self@.columns.contains_key(kind),
            r matches Some(i) ==> i < self.component_vecs@.len()
                && self.component_vecs@[i as int].spec_kind() == kind,
    {
        let mut i: usize = 0;
        while i < self.component_vecs.len()
            invariant
                i <= self.component_vecs@.len(),
                forall|j: int| 0 <= j < i ==> (#[trigger] self.component_vecs@[j]).spec_kind() != kind,
            decreases self.component_vecs@.len() - i,
        {
            if self.component_vecs[i].type_matches(kind) {
                return Some(i);
            }
            i = i + 1;
        }
        None
    }

    pub fn new() -> (w: Self)
        ensures
            w.wf(),
            w@ == WorldModel::<T>::empty(),
    {
        let w = World { entities_count: 0, component_vecs: Vec::new() };
        assert(w@.columns =~= Map::empty());
        assert(w@.borrows =~= Map::empty());
        w
    }

    /// Allocates the next entity identifier and gives every column an absent
    /// slot for it.
    pub fn new_entity(&mut self) -> (r: usize)
        requires
            old(self).wf(),
            old(self)@.count < usize::MAX,
        ensures
            final(self).wf(),
            r == old(self)@.count,
            final(self)@ == old(self)@.with_new_entity(),
    {
        let entity_id = self.entities_count;
        let n = self.component_vecs.len();
        let mut i: usize = 0;
        while i < n
            invariant
                n == self.component_vecs@.len(),
                n == old(self).component_vecs@.len(),
                i <= n,
                self.entities_count == old(self).entities_count,
                forall|j: int|
                    0 <= j < n ==> (#[trigger] self.component_vecs@[j]).spec_kind()
                        == old(self).component_vecs@[j].spec_kind() && self.component_vecs@[j].state()
                        == old(self).component_vecs@[j].state(),
                forall|j: int|
                    0 <= j < i ==> (#[trigger] self.component_vecs@[j]).slots() == old(
                        self,
                    ).component_vecs@[j].slots().push(None),
                forall|j: int|
                    i <= j < n ==> (#[trigger] self.component_vecs@[j]).slots() == old(
                        self,
                    ).component_vecs@[j].slots(),
            decreases n - i,
        {
            self.component_vecs[i].grow_by_one();
            i = i + 1;
        }
        self.entities_count = self.entities_count + 1;
        proof {
            let a = old(self);
            let m = a@.with_new_entity();
            assert forall|k: u64| #[trigger] self@.columns.contains_key(k) == m.columns.contains_key(
                k,
            ) by {
                if self.has_kind(k) {
                    a.lemma_index(self.index_of(k));
                }
                if a.has_kind(k) {
                    self.lemma_index(a.index_of(k));
                }
            }
            assert forall|k: u64| #[trigger] self@.columns.contains_key(k) implies self@.columns[k]
                == m.columns[k] && self@.borrows[k] == m.borrows[k] by {
                let j = self.index_of(k);
                a.lemma_index(j);
                self.lemma_index(j);
            }
            assert(self@.columns =~= m.columns);
            assert(self@.borrows =~= m.borrows);
        }
        entity_id
    }

    /// Attaches `component` of `kind` to `entity`, replacing any earlier value
    /// of that kind; a column for `kind` is created, with an absent slot for
    /// every other entity, the first time the kind is seen.
    pub fn add_component_to_entity(&mut self, entity: usize, kind: u64, component: T) -> (r:
        Result<(), EcsError>)
        requires
            old(self).wf(),
        ensures
            final(self).wf(),
            match old(self)@.attach(entity as int, kind, component) {
                Ok(m) => r is Ok && final(self)@ == m,
                Err(e) => r == Err::<(), EcsError>(e) && final(self)@ == old(self)@,
            },
    {
        if entity >= self.entities_count {
            return Err(EcsError::EntityOutOfRange);
        }
        match self.find(kind) {
            Some(i) => {
                proof {
                    self.lemma_index(i as int);
                }
                if self.component_vecs[i].borrow_state() != BorrowState::Free {
                    return Err(EcsError::BorrowConflict);
                }
                self.component_vecs[i].set(entity, Some(component));
                proof {
                    World::lemma_frame(old(self), self, i as int);
                    assert(self@.columns =~= old(self)@.attach(
                        entity as int,
                        kind,
                        component,
                    )->Ok_0.columns);
                    assert(self@.borrows =~= old(self)@.borrows.insert(kind, BorrowState::Free));
                    assert(self@.borrows =~= old(self)@.borrows);
                }
                Ok(())
            },
            None => {
                let mut c = Column::new(kind, self.entities_count);
                c.set(entity, Some(component));
                proof {
                    assert(c.slots() =~= old(self)@.fresh_column(entity as int, component));
                }
                self.component_vecs.push(c);
                proof {
                    World::lemma_push(old(self), self, c);
                }
                Ok(())
            },
        }
    }

    /// The number of entities allocated so far.
    pub fn entity_count(&self) -> (r: usize)
        ensures
            r == self@.count,
    {
        self.entities_count
    }

    /// Exclusive access to the column of `kind`: none if no entity ever had
    /// that kind, a conflict if the column is held by any handle.
    pub fn borrow_component_vec_mut(&mut self, kind: u64) -> (r: Option<Result<ColumnHandle, EcsError>>)
        requires
            old(self).wf(),
        ensures
            final(self).wf(),
            !old(self)@.columns.contains_key(kind) ==> r is None && final(self)@ == old(self)@,
            old(self)@.columns.contains_key(kind) && old(self)@.borrows[kind] != BorrowState::Free
                ==> r == Some(Err::<ColumnHandle, EcsError>(EcsError::BorrowConflict))
                && final(self)@ == old(self)@,
            old(self)@.columns.contains_key(kind) && old(self)@.borrows[kind] == BorrowState::Free
                ==> final(self)@ == old(self)@.with_borrow(kind, BorrowState::Exclusive) && (r matches Some(
                Ok(h),
            ) && h.spec_kind() == kind && h.spec_exclusive()),
    {
        match self.find(kind) {
            None => None,
            Some(i) => {
                proof {
                    self.lemma_index(i as int);
                }
                match self.component_vecs[i].borrow_mut(kind) {
                    Ok(()) => {
                        proof {
                            World::lemma_frame(old(self), self, i as int);
                            assert(self@.columns =~= old(self)@.columns);
                        }
                        Some(Ok(ColumnHandle { kind, exclusive: true }))
                    },
                    Err(e) => {
                        proof {
                            World::lemma_frame(old(self), self, i as int);
                            assert(self@.columns =~= old(self)@.columns);
                            assert(self@.borrows =~= old(self)@.borrows);
                        }
                        Some(Err(e))
                    },
                }
            },
        }
    }

    /// Shared access to the column of `kind`: none if no entity ever had that
    /// kind, a conflict if an exclusive handle holds the column.
    pub fn borrow_component_vec(&mut self, kind: u64) -> (r: Option<Result<ColumnHandle, EcsError>>)
        requires
            old(self).wf(),
            old(self)@.columns.contains_key(kind) ==> old(self)@.borrows[kind] != BorrowState::Shared(
                usize::MAX,
            ),
        ensures
            final(self).wf(),
            !old(self)@.columns.contains_key(kind) ==> r is None && final(self)@ == old(self)@,
            old(self)@.columns.contains_key(kind) && old(self)@.borrows[kind] == BorrowState::Exclusive
                ==> r == Some(Err::<ColumnHandle, EcsError>(EcsError::BorrowConflict))
                && final(self)@ == old(self)@,
            old(self)@.columns.contains_key(kind) && old(self)@.borrows[kind] != BorrowState::Exclusive
                ==> final(self)@ == old(self)@.with_borrow(kind, shared_acquired(old(self)@.borrows[kind]))
                && (r matches Some(Ok(h)) && h.spec_kind() == kind && !h.spec_exclusive()),
    {
        match self.find(kind) {
            None => None,
            Some(i) => {
                proof {
                    self.lemma_index(i as int);
                }
                match self.component_vecs[i].borrow(kind) {
                    Ok(()) => {
                        proof {
                            World::lemma_frame(old(self), self, i as int);
                            assert(self@.columns =~= old(self)@.columns);
                        }
                        Some(Ok(ColumnHandle { kind, exclusive: false }))
                    },
                    Err(e) => {
                        proof {
                            World::lemma_frame(old(self), self, i as int);
                            assert(self@.columns =~= old(self)@.columns);
                            assert(self@.borrows =~= old(self)@.borrows);
                        }
                        Some(Err(e))
                    },
                }
            },
        }
    }

    /// Gives back the access that `h` held.
    pub fn release(&mut self, h: ColumnHandle)
        requires
            old(self).wf(),
            old(self)@.holds(h.spec_kind(), h.spec_exclusive()),
        ensures
            final(self).wf(),
            final(self)@ == old(self)@.with_borrow(
                h.spec_kind(),
                released(old(self)@.borrows[h.spec_kind()]),
            ),
    {
        let i = self.find(h.kind).unwrap();
        proof {
            self.lemma_index(i as int);
        }
        self.component_vecs[i].release();
        proof {
            World::lemma_frame(old(self), self, i as int);
            assert(self@.columns =~= old(self)@.columns);
        }
    }

    /// The value that `entity` has in the column `h` gives access to.
    pub fn get(&self, h: &ColumnHandle, entity: usize) -> (r: Option<&T>)
        requires
            self.wf(),
            self@.holds(h.spec_kind(), h.spec_exclusive()),
            entity < self@.count,
        ensures
            r == match self@.columns[h.spec_kind()][entity as int] {
                Some(v) => Some(&v),
                None => None::<&T>,
            },
    {
        let i = self.find(h.kind).unwrap();
        proof {
            self.lemma_index(i as int);
        }
        self.component_vecs[i].get(entity)
    }

    /// Replaces the value that `entity` has in the column the exclusive
    /// handle `h` gives access to.
    pub fn set(&mut self, h: &ColumnHandle, entity: usize, value: Option<T>)
        requires
            old(self).wf(),
            old(self)@.holds(h.spec_kind(), true),
            h.spec_exclusive(),
            entity < old(self)@.count,
        ensures
            final(self).wf(),
            final(self)@ == (WorldModel {
                columns: old(self)@.columns.insert(
                    h.spec_kind(),
                    old(self)@.columns[h.spec_kind()].update(entity as int, value),
                ),
                ..old(self)@
            }),
    {
        let i = self.find(h.kind).unwrap();
        proof {
            self.lemma_index(i as int);
        }
        self.component_vecs[i].set(entity, value);
        proof {
            World::lemma_frame(old(self), self, i as int);
            assert(self@.borrows =~= old(self)@.borrows);
        }
    }

    /// The entities that have a value in every column that `handles` give
    /// access to, in ascending order.
    pub fn join(&self, handles: &Vec<ColumnHandle>) -> (r: Vec<usize>)
        requires
            self.wf(),
            forall|j: int|
                0 <= j < handles@.len() ==> self@.holds(
                    (#[trigger] handles@[j]).spec_kind(),
                    handles@[j].spec_exclusive(),
                ),
        ensures
            forall|a: int, b: int| 0 <= a < b < r@.len() ==> r@[a] < r@[b],
            forall|e: usize| r@.contains(e) <==> self@.in_join(handle_kinds(handles@), e as int),
    {
        let ghost kinds = handle_kinds(handles@);
        let mut idxs: Vec<usize> = Vec::new();
        let mut j: usize = 0;
        while j < handles.len()
            invariant
                self.wf(),
                j <= handles@.len(),
                idxs@.len() == j,
                forall|j: int|
                    0 <= j < handles@.len() ==> self@.holds(
                        (#[trigger] handles@[j]).spec_kind(),
                        handles@[j].spec_exclusive(),
                    ),
                forall|a: int|
                    0 <= a < j ==> #[trigger] idxs@[a] < self.component_vecs@.len()
                        && self.component_vecs@[idxs@[a] as int].spec_kind() == handles@[a].spec_kind(),
            decreases handles@.len() - j,
        {
            let i = self.find(handles[j].kind).unwrap();
            idxs.push(i);
            j = j + 1;
        }
        proof {
            assert forall|a: int| 0 <= a < idxs@.len() implies self@.columns[#[trigger] kinds[a]]
                == self.component_vecs@[idxs@[a] as int].slots() by {
                self.lemma_index(idxs@[a] as int);
            }
        }
        let mut r: Vec<usize> = Vec::new();
        let mut e: usize = 0;
        while e < self.entities_count
            invariant
                self.wf(),
                e <= self.entities_count,
                idxs@.len() == kinds.len(),
                kinds == handle_kinds(handles@),
                forall|a: int|
                    0 <= a < idxs@.len() ==> #[trigger] idxs@[a] < self.component_vecs@.len()
                        && self@.columns[kinds[a]] == self.component_vecs@[idxs@[a] as int].slots(),
                forall|a: int, b: int| 0 <= a < b < r@.len() ==> r@[a] < r@[b],
                forall|a: int| 0 <= a < r@.len() ==> r@[a] < e,
                forall|x: usize| r@.contains(x) <==> (x < e && self@.in_join(kinds, x as int)),
            decreases self.entities_count - e,
        {
            let mut all: bool = true;
            let mut j: usize = 0;
            while j < idxs.len()
                invariant
                    self.wf(),
                    e < self.entities_count,
                    j <= idxs@.len(),
                    forall|a: int|
                        0 <= a < idxs@.len() ==> #[trigger] idxs@[a] < self.component_vecs@.len()
                            && self@.columns[kinds[a]] == self.component_vecs@[idxs@[a] as int].slots(),
                    all == forall|a: int| 0 <= a < j ==> #[trigger] self@.columns[kinds[a]][e as int] is Some,
                decreases idxs@.len() - j,
            {
                let i = idxs[j];
                proof {
                    assert(idxs@[j as int] < self.component_vecs@.len());
                }
                let present = self.component_vecs[i].is_present(e);
                proof {
                    if all && present {
                        assert forall|a: int| 0 <= a < j + 1 implies #[trigger] self@.columns[kinds[a]][e as int] is Some by {
                            if a < j {
                                assert(self@.columns[kinds[a]][e as int] is Some);
                            }
                        }
                    }
                }
                all = all && present;
                j = j + 1;
            }
            proof {
                assert(all == self@.in_join(kinds, e as int));
            }
            let ghost r0 = r@;
            if all {
                r.push(e);
            }
            proof {
                assert forall|x: usize| r@.contains(x) <==> (x < e + 1 && self@.in_join(kinds, x as int)) by {
                    if x == e && all {
                        assert(r@[r@.len() - 1] == x);
                    }
                    if r@.contains(x) && x != e {
                        let a = choose|a: int| 0 <= a < r@.len() && r@[a] == x;
                        if all {
                            assert(a < r@.len() - 1);
                        }
                        assert(r0[a] == x);
                        assert(r0.contains(x));
                    }
                    if x < e && self@.in_join(kinds, x as int) {
                        assert(r0.contains(x));
                        let a = choose|a: int| 0 <= a < r0.len() && r0[a] == x;
                        assert(r@[a] == x);
                    }
                }
            }
            e = e + 1;
        }
        r
    }
}

impl<T> View for World<T> {
    type V = WorldModel<T>;

    closed spec fn view(&self) -> WorldModel<T> {
        WorldModel {
            count: self.entities_count as nat,
            columns: Map::new(
                |k: u64| self.has_kind(k),
                |k: u64| self.component_vecs@[self.index_of(k)].slots(),
            ),
            borrows: Map::new(
                |k: u64| self.has_kind(k),
                |k: u64| self.component_vecs@[self.index_of(k)].state(),
            ),
        }
    }
}

} // verus!
