use vstd::prelude::*;

use crate::column::{released, shared_acquired, BorrowState};
use crate::world::WorldModel;

verus! {

/// Every column stays as long as the entity count: the empty world has no
/// column, creating an entity lengthens every column by one, and attaching a
/// component keeps all columns at the current count.
pub proof fn law_columns_in_lockstep<T>(m: WorldModel<T>, e: int, k: u64, v: T)
    requires
        m.wf(),
    ensures
        WorldModel::<T>::empty().wf(),
        m.with_new_entity().wf(),
        m.with_new_entity().count == m.count + 1,
        forall|j: u64| #[trigger]
            m.with_new_entity().columns.contains_key(j) ==> m.with_new_entity().columns[j].len()
                == m.count + 1,
        m.attach(e, k, v) matches Ok(n) ==> n.wf() && n.count == m.count,
{
    let n = m.with_new_entity();
    assert(WorldModel::<T>::empty().borrows.dom() =~= WorldModel::<T>::empty().columns.dom());
    assert(n.borrows.dom() =~= n.columns.dom());
    assert forall|j: u64| #[trigger] n.columns.contains_key(j) implies n.columns[j].len() == n.count
        && crate::column::state_ok(n.borrows[j]) by {
        assert(m.columns.contains_key(j));
    }
    if let Ok(a) = m.attach(e, k, v) {
        assert(a.borrows.dom() =~= a.columns.dom());
        assert forall|j: u64| #[trigger] a.columns.contains_key(j) implies a.columns[j].len()
            == a.count && crate::column::state_ok(a.borrows[j]) by {
            if j != k {
                assert(m.columns.contains_key(j));
            }
        }
    }
}

/// The world after `k` more entities are created.
pub open spec fn with_new_entities<T>(m: WorldModel<T>, k: nat) -> WorldModel<T>
    decreases k,
{
    if k == 0 {
        m
    } else {
        with_new_entities(m, (k - 1) as nat).with_new_entity()
    }
}

/// After `k` entity creations every column, those of the starting world
/// included, has exactly `count + k` slots; from the empty world that is `k`.
pub proof fn law_columns_after_new_entities<T>(m: WorldModel<T>, k: nat)
    requires
        m.wf(),
    ensures
        with_new_entities(m, k).wf(),
        with_new_entities(m, k).count == m.count + k,
        with_new_entities(m, k).columns.dom() == m.columns.dom(),
        forall|j: u64| #[trigger]
            with_new_entities(m, k).columns.contains_key(j) ==> with_new_entities(m, k).columns[j].len()
                == m.count + k,
    decreases k,
{
    if k > 0 {
        let p = with_new_entities(m, (k - 1) as nat);
        law_columns_after_new_entities(m, (k - 1) as nat);
        law_columns_in_lockstep(p, 0, 0, arbitrary());
        law_new_entity_has_nothing(p);
    }
}

/// A kind that was never attached has no column: not in the empty world, and
/// neither creating entities, attaching other kinds nor borrowing makes one.
pub proof fn law_unattached_kind_has_no_column<T>(m: WorldModel<T>, k: u64, e: int, other: u64, v: T, s: BorrowState)
    requires
        !m.columns.contains_key(k),
        other != k,
    ensures
        !WorldModel::<T>::empty().columns.contains_key(k),
        !m.with_new_entity().columns.contains_key(k),
        m.attach(e, other, v) matches Ok(n) ==> !n.columns.contains_key(k),
        !m.with_borrow(other, s).columns.contains_key(k),
{
}

/// Attaching `v` of kind `k` to an allocated entity whose column is not held
/// succeeds, and the slot of that entity then holds `v`, also once the column
/// is borrowed.
pub proof fn law_attach_then_read<T>(m: WorldModel<T>, e: int, k: u64, v: T)
    requires
        m.wf(),
        0 <= e < m.count,
        m.columns.contains_key(k) ==> m.borrows[k] == BorrowState::Free,
    ensures
        m.attach(e, k, v) is Ok,
        m.attach(e, k, v)->Ok_0.columns[k][e] == Some(v),
        m.attach(e, k, v)->Ok_0.with_borrow(k, BorrowState::Exclusive).columns[k][e] == Some(v),
        m.attach(e, k, v)->Ok_0.with_borrow(k, BorrowState::Shared(1)).columns[k][e] == Some(v),
{
}

/// Attaching twice to the same entity and kind leaves the world as attaching
/// the latest value alone would.
pub proof fn law_attach_overwrites<T>(m: WorldModel<T>, e: int, k: u64, v1: T, v2: T)
    requires
        m.wf(),
        0 <= e < m.count,
        m.columns.contains_key(k) ==> m.borrows[k] == BorrowState::Free,
    ensures
        m.attach(e, k, v1)->Ok_0.attach(e, k, v2) == m.attach(e, k, v2),
        m.attach(e, k, v1)->Ok_0.attach(e, k, v2)->Ok_0.columns[k][e] == Some(v2),
{
    let a = m.attach(e, k, v1)->Ok_0;
    let b = a.attach(e, k, v2)->Ok_0;
    let c = m.attach(e, k, v2)->Ok_0;
    if m.columns.contains_key(k) {
        assert(b.columns[k] =~= c.columns[k]);
    } else {
        assert(b.columns[k] =~= c.columns[k]);
        assert(b.borrows =~= c.borrows);
    }
    assert(b.columns =~= c.columns);
}

/// A new entity adds exactly one absent slot, at its own index, to every
/// existing column, and has no component of any kind.
pub proof fn law_new_entity_has_nothing<T>(m: WorldModel<T>)
    requires
        m.wf(),
    ensures
        m.with_new_entity().columns.dom() == m.columns.dom(),
        forall|k: u64| #[trigger]
            m.columns.contains_key(k) ==> m.with_new_entity().columns[k] == m.columns[k].push(None),
        forall|k: u64| #[trigger]
            m.with_new_entity().columns.contains_key(k) ==> m.with_new_entity().columns[k][m.count as int]
                is None,
{
    assert(m.with_new_entity().columns.dom() =~= m.columns.dom());
}

/// Borrowing a column and releasing it at once, without writing, gives back
/// the same world.
pub proof fn law_borrow_release_restores<T>(m: WorldModel<T>, k: u64)
    requires
        m.wf(),
        m.columns.contains_key(k),
    ensures
        m.borrows[k] == BorrowState::Free ==> m.with_borrow(k, BorrowState::Exclusive).with_borrow(
            k,
            released(BorrowState::Exclusive),
        ) == m,
        m.borrows[k] != BorrowState::Exclusive && m.borrows[k] != BorrowState::Shared(usize::MAX)
            ==> m.with_borrow(k, shared_acquired(m.borrows[k])).with_borrow(
            k,
            released(shared_acquired(m.borrows[k])),
        ) == m,
{
    if m.borrows[k] == BorrowState::Free {
        assert(m.with_borrow(k, BorrowState::Exclusive).with_borrow(k, released(BorrowState::Exclusive)).borrows
            =~= m.borrows);
    }
    if m.borrows[k] != BorrowState::Exclusive && m.borrows[k] != BorrowState::Shared(usize::MAX) {
        let s = shared_acquired(m.borrows[k]);
        assert(m.with_borrow(k, s).with_borrow(k, released(s)).borrows =~= m.borrows);
    }
}

} // verus!
