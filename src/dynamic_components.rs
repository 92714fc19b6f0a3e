use vstd::prelude::*;

use crate::column::BorrowState;
use crate::world::{handle_kinds, ColumnHandle, World, WorldModel};

verus! {

/// The kind under which health components are stored.
pub const HEALTH: u64 = 0;

/// The kind under which name components are stored.
pub const NAME: u64 = 1;

/// The two kinds of component of the example world.
#[derive(Debug, PartialEq, Eq)]
pub enum Component {
    Health(i32),
    Name(String),
}

/// The health value given back to a fallen entity.
pub const REVIVED_HEALTH: i32 = 100;

/// Slot `h` of the health column after the revive rule, for an entity whose
/// name slot is `n`: a named `who` at zero health or below is restored.
pub open spec fn revived(h: Option<Component>, n: Option<Component>, who: Seq<char>) -> Option<
    Component,
> {
    match (h, n) {
        (Some(Component::Health(x)), Some(Component::Name(s))) => if s@ == who && x <= 0 {
            Some(Component::Health(REVIVED_HEALTH))
        } else {
            h
        },
        _ => h,
    }
}

/// Restores every entity named `who` whose health is zero or below, going
/// over the entities that have both components. `handles` holds an exclusive
/// handle on the health column, then any handle on the name column.
pub fn revive_named(world: &mut World<Component>, handles: &Vec<ColumnHandle>, who: &String)
    requires
        old(world).wf(),
        handles@.len() == 2,
        handles@[0].spec_exclusive(),
        handles@[0].spec_kind() != handles@[1].spec_kind(),
        old(world)@.holds(handles@[0].spec_kind(), true),
        old(world)@.holds(handles@[1].spec_kind(), handles@[1].spec_exclusive()),
    ensures
        final(world).wf(),
        final(world)@ == (WorldModel {
            columns: old(world)@.columns.insert(
                handles@[0].spec_kind(),
                Seq::new(
                    old(world)@.count,
                    |e: int|
                        revived(
                            old(world)@.columns[handles@[0].spec_kind()][e],
                            old(world)@.columns[handles@[1].spec_kind()][e],
                            who@,
                        ),
                ),
            ),
            ..old(world)@
        }),
{
    let ghost w0 = world@;
    let ghost hk = handles@[0].spec_kind();
    let ghost nk = handles@[1].spec_kind();
    let n = world.entity_count();
    proof {
        world.lemma_view_wf();
    }
    let joined = world.join(handles);
    proof {
        assert(handle_kinds(handles@)[0] == hk);
        assert(handle_kinds(handles@)[1] == nk);
    }
    let mut idx: usize = 0;
    while idx < joined.len()
        invariant
            world.wf(),
            w0.wf(),
            hk != nk,
            handles@.len() == 2,
            hk == handles@[0].spec_kind(),
            nk == handles@[1].spec_kind(),
            handles@[0].spec_exclusive(),
            w0.holds(hk, true),
            w0.holds(nk, handles@[1].spec_exclusive()),
            idx <= joined@.len(),
            w0.count == n,
            handle_kinds(handles@)[0] == hk,
            handle_kinds(handles@)[1] == nk,
            handle_kinds(handles@).len() == 2,
            forall|a: int, b: int| 0 <= a < b < joined@.len() ==> joined@[a] < joined@[b],
            forall|e: usize| joined@.contains(e) <==> w0.in_join(handle_kinds(handles@), e as int),
            world@.count == w0.count,
            world@.borrows == w0.borrows,
            world@.columns.dom() == w0.columns.dom(),
            forall|k: u64| k != hk ==> #[trigger] world@.columns[k] == w0.columns[k],
            world@.columns[hk].len() == w0.count,
            forall|e: int|
                0 <= e < w0.count ==> #[trigger] world@.columns[hk][e] == if joined@.subrange(
                    0,
                    idx as int,
                ).contains(e as usize) {
                    revived(w0.columns[hk][e], w0.columns[nk][e], who@)
                } else {
                    w0.columns[hk][e]
                },
        decreases joined@.len() - idx,
    {
        let e = joined[idx];
        proof {
            assert(joined@.contains(e));
            assert(w0.in_join(handle_kinds(handles@), e as int));
            assert(w0.columns[handle_kinds(handles@)[0]][e as int] is Some);
            assert(w0.columns[handle_kinds(handles@)[1]][e as int] is Some);
            assert(!joined@.subrange(0, idx as int).contains(e)) by {
                if joined@.subrange(0, idx as int).contains(e) {
                    let a = choose|a: int| #![auto] 0 <= a < idx && joined@.subrange(0, idx as int)[a] == e;
                    assert(joined@[a] == e);
                }
            }
        }
        proof {
            assert(world@.columns[hk][e as int] == w0.columns[hk][e as int]);
            assert(world@.columns[nk][e as int] == w0.columns[nk][e as int]);
        }
        let fallen = match (world.get(&handles[0], e), world.get(&handles[1], e)) {
            (Some(Component::Health(x)), Some(Component::Name(s))) => *x <= 0 && s.eq(who),
            _ => false,
        };
        let ghost before = world@.columns[hk];
        if fallen {
            world.set(&handles[0], e, Some(Component::Health(REVIVED_HEALTH)));
        }
        proof {
            let pre = joined@.subrange(0, idx as int);
            let post = joined@.subrange(0, idx + 1);
            assert(post =~= pre.push(e));
            assert forall|x: int|
                0 <= x < w0.count implies #[trigger] world@.columns[hk][x] == if post.contains(
                x as usize,
            ) {
                revived(w0.columns[hk][x], w0.columns[nk][x], who@)
            } else {
                w0.columns[hk][x]
            } by {
                if x == e as int {
                    assert(post[idx as int] == e);
                } else {
                    assert(world@.columns[hk][x] == before[x]);
                    assert(post.contains(x as usize) == pre.contains(x as usize));
                }
            }
        }
        idx = idx + 1;
    }
    proof {
        let target = WorldModel {
            columns: w0.columns.insert(
                hk,
                Seq::new(w0.count, |e: int| revived(w0.columns[hk][e], w0.columns[nk][e], who@)),
            ),
            ..w0
        };
        assert(joined@.subrange(0, joined@.len() as int) =~= joined@);
        assert forall|e: int| 0 <= e < w0.count implies #[trigger] world@.columns[hk][e] == revived(
            w0.columns[hk][e],
            w0.columns[nk][e],
            who@,
        ) by {
            if !joined@.contains(e as usize) {
                assert(!w0.in_join(handle_kinds(handles@), e));
                let j = choose|j: int| #![auto]
                    0 <= j < 2 && !(w0.columns[handle_kinds(handles@)[j]][e] is Some);
            }
        }
        assert(world@.columns[hk] =~= target.columns[hk]);
        assert(world@.columns =~= target.columns);
    }
}

/// Builds a world of four entities (Icarus at -10 health, Prometheus at 100,
/// Zeus with a name only, Perseus at -5), then restores Perseus through a
/// query over the health and name columns.
pub fn run() -> (r: World<Component>)
    ensures
        r.wf(),
        r@.count == 4,
        r@.columns[HEALTH] == seq![
            Some(Component::Health(-10i32)),
            Some(Component::Health(100i32)),
            None,
            Some(Component::Health(REVIVED_HEALTH)),
        ],
        r@.borrows[HEALTH] == BorrowState::Free,
        r@.borrows[NAME] == BorrowState::Free,
{
    let mut world: World<Component> = World::new();
    let icarus = world.new_entity();
    let prometheus = world.new_entity();
    let zeus = world.new_entity();
    let perseus = world.new_entity();
    let _ = world.add_component_to_entity(icarus, HEALTH, Component::Health(-10i32));
    let _ = world.add_component_to_entity(icarus, NAME, Component::Name("Icarus".to_owned()));
    let _ = world.add_component_to_entity(prometheus, HEALTH, Component::Health(100i32));
    let _ = world.add_component_to_entity(prometheus, NAME, Component::Name("Prometheus".to_owned()));
    let _ = world.add_component_to_entity(zeus, NAME, Component::Name("Zeus".to_owned()));
    let _ = world.add_component_to_entity(perseus, HEALTH, Component::Health(-5i32));
    let _ = world.add_component_to_entity(perseus, NAME, Component::Name("Perseus".to_owned()));
    let ghost w0 = world@;
    proof {
        world.lemma_view_wf();
        reveal_strlit("Icarus");
        reveal_strlit("Perseus");
        assert(w0.columns[HEALTH] =~= seq![
            Some(Component::Health(-10i32)),
            Some(Component::Health(100i32)),
            None,
            Some(Component::Health(-5i32)),
        ]);
    }
    let healths = world.borrow_component_vec_mut(HEALTH);
    let names = world.borrow_component_vec_mut(NAME);
    if let (Some(Ok(h)), Some(Ok(n))) = (healths, names) {
        let mut handles: Vec<ColumnHandle> = Vec::new();
        handles.push(h);
        handles.push(n);
        let who = "Perseus".to_owned();
        proof {
            assert(w0.columns[NAME][0] matches Some(Component::Name(s)) && s@ == "Icarus"@);
            assert("Icarus"@.len() != who@.len());
            assert(w0.columns[NAME][3] matches Some(Component::Name(s)) && s@ == who@);
            assert(world@.columns[HEALTH] == w0.columns[HEALTH]);
            assert(world@.columns[NAME] == w0.columns[NAME]);
        }
        revive_named(&mut world, &handles, &who);
        proof {
            assert(world@.columns[HEALTH] =~= seq![
                Some(Component::Health(-10i32)),
                Some(Component::Health(100i32)),
                None,
                Some(Component::Health(REVIVED_HEALTH)),
            ]);
        }
        let n = handles.pop().unwrap();
        let h = handles.pop().unwrap();
        world.release(n);
        world.release(h);
    }
    world
}

} // verus!
