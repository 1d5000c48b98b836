//! A model of the registry, seen by name, and of what carrying out a plan
//! does to it.
//!
//! The registry holds at most one command under a name and knows every
//! command by its identifier. A creation puts a command under its name with
//! an identifier of the registry's choice; an update replaces the command of
//! the given identifier; a deletion removes it. On this model the plan for a
//! registry, once carried out, leaves a registry for which the next plan is
//! empty.

use crate::command::{
    declarable_kinds, distinct_argument_names, registered, CommandView, RemoteCommandView,
};
use crate::reconcile::{
    declared_before, deletes_upto, distinct_command_names, distinct_remote_names,
    last_command_named, lemma_last_command_named, lemma_reconciliation_is_idempotent,
    planned_deletes, planned_upserts, reconciled, settled_entry, unused_at, upsert_at,
    upserts_upto, UpsertView,
};
use vstd::prelude::*;

verus! {

/// The registry by name.
pub type Registry = Map<Seq<char>, RemoteCommandView>;

/// The registry that a list of commands stands for: every command under its
/// name, the last of a name where the name occurs more than once.
pub open spec fn index_of(remote: Seq<RemoteCommandView>) -> Registry
    decreases remote.len(),
{
    if remote.len() == 0 {
        Map::empty()
    } else {
        index_of(remote.drop_last()).insert(remote.last().name, remote.last())
    }
}

/// The registry after one creation or update. `fresh` is the identifier that
/// the registry gives to a created command.
pub open spec fn upsert_applied(registry: Registry, upsert: UpsertView, fresh: u64) -> Registry {
    match upsert {
        UpsertView::Create(definition) => registry.insert(
            definition.name,
            registered(definition, fresh),
        ),
        UpsertView::Update(id, definition) => Map::new(
            |name: Seq<char>| registry.contains_key(name),
            |name: Seq<char>|
                if registry[name].id == id {
                    registered(definition, id)
                } else {
                    registry[name]
                },
        ),
    }
}

/// The registry after creations and updates. The operation at place `q` gets
/// the identifier `fresh[q]` if it is a creation.
pub open spec fn upserts_applied(registry: Registry, upserts: Seq<UpsertView>, fresh: Seq<u64>) -> Registry
    decreases upserts.len(),
{
    if upserts.len() == 0 {
        registry
    } else {
        upsert_applied(
            upserts_applied(registry, upserts.drop_last(), fresh),
            upserts.last(),
            fresh[upserts.len() - 1],
        )
    }
}

/// The registry after the deletion of the command of an identifier.
pub open spec fn delete_applied(registry: Registry, id: u64) -> Registry {
    Map::new(
        |name: Seq<char>| registry.contains_key(name) && registry[name].id != id,
        |name: Seq<char>| registry[name],
    )
}

/// The registry after deletions.
pub open spec fn deletes_applied(registry: Registry, deletes: Seq<u64>) -> Registry
    decreases deletes.len(),
{
    if deletes.len() == 0 {
        registry
    } else {
        delete_applied(deletes_applied(registry, deletes.drop_last()), deletes.last())
    }
}

/// The registry after a plan has been carried out: first the creations and
/// updates, then the deletions.
pub open spec fn carried_out(
    registry: Registry,
    upserts: Seq<UpsertView>,
    deletes: Seq<u64>,
    fresh: Seq<u64>,
) -> Registry {
    deletes_applied(upserts_applied(registry, upserts, fresh), deletes)
}

/// Whether no two commands of the list have the same identifier.
pub open spec fn distinct_ids(remote: Seq<RemoteCommandView>) -> bool {
    forall|i: int, j: int|
        0 <= i < j < remote.len() ==> (#[trigger] remote[i]).id != (#[trigger] remote[j]).id
}

/// Whether none of the identifiers is that of a command of the list.
pub open spec fn unused_ids(fresh: Seq<u64>, remote: Seq<RemoteCommandView>) -> bool {
    forall|q: int, j: int|
        0 <= q < fresh.len() && 0 <= j < remote.len() ==> #[trigger] fresh[q] != (
        #[trigger] remote[j]).id
}

/// The registry that a list stands for holds a name exactly when the list
/// does, and holds under it the last command of that name.
pub proof fn lemma_index_of(remote: Seq<RemoteCommandView>, name: Seq<char>)
    ensures
        match last_command_named(remote, name) {
            Some(j) => index_of(remote).contains_key(name) && index_of(remote)[name]
                == remote[j],
            None => !index_of(remote).contains_key(name),
        },
    decreases remote.len(),
{
    if remote.len() > 0 {
        lemma_index_of(remote.drop_last(), name);
        if remote.last().name != name {
            let j = last_command_named(remote.drop_last(), name);
            if j is Some {
                lemma_last_command_named(remote.drop_last(), name);
                assert(remote.drop_last()[j->0] == remote[j->0]);
            }
        }
    }
}

/// Whether `registry` is what the creations and updates for the first `n`
/// declared commands leave of the registry that `before` stands for: the
/// names of those commands have been added, each holds what the plan settles
/// for it, every other command is as it was, and a command that was there
/// has kept its identifier while a new one has an unused one.
pub open spec fn upserted(
    desired: Seq<CommandView>,
    before: Seq<RemoteCommandView>,
    n: int,
    registry: Registry,
) -> bool {
    &&& forall|name: Seq<char>| #[trigger]
        registry.contains_key(name) <==> index_of(before).contains_key(name) || declared_before(
            desired,
            n,
            name,
        )
    &&& forall|name: Seq<char>|
        registry.contains_key(name) && !declared_before(desired, n, name) ==> #[trigger] registry[name]
            == index_of(before)[name]
    &&& forall|i: int|
        0 <= i < n ==> registry.contains_key((#[trigger] desired[i]).name) && settled_entry(
            desired[i],
            before,
            registry[desired[i].name],
        )
    &&& forall|name: Seq<char>|
        registry.contains_key(name) && index_of(before).contains_key(name) ==> (
        #[trigger] registry[name]).id == index_of(before)[name].id
    &&& forall|name: Seq<char>, j: int|
        registry.contains_key(name) && !index_of(before).contains_key(name) && 0 <= j
            < before.len() ==> (#[trigger] registry[name]).id != (#[trigger] before[j]).id
}

/// The first `n` declared commands call for at most `n` operations.
pub proof fn lemma_upserts_len(
    desired: Seq<CommandView>,
    remote: Seq<RemoteCommandView>,
    n: int,
)
    requires
        0 <= n,
    ensures
        upserts_upto(desired, remote, n).len() <= n,
    decreases n,
{
    if n > 0 {
        lemma_upserts_len(desired, remote, n - 1);
    }
}

/// A name is declared among the first `n + 1` commands if it is declared
/// among the first `n` or is the name of the next.
proof fn lemma_declared_before_step(desired: Seq<CommandView>, n: int, name: Seq<char>)
    requires
        0 <= n < desired.len(),
    ensures
        declared_before(desired, n + 1, name) <==> declared_before(desired, n, name)
            || desired[n].name == name,
{
    if declared_before(desired, n + 1, name) {
        let k = choose|k: int|
            0 <= k < n + 1 && k < desired.len() && (#[trigger] desired[k]).name == name;
        if k < n {
            assert(declared_before(desired, n, name));
        }
    }
    if declared_before(desired, n, name) {
        let k = choose|k: int| 0 <= k < n && k < desired.len() && (#[trigger] desired[k]).name == name;
        assert(0 <= k < n + 1 && desired[k].name == name);
    }
    if desired[n].name == name {
        assert(0 <= n < n + 1 && desired[n].name == name);
    }
}

/// What the creations and updates for the first `n` declared commands leave
/// of a registry.
pub proof fn lemma_upserts_applied(
    desired: Seq<CommandView>,
    before: Seq<RemoteCommandView>,
    fresh: Seq<u64>,
    n: int,
)
    requires
        0 <= n <= desired.len(),
        distinct_command_names(desired),
        distinct_ids(before),
        unused_ids(fresh, before),
        fresh.len() >= desired.len(),
    ensures
        upserted(
            desired,
            before,
            n,
            upserts_applied(index_of(before), upserts_upto(desired, before, n), fresh),
        ),
    decreases n,
{
    let start = index_of(before);
    if n == 0 {
        assert forall|name: Seq<char>| !declared_before(desired, 0, name) by {}
        assert forall|name: Seq<char>, j: int|
            start.contains_key(name) && !start.contains_key(name) && 0 <= j
                < before.len() implies (#[trigger] start[name]).id != (#[trigger] before[j]).id by {}
    } else {
        let m = n - 1;
        lemma_upserts_applied(desired, before, fresh, m);
        lemma_upserts_len(desired, before, m);
        let earlier = upserts_upto(desired, before, m);
        let registry = upserts_applied(start, earlier, fresh);
        let local = desired[m];
        let later = upserts_applied(start, upserts_upto(desired, before, n), fresh);
        assert(!declared_before(desired, m, local.name)) by {
            if declared_before(desired, m, local.name) {
                let k = choose|k: int|
                    0 <= k < m && k < desired.len() && (#[trigger] desired[k]).name
                        == local.name;
                assert(desired[k].name != desired[m].name);
            }
        }
        lemma_index_of(before, local.name);
        lemma_last_command_named(before, local.name);
        assert forall|name: Seq<char>|
            declared_before(desired, n, name) <==> declared_before(desired, m, name)
                || local.name == name by {
            lemma_declared_before_step(desired, m, name);
        }
        match upsert_at(desired, before, m) {
            None => {
                assert(later == registry);
                assert(registry[local.name] == start[local.name]);
            },
            Some(upsert) => {
                assert(earlier.push(upsert).drop_last() =~= earlier);
                assert(later == upsert_applied(registry, upsert, fresh[earlier.len() as int]));
                match upsert {
                    UpsertView::Create(definition) => {
                        assert(!start.contains_key(local.name));
                        assert forall|i: int| 0 <= i < n implies later.contains_key(
                            (#[trigger] desired[i]).name,
                        ) && settled_entry(desired[i], before, later[desired[i].name]) by {
                            if i < m {
                                assert(desired[i].name != desired[m].name);
                                assert(later[desired[i].name] == registry[desired[i].name]);
                            }
                        }
                        assert forall|name: Seq<char>, j: int|
                            later.contains_key(name) && !start.contains_key(name) && 0 <= j
                                < before.len() implies (#[trigger] later[name]).id != (
                        #[trigger] before[j]).id by {
                            if name == local.name {
                                assert(fresh[earlier.len() as int] != before[j].id);
                            }
                        }
                    },
                    UpsertView::Update(id, definition) => {
                        let k = last_command_named(before, local.name)->0;
                        assert(id == before[k].id);
                        assert forall|name: Seq<char>|
                            registry.contains_key(name) && registry[name].id
                                == id implies name == local.name by {
                            if start.contains_key(name) {
                                lemma_index_of(before, name);
                                lemma_last_command_named(before, name);
                                let j = last_command_named(before, name)->0;
                                if j != k {
                                    if j < k {
                                        assert(before[j].id != before[k].id);
                                    } else {
                                        assert(before[k].id != before[j].id);
                                    }
                                }
                            } else {
                                assert(registry[name].id != before[k].id);
                            }
                        }
                        assert(later[local.name] == registered(local, id));
                        assert forall|i: int| 0 <= i < n implies later.contains_key(
                            (#[trigger] desired[i]).name,
                        ) && settled_entry(desired[i], before, later[desired[i].name]) by {
                            if i < m {
                                assert(desired[i].name != desired[m].name);
                                assert(later[desired[i].name] == registry[desired[i].name]);
                            }
                        }
                    },
                }
            },
        }
    }
}

/// What the plan deletes: the identifiers of the unused commands.
pub proof fn lemma_deleted_ids(
    desired: Seq<CommandView>,
    remote: Seq<RemoteCommandView>,
    n: int,
    id: u64,
)
    requires
        0 <= n <= remote.len(),
    ensures
        deletes_upto(desired, remote, n).contains(id) <==> exists|j: int|
            0 <= j < n && unused_at(desired, remote, j) && (#[trigger] remote[j]).id == id,
    decreases n,
{
    if n > 0 {
        lemma_deleted_ids(desired, remote, n - 1, id);
        let earlier = deletes_upto(desired, remote, n - 1);
        if unused_at(desired, remote, n - 1) {
            let later = earlier.push(remote[n - 1].id);
            if later.contains(id) {
                let q = choose|q: int| 0 <= q < later.len() && later[q] == id;
                if q < earlier.len() {
                    assert(earlier[q] == id);
                } else {
                    assert(0 <= n - 1 < n && unused_at(desired, remote, n - 1) && remote[n
                        - 1].id == id);
                }
            }
            if exists|j: int|
                0 <= j < n && unused_at(desired, remote, j) && (#[trigger] remote[j]).id == id {
                let j = choose|j: int|
                    0 <= j < n && unused_at(desired, remote, j) && (#[trigger] remote[j]).id
                        == id;
                if j < n - 1 {
                    let q = choose|q: int| 0 <= q < earlier.len() && earlier[q] == id;
                    assert(later[q] == id);
                } else {
                    assert(later[earlier.len() as int] == id);
                }
            }
        } else {
            if exists|j: int|
                0 <= j < n && unused_at(desired, remote, j) && (#[trigger] remote[j]).id == id {
                let j = choose|j: int|
                    0 <= j < n && unused_at(desired, remote, j) && (#[trigger] remote[j]).id
                        == id;
                assert(j < n - 1);
            }
        }
    }
}

/// What deletions leave of a registry: the commands whose identifier is not
/// among the deleted ones.
pub proof fn lemma_deletes_applied(registry: Registry, deletes: Seq<u64>)
    ensures
        forall|name: Seq<char>| #[trigger]
            deletes_applied(registry, deletes).contains_key(name) <==> registry.contains_key(
                name,
            ) && !deletes.contains(registry[name].id),
        forall|name: Seq<char>|
            deletes_applied(registry, deletes).contains_key(name) ==> #[trigger] deletes_applied(
                registry,
                deletes,
            )[name] == registry[name],
    decreases deletes.len(),
{
    if deletes.len() > 0 {
        let earlier = deletes.drop_last();
        let last = deletes.last();
        lemma_deletes_applied(registry, earlier);
        let previous = deletes_applied(registry, earlier);
        let result = deletes_applied(registry, deletes);
        assert(result == delete_applied(previous, last));
        assert forall|name: Seq<char>|
            result.contains_key(name) <==> registry.contains_key(name) && !deletes.contains(
                registry[name].id,
            ) by {
            if registry.contains_key(name) {
                let id = registry[name].id;
                if previous.contains_key(name) {
                    assert(previous[name] == registry[name]);
                }
                if deletes.contains(id) {
                    let q = choose|q: int| 0 <= q < deletes.len() && deletes[q] == id;
                    if q < earlier.len() {
                        assert(earlier[q] == id);
                    }
                }
                if earlier.contains(id) {
                    let q = choose|q: int| 0 <= q < earlier.len() && earlier[q] == id;
                    assert(deletes[q] == id);
                }
                if last == id {
                    assert(deletes[deletes.len() - 1] == id);
                }
            }
        }
        assert forall|name: Seq<char>| result.contains_key(name) implies result[name]
            == registry[name] by {
            assert(previous.contains_key(name));
            assert(previous[name] == registry[name]);
        }
    }
}

/// Carrying out the plan for a registry leaves a registry for which the next
/// plan is empty.
///
/// `before` lists the registry for which the plan is made, `fresh` gives the
/// identifiers that the registry hands out to created commands, and `after`
/// lists the registry once the plan has been carried out. The declared
/// commands have distinct names and their arguments have distinct names; the
/// registry holds no name and no identifier twice, and hands out identifiers
/// that it does not use yet.
pub proof fn lemma_second_run_is_empty(
    desired: Seq<CommandView>,
    before: Seq<RemoteCommandView>,
    fresh: Seq<u64>,
    after: Seq<RemoteCommandView>,
)
    requires
        distinct_command_names(desired),
        forall|i: int|
            0 <= i < desired.len() ==> distinct_argument_names((#[trigger] desired[i]).options)
                && declarable_kinds(desired[i].options),
        distinct_remote_names(before),
        distinct_ids(before),
        unused_ids(fresh, before),
        fresh.len() >= desired.len(),
        distinct_remote_names(after),
        index_of(after) == carried_out(
            index_of(before),
            planned_upserts(desired, before),
            planned_deletes(desired, before),
            fresh,
        ),
    ensures
        planned_upserts(desired, after) == Seq::<UpsertView>::empty(),
        planned_deletes(desired, after) == Seq::<u64>::empty(),
{
    let start = index_of(before);
    let upserts = planned_upserts(desired, before);
    let deletes = planned_deletes(desired, before);
    let middle = upserts_applied(start, upserts, fresh);
    let end = carried_out(start, upserts, deletes, fresh);
    lemma_upserts_applied(desired, before, fresh, desired.len() as int);
    lemma_deletes_applied(middle, deletes);
    let all = desired.len() as int;
    // A command under a declared name is not deleted.
    assert forall|i: int| 0 <= i < desired.len() implies end.contains_key(
        (#[trigger] desired[i]).name,
    ) && settled_entry(desired[i], before, end[desired[i].name]) by {
        let name = desired[i].name;
        let entry = middle[name];
        assert(middle.contains_key(name) && settled_entry(desired[i], before, entry));
        assert(declared_before(desired, all, name));
        if deletes.contains(entry.id) {
            lemma_deleted_ids(desired, before, before.len() as int, entry.id);
            let j = choose|j: int|
                0 <= j < before.len() && unused_at(desired, before, j) && (
                #[trigger] before[j]).id == entry.id;
            lemma_index_of(before, name);
            lemma_last_command_named(before, name);
            match last_command_named(before, name) {
                Some(k) => {
                    assert(entry.id == before[k].id);
                    if j < k {
                        assert(before[j].id != before[k].id);
                    } else if k < j {
                        assert(before[k].id != before[j].id);
                    }
                },
                None => {
                    assert(entry.id != before[j].id);
                },
            }
        }
    }
    // A command under any other name is deleted.
    assert forall|name: Seq<char>| end.contains_key(name) implies declared_before(
        desired,
        all,
        name,
    ) by {
        if !declared_before(desired, all, name) {
            assert(middle.contains_key(name));
            assert(start.contains_key(name));
            assert(middle[name] == start[name]);
            lemma_index_of(before, name);
            lemma_last_command_named(before, name);
            let k = last_command_named(before, name)->0;
            assert(unused_at(desired, before, k));
            lemma_deleted_ids(desired, before, before.len() as int, before[k].id);
            assert(deletes.contains(before[k].id));
        }
    }
    assert(reconciled(desired, before, after)) by {
        assert forall|j: int| 0 <= j < after.len() implies declared_before(
            desired,
            all,
            (#[trigger] after[j]).name,
        ) by {
            lemma_index_of(after, after[j].name);
            lemma_last_command_named(after, after[j].name);
        }
        assert forall|i: int| 0 <= i < desired.len() implies exists|j: int|
            0 <= j < after.len() && settled_entry(#[trigger] desired[i], before, after[j]) by {
            let name = desired[i].name;
            lemma_index_of(after, name);
            lemma_last_command_named(after, name);
            let j = last_command_named(after, name)->0;
            assert(after[j] == end[name]);
            assert(0 <= j < after.len() && settled_entry(desired[i], before, after[j]));
        }
    }
    lemma_reconciliation_is_idempotent(desired, before, after);
}

} // verus!
