//! Reconciliation of the registry with the declared commands.
//!
//! The registry's commands are indexed by name; where a name occurs more than
//! once, the last occurrence is the one that the index holds. Every declared
//! command is looked up in the index and taken out of it: without an entry it
//! is created, with an entry that does not agree it is updated, and otherwise
//! left alone. What remains in the index afterwards is deleted.
//!
//! The operations run in two phases, creations and updates first and
//! deletions second, and the second phase starts only when every operation of
//! the first has succeeded.

use crate::command::{
    command_matches, declarable_kinds, distinct_argument_names,
    lemma_command_matches_its_registration, registered, CommandDefinition, CommandSpec,
    CommandView, RemoteCommand, RemoteCommandView,
};
use vstd::prelude::*;

verus! {

/// An operation of the first phase.
#[derive(Debug, Clone)]
pub enum Upsert {
    /// Register a command that the registry does not hold.
    Create(CommandDefinition),
    /// Replace the command with the given identifier.
    Update(u64, CommandDefinition),
}

/// The mathematical content of an operation of the first phase.
pub enum UpsertView {
    Create(CommandView),
    Update(u64, CommandView),
}

impl View for Upsert {
    type V = UpsertView;

    open spec fn view(&self) -> UpsertView {
        match self {
            Upsert::Create(definition) => UpsertView::Create(definition@),
            Upsert::Update(id, definition) => UpsertView::Update(*id, definition@),
        }
    }
}

/// The operations that bring the registry to the declared commands.
#[derive(Debug, Clone)]
pub struct Plan {
    /// The creations and updates, in the order of the declared commands.
    pub upserts: Vec<Upsert>,
    /// The identifiers of the commands to delete, in the registry's order.
    pub deletes: Vec<u64>,
}

/// The contents of a list of declared commands.
pub open spec fn command_views(commands: Seq<CommandSpec>) -> Seq<CommandView> {
    Seq::new(commands.len(), |i: int| commands[i]@)
}

/// The contents of a list of registered commands.
pub open spec fn remote_views(commands: Seq<RemoteCommand>) -> Seq<RemoteCommandView> {
    Seq::new(commands.len(), |i: int| commands[i]@)
}

/// The contents of a list of operations.
pub open spec fn upsert_views(upserts: Seq<Upsert>) -> Seq<UpsertView> {
    Seq::new(upserts.len(), |i: int| upserts[i]@)
}

/// The place of the last registered command that has the given name: the
/// entry that the index by name holds.
pub open spec fn last_command_named(remote: Seq<RemoteCommandView>, name: Seq<char>) -> Option<
    int,
>
    decreases remote.len(),
{
    if remote.len() == 0 {
        None
    } else if remote.last().name == name {
        Some(remote.len() - 1)
    } else {
        last_command_named(remote.drop_last(), name)
    }
}

/// Whether one of the first `n` declared commands has the given name.
pub open spec fn declared_before(desired: Seq<CommandView>, n: int, name: Seq<char>) -> bool {
    exists|k: int| 0 <= k < n && k < desired.len() && (#[trigger] desired[k]).name == name
}

/// The operation that the declared command at place `i` calls for, if any.
/// A command whose name an earlier declared command has already taken out of
/// the index finds no entry.
pub open spec fn upsert_at(
    desired: Seq<CommandView>,
    remote: Seq<RemoteCommandView>,
    i: int,
) -> Option<UpsertView> {
    let local = desired[i];
    if declared_before(desired, i, local.name) {
        Some(UpsertView::Create(local))
    } else {
        match last_command_named(remote, local.name) {
            None => Some(UpsertView::Create(local)),
            Some(j) => if command_matches(local, remote[j]) {
                None
            } else {
                Some(UpsertView::Update(remote[j].id, local))
            },
        }
    }
}

/// The operations that the first `n` declared commands call for, in order.
pub open spec fn upserts_upto(
    desired: Seq<CommandView>,
    remote: Seq<RemoteCommandView>,
    n: int,
) -> Seq<UpsertView>
    decreases n,
{
    if n <= 0 {
        Seq::<UpsertView>::empty()
    } else {
        let before = upserts_upto(desired, remote, n - 1);
        match upsert_at(desired, remote, n - 1) {
            Some(upsert) => before.push(upsert),
            None => before,
        }
    }
}

/// Whether the registered command at place `j` is held by the index and no
/// declared command has its name.
pub open spec fn unused_at(
    desired: Seq<CommandView>,
    remote: Seq<RemoteCommandView>,
    j: int,
) -> bool {
    &&& last_command_named(remote, remote[j].name) == Some(j)
    &&& !declared_before(desired, desired.len() as int, remote[j].name)
}

/// The identifiers of the unused commands among the first `n` registered
/// ones, in order.
pub open spec fn deletes_upto(
    desired: Seq<CommandView>,
    remote: Seq<RemoteCommandView>,
    n: int,
) -> Seq<u64>
    decreases n,
{
    if n <= 0 {
        Seq::<u64>::empty()
    } else {
        let before = deletes_upto(desired, remote, n - 1);
        if unused_at(desired, remote, n - 1) {
            before.push(remote[n - 1].id)
        } else {
            before
        }
    }
}

/// The creations and updates that bring the registry to the declared
/// commands.
pub open spec fn planned_upserts(
    desired: Seq<CommandView>,
    remote: Seq<RemoteCommandView>,
) -> Seq<UpsertView> {
    upserts_upto(desired, remote, desired.len() as int)
}

/// The deletions that bring the registry to the declared commands.
pub open spec fn planned_deletes(
    desired: Seq<CommandView>,
    remote: Seq<RemoteCommandView>,
) -> Seq<u64> {
    deletes_upto(desired, remote, remote.len() as int)
}

/// What `last_command_named` finds: a command of that name with none of that
/// name after it; and it finds nothing only where the name does not occur.
pub proof fn lemma_last_command_named(remote: Seq<RemoteCommandView>, name: Seq<char>)
    ensures
        match last_command_named(remote, name) {
            Some(j) => 0 <= j < remote.len() && remote[j].name == name && forall|k: int|
                j < k < remote.len() ==> remote[k].name != name,
            None => forall|k: int| 0 <= k < remote.len() ==> remote[k].name != name,
        },
    decreases remote.len(),
{
    if remote.len() > 0 && remote.last().name != name {
        let shorter = remote.drop_last();
        lemma_last_command_named(shorter, name);
        assert(forall|k: int| 0 <= k < shorter.len() ==> shorter[k] == remote[k]);
    }
}

/// Finds the last registered command of the given name.
pub fn find_last_command_named(remote: &Vec<RemoteCommand>, name: &str) -> (r: Option<usize>)
    ensures
        match r {
            Some(j) => j < remote@.len() && last_command_named(remote_views(remote@), name@)
                == Some(j as int),
            None => last_command_named(remote_views(remote@), name@) is None,
        },
{
    let ghost views = remote_views(remote@);
    let mut i: usize = remote.len();
    proof {
        assert(views.subrange(0, i as int) =~= views);
    }
    while i > 0
        invariant
            i <= remote@.len(),
            views == remote_views(remote@),
            last_command_named(views, name@) == last_command_named(
                views.subrange(0, i as int),
                name@,
            ),
        decreases i,
    {
        proof {
            let prefix = views.subrange(0, i as int);
            assert(prefix.drop_last() =~= views.subrange(0, i as int - 1));
            assert(prefix.last() == remote@[i as int - 1]@);
        }
        if remote[i - 1].name.as_str().eq(name) {
            return Some(i - 1);
        }
        i -= 1;
    }
    None
}

/// Whether one of the first `n` declared commands has the given name.
pub fn is_declared_before(desired: &Vec<CommandSpec>, n: usize, name: &str) -> (r: bool)
    ensures
        r == declared_before(command_views(desired@), n as int, name@),
{
    let bound = if n < desired.len() {
        n
    } else {
        desired.len()
    };
    let mut k: usize = 0;
    while k < bound
        invariant
            k <= bound <= desired@.len(),
            bound <= n,
            bound == n || bound == desired@.len(),
            forall|q: int| 0 <= q < k ==> (#[trigger] command_views(desired@)[q]).name != name@,
        decreases bound - k,
    {
        if desired[k].name.eq(name) {
            assert(command_views(desired@)[k as int].name == name@);
            return true;
        }
        k += 1;
    }
    false
}

/// Works out the operations that bring the registry to the declared commands.
pub fn plan(desired: &Vec<CommandSpec>, remote: &Vec<RemoteCommand>) -> (r: Plan)
    ensures
        upsert_views(r.upserts@) == planned_upserts(
            command_views(desired@),
            remote_views(remote@),
        ),
        r.deletes@ == planned_deletes(command_views(desired@), remote_views(remote@)),
{
    let ghost locals = command_views(desired@);
    let ghost remotes = remote_views(remote@);
    let mut upserts: Vec<Upsert> = Vec::new();
    let n = desired.len();
    let mut i: usize = 0;
    assert(upsert_views(upserts@) =~= upserts_upto(locals, remotes, 0));
    while i < n
        invariant
            n == desired@.len(),
            i <= n,
            locals == command_views(desired@),
            remotes == remote_views(remote@),
            upsert_views(upserts@) == upserts_upto(locals, remotes, i as int),
        decreases n - i,
    {
        let command = &desired[i];
        let ghost before = upsert_views(upserts@);
        assert(locals[i as int] == command@);
        if is_declared_before(desired, i, command.name) {
            let upsert = Upsert::Create(command.into_command());
            upserts.push(upsert);
            assert(upsert_views(upserts@) =~= before.push(upsert@));
        } else {
            match find_last_command_named(remote, command.name) {
                None => {
                    let upsert = Upsert::Create(command.into_command());
                    upserts.push(upsert);
                    assert(upsert_views(upserts@) =~= before.push(upsert@));
                },
                Some(j) => {
                    assert(remotes[j as int] == remote@[j as int]@);
                    if !command.eq(&remote[j]) {
                        let upsert = Upsert::Update(remote[j].id, command.into_command());
                        upserts.push(upsert);
                        assert(upsert_views(upserts@) =~= before.push(upsert@));
                    }
                },
            }
        }
        i += 1;
    }
    let mut deletes: Vec<u64> = Vec::new();
    let m = remote.len();
    let mut j: usize = 0;
    assert(deletes@ =~= deletes_upto(locals, remotes, 0));
    while j < m
        invariant
            m == remote@.len(),
            j <= m,
            n == desired@.len(),
            locals == command_views(desired@),
            remotes == remote_views(remote@),
            deletes@ == deletes_upto(locals, remotes, j as int),
        decreases m - j,
    {
        let entry = &remote[j];
        assert(remotes[j as int] == entry@);
        let indexed = match find_last_command_named(remote, entry.name.as_str()) {
            Some(k) => k == j,
            None => false,
        };
        if indexed && !is_declared_before(desired, n, entry.name.as_str()) {
            deletes.push(entry.id);
        }
        j += 1;
    }
    Plan { upserts, deletes }
}

/// Where a reconciliation stands.
#[derive(Debug, Clone, Copy, PartialEq, Eq, Structural)]
pub enum Phase {
    /// The creations and updates are running.
    Upserting,
    /// Every creation and update has succeeded; the deletions are running.
    Deleting,
    /// Every operation has succeeded.
    Done,
    /// An operation has failed. Nothing more is issued.
    Failed,
}

/// The phase that follows once all operations of `phase` have come back,
/// `succeeded` telling whether every one of them succeeded.
pub open spec fn next_phase(phase: Phase, succeeded: bool) -> Phase {
    match phase {
        Phase::Upserting => if succeeded {
            Phase::Deleting
        } else {
            Phase::Failed
        },
        Phase::Deleting => if succeeded {
            Phase::Done
        } else {
            Phase::Failed
        },
        Phase::Done => Phase::Done,
        Phase::Failed => Phase::Failed,
    }
}

/// Moves on once all operations of `phase` have come back.
pub fn advance(phase: Phase, succeeded: bool) -> (r: Phase)
    ensures
        r == next_phase(phase, succeeded),
{
    match phase {
        Phase::Upserting => if succeeded {
            Phase::Deleting
        } else {
            Phase::Failed
        },
        Phase::Deleting => if succeeded {
            Phase::Done
        } else {
            Phase::Failed
        },
        Phase::Done => Phase::Done,
        Phase::Failed => Phase::Failed,
    }
}

/// The deletions start only after the creations and updates have all
/// succeeded, and a failure is final.
pub proof fn lemma_deletes_wait_for_upserts(phase: Phase, succeeded: bool)
    ensures
        next_phase(phase, succeeded) == Phase::Deleting <==> phase == Phase::Upserting
            && succeeded,
        phase == Phase::Failed ==> next_phase(phase, succeeded) == Phase::Failed,
        !succeeded && phase != Phase::Done ==> next_phase(phase, succeeded) == Phase::Failed,
{
}

/// Whether no two declared commands have the same name.
pub open spec fn distinct_command_names(desired: Seq<CommandView>) -> bool {
    forall|i: int, j: int|
        0 <= i < j < desired.len() ==> (#[trigger] desired[i]).name != (#[trigger] desired[j]).name
}

/// Whether no two registered commands have the same name.
pub open spec fn distinct_remote_names(remote: Seq<RemoteCommandView>) -> bool {
    forall|i: int, j: int|
        0 <= i < j < remote.len() ==> (#[trigger] remote[i]).name != (#[trigger] remote[j]).name
}

/// Whether `after` is a registry in which the plan for `before` has been
/// carried out: every declared command has an entry of its name, which is the
/// entry of `before` where that agreed with the command and the command as
/// registered under some identifier where it was created or updated; and no
/// other entry is left.
pub open spec fn reconciled(
    desired: Seq<CommandView>,
    before: Seq<RemoteCommandView>,
    after: Seq<RemoteCommandView>,
) -> bool {
    &&& forall|j: int|
        0 <= j < after.len() ==> declared_before(
            desired,
            desired.len() as int,
            (#[trigger] after[j]).name,
        )
    &&& forall|i: int|
        0 <= i < desired.len() ==> exists|j: int|
            0 <= j < after.len() && settled_entry(#[trigger] desired[i], before, after[j])
}

/// Whether `entry` is what the registry holds for the declared command once
/// the plan for `before` has been carried out.
pub open spec fn settled_entry(
    local: CommandView,
    before: Seq<RemoteCommandView>,
    entry: RemoteCommandView,
) -> bool {
    &&& entry.name == local.name
    &&& match last_command_named(before, local.name) {
        Some(k) => if command_matches(local, before[k]) {
            entry == before[k]
        } else {
            entry == registered(local, before[k].id)
        },
        None => exists|id: u64| entry == registered(local, id),
    }
}

/// Reconciliation is idempotent: once the plan for a registry has been
/// carried out, the plan for the resulting registry is empty. This holds for
/// declared commands with distinct names whose arguments have distinct names,
/// and a registry that holds no name twice.
pub proof fn lemma_reconciliation_is_idempotent(
    desired: Seq<CommandView>,
    before: Seq<RemoteCommandView>,
    after: Seq<RemoteCommandView>,
)
    requires
        distinct_command_names(desired),
        forall|i: int|
            0 <= i < desired.len() ==> distinct_argument_names((#[trigger] desired[i]).options)
                && declarable_kinds(desired[i].options),
        distinct_remote_names(after),
        reconciled(desired, before, after),
    ensures
        planned_upserts(desired, after) == Seq::<UpsertView>::empty(),
        planned_deletes(desired, after) == Seq::<u64>::empty(),
{
    lemma_no_upserts(desired, before, after, desired.len() as int);
    lemma_no_deletes(desired, after, after.len() as int);
}

/// In a reconciled registry none of the first `n` declared commands calls
/// for an operation.
proof fn lemma_no_upserts(
    desired: Seq<CommandView>,
    before: Seq<RemoteCommandView>,
    after: Seq<RemoteCommandView>,
    n: int,
)
    requires
        0 <= n <= desired.len(),
        distinct_command_names(desired),
        forall|i: int|
            0 <= i < desired.len() ==> distinct_argument_names((#[trigger] desired[i]).options)
                && declarable_kinds(desired[i].options),
        distinct_remote_names(after),
        reconciled(desired, before, after),
    ensures
        upserts_upto(desired, after, n) == Seq::<UpsertView>::empty(),
    decreases n,
{
    if n > 0 {
        lemma_no_upserts(desired, before, after, n - 1);
        let local = desired[n - 1];
        assert(!declared_before(desired, n - 1, local.name)) by {
            if declared_before(desired, n - 1, local.name) {
                let k = choose|k: int|
                    0 <= k < n - 1 && k < desired.len() && (#[trigger] desired[k]).name
                        == local.name;
                assert(desired[k].name != desired[n - 1].name);
            }
        }
        let j = choose|j: int| 0 <= j < after.len() && settled_entry(local, before, after[j]);
        lemma_last_command_named(after, local.name);
        let found = last_command_named(after, local.name);
        assert(found == Some(j)) by {
            match found {
                Some(q) => {
                    if q < j {
                        assert(after[q].name != after[j].name);
                    }
                    if j < q {
                        assert(after[j].name != after[q].name);
                    }
                },
                None => {},
            }
        }
        assert(command_matches(local, after[j])) by {
            match last_command_named(before, local.name) {
                Some(k) => {
                    if !command_matches(local, before[k]) {
                        lemma_command_matches_its_registration(local, before[k].id);
                    }
                },
                None => {
                    let id = choose|id: u64| after[j] == registered(local, id);
                    lemma_command_matches_its_registration(local, id);
                },
            }
        }
        assert(upsert_at(desired, after, n - 1) is None);
    }
}

/// In a registry that holds declared names only, none of the first `n`
/// commands is deleted.
proof fn lemma_no_deletes(desired: Seq<CommandView>, after: Seq<RemoteCommandView>, n: int)
    requires
        0 <= n <= after.len(),
        forall|j: int|
            0 <= j < after.len() ==> declared_before(
                desired,
                desired.len() as int,
                (#[trigger] after[j]).name,
            ),
    ensures
        deletes_upto(desired, after, n) == Seq::<u64>::empty(),
    decreases n,
{
    if n > 0 {
        lemma_no_deletes(desired, after, n - 1);
        assert(declared_before(desired, desired.len() as int, after[n - 1].name));
    }
}

} // verus!
