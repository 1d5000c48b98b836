//! The declared commands: what a command is, and when a registered command
//! agrees with it.
//!
//! A registered command agrees with a declared one when name, description,
//! visibility and permission mask are the same, both have the same number of
//! arguments, and every declared argument agrees with the registered argument
//! of its name. The order of the arguments does not count.

pub mod all;
pub mod args;
pub mod table;

use crate::command::args::{
    argument_matches, same_bound, ArgumentSpec, ArgumentView, RemoteArgument,
};
use vstd::prelude::*;
use vstd::seq_lib::{to_multiset_contains, to_multiset_len};
use vstd::string::StringExecFns;

verus! {

/// A command as the library declares it.
#[derive(Debug, Clone)]
pub struct CommandSpec {
    /// The name, which identifies the command in the registry.
    pub name: &'static str,
    pub description: &'static str,
    /// Whether the command may be used in direct messages.
    pub dm_permission: bool,
    /// The permission mask that a member needs, if any.
    pub permissions: Option<u64>,
    pub args: Vec<ArgumentSpec>,
}

/// What the library asks the registry to hold for a command.
#[derive(Debug, Clone)]
pub struct CommandDefinition {
    pub name: String,
    pub description: String,
    pub dm_permission: bool,
    pub default_member_permissions: Option<u64>,
    pub options: Vec<RemoteArgument>,
}

/// A command as the registry holds it.
#[derive(Debug, Clone)]
pub struct RemoteCommand {
    /// The registry's identifier of the command.
    pub id: u64,
    pub name: String,
    pub description: String,
    pub dm_permission: Option<bool>,
    pub default_member_permissions: Option<u64>,
    pub options: Vec<RemoteArgument>,
}

/// The mathematical content of a declared command.
pub struct CommandView {
    pub name: Seq<char>,
    pub description: Seq<char>,
    pub dm_permission: bool,
    pub permissions: Option<u64>,
    pub options: Seq<ArgumentView>,
}

/// The mathematical content of a registered command.
pub struct RemoteCommandView {
    pub id: u64,
    pub name: Seq<char>,
    pub description: Seq<char>,
    pub dm_permission: Option<bool>,
    pub permissions: Option<u64>,
    pub options: Seq<ArgumentView>,
}

/// The contents of a list of declared arguments.
pub open spec fn argument_views(args: Seq<ArgumentSpec>) -> Seq<ArgumentView> {
    Seq::new(args.len(), |i: int| args[i]@)
}

/// The contents of a list of registered arguments.
pub open spec fn option_views(options: Seq<RemoteArgument>) -> Seq<ArgumentView> {
    Seq::new(options.len(), |i: int| options[i]@)
}

impl View for CommandSpec {
    type V = CommandView;

    open spec fn view(&self) -> CommandView {
        CommandView {
            name: self.name@,
            description: self.description@,
            dm_permission: self.dm_permission,
            permissions: self.permissions,
            options: argument_views(self.args@),
        }
    }
}

impl View for CommandDefinition {
    type V = CommandView;

    open spec fn view(&self) -> CommandView {
        CommandView {
            name: self.name@,
            description: self.description@,
            dm_permission: self.dm_permission,
            permissions: self.default_member_permissions,
            options: option_views(self.options@),
        }
    }
}

impl View for RemoteCommand {
    type V = RemoteCommandView;

    open spec fn view(&self) -> RemoteCommandView {
        RemoteCommandView {
            id: self.id,
            name: self.name@,
            description: self.description@,
            dm_permission: self.dm_permission,
            permissions: self.default_member_permissions,
            options: option_views(self.options@),
        }
    }
}

/// The place of the last argument in `options` that has the given name.
pub open spec fn last_named(options: Seq<ArgumentView>, name: Seq<char>) -> Option<int>
    decreases options.len(),
{
    if options.len() == 0 {
        None
    } else if options.last().name == name {
        Some(options.len() - 1)
    } else {
        last_named(options.drop_last(), name)
    }
}

/// Whether the registered arguments hold, under the name of the declared
/// argument, one that agrees with it. Where the name occurs more than once,
/// the last occurrence is the one that counts.
pub open spec fn argument_found(local: ArgumentView, options: Seq<ArgumentView>) -> bool {
    match last_named(options, local.name) {
        Some(j) => argument_matches(local, options[j]),
        None => false,
    }
}

/// Whether a registered command agrees with a declared one.
pub open spec fn command_matches(local: CommandView, remote: RemoteCommandView) -> bool {
    &&& remote.dm_permission == Some(local.dm_permission)
    &&& remote.permissions == local.permissions
    &&& remote.name == local.name
    &&& remote.description == local.description
    &&& remote.options.len() == local.options.len()
    &&& forall|i: int|
        0 <= i < local.options.len() ==> argument_found(#[trigger] local.options[i], remote.options)
}

/// What `last_named` finds: an argument of that name with none of that name
/// after it; and it finds nothing only where the name does not occur.
pub proof fn lemma_last_named(options: Seq<ArgumentView>, name: Seq<char>)
    ensures
        match last_named(options, name) {
            Some(j) => 0 <= j < options.len() && options[j].name == name && forall|k: int|
                j < k < options.len() ==> options[k].name != name,
            None => forall|k: int| 0 <= k < options.len() ==> options[k].name != name,
        },
    decreases options.len(),
{
    if options.len() > 0 && options.last().name != name {
        let shorter = options.drop_last();
        lemma_last_named(shorter, name);
        assert(forall|k: int| 0 <= k < shorter.len() ==> shorter[k] == options[k]);
    }
}

/// Finds the last registered argument of the given name.
pub fn find_last_named(options: &Vec<RemoteArgument>, name: &str) -> (r: Option<usize>)
    ensures
        match r {
            Some(j) => j < options@.len() && last_named(option_views(options@), name@) == Some(
                j as int,
            ),
            None => last_named(option_views(options@), name@) is None,
        },
{
    let ghost views = option_views(options@);
    let mut i: usize = options.len();
    proof {
        assert(views.subrange(0, i as int) =~= views);
    }
    while i > 0
        invariant
            i <= options@.len(),
            views == option_views(options@),
            last_named(views, name@) == last_named(views.subrange(0, i as int), name@),
        decreases i,
    {
        proof {
            let prefix = views.subrange(0, i as int);
            assert(prefix.drop_last() =~= views.subrange(0, i as int - 1));
            assert(prefix.last() == options@[i as int - 1]@);
        }
        if options[i - 1].name.as_str().eq(name) {
            return Some(i - 1);
        }
        i -= 1;
    }
    None
}

/// Whether an optional flag is set to the given value.
pub fn same_flag(a: Option<bool>, b: bool) -> (r: bool)
    ensures
        r == (a == Some(b)),
{
    match a {
        Some(x) => x == b,
        None => false,
    }
}

impl CommandSpec {
    /// Compares this command with a registered one.
    pub fn eq(&self, other: &RemoteCommand) -> (r: bool)
        ensures
            r == command_matches(self@, other@),
    {
        if !(same_flag(other.dm_permission, self.dm_permission) && same_bound(
            other.default_member_permissions,
            self.permissions,
        ) && other.name.as_str().eq(self.name) && other.description.as_str().eq(
            self.description,
        )) {
            return false;
        }
        let n = self.args.len();
        if other.options.len() != n {
            return false;
        }
        let mut i: usize = 0;
        while i < n
            invariant
                n == self.args@.len(),
                i <= n,
                forall|k: int|
                    0 <= k < i ==> argument_found(
                        #[trigger] self@.options[k],
                        other@.options,
                    ),
            decreases n - i,
        {
            let arg = &self.args[i];
            assert(self@.options[i as int] == arg@);
            let agrees = match find_last_named(&other.options, arg.name()) {
                Some(j) => arg.eq(&other.options[j]),
                None => false,
            };
            if !agrees {
                assert(!argument_found(self@.options[i as int], other@.options));
                return false;
            }
            i += 1;
        }
        true
    }

    /// Builds what the registry is asked to hold for this command.
    pub fn into_command(&self) -> (r: CommandDefinition)
        ensures
            r@ == self@,
    {
        let n = self.args.len();
        let mut options: Vec<RemoteArgument> = Vec::new();
        let mut i: usize = 0;
        while i < n
            invariant
                n == self.args@.len(),
                i <= n,
                option_views(options@) == argument_views(self.args@).subrange(0, i as int),
            decreases n - i,
        {
            let ghost before = option_views(options@);
            let option = self.args[i].to_arg();
            options.push(option);
            proof {
                assert(option_views(options@) =~= before.push(self.args@[i as int]@));
                assert(argument_views(self.args@).subrange(0, i as int + 1) =~= before.push(
                    self.args@[i as int]@,
                ));
            }
            i += 1;
        }
        proof {
            assert(argument_views(self.args@).subrange(0, n as int) =~= argument_views(
                self.args@,
            ));
        }
        CommandDefinition {
            name: String::from_str(self.name),
            description: String::from_str(self.description),
            dm_permission: self.dm_permission,
            default_member_permissions: self.permissions,
            options,
        }
    }
}

/// What the registry holds once it has registered a definition under the
/// given identifier.
pub open spec fn registered(definition: CommandView, id: u64) -> RemoteCommandView {
    RemoteCommandView {
        id,
        name: definition.name,
        description: definition.description,
        dm_permission: Some(definition.dm_permission),
        permissions: definition.permissions,
        options: definition.options,
    }
}

/// Whether no two arguments of the list have the same name.
pub open spec fn distinct_argument_names(options: Seq<ArgumentView>) -> bool {
    forall|i: int, j: int|
        0 <= i < j < options.len() ==> (#[trigger] options[i]).name != (#[trigger] options[j]).name
}

/// Whether every argument of the list is of a kind that can be declared.
pub open spec fn declarable_kinds(options: Seq<ArgumentView>) -> bool {
    forall|i: int| 0 <= i < options.len() ==> (#[trigger] options[i]).kind != args::ArgKind::Other
}

/// The arguments of a declared command are of kinds that can be declared.
pub proof fn lemma_declared_kinds(command: CommandSpec)
    ensures
        declarable_kinds(command@.options),
{
}

/// If one list of arguments holds everything that another holds, and every
/// argument of the first is found among the registered ones, then so is every
/// argument of the second.
proof fn lemma_found_carries_over(
    first: Seq<ArgumentView>,
    second: Seq<ArgumentView>,
    options: Seq<ArgumentView>,
)
    requires
        first.to_multiset() =~= second.to_multiset(),
        forall|i: int| 0 <= i < first.len() ==> argument_found(#[trigger] first[i], options),
    ensures
        forall|i: int| 0 <= i < second.len() ==> argument_found(#[trigger] second[i], options),
{
    assert forall|i: int| 0 <= i < second.len() implies argument_found(
        #[trigger] second[i],
        options,
    ) by {
        let x = second[i];
        assert(second.contains(x));
        to_multiset_contains(second, x);
        to_multiset_contains(first, x);
        let j = choose|j: int| 0 <= j < first.len() && first[j] == x;
        assert(argument_found(first[j], options));
    }
}

/// Reordering the arguments of a declared command changes nothing about
/// which registered commands agree with it.
pub proof fn lemma_argument_order_is_irrelevant(
    first: CommandView,
    second: CommandView,
    remote: RemoteCommandView,
)
    requires
        second == (CommandView { options: second.options, ..first }),
        first.options.to_multiset() =~= second.options.to_multiset(),
    ensures
        command_matches(first, remote) == command_matches(second, remote),
{
    to_multiset_len(first.options);
    to_multiset_len(second.options);
    if command_matches(first, remote) {
        lemma_found_carries_over(first.options, second.options, remote.options);
    }
    if command_matches(second, remote) {
        lemma_found_carries_over(second.options, first.options, remote.options);
    }
}

/// A registered command that agrees with a declared command does not agree
/// with one that has more or fewer arguments.
pub proof fn lemma_argument_count_is_compared(
    first: CommandView,
    second: CommandView,
    remote: RemoteCommandView,
)
    requires
        command_matches(first, remote),
        second.options.len() != first.options.len(),
    ensures
        !command_matches(second, remote),
{
}

/// A declared command whose arguments have distinct names agrees with what
/// the registry holds once the command has been registered.
pub proof fn lemma_command_matches_its_registration(local: CommandView, id: u64)
    requires
        distinct_argument_names(local.options),
        declarable_kinds(local.options),
    ensures
        command_matches(local, registered(local, id)),
{
    assert forall|i: int| 0 <= i < local.options.len() implies argument_found(
        #[trigger] local.options[i],
        local.options,
    ) by {
        lemma_last_named(local.options, local.options[i].name);
        let found = last_named(local.options, local.options[i].name);
        assert(found == Some(i)) by {
            match found {
                Some(j) => {
                    if j < i {
                        assert(local.options[i].name != local.options[i].name);
                    }
                    if i < j {
                        assert(local.options[i].name != local.options[j].name);
                    }
                },
                None => {
                    assert(local.options[i].name != local.options[i].name);
                },
            }
        }
    }
}

} // verus!
