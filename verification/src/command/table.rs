//! The table of the commands that the bot declares.
//!
//! The names of the commands and of their arguments are what the registry
//! holds and what an invocation carries, character by character.

use crate::command::args::{
    ArgKind, ArgumentSpec, ArgumentView, BaseArg, IntArg, RemoteBound, UserArg,
};
use crate::command::{
    declarable_kinds, distinct_argument_names, lemma_declared_kinds, CommandSpec, CommandView,
};
use crate::reconcile::{command_views, distinct_command_names};
use vstd::prelude::*;

verus! {

/// The permission to manage messages, as a bit mask.
pub const MANAGE_MESSAGES: u64 = 0x2000;

/// The largest period that can be set.
pub const MAX_PERIOD: u64 = 0x7fff_ffff;

/// The bit mask of the permission to manage messages, read from serenity's
/// `Permissions::MANAGE_MESSAGES`, which serenity declares as bit 13.
#[verifier::external_body]
fn manage_messages_bits() -> (r: u64)
    ensures
        r == MANAGE_MESSAGES,
{
    serenity::all::Permissions::MANAGE_MESSAGES.bits()
}

/// The content of the argument that sets a period.
pub open spec fn repeat_arg_view() -> ArgumentView {
    ArgumentView {
        kind: ArgKind::Integer,
        name: "send_on"@,
        description: "Send counts every nth message"@,
        required: false,
        min_value: RemoteBound::Value(2),
        max_value: RemoteBound::Value(MAX_PERIOD),
        choices: Seq::<Seq<char>>::empty(),
    }
}

/// The content of the argument that sets the number of ranks.
pub open spec fn leaderboard_count_arg_view() -> ArgumentView {
    ArgumentView {
        kind: ArgKind::Integer,
        name: "count"@,
        description: "Max count of users per emote"@,
        required: false,
        min_value: RemoteBound::Value(1),
        max_value: RemoteBound::Value(5),
        choices: Seq::<Seq<char>>::empty(),
    }
}

/// The content of the argument that names a user.
pub open spec fn counts_user_arg_view() -> ArgumentView {
    ArgumentView {
        kind: ArgKind::User,
        name: "user"@,
        description: "The user whose counts to display"@,
        required: false,
        min_value: RemoteBound::Missing,
        max_value: RemoteBound::Missing,
        choices: Seq::<Seq<char>>::empty(),
    }
}

/// The argument that sets a period: `send_on`, a number from two up.
pub fn repeat_arg() -> (r: IntArg)
    ensures
        r@ == repeat_arg_view(),
{
    IntArg {
        base: BaseArg {
            name: "send_on",
            description: "Send counts every nth message",
            required: false,
        },
        min: Some(2),
        max: Some(MAX_PERIOD),
    }
}

/// The argument that sets the number of ranks of a leaderboard: `count`, a
/// number from one to five.
pub fn leaderboard_count_arg() -> (r: IntArg)
    ensures
        r@ == leaderboard_count_arg_view(),
{
    IntArg {
        base: BaseArg {
            name: "count",
            description: "Max count of users per emote",
            required: false,
        },
        min: Some(1),
        max: Some(5),
    }
}

/// The argument that names the user whose counts are asked for: `user`.
pub fn counts_user_arg() -> (r: UserArg)
    ensures
        r@ == counts_user_arg_view(),
{
    UserArg {
        base: BaseArg {
            name: "user",
            description: "The user whose counts to display",
            required: false,
        },
    }
}

/// Builds a declared command.
fn command(
    name: &'static str,
    description: &'static str,
    dm_permission: bool,
    permissions: Option<u64>,
    args: Vec<ArgumentSpec>,
) -> (r: CommandSpec)
    ensures
        r.name == name,
        r.description == description,
        r.dm_permission == dm_permission,
        r.permissions == permissions,
        r.args == args,
{
    CommandSpec { name, description, dm_permission, permissions, args }
}

/// A list of no arguments.
fn no_args() -> (r: Vec<ArgumentSpec>)
    ensures
        r@.len() == 0,
{
    Vec::new()
}

/// A list of one argument.
fn one_arg(arg: ArgumentSpec) -> (r: Vec<ArgumentSpec>)
    ensures
        r@ == seq![arg],
{
    let mut r = Vec::new();
    r.push(arg);
    assert(r@ =~= seq![arg]);
    r
}

/// The content of `opt_in`.
pub open spec fn opt_in_view() -> CommandView {
    CommandView {
        name: "opt_in"@,
        description: "Start tracking x3s"@,
        dm_permission: true,
        permissions: None,
        options: Seq::<ArgumentView>::empty(),
    }
}

/// `opt_in`: start counting the invoking user.
pub fn opt_in_command() -> (r: CommandSpec)
    ensures
        r@ == opt_in_view(),
{
    let r = command(
        "opt_in",
        "Start tracking x3s",
        true,
        None,
        no_args(),
    );
    assert(r@.options =~= opt_in_view().options);
    r
}

/// The content of `opt_out`.
pub open spec fn opt_out_view() -> CommandView {
    CommandView {
        name: "opt_out"@,
        description: "Stop tracking x3s"@,
        dm_permission: true,
        permissions: None,
        options: Seq::<ArgumentView>::empty(),
    }
}

/// `opt_out`: stop counting the invoking user.
pub fn opt_out_command() -> (r: CommandSpec)
    ensures
        r@ == opt_out_view(),
{
    let r = command(
        "opt_out",
        "Stop tracking x3s",
        true,
        None,
        no_args(),
    );
    assert(r@.options =~= opt_out_view().options);
    r
}

/// The content of `silent`.
pub open spec fn silent_view() -> CommandView {
    CommandView {
        name: "silent"@,
        description: "Track x3s silently (don't send messages)"@,
        dm_permission: true,
        permissions: None,
        options: seq![repeat_arg_view()],
    }
}

/// `silent`: silence the replies to the invoking user, or set their period.
pub fn silent_command() -> (r: CommandSpec)
    ensures
        r@ == silent_view(),
{
    let r = command(
        "silent",
        "Track x3s silently (don't send messages)",
        true,
        None,
        one_arg(ArgumentSpec::Integer(repeat_arg())),
    );
    assert(r@.options =~= silent_view().options);
    r
}

/// The content of `verbose`.
pub open spec fn verbose_view() -> CommandView {
    CommandView {
        name: "verbose"@,
        description: "Track x3s verbosely (do send messages)"@,
        dm_permission: true,
        permissions: None,
        options: Seq::<ArgumentView>::empty(),
    }
}

/// `verbose`: reply to the invoking user after every increment again.
pub fn verbose_command() -> (r: CommandSpec)
    ensures
        r@ == verbose_view(),
{
    let r = command(
        "verbose",
        "Track x3s verbosely (do send messages)",
        true,
        None,
        no_args(),
    );
    assert(r@.options =~= verbose_view().options);
    r
}

/// The content of `counts`.
pub open spec fn counts_view() -> CommandView {
    CommandView {
        name: "counts"@,
        description: "Get your x3 counts"@,
        dm_permission: true,
        permissions: None,
        options: seq![counts_user_arg_view()],
    }
}

/// `counts`: show the counts of a user.
pub fn counts_command() -> (r: CommandSpec)
    ensures
        r@ == counts_view(),
{
    let r = command(
        "counts",
        "Get your x3 counts",
        true,
        None,
        one_arg(ArgumentSpec::EntityRef(counts_user_arg())),
    );
    assert(r@.options =~= counts_view().options);
    r
}

/// The content of `leaderboard`.
pub open spec fn leaderboard_view() -> CommandView {
    CommandView {
        name: "leaderboard"@,
        description: "Get the x3 leaderboard for this server"@,
        dm_permission: false,
        permissions: None,
        options: seq![leaderboard_count_arg_view()],
    }
}

/// `leaderboard`: show the leaderboard of the guild. Not for direct messages.
pub fn leaderboard_command() -> (r: CommandSpec)
    ensures
        r@ == leaderboard_view(),
{
    let r = command(
        "leaderboard",
        "Get the x3 leaderboard for this server",
        false,
        None,
        one_arg(ArgumentSpec::Integer(leaderboard_count_arg())),
    );
    assert(r@.options =~= leaderboard_view().options);
    r
}

/// The content of `mute_all`.
pub open spec fn mute_all_view() -> CommandView {
    CommandView {
        name: "mute_all"@,
        description: "Mute all count messages in the server"@,
        dm_permission: false,
        permissions: Some(MANAGE_MESSAGES),
        options: seq![repeat_arg_view()],
    }
}

/// `mute_all`: silence the replies in the guild, or set their period. Not
/// for direct messages, and only for members who may manage messages.
pub fn mute_all_command() -> (r: CommandSpec)
    ensures
        r@ == mute_all_view(),
{
    let r = command(
        "mute_all",
        "Mute all count messages in the server",
        false,
        Some(manage_messages_bits()),
        one_arg(ArgumentSpec::Integer(repeat_arg())),
    );
    assert(r@.options =~= mute_all_view().options);
    r
}

/// The content of `unmute_all`.
pub open spec fn unmute_all_view() -> CommandView {
    CommandView {
        name: "unmute_all"@,
        description: "Unmute all count messages in the server"@,
        dm_permission: false,
        permissions: Some(MANAGE_MESSAGES),
        options: Seq::<ArgumentView>::empty(),
    }
}

/// `unmute_all`: clear the mute setting of the guild. Not for direct
/// messages, and only for members who may manage messages.
pub fn unmute_all_command() -> (r: CommandSpec)
    ensures
        r@ == unmute_all_view(),
{
    let r = command(
        "unmute_all",
        "Unmute all count messages in the server",
        false,
        Some(manage_messages_bits()),
        no_args(),
    );
    assert(r@.options =~= unmute_all_view().options);
    r
}

/// The contents of the declared commands, in the order of the table.
pub open spec fn declared_commands() -> Seq<CommandView> {
    seq![
        opt_in_view(),
        opt_out_view(),
        silent_view(),
        verbose_view(),
        counts_view(),
        leaderboard_view(),
        mute_all_view(),
        unmute_all_view(),
    ]
}

/// The names of the declared commands, in the order of the table.
pub open spec fn command_names() -> Seq<Seq<char>> {
    seq![
        "opt_in"@,
        "opt_out"@,
        "silent"@,
        "verbose"@,
        "counts"@,
        "leaderboard"@,
        "mute_all"@,
        "unmute_all"@,
    ]
}

/// All declared commands, each with its name, description, visibility,
/// permission and arguments. No two have the same name, and no command has
/// two arguments of the same name.
pub fn all_commands() -> (r: Vec<CommandSpec>)
    ensures
        command_views(r@) == declared_commands(),
        distinct_command_names(command_views(r@)),
        forall|i: int|
            0 <= i < 8 ==> distinct_argument_names((#[trigger] command_views(r@)[i]).options)
                && declarable_kinds(command_views(r@)[i].options),
{
    let mut r: Vec<CommandSpec> = Vec::new();
    r.push(opt_in_command());
    r.push(opt_out_command());
    r.push(silent_command());
    r.push(verbose_command());
    r.push(counts_command());
    r.push(leaderboard_command());
    r.push(mute_all_command());
    r.push(unmute_all_command());
    proof {
        let views = command_views(r@);
        assert(views =~= declared_commands());
        assert forall|i: int| 0 <= i < 8 implies distinct_argument_names(
            (#[trigger] views[i]).options,
        ) && declarable_kinds(views[i].options) by {
            assert(views[i] == r@[i]@);
            lemma_declared_kinds(r@[i]);
        }
        assert forall|i: int, j: int| 0 <= i < j < views.len() implies (#[trigger] views[i]).name
            != (#[trigger] views[j]).name by {
            assert(views[i].name == command_names()[i]);
            assert(views[j].name == command_names()[j]);
            lemma_names_differ(i, j);
        }
    }
    r
}

/// No two commands of the table have the same name.
proof fn lemma_names_differ(i: int, j: int)
    requires
        0 <= i < j < 8,
    ensures
        command_names()[i] != command_names()[j],
{
    reveal_strlit("opt_in");
    reveal_strlit("opt_out");
    reveal_strlit("silent");
    reveal_strlit("verbose");
    reveal_strlit("counts");
    reveal_strlit("leaderboard");
    reveal_strlit("mute_all");
    reveal_strlit("unmute_all");
    let a = command_names()[i];
    let b = command_names()[j];
    if a.len() == b.len() {
        assert(a[0] != b[0]);
    }
}

} // verus!
