//! The commands that the bot offers, and what each of them does.
//!
//! A handler takes the store and an invocation, changes or reads the store,
//! and returns the reply. A reply is ephemeral when only the invoking user
//! sees it. What an invocation calls for is decided apart from carrying it
//! out, so that a store that is asked from outside is served by the same
//! decisions.

use crate::database::counts::{
    count_views, lemma_total_in_guild, sum_counters, summed, total, UserCount, UserCountView,
    MAX_TOTAL,
};
use crate::database::leaderboard::{
    board_of, rank_counters, row_text, row_views, LeaderboardRow, RowView,
};
use crate::database::{
    counter_views, with_mute_every, with_notify_every, with_opt_out, CounterEntry, CounterView,
    DatabaseHandler, StoreError, StoreView,
};
use crate::text::{decimal, i64_to_text, signed_decimal, u64_to_text};
use vstd::prelude::*;
use vstd::string::StringExecFns;

verus! {

/// The value of one argument of an invocation.
#[derive(Debug, Clone, Copy)]
pub enum OptionValue {
    /// A whole number.
    Integer(i64),
    /// A reference to a user.
    User(u64),
    /// A value of any other kind.
    Other,
}

/// One argument of an invocation.
#[derive(Debug, Clone)]
pub struct InvocationOption {
    pub name: String,
    pub value: OptionValue,
}

/// One use of a command by a user.
#[derive(Debug, Clone)]
pub struct Invocation {
    /// The name of the command.
    pub name: String,
    /// The invoking user.
    pub user_id: u64,
    /// The guild in which the command was used, if it was used in one.
    pub guild_id: Option<u64>,
    pub options: Vec<InvocationOption>,
}

/// The reply to an invocation.
#[derive(Debug, Clone)]
pub struct Response {
    pub content: String,
    /// Whether only the invoking user sees the reply.
    pub ephemeral: bool,
}

/// The mathematical content of an invocation.
pub struct InvocationView {
    pub name: Seq<char>,
    pub user_id: u64,
    pub guild_id: Option<u64>,
    /// The values of the arguments, in order.
    pub values: Seq<OptionValue>,
}

/// The mathematical content of a reply.
pub struct ResponseView {
    pub content: Seq<char>,
    pub ephemeral: bool,
}

impl View for Invocation {
    type V = InvocationView;

    open spec fn view(&self) -> InvocationView {
        InvocationView {
            name: self.name@,
            user_id: self.user_id,
            guild_id: self.guild_id,
            values: Seq::new(self.options@.len(), |i: int| self.options@[i].value),
        }
    }
}

impl View for Response {
    type V = ResponseView;

    open spec fn view(&self) -> ResponseView {
        ResponseView { content: self.content@, ephemeral: self.ephemeral }
    }
}

/// The reply to a guild-only command that was used outside a guild.
pub open spec fn server_error() -> ResponseView {
    ResponseView {
        content: "You can only run this command in a server (this should not be possible)"@,
        ephemeral: true,
    }
}

/// The reply to an argument of a kind that the command does not take.
pub open spec fn argument_error() -> ResponseView {
    ResponseView {
        content: "Incorrect argument type provided (this should not be possible)"@,
        ephemeral: true,
    }
}

/// The reply to a command that the store could not serve.
pub open spec fn failure_reply() -> ResponseView {
    ResponseView { content: "Something went wrong, please try again later"@, ephemeral: true }
}

/// The ending that follows a number: `nd` after a number that is not
/// negative and ends in 2, `rd` after one that ends in 3, and `th` after any
/// other.
pub open spec fn postfix_of(count: int) -> Seq<char> {
    if count >= 0 && count % 10 == 2 {
        "nd"@
    } else if count >= 0 && count % 10 == 3 {
        "rd"@
    } else {
        "th"@
    }
}

/// The ending that follows a number.
pub fn postfix(count: i64) -> (r: &'static str)
    ensures
        r@ == postfix_of(count as int),
{
    if count < 0 {
        "th"
    } else {
        let last = (count as u64) % 10;
        if last == 2 {
            "nd"
        } else if last == 3 {
            "rd"
        } else {
            "th"
        }
    }
}

/// A change of the store that a command asks for.
#[derive(Debug, Clone, Copy)]
pub enum Write {
    /// Set or clear the opt-out of a user.
    SetOptOut { user_id: u64, value: bool },
    /// Set the notify setting of a user.
    SetSilent { user_id: u64, value: Option<u32> },
    /// Set the mute setting of a guild.
    MuteAll { guild_id: u64, value: Option<u32> },
}

/// Which counts a command asks for: those of `query_user_id`, in the guild
/// where a guild is given and over all guilds where none is given. `user_id`
/// is the invoking user, to whom the counts are shown.
#[derive(Debug, Clone, Copy)]
pub struct CountsQuery {
    pub user_id: u64,
    pub query_user_id: u64,
    pub guild_id: Option<u64>,
}

/// Which leaderboard a command asks for.
#[derive(Debug, Clone, Copy)]
pub struct BoardQuery {
    pub guild_id: u64,
    pub top: u64,
}

/// What an invocation calls for.
#[derive(Debug, Clone)]
pub enum Decision {
    /// Reply without touching the store.
    Reply(Response),
    /// Change the store, then reply.
    Write(Write, Response),
    /// Read counts and reply with them.
    Counts(CountsQuery),
    /// Read a leaderboard and reply with it.
    Leaderboard(BoardQuery),
}

/// The mathematical content of a decision.
pub enum DecisionView {
    Reply(ResponseView),
    Write(Write, ResponseView),
    Counts(CountsQuery),
    Leaderboard(BoardQuery),
}

impl View for Decision {
    type V = DecisionView;

    open spec fn view(&self) -> DecisionView {
        match self {
            Decision::Reply(reply) => DecisionView::Reply(reply@),
            Decision::Write(write, reply) => DecisionView::Write(*write, reply@),
            Decision::Counts(query) => DecisionView::Counts(*query),
            Decision::Leaderboard(query) => DecisionView::Leaderboard(*query),
        }
    }
}

/// The reply of `opt_in`.
pub open spec fn opt_in_reply() -> ResponseView {
    ResponseView { content: "I will count your ':3's now UwU"@, ephemeral: true }
}

/// The reply of `opt_out`.
pub open spec fn opt_out_reply() -> ResponseView {
    ResponseView { content: "I won't count your ':3's now qwq"@, ephemeral: true }
}

/// The reply of `verbose`.
pub open spec fn verbose_reply() -> ResponseView {
    ResponseView { content: "I will now respond to your messages"@, ephemeral: true }
}

/// The reply of `silent` without an argument.
pub open spec fn silent_reply() -> ResponseView {
    ResponseView {
        content: "I won't respond to your messages but will still count x3s"@,
        ephemeral: true,
    }
}

/// The reply of `mute_all` without an argument.
pub open spec fn mute_all_reply() -> ResponseView {
    ResponseView {
        content: "I won't respond to messages in this server but will still count x3s"@,
        ephemeral: true,
    }
}

/// The reply of `unmute_all`.
pub open spec fn unmute_all_reply() -> ResponseView {
    ResponseView { content: "I will now respond to messages in this server"@, ephemeral: true }
}

/// The setting that a number given as an argument stands for: the number
/// itself where it fits 32 bits without a sign, and its lowest 32 bits
/// otherwise.
pub open spec fn setting_of_argument(count: i64) -> u32 {
    count as u32
}

/// The reply that names the period set, followed by `tail`.
pub open spec fn period_text(count: int, tail: Seq<char>) -> Seq<char> {
    "I will only respond to every "@ + signed_decimal(count) + postfix_of(count) + tail
}

/// Builds the reply that names the period set, followed by `tail`.
fn period_reply(count: i64, tail: &str) -> (r: Response)
    ensures
        r@ == (ResponseView { content: period_text(count as int, tail@), ephemeral: true }),
{
    let mut content = String::from_str("I will only respond to every ");
    let number = i64_to_text(count);
    content.append(number.as_str());
    content.append(postfix(count));
    content.append(tail);
    Response { content, ephemeral: true }
}

/// Reads the setting out of a number given as an argument.
fn argument_setting(count: i64) -> (r: u32)
    ensures
        r == setting_of_argument(count),
{
    #[verifier::truncate]
    (count as u32)
}

/// What `opt_in` calls for: the opt-out of the invoking user is cleared.
pub open spec fn opt_in_decision(cmd: InvocationView) -> DecisionView {
    DecisionView::Write(Write::SetOptOut { user_id: cmd.user_id, value: false }, opt_in_reply())
}

/// What `opt_out` calls for: the opt-out of the invoking user is set.
pub open spec fn opt_out_decision(cmd: InvocationView) -> DecisionView {
    DecisionView::Write(Write::SetOptOut { user_id: cmd.user_id, value: true }, opt_out_reply())
}

/// What `silent` calls for: without an argument the invoking user is
/// silenced altogether; with a number the user is told of every count that
/// is a multiple of it; an argument of another kind is refused.
pub open spec fn silent_decision(cmd: InvocationView) -> DecisionView {
    if cmd.values.len() == 0 {
        DecisionView::Write(
            Write::SetSilent { user_id: cmd.user_id, value: Some(0u32) },
            silent_reply(),
        )
    } else {
        match cmd.values[0] {
            OptionValue::Integer(count) => DecisionView::Write(
                Write::SetSilent { user_id: cmd.user_id, value: Some(setting_of_argument(count)) },
                ResponseView { content: period_text(count as int, " x3"@), ephemeral: true },
            ),
            _ => DecisionView::Reply(argument_error()),
        }
    }
}

/// What `verbose` calls for: the notify setting of the invoking user is
/// cleared.
pub open spec fn verbose_decision(cmd: InvocationView) -> DecisionView {
    DecisionView::Write(Write::SetSilent { user_id: cmd.user_id, value: None }, verbose_reply())
}

/// What `counts` calls for: the counts of the user given as the argument, or
/// of the invoking user without an argument; an argument of another kind is
/// refused.
pub open spec fn counts_decision(cmd: InvocationView) -> DecisionView {
    if cmd.values.len() == 0 {
        DecisionView::Counts(
            CountsQuery {
                user_id: cmd.user_id,
                query_user_id: cmd.user_id,
                guild_id: cmd.guild_id,
            },
        )
    } else {
        match cmd.values[0] {
            OptionValue::User(query_user_id) => DecisionView::Counts(
                CountsQuery { user_id: cmd.user_id, query_user_id, guild_id: cmd.guild_id },
            ),
            _ => DecisionView::Reply(argument_error()),
        }
    }
}

/// The number of ranks that a leaderboard shows without an argument.
pub const DEFAULT_TOP: u64 = 3;

/// What `leaderboard` calls for: outside a guild nothing; else the
/// leaderboard of the guild with three ranks, or with as many as the number
/// given, none for a negative number; an argument of another kind is refused.
pub open spec fn leaderboard_decision(cmd: InvocationView) -> DecisionView {
    match cmd.guild_id {
        None => DecisionView::Reply(server_error()),
        Some(guild_id) => if cmd.values.len() == 0 {
            DecisionView::Leaderboard(BoardQuery { guild_id, top: DEFAULT_TOP })
        } else {
            match cmd.values[0] {
                OptionValue::Integer(count) => DecisionView::Leaderboard(
                    BoardQuery {
                        guild_id,
                        top: if count < 0 {
                            0u64
                        } else {
                            count as u64
                        },
                    },
                ),
                _ => DecisionView::Reply(argument_error()),
            }
        },
    }
}

/// What `mute_all` calls for: outside a guild nothing; without an argument
/// the guild is silenced altogether; with a number the guild's users are told
/// of every count that is a multiple of it; an argument of another kind is
/// refused.
pub open spec fn mute_all_decision(cmd: InvocationView) -> DecisionView {
    match cmd.guild_id {
        None => DecisionView::Reply(server_error()),
        Some(guild_id) => if cmd.values.len() == 0 {
            DecisionView::Write(Write::MuteAll { guild_id, value: Some(0u32) }, mute_all_reply())
        } else {
            match cmd.values[0] {
                OptionValue::Integer(count) => DecisionView::Write(
                    Write::MuteAll { guild_id, value: Some(setting_of_argument(count)) },
                    ResponseView {
                        content: period_text(count as int, " x3 in this server"@),
                        ephemeral: true,
                    },
                ),
                _ => DecisionView::Reply(argument_error()),
            }
        },
    }
}

/// What `unmute_all` calls for: outside a guild nothing; else the mute
/// setting of the guild is cleared.
pub open spec fn unmute_all_decision(cmd: InvocationView) -> DecisionView {
    match cmd.guild_id {
        None => DecisionView::Reply(server_error()),
        Some(guild_id) => DecisionView::Write(
            Write::MuteAll { guild_id, value: None },
            unmute_all_reply(),
        ),
    }
}

/// What an invocation calls for, by the name of its command; nothing for a
/// name that no command has.
pub open spec fn decision_of(cmd: InvocationView) -> Option<DecisionView> {
    if cmd.name == "opt_in"@ {
        Some(opt_in_decision(cmd))
    } else if cmd.name == "opt_out"@ {
        Some(opt_out_decision(cmd))
    } else if cmd.name == "silent"@ {
        Some(silent_decision(cmd))
    } else if cmd.name == "verbose"@ {
        Some(verbose_decision(cmd))
    } else if cmd.name == "counts"@ {
        Some(counts_decision(cmd))
    } else if cmd.name == "leaderboard"@ {
        Some(leaderboard_decision(cmd))
    } else if cmd.name == "mute_all"@ {
        Some(mute_all_decision(cmd))
    } else if cmd.name == "unmute_all"@ {
        Some(unmute_all_decision(cmd))
    } else {
        None
    }
}

/// The store after a change.
pub open spec fn written(store: StoreView, write: Write) -> StoreView {
    match write {
        Write::SetOptOut { user_id, value } => with_opt_out(store, user_id, value),
        Write::SetSilent { user_id, value } => with_notify_every(store, user_id, value),
        Write::MuteAll { guild_id, value } => with_mute_every(store, guild_id, value),
    }
}

/// The lines joined into one text, with the separator between every two.
pub open spec fn joined(lines: Seq<Seq<char>>, separator: Seq<char>) -> Seq<char>
    decreases lines.len(),
{
    if lines.len() == 0 {
        Seq::<char>::empty()
    } else if lines.len() == 1 {
        lines[0]
    } else {
        joined(lines.drop_last(), separator) + separator + lines.last()
    }
}

/// The line that shows the count of one token.
pub open spec fn count_line(count: UserCountView) -> Seq<char> {
    count.emote + " - "@ + decimal(count.count as nat)
}

/// The lines that show a list of counts.
pub open spec fn count_lines(counts: Seq<UserCountView>) -> Seq<Seq<char>> {
    Seq::new(counts.len(), |i: int| count_line(counts[i]))
}

/// The text that shows the counts of the user asked about to the invoking
/// user.
pub open spec fn counts_text(counts: Seq<UserCountView>, user_id: u64, query_user_id: u64) -> Seq<
    char,
> {
    if counts.len() == 0 {
        if user_id == query_user_id {
            "You don't have any x3s yet :c"@
        } else {
            "This user doesn't have any x3s yet :c"@
        }
    } else if user_id == query_user_id {
        "Here are your counts:\n"@ + joined(count_lines(counts), "\n"@)
    } else {
        "Here are <@"@ + decimal(query_user_id as nat) + ">'s counts:\n"@ + joined(
            count_lines(counts),
            "\n"@,
        )
    }
}

/// Writes the text that shows the counts of the user asked about to the
/// invoking user.
pub fn counts_content(counts: &Vec<UserCount>, user_id: u64, query_user_id: u64) -> (r: String)
    ensures
        r@ == counts_text(count_views(counts@), user_id, query_user_id),
{
    let n = counts.len();
    if n == 0 {
        return if user_id == query_user_id {
            String::from_str("You don't have any x3s yet :c")
        } else {
            String::from_str("This user doesn't have any x3s yet :c")
        };
    }
    let ghost lines = count_lines(count_views(counts@));
    let mut body = String::new();
    let mut i: usize = 0;
    proof {
        assert(body@ =~= joined(lines.subrange(0, 0), "\n"@));
    }
    while i < n
        invariant
            n == counts@.len(),
            i <= n,
            lines == count_lines(count_views(counts@)),
            body@ == joined(lines.subrange(0, i as int), "\n"@),
        decreases n - i,
    {
        let ghost before = body@;
        if i > 0 {
            body.append("\n");
        }
        body.append(counts[i].emote.as_str());
        body.append(" - ");
        let number = u64_to_text(counts[i].count.0);
        body.append(number.as_str());
        proof {
            let prefix = lines.subrange(0, i as int + 1);
            assert(prefix.drop_last() =~= lines.subrange(0, i as int));
            assert(prefix.last() == count_line(counts@[i as int]@));
            if i > 0 {
                assert(body@ =~= before + "\n"@ + count_line(counts@[i as int]@));
            } else {
                assert(body@ =~= count_line(counts@[i as int]@));
            }
        }
        i += 1;
    }
    proof {
        assert(lines.subrange(0, n as int) =~= lines);
    }
    if user_id == query_user_id {
        let mut content = String::from_str("Here are your counts:\n");
        content.append(body.as_str());
        content
    } else {
        let mut content = String::from_str("Here are <@");
        let number = u64_to_text(query_user_id);
        content.append(number.as_str());
        content.append(">'s counts:\n");
        content.append(body.as_str());
        content
    }
}

/// The text of a leaderboard: for every token a heading and, below it, the
/// lines of the token. Lines of one token that follow each other stand under
/// one heading.
pub open spec fn board_text(rows: Seq<RowView>) -> Seq<char>
    decreases rows.len(),
{
    if rows.len() == 0 {
        Seq::<char>::empty()
    } else if rows.len() == 1 {
        "## "@ + rows[0].emote + "\n"@ + row_text(rows[0])
    } else {
        let before = board_text(rows.drop_last());
        let row = rows.last();
        if rows[rows.len() - 2].emote == row.emote {
            before + "\n"@ + row_text(row)
        } else {
            before + "\n"@ + "## "@ + row.emote + "\n"@ + row_text(row)
        }
    }
}

/// Writes the text of a leaderboard.
pub fn leaderboard_content(rows: &Vec<LeaderboardRow>) -> (r: String)
    ensures
        r@ == board_text(row_views(rows@)),
{
    let ghost views = row_views(rows@);
    let n = rows.len();
    let mut content = String::new();
    let mut i: usize = 0;
    proof {
        assert(content@ =~= board_text(views.subrange(0, 0)));
    }
    while i < n
        invariant
            n == rows@.len(),
            i <= n,
            views == row_views(rows@),
            content@ == board_text(views.subrange(0, i as int)),
        decreases n - i,
    {
        let ghost before = content@;
        let row = &rows[i];
        let line = row.to_text();
        proof {
            let prefix = views.subrange(0, i as int + 1);
            assert(prefix.drop_last() =~= views.subrange(0, i as int));
            assert(prefix.last() == row@);
            assert(prefix[0] == views[0]);
            if i > 0 {
                assert(prefix[prefix.len() - 2] == rows@[i as int - 1]@);
            }
        }
        if i == 0 {
            content.append("## ");
            content.append(row.emote.as_str());
            content.append("\n");
            content.append(line.as_str());
            assert(content@ =~= "## "@ + row@.emote + "\n"@ + row_text(row@));
        } else if rows[i - 1].emote == row.emote {
            content.append("\n");
            content.append(line.as_str());
            assert(content@ =~= before + "\n"@ + row_text(row@));
        } else {
            content.append("\n");
            content.append("## ");
            content.append(row.emote.as_str());
            content.append("\n");
            content.append(line.as_str());
            assert(content@ =~= before + "\n"@ + "## "@ + row@.emote + "\n"@ + row_text(row@));
        }
        i += 1;
    }
    proof {
        assert(views.subrange(0, n as int) =~= views);
    }
    content
}

/// The user and guild whose counters a query for counts sums up: the user
/// asked about, in the guild of the query or in all guilds.
pub open spec fn counts_scope(query: CountsQuery) -> (u64, Option<u64>) {
    (query.query_user_id, query.guild_id)
}

/// Whether a query for counts is refused over the given counters: one of the
/// sums does not fit.
pub open spec fn sums_refused(counters: Seq<CounterView>, query: CountsQuery) -> bool {
    exists|token: Seq<char>|
        total(counters, counts_scope(query).0, counts_scope(query).1, token) > MAX_TOTAL
}

/// Whether the store refuses a query for counts: one of the sums does not
/// fit.
pub open spec fn counts_refused(store: StoreView, query: CountsQuery) -> bool {
    sums_refused(store.counters, query)
}

/// The reply that shows the counts that a query asks for, over the given
/// counters.
pub open spec fn counts_reply_over(counters: Seq<CounterView>, query: CountsQuery) -> ResponseView {
    ResponseView {
        content: counts_text(
            summed(counters, counts_scope(query).0, counts_scope(query).1),
            query.user_id,
            query.query_user_id,
        ),
        ephemeral: false,
    }
}

/// The reply that shows the leaderboard that a query asks for, over the given
/// counters.
pub open spec fn board_reply_over(counters: Seq<CounterView>, query: BoardQuery) -> ResponseView {
    ResponseView {
        content: board_text(board_of(counters, query.guild_id, query.top)),
        ephemeral: false,
    }
}

/// The reply that shows the counts that a query asks for.
pub open spec fn counts_reply(store: StoreView, query: CountsQuery) -> ResponseView {
    counts_reply_over(store.counters, query)
}

/// The reply that shows the leaderboard that a query asks for.
pub open spec fn board_reply(store: StoreView, query: BoardQuery) -> ResponseView {
    board_reply_over(store.counters, query)
}

/// The store after a decision has been carried out, and the reply. Only a
/// query for counts can be refused, and only a change changes the store.
pub open spec fn settled(store: StoreView, decision: DecisionView) -> (
    StoreView,
    Result<ResponseView, StoreError>,
) {
    match decision {
        DecisionView::Reply(reply) => (store, Ok(reply)),
        DecisionView::Write(write, reply) => (written(store, write), Ok(reply)),
        DecisionView::Counts(query) => (
            store,
            if counts_refused(store, query) {
                Err(StoreError::OutOfRange)
            } else {
                Ok(counts_reply(store, query))
            },
        ),
        DecisionView::Leaderboard(query) => (store, Ok(board_reply(store, query))),
    }
}

/// The content of what a handler returns.
pub open spec fn reply_view(outcome: Result<Response, StoreError>) -> Result<
    ResponseView,
    StoreError,
> {
    match outcome {
        Ok(reply) => Ok(reply@),
        Err(error) => Err(error),
    }
}

/// The content of what a dispatch returns.
pub open spec fn outcome_view(outcome: Option<Response>) -> Option<ResponseView> {
    match outcome {
        Some(reply) => Some(reply@),
        None => None,
    }
}

/// The store after the command that an invocation names has been carried
/// out, and the reply. An invocation of no known name changes nothing and
/// gets no reply. A command that the store refuses is answered with the
/// reply for a failure.
pub open spec fn dispatched(store: StoreView, cmd: InvocationView) -> (
    StoreView,
    Option<ResponseView>,
) {
    match decision_of(cmd) {
        None => (store, None),
        Some(decision) => (
            settled(store, decision).0,
            match settled(store, decision).1 {
                Ok(reply) => Some(reply),
                Err(_) => Some(failure_reply()),
            },
        ),
    }
}

/// Builds an ephemeral reply.
fn ephemeral_reply(content: &str) -> (r: Response)
    ensures
        r@ == (ResponseView { content: content@, ephemeral: true }),
{
    Response { content: String::from_str(content), ephemeral: true }
}

/// Builds the reply to a command that the store could not serve.
pub fn failure_response() -> (r: Response)
    ensures
        r@ == failure_reply(),
{
    ephemeral_reply("Something went wrong, please try again later")
}

/// Builds the decision to refuse a guild-only command outside a guild.
fn refuse_without_guild() -> (r: Decision)
    ensures
        r@ == DecisionView::Reply(server_error()),
{
    Decision::Reply(
        ephemeral_reply("You can only run this command in a server (this should not be possible)"),
    )
}

/// Builds the decision to refuse an argument of a kind that the command does
/// not take.
fn refuse_argument() -> (r: Decision)
    ensures
        r@ == DecisionView::Reply(argument_error()),
{
    Decision::Reply(
        ephemeral_reply("Incorrect argument type provided (this should not be possible)"),
    )
}

/// Decides what an invocation of `opt_in` calls for.
pub fn decide_opt_in(cmd: &Invocation) -> (r: Decision)
    ensures
        r@ == opt_in_decision(cmd@),
{
    Decision::Write(
        Write::SetOptOut { user_id: cmd.user_id, value: false },
        ephemeral_reply("I will count your ':3's now UwU"),
    )
}

/// Decides what an invocation of `opt_out` calls for.
pub fn decide_opt_out(cmd: &Invocation) -> (r: Decision)
    ensures
        r@ == opt_out_decision(cmd@),
{
    Decision::Write(
        Write::SetOptOut { user_id: cmd.user_id, value: true },
        ephemeral_reply("I won't count your ':3's now qwq"),
    )
}

/// Decides what an invocation of `silent` calls for.
pub fn decide_silent(cmd: &Invocation) -> (r: Decision)
    ensures
        r@ == silent_decision(cmd@),
{
    if cmd.options.len() == 0 {
        return Decision::Write(
            Write::SetSilent { user_id: cmd.user_id, value: Some(0) },
            ephemeral_reply("I won't respond to your messages but will still count x3s"),
        );
    }
    assert(cmd@.values[0] == cmd.options@[0].value);
    match cmd.options[0].value {
        OptionValue::Integer(count) => Decision::Write(
            Write::SetSilent { user_id: cmd.user_id, value: Some(argument_setting(count)) },
            period_reply(count, " x3"),
        ),
        _ => refuse_argument(),
    }
}

/// Decides what an invocation of `verbose` calls for.
pub fn decide_verbose(cmd: &Invocation) -> (r: Decision)
    ensures
        r@ == verbose_decision(cmd@),
{
    Decision::Write(
        Write::SetSilent { user_id: cmd.user_id, value: None },
        ephemeral_reply("I will now respond to your messages"),
    )
}

/// Decides what an invocation of `counts` calls for.
pub fn decide_counts(cmd: &Invocation) -> (r: Decision)
    ensures
        r@ == counts_decision(cmd@),
{
    let user_id = cmd.user_id;
    let query_user_id = if cmd.options.len() == 0 {
        user_id
    } else {
        assert(cmd@.values[0] == cmd.options@[0].value);
        match cmd.options[0].value {
            OptionValue::User(user_arg_id) => user_arg_id,
            _ => {
                return refuse_argument();
            },
        }
    };
    Decision::Counts(CountsQuery { user_id, query_user_id, guild_id: cmd.guild_id })
}

/// Decides what an invocation of `leaderboard` calls for.
pub fn decide_leaderboard(cmd: &Invocation) -> (r: Decision)
    ensures
        r@ == leaderboard_decision(cmd@),
{
    let guild_id = match cmd.guild_id {
        Some(guild_id) => guild_id,
        None => {
            return refuse_without_guild();
        },
    };
    let top: u64 = if cmd.options.len() == 0 {
        DEFAULT_TOP
    } else {
        assert(cmd@.values[0] == cmd.options@[0].value);
        match cmd.options[0].value {
            OptionValue::Integer(count) => if count < 0 {
                0
            } else {
                count as u64
            },
            _ => {
                return refuse_argument();
            },
        }
    };
    Decision::Leaderboard(BoardQuery { guild_id, top })
}

/// Decides what an invocation of `mute_all` calls for.
pub fn decide_mute_all(cmd: &Invocation) -> (r: Decision)
    ensures
        r@ == mute_all_decision(cmd@),
{
    let guild_id = match cmd.guild_id {
        Some(guild_id) => guild_id,
        None => {
            return refuse_without_guild();
        },
    };
    if cmd.options.len() == 0 {
        return Decision::Write(
            Write::MuteAll { guild_id, value: Some(0) },
            ephemeral_reply("I won't respond to messages in this server but will still count x3s"),
        );
    }
    assert(cmd@.values[0] == cmd.options@[0].value);
    match cmd.options[0].value {
        OptionValue::Integer(count) => Decision::Write(
            Write::MuteAll { guild_id, value: Some(argument_setting(count)) },
            period_reply(count, " x3 in this server"),
        ),
        _ => refuse_argument(),
    }
}

/// Decides what an invocation of `unmute_all` calls for.
pub fn decide_unmute_all(cmd: &Invocation) -> (r: Decision)
    ensures
        r@ == unmute_all_decision(cmd@),
{
    match cmd.guild_id {
        Some(guild_id) => Decision::Write(
            Write::MuteAll { guild_id, value: None },
            ephemeral_reply("I will now respond to messages in this server"),
        ),
        None => refuse_without_guild(),
    }
}

/// Decides what an invocation calls for, by the name of its command.
pub fn decide(cmd: &Invocation) -> (r: Option<Decision>)
    ensures
        match r {
            Some(decision) => decision_of(cmd@) == Some(decision@),
            None => decision_of(cmd@) is None,
        },
{
    let name = cmd.name.as_str();
    if name.eq("opt_in") {
        Some(decide_opt_in(cmd))
    } else if name.eq("opt_out") {
        Some(decide_opt_out(cmd))
    } else if name.eq("silent") {
        Some(decide_silent(cmd))
    } else if name.eq("verbose") {
        Some(decide_verbose(cmd))
    } else if name.eq("counts") {
        Some(decide_counts(cmd))
    } else if name.eq("leaderboard") {
        Some(decide_leaderboard(cmd))
    } else if name.eq("mute_all") {
        Some(decide_mute_all(cmd))
    } else if name.eq("unmute_all") {
        Some(decide_unmute_all(cmd))
    } else {
        None
    }
}

/// Makes a change to the store.
pub fn apply(db: &mut DatabaseHandler, write: Write)
    ensures
        final(db)@ == written(old(db)@, write),
        old(db).wf() ==> final(db).wf(),
{
    match write {
        Write::SetOptOut { user_id, value } => db.set_opt_out(user_id, value),
        Write::SetSilent { user_id, value } => db.set_silent(user_id, value),
        Write::MuteAll { guild_id, value } => db.mute_all(guild_id, value),
    }
}

/// Builds the reply that shows counts.
pub fn counts_response(counts: &Vec<UserCount>, query: CountsQuery) -> (r: Response)
    ensures
        r@ == (ResponseView {
            content: counts_text(count_views(counts@), query.user_id, query.query_user_id),
            ephemeral: false,
        }),
{
    Response {
        content: counts_content(counts, query.user_id, query.query_user_id),
        ephemeral: false,
    }
}

/// Builds the reply that shows a leaderboard.
pub fn leaderboard_response(rows: &Vec<LeaderboardRow>) -> (r: Response)
    ensures
        r@ == (ResponseView { content: board_text(row_views(rows@)), ephemeral: false }),
{
    Response { content: leaderboard_content(rows), ephemeral: false }
}

/// Answers a query for counts from the counters that the store holds: the
/// reply that shows them, or the refusal where one of the sums does not fit.
pub fn answer_counts(counters: &Vec<CounterEntry>, query: CountsQuery) -> (r: Result<
    Response,
    StoreError,
>)
    ensures
        reply_view(r) == if sums_refused(counter_views(counters@), query) {
            Err::<ResponseView, StoreError>(StoreError::OutOfRange)
        } else {
            Ok::<ResponseView, StoreError>(counts_reply_over(counter_views(counters@), query))
        },
{
    match sum_counters(counters, query.query_user_id, query.guild_id) {
        Ok(counts) => Ok(counts_response(&counts, query)),
        Err(error) => {
            proof {
                let token = choose|token: Seq<char>|
                    total(
                        counter_views(counters@),
                        query.query_user_id,
                        query.guild_id,
                        token,
                    ) > MAX_TOTAL;
                assert(total(
                    counter_views(counters@),
                    counts_scope(query).0,
                    counts_scope(query).1,
                    token,
                ) > MAX_TOTAL);
            }
            Err(error)
        },
    }
}

/// Answers a query for a leaderboard from the counters that the store holds.
pub fn answer_board(counters: &Vec<CounterEntry>, query: BoardQuery) -> (r: Response)
    ensures
        r@ == board_reply_over(counter_views(counters@), query),
{
    leaderboard_response(&rank_counters(counters, query.guild_id, query.top))
}

/// Carries out a decision on the store.
pub fn settle(db: &mut DatabaseHandler, decision: Decision) -> (r: Result<Response, StoreError>)
    requires
        old(db).wf(),
    ensures
        final(db).wf(),
        final(db)@ == settled(old(db)@, decision@).0,
        reply_view(r) == settled(old(db)@, decision@).1,
{
    match decision {
        Decision::Reply(reply) => Ok(reply),
        Decision::Write(write, reply) => {
            apply(db, write);
            Ok(reply)
        },
        Decision::Counts(query) => {
            let counts = match query.guild_id {
                Some(guild_id) => db.get_user_server_counts(query.query_user_id, guild_id),
                None => match db.get_user_counts(query.query_user_id) {
                    Ok(counts) => counts,
                    Err(error) => {
                        proof {
                            let token = choose|token: Seq<char>|
                                total(db@.counters, query.query_user_id, None, token)
                                    > MAX_TOTAL;
                            assert(total(
                                db@.counters,
                                counts_scope(query).0,
                                counts_scope(query).1,
                                token,
                            ) > MAX_TOTAL);
                        }
                        return Err(error);
                    },
                },
            };
            proof {
                if query.guild_id is Some {
                    assert forall|token: Seq<char>|
                        total(
                            db@.counters,
                            query.query_user_id,
                            query.guild_id,
                            token,
                        ) <= MAX_TOTAL by {
                        lemma_total_in_guild(
                            db@,
                            query.query_user_id,
                            query.guild_id->0,
                            token,
                        );
                    }
                }
            }
            Ok(counts_response(&counts, query))
        },
        Decision::Leaderboard(query) => {
            let rows = db.leaderboard(query.guild_id, query.top);
            Ok(leaderboard_response(&rows))
        },
    }
}

/// Clears the opt-out of the invoking user.
pub fn opt_in(db: &mut DatabaseHandler, cmd: &Invocation) -> (r: Result<Response, StoreError>)
    requires
        old(db).wf(),
    ensures
        final(db).wf(),
        final(db)@ == settled(old(db)@, opt_in_decision(cmd@)).0,
        reply_view(r) == settled(old(db)@, opt_in_decision(cmd@)).1,
{
    settle(db, decide_opt_in(cmd))
}

/// Sets the opt-out of the invoking user.
pub fn opt_out(db: &mut DatabaseHandler, cmd: &Invocation) -> (r: Result<Response, StoreError>)
    requires
        old(db).wf(),
    ensures
        final(db).wf(),
        final(db)@ == settled(old(db)@, opt_out_decision(cmd@)).0,
        reply_view(r) == settled(old(db)@, opt_out_decision(cmd@)).1,
{
    settle(db, decide_opt_out(cmd))
}

/// Sets the notify setting of the invoking user.
pub fn silent(db: &mut DatabaseHandler, cmd: &Invocation) -> (r: Result<Response, StoreError>)
    requires
        old(db).wf(),
    ensures
        final(db).wf(),
        final(db)@ == settled(old(db)@, silent_decision(cmd@)).0,
        reply_view(r) == settled(old(db)@, silent_decision(cmd@)).1,
{
    settle(db, decide_silent(cmd))
}

/// Clears the notify setting of the invoking user.
pub fn verbose(db: &mut DatabaseHandler, cmd: &Invocation) -> (r: Result<Response, StoreError>)
    requires
        old(db).wf(),
    ensures
        final(db).wf(),
        final(db)@ == settled(old(db)@, verbose_decision(cmd@)).0,
        reply_view(r) == settled(old(db)@, verbose_decision(cmd@)).1,
{
    settle(db, decide_verbose(cmd))
}

/// Shows the counts of a user, token by token.
pub fn counts(db: &mut DatabaseHandler, cmd: &Invocation) -> (r: Result<Response, StoreError>)
    requires
        old(db).wf(),
    ensures
        final(db).wf(),
        final(db)@ == settled(old(db)@, counts_decision(cmd@)).0,
        reply_view(r) == settled(old(db)@, counts_decision(cmd@)).1,
{
    settle(db, decide_counts(cmd))
}

/// Shows the leaderboard of the guild in which the command was used.
pub fn leaderboard(db: &mut DatabaseHandler, cmd: &Invocation) -> (r: Result<
    Response,
    StoreError,
>)
    requires
        old(db).wf(),
    ensures
        final(db).wf(),
        final(db)@ == settled(old(db)@, leaderboard_decision(cmd@)).0,
        reply_view(r) == settled(old(db)@, leaderboard_decision(cmd@)).1,
{
    settle(db, decide_leaderboard(cmd))
}

/// Sets the mute setting of the guild in which the command was used.
pub fn mute_all(db: &mut DatabaseHandler, cmd: &Invocation) -> (r: Result<Response, StoreError>)
    requires
        old(db).wf(),
    ensures
        final(db).wf(),
        final(db)@ == settled(old(db)@, mute_all_decision(cmd@)).0,
        reply_view(r) == settled(old(db)@, mute_all_decision(cmd@)).1,
{
    settle(db, decide_mute_all(cmd))
}

/// Clears the mute setting of the guild in which the command was used.
pub fn unmute_all(db: &mut DatabaseHandler, cmd: &Invocation) -> (r: Result<Response, StoreError>)
    requires
        old(db).wf(),
    ensures
        final(db).wf(),
        final(db)@ == settled(old(db)@, unmute_all_decision(cmd@)).0,
        reply_view(r) == settled(old(db)@, unmute_all_decision(cmd@)).1,
{
    settle(db, decide_unmute_all(cmd))
}

/// Carries out the command that an invocation names, and answers a command
/// that the store refuses with the reply for a failure.
pub fn run_command(db: &mut DatabaseHandler, cmd: &Invocation) -> (r: Option<Response>)
    requires
        old(db).wf(),
    ensures
        final(db).wf(),
        final(db)@ == dispatched(old(db)@, cmd@).0,
        outcome_view(r) == dispatched(old(db)@, cmd@).1,
{
    match decide(cmd) {
        None => None,
        Some(decision) => match settle(db, decision) {
            Ok(reply) => Some(reply),
            Err(_) => Some(failure_response()),
        },
    }
}

/// Only a query for counts can be refused, and a refused query changes
/// nothing.
pub proof fn lemma_only_counts_can_be_refused(store: StoreView, decision: DecisionView)
    requires
        settled(store, decision).1 is Err,
    ensures
        decision is Counts,
        settled(store, decision).0 == store,
{
}

/// A number that fits 32 bits without a sign stands for itself as a setting.
pub proof fn lemma_setting_of_small_argument(count: i64)
    requires
        0 <= count <= 0xffff_ffff,
    ensures
        setting_of_argument(count) == count,
{
    assert(count as u32 == count) by (bit_vector)
        requires
            0 <= count <= 0xffff_ffff,
    ;
}

} // verus!
