//! What the bot does with a message: find the token, count it, and decide
//! whether to announce the new count.
//!
//! The handling is given twice: as a whole, on the store in memory, and step
//! by step, for a store that is asked from outside. The steps say what to ask
//! first and how to go on after each answer, and come to the same end.

use crate::database::{
    count_of, incremented, lemma_case_folding, mute_of, notifies, resolve, resolved_level,
    settings_of, should_notify, valid_store, DatabaseHandler, StoreError, StoreView, VerboseLevel,
    MAX_COUNT,
};
use crate::matcher::{token_of, TokenMatcher};
use crate::text::{decimal, lowercase, u64_to_text};
use vstd::prelude::*;
use vstd::string::StringExecFns;

verus! {

/// A message as the bot sees it.
#[derive(Debug, Clone)]
pub struct IncomingMessage {
    pub author_id: u64,
    /// Whether the author is a bot.
    pub author_is_bot: bool,
    /// The guild in which the message was written, if it was written in one.
    pub guild_id: Option<u64>,
    pub content: String,
}

/// The text that announces a new count.
pub open spec fn announcement(token: Seq<char>, new_count: u32) -> Seq<char> {
    "You have ended your message with *"@ + token + "* **"@ + decimal(new_count as nat)
        + "** times!"@
}

/// Writes the text that announces a new count.
pub fn reply_text(token: &str, new_count: u32) -> (r: String)
    ensures
        r@ == announcement(token@, new_count),
{
    let mut r = String::from_str("You have ended your message with *");
    r.append(token);
    r.append("* **");
    let number = u64_to_text(new_count as u64);
    r.append(number.as_str());
    r.append("** times!");
    r
}

/// The announcement of a new count under a level, if the level asks for one.
pub open spec fn announced(level: VerboseLevel, token: Seq<char>, new_count: u32) -> Option<
    Seq<char>,
> {
    if notifies(level, new_count) {
        Some(announcement(token, new_count))
    } else {
        None
    }
}

/// Writes the announcement of a new count, if the level asks for one.
pub fn announce(level: VerboseLevel, token: &str, new_count: u32) -> (r: Option<String>)
    ensures
        match r {
            Some(text) => announced(level, token@, new_count) == Some(text@),
            None => announced(level, token@, new_count) is None,
        },
{
    if should_notify(level, new_count) {
        Some(reply_text(token, new_count))
    } else {
        None
    }
}

/// The guild in which a message is counted: none for a message of a bot and
/// for a message outside a guild.
pub open spec fn counted_in(author_is_bot: bool, guild_id: Option<u64>) -> Option<u64> {
    if author_is_bot {
        None
    } else {
        guild_id
    }
}

/// The guild in which a message is counted, if it is counted at all.
pub fn counted_guild(msg: &IncomingMessage) -> (r: Option<u64>)
    ensures
        r == counted_in(msg.author_is_bot, msg.guild_id),
{
    if msg.author_is_bot {
        None
    } else {
        msg.guild_id
    }
}

/// What is asked of the store next while a message is handled.
#[derive(Debug, Clone, Copy)]
pub enum Pending {
    /// Whether the author has opted out.
    OptOut { user_id: u64, guild_id: u64 },
    /// One more on the counter of the author, the guild and the token, in one
    /// write, and the new count.
    Count { user_id: u64, guild_id: u64 },
    /// The mute setting of the guild and the notify setting of the author.
    Settings { user_id: u64, guild_id: u64, new_count: u32 },
}

/// What the store answered.
#[derive(Debug, Clone, Copy)]
pub enum StoreAnswer {
    /// Whether the author has opted out.
    OptedOut(bool),
    /// The new count.
    Counted(u32),
    /// The mute setting of the guild and the notify setting of the author.
    Settings { mute_every: Option<u32>, notify_every: Option<u32> },
}

/// How the handling of a message goes on.
#[derive(Debug, Clone)]
pub enum Progress {
    /// Ask the store.
    Ask(Pending),
    /// Send the announcement, if there is one, and stop.
    Finish(Option<String>),
}

/// The mathematical content of how the handling of a message goes on.
pub enum ProgressView {
    Ask(Pending),
    Finish(Option<Seq<char>>),
}

impl View for Progress {
    type V = ProgressView;

    open spec fn view(&self) -> ProgressView {
        match self {
            Progress::Ask(pending) => ProgressView::Ask(*pending),
            Progress::Finish(Some(text)) => ProgressView::Finish(Some(text@)),
            Progress::Finish(None) => ProgressView::Finish(None),
        }
    }
}

/// What is asked first for a message with the given token, if anything: a
/// message of a bot, a message outside a guild and a message without a token
/// ask nothing.
pub open spec fn begun(
    author_id: u64,
    author_is_bot: bool,
    guild_id: Option<u64>,
    token: Option<Seq<char>>,
) -> Option<Pending> {
    match (counted_in(author_is_bot, guild_id), token) {
        (Some(guild), Some(_)) => Some(Pending::OptOut { user_id: author_id, guild_id: guild }),
        _ => None,
    }
}

/// How the handling of a message with the given token goes on after an
/// answer of the store. An author who has opted out is not counted. One who
/// has not is counted, and the level that the two settings resolve to decides
/// on the announcement. An answer that was not asked for ends the handling.
pub open spec fn proceeded(pending: Pending, answer: StoreAnswer, token: Seq<char>) -> ProgressView {
    match (pending, answer) {
        (Pending::OptOut { user_id, guild_id }, StoreAnswer::OptedOut(opted_out)) => if opted_out {
            ProgressView::Finish(None)
        } else {
            ProgressView::Ask(Pending::Count { user_id, guild_id })
        },
        (Pending::Count { user_id, guild_id }, StoreAnswer::Counted(new_count)) => ProgressView::Ask(
            Pending::Settings { user_id, guild_id, new_count },
        ),
        (
            Pending::Settings { user_id, guild_id, new_count },
            StoreAnswer::Settings { mute_every, notify_every },
        ) => ProgressView::Finish(
            announced(resolved_level(mute_every, notify_every), token, new_count),
        ),
        _ => ProgressView::Finish(None),
    }
}

/// Finds the token of a message and what is asked of the store first, if the
/// message is counted at all.
pub fn begin(matcher: &TokenMatcher, msg: &IncomingMessage) -> (r: Option<(Pending, String)>)
    ensures
        match r {
            Some((pending, token)) => token_of(
                matcher.pattern(),
                matcher.groups(),
                lowercase(msg.content@),
            ) == Some(token@) && begun(
                msg.author_id,
                msg.author_is_bot,
                msg.guild_id,
                Some(token@),
            ) == Some(pending),
            None => begun(
                msg.author_id,
                msg.author_is_bot,
                msg.guild_id,
                token_of(matcher.pattern(), matcher.groups(), lowercase(msg.content@)),
            ) is None,
        },
{
    let guild_id = match counted_guild(msg) {
        Some(guild_id) => guild_id,
        None => {
            return None;
        },
    };
    match matcher.find_token(msg.content.as_str()) {
        Some(token) => Some((Pending::OptOut { user_id: msg.author_id, guild_id }, token)),
        None => None,
    }
}

/// Decides how the handling of a message goes on after an answer of the
/// store.
pub fn proceed(pending: Pending, answer: StoreAnswer, token: &str) -> (r: Progress)
    ensures
        r@ == proceeded(pending, answer, token@),
{
    match (pending, answer) {
        (Pending::OptOut { user_id, guild_id }, StoreAnswer::OptedOut(opted_out)) => if opted_out {
            Progress::Finish(None)
        } else {
            Progress::Ask(Pending::Count { user_id, guild_id })
        },
        (Pending::Count { user_id, guild_id }, StoreAnswer::Counted(new_count)) => Progress::Ask(
            Pending::Settings { user_id, guild_id, new_count },
        ),
        (
            Pending::Settings { user_id, guild_id, new_count },
            StoreAnswer::Settings { mute_every, notify_every },
        ) => Progress::Finish(announce(resolve(mute_every, notify_every), token, new_count)),
        _ => Progress::Finish(None),
    }
}

/// Asking the store step by step comes to what handling a message is: with
/// the answers of a sound store whose counter is not full, the steps end with
/// the announcement that the message gets.
pub proof fn lemma_steps_handle_the_message(
    store: StoreView,
    author_id: u64,
    guild_id: u64,
    token: Seq<char>,
)
    requires
        valid_store(store),
        count_of(store, author_id, guild_id, lowercase(token)) < MAX_COUNT,
    ensures
        ({
            let outcome = message_outcome(store, author_id, false, Some(guild_id), Some(token));
            let first = Pending::OptOut { user_id: author_id, guild_id };
            let opted_out = settings_of(store, author_id).opted_out;
            let counted = incremented(store, author_id, guild_id, lowercase(token));
            &&& begun(author_id, false, Some(guild_id), Some(token)) == Some(first)
            &&& opted_out ==> proceeded(first, StoreAnswer::OptedOut(true), token)
                == ProgressView::Finish(None) && outcome == (
                store,
                Ok::<Option<Seq<char>>, StoreError>(None),
            )
            &&& !opted_out ==> {
                &&& proceeded(first, StoreAnswer::OptedOut(false), token) == ProgressView::Ask(
                    Pending::Count { user_id: author_id, guild_id },
                )
                &&& counted.1 is Ok && counted.1->Ok_0 is Some
                &&& outcome.0 == counted.0
                &&& outcome.1 is Ok
                &&& proceeded(
                    Pending::Settings {
                        user_id: author_id,
                        guild_id,
                        new_count: counted.1->Ok_0->Some_0,
                    },
                    StoreAnswer::Settings {
                        mute_every: mute_of(counted.0, guild_id),
                        notify_every: settings_of(counted.0, author_id).notify_every,
                    },
                    token,
                ) == ProgressView::Finish(outcome.1->Ok_0)
            }
        }),
{
}

/// What the bot does with a message whose token, if it has one, is given:
/// the store afterwards, and the announcement, if one is made.
///
/// A message of a bot, a message outside a guild and a message without a
/// token change nothing. Otherwise the token is counted for the author in the
/// guild. The new count is announced if the level that governs the author in
/// the guild asks for it.
pub open spec fn message_outcome(
    store: StoreView,
    author_id: u64,
    author_is_bot: bool,
    guild_id: Option<u64>,
    token: Option<Seq<char>>,
) -> (StoreView, Result<Option<Seq<char>>, StoreError>) {
    match (counted_in(author_is_bot, guild_id), token) {
        (Some(guild), Some(text)) => {
            let counted = incremented(store, author_id, guild, lowercase(text));
            match counted.1 {
                Err(error) => (counted.0, Err(error)),
                Ok(None) => (counted.0, Ok(None)),
                Ok(Some(new_count)) => (
                    counted.0,
                    Ok(
                        announced(
                            resolved_level(
                                mute_of(counted.0, guild),
                                settings_of(counted.0, author_id).notify_every,
                            ),
                            text,
                            new_count,
                        ),
                    ),
                ),
            }
        },
        _ => (store, Ok(None)),
    }
}

/// The content of what handling a message returns.
pub open spec fn announcement_view(outcome: Result<Option<String>, StoreError>) -> Result<
    Option<Seq<char>>,
    StoreError,
> {
    match outcome {
        Ok(Some(text)) => Ok(Some(text@)),
        Ok(None) => Ok(None),
        Err(error) => Err(error),
    }
}

/// Counts the token of a message, if it has one, and returns the
/// announcement, if one is to be made.
pub fn count_token(
    db: &mut DatabaseHandler,
    author_id: u64,
    author_is_bot: bool,
    guild_id: Option<u64>,
    token: Option<String>,
) -> (r: Result<Option<String>, StoreError>)
    requires
        old(db).wf(),
    ensures
        final(db).wf(),
        final(db)@ == message_outcome(
            old(db)@,
            author_id,
            author_is_bot,
            guild_id,
            match token {
                Some(text) => Some(text@),
                None => None,
            },
        ).0,
        announcement_view(r) == message_outcome(
            old(db)@,
            author_id,
            author_is_bot,
            guild_id,
            match token {
                Some(text) => Some(text@),
                None => None,
            },
        ).1,
{
    let server_id = match (if author_is_bot {
        None
    } else {
        guild_id
    }) {
        Some(server_id) => server_id,
        None => {
            return Ok(None);
        },
    };
    let emote = match token {
        Some(emote) => emote,
        None => {
            return Ok(None);
        },
    };
    let first = Pending::OptOut { user_id: author_id, guild_id: server_id };
    let opted_out = StoreAnswer::OptedOut(db.is_opt_out(author_id));
    match proceed(first, opted_out, emote.as_str()) {
        Progress::Finish(reply) => Ok(reply),
        Progress::Ask(second) => {
            let new_count = match db.add_one(author_id, server_id, emote.as_str()) {
                Ok(Some(new_count)) => new_count,
                Ok(None) => {
                    return Ok(None);
                },
                Err(error) => {
                    return Err(error);
                },
            };
            match proceed(second, StoreAnswer::Counted(new_count), emote.as_str()) {
                Progress::Finish(reply) => Ok(reply),
                Progress::Ask(third) => {
                    let settings = StoreAnswer::Settings {
                        mute_every: db.mute_every(server_id),
                        notify_every: db.user_settings(author_id).notify_every,
                    };
                    match proceed(third, settings, emote.as_str()) {
                        Progress::Finish(reply) => Ok(reply),
                        Progress::Ask(_) => Ok(None),
                    }
                },
            }
        },
    }
}

/// Handles a message: finds its token with the matcher, counts it, and
/// returns the announcement, if one is to be made.
pub fn handle_message(db: &mut DatabaseHandler, matcher: &TokenMatcher, msg: &IncomingMessage) -> (r:
    Result<Option<String>, StoreError>)
    requires
        old(db).wf(),
    ensures
        final(db).wf(),
        final(db)@ == message_outcome(
            old(db)@,
            msg.author_id,
            msg.author_is_bot,
            msg.guild_id,
            token_of(matcher.pattern(), matcher.groups(), lowercase(msg.content@)),
        ).0,
        announcement_view(r) == message_outcome(
            old(db)@,
            msg.author_id,
            msg.author_is_bot,
            msg.guild_id,
            token_of(matcher.pattern(), matcher.groups(), lowercase(msg.content@)),
        ).1,
{
    match begin(matcher, msg) {
        Some((_, token)) => count_token(
            db,
            msg.author_id,
            msg.author_is_bot,
            msg.guild_id,
            Some(token),
        ),
        None => Ok(None),
    }
}

/// Messages whose tokens differ only in case share a counter: two messages
/// of a user who has not opted out, written in one guild, whose tokens have
/// the same lower-case form, raise the one counter of that form by two and
/// leave every other count and every setting as it is.
pub proof fn lemma_messages_share_a_counter(
    store: StoreView,
    author_id: u64,
    guild_id: u64,
    first: Seq<char>,
    second: Seq<char>,
)
    requires
        valid_store(store),
        !settings_of(store, author_id).opted_out,
        lowercase(first) == lowercase(second),
        count_of(store, author_id, guild_id, lowercase(first)) + 2 <= MAX_COUNT,
    ensures
        ({
            let before = count_of(store, author_id, guild_id, lowercase(first));
            let one = message_outcome(store, author_id, false, Some(guild_id), Some(first));
            let two = message_outcome(one.0, author_id, false, Some(guild_id), Some(second));
            &&& one.1 is Ok
            &&& two.1 is Ok
            &&& valid_store(two.0)
            &&& count_of(two.0, author_id, guild_id, lowercase(first)) == before + 2
            &&& two.0.counters.len() <= store.counters.len() + 1
            &&& two.0.users == store.users
            &&& two.0.guilds == store.guilds
            &&& forall|u: u64, g: u64, t: Seq<char>|
                !(u == author_id && g == guild_id && t == lowercase(first)) ==> #[trigger] count_of(
                    two.0,
                    u,
                    g,
                    t,
                ) == count_of(store, u, g, t)
        }),
{
    lemma_case_folding(store, author_id, guild_id, first, second);
}

} // verus!
