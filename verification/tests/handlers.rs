use x3_counter::command::all::{
    counts, counts_content, failure_response, leaderboard, leaderboard_content, mute_all, opt_in,
    opt_out,
    postfix, run_command, silent, unmute_all, verbose, Invocation, InvocationOption,
    OptionValue, Response,
};
use x3_counter::database::counts::UserCount;
use x3_counter::database::leaderboard::LeaderboardRow;
use x3_counter::database::unsigned::PsqlU;
use x3_counter::database::{DatabaseHandler, VerboseLevel};
use x3_counter::matcher::TokenMatcher;
use x3_counter::message::{count_token, handle_message, reply_text, IncomingMessage};
use x3_counter::text::{i64_to_text, u64_to_text};

const SERVER_ERROR: &str = "You can only run this command in a server (this should not be possible)";
const ARGUMENT_ERROR: &str = "Incorrect argument type provided (this should not be possible)";
const PATTERN: &str = r"(?:^|\s)(?:(x3+)|(:3+)|(uwu))\s*$";

fn invoke(name: &str, user_id: u64, guild_id: Option<u64>, values: Vec<OptionValue>) -> Invocation {
    Invocation {
        name: name.to_owned(),
        user_id,
        guild_id,
        options: values
            .into_iter()
            .map(|value| InvocationOption { name: "arg".to_owned(), value })
            .collect(),
    }
}

fn message(author_id: u64, guild_id: Option<u64>, content: &str) -> IncomingMessage {
    IncomingMessage { author_id, author_is_bot: false, guild_id, content: content.to_owned() }
}

fn assert_reply(reply: &Response, content: &str, ephemeral: bool) {
    assert_eq!(reply.content, content);
    assert_eq!(reply.ephemeral, ephemeral);
}

#[test]
fn postfix_follows_the_last_digit() {
    assert_eq!(postfix(2), "nd");
    assert_eq!(postfix(3), "rd");
    assert_eq!(postfix(1), "th");
    assert_eq!(postfix(0), "th");
    assert_eq!(postfix(4), "th");
    assert_eq!(postfix(12), "nd");
    assert_eq!(postfix(13), "rd");
    assert_eq!(postfix(22), "nd");
    assert_eq!(postfix(103), "rd");
    assert_eq!(postfix(10), "th");
    assert_eq!(postfix(-2), "th");
    assert_eq!(postfix(-3), "th");
    assert_eq!(postfix(-13), "th");
    assert_eq!(postfix(i64::MAX), "th");
    assert_eq!(postfix(i64::MIN), "th");
}

#[test]
fn numbers_are_written_in_decimal() {
    assert_eq!(u64_to_text(0), "0");
    assert_eq!(u64_to_text(7), "7");
    assert_eq!(u64_to_text(10), "10");
    assert_eq!(u64_to_text(1234567890), "1234567890");
    assert_eq!(u64_to_text(u64::MAX), "18446744073709551615");
    assert_eq!(i64_to_text(0), "0");
    assert_eq!(i64_to_text(42), "42");
    assert_eq!(i64_to_text(-1), "-1");
    assert_eq!(i64_to_text(-905), "-905");
    assert_eq!(i64_to_text(i64::MAX), "9223372036854775807");
    assert_eq!(i64_to_text(i64::MIN), "-9223372036854775808");
}

#[test]
fn opt_out_and_opt_in_set_the_flag() {
    let mut db = DatabaseHandler::new();
    let reply = opt_out(&mut db, &invoke("opt_out", 1, None, vec![])).unwrap();
    assert_reply(&reply, "I won't count your ':3's now qwq", true);
    assert!(db.is_opt_out(1));
    assert!(!db.is_opt_out(2));
    let reply = opt_in(&mut db, &invoke("opt_in", 1, Some(10), vec![])).unwrap();
    assert_reply(&reply, "I will count your ':3's now UwU", true);
    assert!(!db.is_opt_out(1));
}

#[test]
fn silent_without_argument_silences() {
    let mut db = DatabaseHandler::new();
    let reply = silent(&mut db, &invoke("silent", 1, None, vec![])).unwrap();
    assert_reply(&reply, "I won't respond to your messages but will still count x3s", true);
    assert_eq!(db.user_settings(1).notify_every, Some(0));
    assert!(matches!(db.verbose_level(1, 10), VerboseLevel::Silent));
}

#[test]
fn silent_with_a_number_sets_the_period() {
    let mut db = DatabaseHandler::new();
    let reply = silent(&mut db, &invoke("silent", 1, None, vec![OptionValue::Integer(3)])).unwrap();
    assert_reply(&reply, "I will only respond to every 3rd x3", true);
    assert_eq!(db.user_settings(1).notify_every, Some(3));
    let reply = silent(&mut db, &invoke("silent", 1, None, vec![OptionValue::Integer(2)])).unwrap();
    assert_reply(&reply, "I will only respond to every 2nd x3", true);
    let reply = silent(&mut db, &invoke("silent", 1, None, vec![OptionValue::Integer(11)])).unwrap();
    assert_reply(&reply, "I will only respond to every 11th x3", true);
    assert_eq!(db.user_settings(1).notify_every, Some(11));
    let reply = silent(
        &mut db,
        &invoke("silent", 1, None, vec![OptionValue::Integer(2147483647), OptionValue::Other]),
    ).unwrap();
    assert_reply(&reply, "I will only respond to every 2147483647th x3", true);
    assert_eq!(db.user_settings(1).notify_every, Some(2147483647));
}

#[test]
fn silent_keeps_the_low_bits_of_a_large_number() {
    let mut db = DatabaseHandler::new();
    silent(&mut db, &invoke("silent", 1, None, vec![OptionValue::Integer((1 << 32) + 5)])).unwrap();
    assert_eq!(db.user_settings(1).notify_every, Some(5));
    let reply = silent(&mut db, &invoke("silent", 1, None, vec![OptionValue::Integer(-1)])).unwrap();
    assert_reply(&reply, "I will only respond to every -1th x3", true);
    assert_eq!(db.user_settings(1).notify_every, Some(u32::MAX));
}

#[test]
fn silent_refuses_another_kind_of_argument() {
    let mut db = DatabaseHandler::new();
    db.set_silent(1, Some(4));
    let reply = silent(&mut db, &invoke("silent", 1, None, vec![OptionValue::User(5)])).unwrap();
    assert_reply(&reply, ARGUMENT_ERROR, true);
    assert_eq!(db.user_settings(1).notify_every, Some(4));
    let reply = silent(&mut db, &invoke("silent", 1, None, vec![OptionValue::Other])).unwrap();
    assert_reply(&reply, ARGUMENT_ERROR, true);
}

#[test]
fn verbose_clears_the_setting() {
    let mut db = DatabaseHandler::new();
    db.set_silent(1, Some(0));
    let reply = verbose(&mut db, &invoke("verbose", 1, None, vec![])).unwrap();
    assert_reply(&reply, "I will now respond to your messages", true);
    assert_eq!(db.user_settings(1).notify_every, None);
    assert!(matches!(db.verbose_level(1, 10), VerboseLevel::Verbose));
}

#[test]
fn mute_all_needs_a_guild() {
    let mut db = DatabaseHandler::new();
    let reply = mute_all(&mut db, &invoke("mute_all", 1, None, vec![])).unwrap();
    assert_reply(&reply, SERVER_ERROR, true);
    let reply = unmute_all(&mut db, &invoke("unmute_all", 1, None, vec![])).unwrap();
    assert_reply(&reply, SERVER_ERROR, true);
    let reply = leaderboard(&mut db, &invoke("leaderboard", 1, None, vec![])).unwrap();
    assert_reply(&reply, SERVER_ERROR, true);
    assert!(matches!(db.verbose_level(1, 10), VerboseLevel::Verbose));
}

#[test]
fn mute_all_sets_and_unmute_all_clears() {
    let mut db = DatabaseHandler::new();
    let reply = mute_all(&mut db, &invoke("mute_all", 1, Some(10), vec![])).unwrap();
    assert_reply(
        &reply,
        "I won't respond to messages in this server but will still count x3s",
        true,
    );
    assert!(matches!(db.verbose_level(2, 10), VerboseLevel::Silent));
    let reply = mute_all(&mut db, &invoke("mute_all", 1, Some(10), vec![OptionValue::Integer(22)])).unwrap();
    assert_reply(&reply, "I will only respond to every 22nd x3 in this server", true);
    assert!(matches!(db.verbose_level(2, 10), VerboseLevel::Every(22)));
    let reply = mute_all(&mut db, &invoke("mute_all", 1, Some(10), vec![OptionValue::User(3)])).unwrap();
    assert_reply(&reply, ARGUMENT_ERROR, true);
    assert!(matches!(db.verbose_level(2, 10), VerboseLevel::Every(22)));
    let reply = unmute_all(&mut db, &invoke("unmute_all", 1, Some(10), vec![])).unwrap();
    assert_reply(&reply, "I will now respond to messages in this server", true);
    assert!(matches!(db.verbose_level(2, 10), VerboseLevel::Verbose));
}

#[test]
fn counts_show_the_invoking_user() {
    let mut db = DatabaseHandler::new();
    let reply = counts(&mut db, &invoke("counts", 1, Some(10), vec![])).unwrap();
    assert_reply(&reply, "You don't have any x3s yet :c", false);
    db.set_count(1, 10, "x3", 4).unwrap();
    db.set_count(1, 10, ":3", 2).unwrap();
    db.set_count(1, 11, "x3", 1).unwrap();
    let reply = counts(&mut db, &invoke("counts", 1, Some(10), vec![])).unwrap();
    assert_reply(&reply, "Here are your counts:\nx3 - 4\n:3 - 2", false);
    let reply = counts(&mut db, &invoke("counts", 1, None, vec![])).unwrap();
    assert_reply(&reply, "Here are your counts:\nx3 - 5\n:3 - 2", false);
}

#[test]
fn counts_show_another_user_in_a_guild() {
    let mut db = DatabaseHandler::new();
    db.set_count(2, 10, "x3", 9).unwrap();
    let reply = counts(&mut db, &invoke("counts", 1, Some(10), vec![OptionValue::User(2)])).unwrap();
    assert_reply(&reply, "Here are <@2>'s counts:\nx3 - 9", false);
    let reply = counts(&mut db, &invoke("counts", 1, Some(10), vec![OptionValue::User(3)])).unwrap();
    assert_reply(&reply, "This user doesn't have any x3s yet :c", false);
    let reply = counts(&mut db, &invoke("counts", 2, Some(10), vec![OptionValue::User(2)])).unwrap();
    assert_reply(&reply, "Here are your counts:\nx3 - 9", false);
    let reply = counts(&mut db, &invoke("counts", 1, Some(10), vec![OptionValue::Integer(2)])).unwrap();
    assert_reply(&reply, ARGUMENT_ERROR, true);
}

#[test]
fn counts_outside_a_guild_are_those_of_the_user_asked_about() {
    let mut db = DatabaseHandler::new();
    db.set_count(1, 10, "x3", 3).unwrap();
    db.set_count(2, 10, "x3", 9).unwrap();
    db.set_count(2, 11, "x3", 1).unwrap();
    db.set_count(2, 11, ":3", 4).unwrap();
    let reply = counts(&mut db, &invoke("counts", 1, None, vec![OptionValue::User(2)])).unwrap();
    assert_reply(&reply, "Here are <@2>'s counts:\nx3 - 10\n:3 - 4", false);
    let reply = counts(&mut db, &invoke("counts", 3, None, vec![OptionValue::User(2)])).unwrap();
    assert_reply(&reply, "Here are <@2>'s counts:\nx3 - 10\n:3 - 4", false);
    let reply = counts(&mut db, &invoke("counts", 1, None, vec![OptionValue::User(3)])).unwrap();
    assert_reply(&reply, "This user doesn't have any x3s yet :c", false);
    let reply = counts(&mut db, &invoke("counts", 1, None, vec![])).unwrap();
    assert_reply(&reply, "Here are your counts:\nx3 - 3", false);
}

#[test]
fn counts_content_joins_the_lines() {
    let list = vec![
        UserCount { emote: "x3".to_owned(), count: PsqlU(1) },
        UserCount { emote: "uwu".to_owned(), count: PsqlU(20) },
        UserCount { emote: ":3".to_owned(), count: PsqlU(300) },
    ];
    assert_eq!(counts_content(&list, 1, 1), "Here are your counts:\nx3 - 1\nuwu - 20\n:3 - 300");
    assert_eq!(
        counts_content(&list, 1, 77),
        "Here are <@77>'s counts:\nx3 - 1\nuwu - 20\n:3 - 300"
    );
    assert_eq!(counts_content(&Vec::new(), 1, 1), "You don't have any x3s yet :c");
    assert_eq!(counts_content(&Vec::new(), 1, 2), "This user doesn't have any x3s yet :c");
}

#[test]
fn leaderboard_shows_three_ranks_by_default() {
    let mut db = DatabaseHandler::new();
    db.set_count(1, 10, "x3", 10).unwrap();
    db.set_count(2, 10, "x3", 10).unwrap();
    db.set_count(3, 10, "x3", 7).unwrap();
    db.set_count(4, 10, "x3", 5).unwrap();
    db.set_count(5, 10, "x3", 1).unwrap();
    db.set_count(5, 10, ":3", 2).unwrap();
    let reply = leaderboard(&mut db, &invoke("leaderboard", 1, Some(10), vec![])).unwrap();
    assert_reply(
        &reply,
        "## :3\n1\\. <@5> - 2\n## x3\n1\\. <@1> - 10\n1\\. <@2> - 10\n2\\. <@3> - 7\n3\\. <@4> - 5",
        false,
    );
    let reply = leaderboard(&mut db, &invoke("leaderboard", 1, Some(10), vec![OptionValue::Integer(1)])).unwrap();
    assert_reply(&reply, "## :3\n1\\. <@5> - 2\n## x3\n1\\. <@1> - 10\n1\\. <@2> - 10", false);
    let reply = leaderboard(&mut db, &invoke("leaderboard", 1, Some(10), vec![OptionValue::Integer(-4)])).unwrap();
    assert_reply(&reply, "", false);
    let reply = leaderboard(&mut db, &invoke("leaderboard", 1, Some(11), vec![])).unwrap();
    assert_reply(&reply, "", false);
    let reply = leaderboard(&mut db, &invoke("leaderboard", 1, Some(10), vec![OptionValue::User(1)])).unwrap();
    assert_reply(&reply, ARGUMENT_ERROR, true);
}

#[test]
fn leaderboard_content_groups_by_token() {
    let rows = vec![
        LeaderboardRow { emote: "a".to_owned(), user_id: PsqlU(1), count: PsqlU(3), rank: PsqlU(1) },
        LeaderboardRow { emote: "a".to_owned(), user_id: PsqlU(2), count: PsqlU(2), rank: PsqlU(2) },
        LeaderboardRow { emote: "b".to_owned(), user_id: PsqlU(1), count: PsqlU(9), rank: PsqlU(1) },
    ];
    assert_eq!(
        leaderboard_content(&rows),
        "## a\n1\\. <@1> - 3\n2\\. <@2> - 2\n## b\n1\\. <@1> - 9"
    );
    assert_eq!(leaderboard_content(&Vec::new()), "");
}

#[test]
fn dispatch_goes_by_name() {
    let mut db = DatabaseHandler::new();
    let reply = run_command(&mut db, &invoke("opt_out", 1, None, vec![])).unwrap();
    assert_reply(&reply, "I won't count your ':3's now qwq", true);
    assert!(db.is_opt_out(1));
    let reply = run_command(&mut db, &invoke("opt_in", 1, None, vec![])).unwrap();
    assert_reply(&reply, "I will count your ':3's now UwU", true);
    assert!(!db.is_opt_out(1));
    let reply = run_command(&mut db, &invoke("silent", 1, None, vec![OptionValue::Integer(3)]))
        .unwrap();
    assert_reply(&reply, "I will only respond to every 3rd x3", true);
    let reply = run_command(&mut db, &invoke("verbose", 1, None, vec![])).unwrap();
    assert_reply(&reply, "I will now respond to your messages", true);
    let reply = run_command(&mut db, &invoke("counts", 1, None, vec![])).unwrap();
    assert_reply(&reply, "You don't have any x3s yet :c", false);
    let reply = run_command(&mut db, &invoke("leaderboard", 1, Some(10), vec![])).unwrap();
    assert_reply(&reply, "", false);
    let reply = run_command(&mut db, &invoke("mute_all", 1, Some(10), vec![])).unwrap();
    assert_reply(
        &reply,
        "I won't respond to messages in this server but will still count x3s",
        true,
    );
    let reply = run_command(&mut db, &invoke("unmute_all", 1, Some(10), vec![])).unwrap();
    assert_reply(&reply, "I will now respond to messages in this server", true);
    assert!(run_command(&mut db, &invoke("unknown", 1, None, vec![])).is_none());
    assert!(run_command(&mut db, &invoke("OPT_IN", 1, None, vec![])).is_none());
}

#[test]
fn announcement_names_token_and_count() {
    assert_eq!(reply_text("x3", 5), "You have ended your message with *x3* **5** times!");
    assert_eq!(
        reply_text(":3", 2147483647),
        "You have ended your message with *:3* **2147483647** times!"
    );
}

#[test]
fn throttled_notification() {
    let mut db = DatabaseHandler::new();
    let matcher = TokenMatcher::new(PATTERN).unwrap();
    silent(&mut db, &invoke("silent", 1, None, vec![OptionValue::Integer(3)])).unwrap();
    let mut replies = Vec::new();
    for _ in 0..5 {
        replies.push(handle_message(&mut db, &matcher, &message(1, Some(10), "hello x3")).unwrap());
    }
    assert_eq!(
        replies,
        vec![
            None,
            None,
            Some("You have ended your message with *x3* **3** times!".to_owned()),
            None,
            None,
        ]
    );
    assert_eq!(db.get_user_server_counts(1, 10)[0].count.0, 5);
}

#[test]
fn guild_mute_overrides() {
    let mut db = DatabaseHandler::new();
    let matcher = TokenMatcher::new(PATTERN).unwrap();
    mute_all(&mut db, &invoke("mute_all", 9, Some(10), vec![])).unwrap();
    assert_eq!(handle_message(&mut db, &matcher, &message(1, Some(10), "hi x3")), Ok(None));
    assert_eq!(db.get_user_server_counts(1, 10)[0].count.0, 1);
    assert_eq!(
        handle_message(&mut db, &matcher, &message(1, Some(11), "hi x3")),
        Ok(Some("You have ended your message with *x3* **1** times!".to_owned()))
    );
}

#[test]
fn token_case_folding() {
    let mut db = DatabaseHandler::new();
    let matcher = TokenMatcher::new(PATTERN).unwrap();
    assert_eq!(
        handle_message(&mut db, &matcher, &message(1, Some(10), "hello X3")),
        Ok(Some("You have ended your message with *x3* **1** times!".to_owned()))
    );
    assert_eq!(
        handle_message(&mut db, &matcher, &message(1, Some(10), "hello x3")),
        Ok(Some("You have ended your message with *x3* **2** times!".to_owned()))
    );
    let counts = db.get_user_server_counts(1, 10);
    assert_eq!(counts.len(), 1);
    assert_eq!(counts[0].emote, "x3");
    assert_eq!(counts[0].count.0, 2);
}

#[test]
fn messages_of_bots_and_outside_guilds_are_ignored() {
    let mut db = DatabaseHandler::new();
    let matcher = TokenMatcher::new(PATTERN).unwrap();
    let mut bot = message(1, Some(10), "hello x3");
    bot.author_is_bot = true;
    assert_eq!(handle_message(&mut db, &matcher, &bot), Ok(None));
    assert_eq!(handle_message(&mut db, &matcher, &message(1, None, "hello x3")), Ok(None));
    assert_eq!(handle_message(&mut db, &matcher, &message(1, Some(10), "no token")), Ok(None));
    assert!(db.get_user_counts(1).unwrap().is_empty());
}

#[test]
fn opted_out_author_gets_no_reply() {
    let mut db = DatabaseHandler::new();
    let matcher = TokenMatcher::new(PATTERN).unwrap();
    opt_out(&mut db, &invoke("opt_out", 1, None, vec![])).unwrap();
    assert_eq!(handle_message(&mut db, &matcher, &message(1, Some(10), "hello x3")), Ok(None));
    assert!(db.get_user_counts(1).unwrap().is_empty());
    opt_in(&mut db, &invoke("opt_in", 1, None, vec![])).unwrap();
    assert_eq!(
        handle_message(&mut db, &matcher, &message(1, Some(10), "hello x3")),
        Ok(Some("You have ended your message with *x3* **1** times!".to_owned()))
    );
}

#[test]
fn count_token_reports_a_full_counter() {
    let mut db = DatabaseHandler::new();
    db.set_count(1, 10, "x3", 2147483647).unwrap();
    assert!(count_token(&mut db, 1, false, Some(10), Some("x3".to_owned())).is_err());
    assert_eq!(count_token(&mut db, 1, false, Some(10), None), Ok(None));
    assert_eq!(count_token(&mut db, 1, true, Some(10), Some("x3".to_owned())), Ok(None));
    assert_eq!(
        count_token(&mut db, 2, false, Some(10), Some("x3".to_owned())),
        Ok(Some("You have ended your message with *x3* **1** times!".to_owned()))
    );
}

#[test]
fn failure_reply_is_ephemeral() {
    let reply = failure_response();
    assert_reply(&reply, "Something went wrong, please try again later", true);
}
