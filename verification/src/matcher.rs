//! Finding the token at which a message is counted.
//!
//! The token is found by a regular expression, which the `regex` crate
//! compiles and runs. The expression is matched against the message in lower
//! case, and the token is what the first capture group that took part in the
//! match holds. Only the groups up to the number of opening parentheses of
//! the pattern are looked at.

use crate::text::{chars_of, lowercase, to_lowercase};
use vstd::prelude::*;

verus! {

/// A compiled regular expression of the `regex` crate.
#[verifier::external_type_specification]
#[verifier::external_body]
pub struct ExRegex(regex::Regex);

/// The error of the `regex` crate for a pattern that does not compile.
#[verifier::external_type_specification]
#[verifier::external_body]
pub struct ExRegexError(regex::Error);

/// The pattern that a compiled expression was made from.
pub uninterp spec fn regex_pattern(regex: regex::Regex) -> Seq<char>;

/// Whether a compiled expression was made from its pattern alone, as
/// `Regex::new` of the `regex` crate makes it: with no option of the crate's
/// builder set.
pub uninterp spec fn regex_is_plain(regex: regex::Regex) -> bool;

/// The message of an error of the `regex` crate, as its `to_string` writes
/// it.
pub uninterp spec fn regex_error_message(error: regex::Error) -> Seq<char>;

/// What the expression that `Regex::new` makes of the given pattern captures
/// in a text: nothing where it does not match, and else, for every capture
/// group in order, the part of the text that the group holds, if the group
/// took part in the match. The first group is the whole match.
pub uninterp spec fn capture_groups(pattern: Seq<char>, text: Seq<char>) -> Option<
    Seq<Option<Seq<char>>>,
>;

/// The texts that a list of captured groups holds.
pub open spec fn group_views(groups: Seq<Option<String>>) -> Seq<Option<Seq<char>>> {
    Seq::new(
        groups.len(),
        |i: int|
            match groups[i] {
                Some(text) => Some(text@),
                None => None,
            },
    )
}

/// The texts that an optional list of captured groups holds.
pub open spec fn captures_view(captures: Option<Vec<Option<String>>>) -> Option<
    Seq<Option<Seq<char>>>,
> {
    match captures {
        Some(groups) => Some(group_views(groups@)),
        None => None,
    }
}

/// Compiles a pattern with `Regex::new` of the `regex` crate. Whether the
/// call succeeds is left open; the expression that it returns remembers the
/// pattern it was made from, and is made from the pattern alone.
#[verifier::external_body]
fn compile(pattern: &str) -> (r: Result<regex::Regex, regex::Error>)
    ensures
        match r {
            Ok(regex) => regex_pattern(regex) == pattern@ && regex_is_plain(regex),
            Err(_) => true,
        },
{
    regex::Regex::new(pattern)
}

/// Runs `Regex::captures` of the `regex` crate on a text and copies out what
/// each group holds. For an expression that was made from its pattern alone,
/// the result depends on the pattern and the text alone.
#[verifier::external_body]
fn captures(regex: &regex::Regex, text: &str) -> (r: Option<Vec<Option<String>>>)
    requires
        regex_is_plain(*regex),
    ensures
        captures_view(r) == capture_groups(regex_pattern(*regex), text@),
{
    regex.captures(text).map(
        |found| found.iter().map(|group| group.map(|m| m.as_str().to_owned())).collect(),
    )
}

/// Writes out the error of the `regex` crate, with its `to_string`. The
/// result depends on the error alone.
#[verifier::external_body]
fn describe(error: &regex::Error) -> (r: String)
    ensures
        r@ == regex_error_message(*error),
{
    error.to_string()
}

/// Why a pattern was refused.
#[derive(Debug, Clone)]
pub struct PatternError {
    /// The message of the `regex` crate.
    pub message: String,
}

/// How often a character occurs in a text.
pub open spec fn occurrences(text: Seq<char>, c: char) -> nat
    decreases text.len(),
{
    if text.len() == 0 {
        0
    } else {
        occurrences(text.drop_last(), c) + if text.last() == c {
            1nat
        } else {
            0nat
        }
    }
}

/// Counts the opening parentheses of a pattern.
pub fn count_open_parens(pattern: &str) -> (r: usize)
    ensures
        r == occurrences(pattern@, '('),
{
    let chars = chars_of(pattern);
    let n = chars.len();
    let mut count: usize = 0;
    let mut i: usize = 0;
    proof {
        assert(pattern@.subrange(0, 0) =~= Seq::<char>::empty());
    }
    while i < n
        invariant
            n == pattern@.len(),
            chars@ == pattern@,
            i <= n,
            count <= i,
            count == occurrences(pattern@.subrange(0, i as int), '('),
        decreases n - i,
    {
        proof {
            let prefix = pattern@.subrange(0, i as int + 1);
            assert(prefix.drop_last() =~= pattern@.subrange(0, i as int));
            assert(prefix.last() == pattern@[i as int]);
        }
        if chars[i] == '(' {
            count += 1;
        }
        i += 1;
    }
    proof {
        assert(pattern@.subrange(0, n as int) =~= pattern@);
    }
    count
}

/// What the first of the groups one to `limit` that took part in the match
/// holds, looking at the groups from place `from` on.
pub open spec fn first_group_from(groups: Seq<Option<Seq<char>>>, limit: nat, from: int) -> Option<
    Seq<char>,
>
    decreases groups.len() - from,
{
    if from < 1 || from > limit || from >= groups.len() {
        None
    } else if groups[from] is Some {
        groups[from]
    } else {
        first_group_from(groups, limit, from + 1)
    }
}

/// The token that captured groups stand for: what the first of the groups
/// one to `limit` that took part in the match holds.
pub open spec fn first_group(groups: Seq<Option<Seq<char>>>, limit: nat) -> Option<Seq<char>> {
    first_group_from(groups, limit, 1)
}

/// The token that a message in lower case holds under a pattern, looking at
/// the groups one to `limit`.
pub open spec fn token_of(pattern: Seq<char>, limit: nat, text: Seq<char>) -> Option<Seq<char>> {
    match capture_groups(pattern, text) {
        Some(groups) => first_group(groups, limit),
        None => None,
    }
}

/// Picks the token out of captured groups: what the first of the groups one
/// to `limit` that took part in the match holds.
pub fn first_present(groups: &Vec<Option<String>>, limit: usize) -> (r: Option<String>)
    ensures
        match r {
            Some(token) => first_group(group_views(groups@), limit as nat) == Some(token@),
            None => first_group(group_views(groups@), limit as nat) is None,
        },
{
    let ghost views = group_views(groups@);
    let n = groups.len();
    let mut i: usize = 1;
    while i <= limit && i < n
        invariant
            n == groups@.len(),
            1 <= i,
            views == group_views(groups@),
            first_group(views, limit as nat) == first_group_from(views, limit as nat, i as int),
        decreases n - i,
    {
        match &groups[i] {
            Some(token) => {
                assert(views[i as int] == Some(token@));
                return Some(token.clone());
            },
            None => {
                assert(views[i as int] is None);
            },
        }
        i += 1;
    }
    None
}

/// Finds the token at which a message is counted.
pub struct TokenMatcher {
    regex: regex::Regex,
    groups: usize,
}

impl TokenMatcher {
    /// The expression of a matcher is made from its pattern alone.
    #[verifier::type_invariant]
    spec fn made_from_pattern_alone(&self) -> bool {
        regex_is_plain(self.regex)
    }

    /// The pattern of the matcher.
    pub closed spec fn pattern(&self) -> Seq<char> {
        regex_pattern(self.regex)
    }

    /// The number of capture groups that the matcher looks at.
    pub closed spec fn groups(&self) -> nat {
        self.groups as nat
    }

    /// Compiles a pattern. The matcher looks at as many capture groups as the
    /// pattern has opening parentheses. A pattern that the `regex` crate does
    /// not compile is refused with the crate's message.
    pub fn new(pattern: &str) -> (r: Result<TokenMatcher, PatternError>)
        ensures
            match r {
                Ok(matcher) => matcher.pattern() == pattern@ && matcher.groups() == occurrences(
                    pattern@,
                    '(',
                ),
                Err(_) => true,
            },
    {
        TokenMatcher::from_compiled(pattern, compile(pattern))
    }

    /// Finds the token of a message: the message is put in lower case and
    /// matched, and the token is what the first capture group that took part
    /// in the match holds.
    pub fn find_token(&self, content: &str) -> (r: Option<String>)
        ensures
            match r {
                Some(token) => token_of(self.pattern(), self.groups(), lowercase(content@))
                    == Some(token@),
                None => token_of(self.pattern(), self.groups(), lowercase(content@)) is None,
            },
    {
        proof {
            use_type_invariant(self);
        }
        let text = to_lowercase(content);
        match captures(&self.regex, text.as_str()) {
            Some(found) => first_present(&found, self.groups),
            None => None,
        }
    }

    /// Makes a matcher of what compiling a pattern gave. A compiled
    /// expression, which must be made from its pattern alone, becomes a
    /// matcher that looks at as many capture groups as the pattern has opening
    /// parentheses; a refusal is handed on with the message of the `regex`
    /// crate.
    pub fn from_compiled(pattern: &str, compiled: Result<regex::Regex, regex::Error>) -> (r:
        Result<TokenMatcher, PatternError>)
        requires
            match compiled {
                Ok(regex) => regex_is_plain(regex),
                Err(_) => true,
            },
        ensures
            r is Ok <==> compiled is Ok,
            match (r, compiled) {
                (Ok(matcher), Ok(regex)) => matcher.pattern() == regex_pattern(regex)
                    && matcher.groups() == occurrences(pattern@, '('),
                (Err(refusal), Err(error)) => refusal.message@ == regex_error_message(error),
                _ => true,
            },
    {
        let groups = count_open_parens(pattern);
        match compiled {
            Ok(regex) => Ok(TokenMatcher { regex, groups }),
            Err(error) => Err(PatternError { message: describe(&error) }),
        }
    }
}

} // verus!
