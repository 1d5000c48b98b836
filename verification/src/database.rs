//! The counting store and what is read out of it.
//!
//! The store holds three tables: the settings of each user, the settings of
//! each guild, and one counter for each user, guild and token. A user or a
//! guild without a row has the default settings. A counter row is created by
//! the first increment and never removed.

pub mod counts;
pub mod leaderboard;
pub mod unsigned;

use crate::database::unsigned::{unsigned_of_i32, PsqlU32};
use crate::text::{lowercase, to_lowercase};
use std::collections::HashMap;
use vstd::prelude::*;
use vstd::std_specs::convert::FromSpecImpl;

verus! {

broadcast use vstd::std_specs::hash::group_hash_axioms;

/// The largest count that a counter can hold.
pub const MAX_COUNT: u32 = 0x7fff_ffff;

/// What the store refuses.
#[derive(Debug, Clone, Copy, PartialEq, Eq, Structural)]
pub enum StoreError {
    /// A number does not fit the column that would hold it.
    OutOfRange,
}

/// How often a user is told about a new count.
#[derive(Debug, Clone, Copy)]
pub enum VerboseLevel {
    /// After every increment.
    Verbose,
    /// After every increment whose count is a multiple of the number, which
    /// is not zero.
    Every(u32),
    /// Never.
    Silent,
}

/// The level that a setting stands for: none is verbose, zero is silent, and
/// any other number is a period.
pub open spec fn level_of(setting: Option<u32>) -> VerboseLevel {
    match setting {
        None => VerboseLevel::Verbose,
        Some(n) => if n == 0 {
            VerboseLevel::Silent
        } else {
            VerboseLevel::Every(n)
        },
    }
}

/// The level that governs a user in a guild. A setting of the guild governs
/// whatever the user has set; the user's setting governs only where the guild
/// has none.
pub open spec fn resolved_level(mute_every: Option<u32>, notify_every: Option<u32>) -> VerboseLevel {
    match mute_every {
        Some(n) => level_of(Some(n)),
        None => level_of(notify_every),
    }
}

/// Whether a new count is announced under the given level.
pub open spec fn notifies(level: VerboseLevel, new_count: u32) -> bool {
    match level {
        VerboseLevel::Verbose => true,
        VerboseLevel::Silent => false,
        VerboseLevel::Every(n) => n > 0 && new_count % n == 0,
    }
}

/// The setting read out of its signed column.
pub open spec fn setting_of_column(value: Option<i32>) -> Option<u32> {
    match value {
        Some(v) => Some(unsigned_of_i32(v)),
        None => None,
    }
}

impl VerboseLevel {
    /// Whether a period, if this is one, is not zero.
    pub open spec fn wf(&self) -> bool {
        match self {
            VerboseLevel::Every(n) => *n > 0,
            _ => true,
        }
    }
}

impl From<Option<i32>> for VerboseLevel {
    fn from(value: Option<i32>) -> (r: Self) {
        match value {
            Some(v) => {
                let n = PsqlU32::from(v).0;
                if n == 0 {
                    VerboseLevel::Silent
                } else {
                    VerboseLevel::Every(n)
                }
            },
            None => VerboseLevel::Verbose,
        }
    }
}

impl FromSpecImpl<Option<i32>> for VerboseLevel {
    open spec fn obeys_from_spec() -> bool {
        true
    }

    open spec fn from_spec(value: Option<i32>) -> Self {
        level_of(setting_of_column(value))
    }
}

/// Resolves the level that governs a user in a guild from the two settings.
pub fn resolve(mute_every: Option<u32>, notify_every: Option<u32>) -> (r: VerboseLevel)
    ensures
        r == resolved_level(mute_every, notify_every),
        r.wf(),
{
    let setting = match mute_every {
        Some(n) => Some(n),
        None => notify_every,
    };
    match setting {
        None => VerboseLevel::Verbose,
        Some(n) => if n == 0 {
            VerboseLevel::Silent
        } else {
            VerboseLevel::Every(n)
        },
    }
}

/// Decides whether a new count is announced under the given level.
pub fn should_notify(level: VerboseLevel, new_count: u32) -> (r: bool)
    ensures
        r == notifies(level, new_count),
{
    match level {
        VerboseLevel::Verbose => true,
        VerboseLevel::Silent => false,
        VerboseLevel::Every(n) => n != 0 && new_count % n == 0,
    }
}

/// A setting of the guild governs, whatever the user has set: with any guild
/// setting present, changing the user's setting changes nothing, and a guild
/// setting of zero silences even a user without a setting.
pub proof fn lemma_guild_setting_governs(n: u32, first: Option<u32>, second: Option<u32>)
    ensures
        resolved_level(Some(n), first) == resolved_level(Some(n), second),
        resolved_level(Some(0), None) == VerboseLevel::Silent,
        resolved_level(None, first) == level_of(first),
{
}

/// The settings of one user.
#[derive(Debug, Clone, Copy)]
pub struct UserSettings {
    /// Whether the user has opted out of counting.
    pub opted_out: bool,
    /// How often the user is told about a new count.
    pub notify_every: Option<u32>,
}

/// One counter: how often a user has ended a message in a guild with a token.
#[derive(Debug, Clone)]
pub struct CounterEntry {
    pub user_id: u64,
    pub guild_id: u64,
    /// The token, in lower case.
    pub token: String,
    pub count: u32,
}

/// The mathematical content of a counter.
pub struct CounterView {
    pub user_id: u64,
    pub guild_id: u64,
    pub token: Seq<char>,
    pub count: u32,
}

impl View for CounterEntry {
    type V = CounterView;

    open spec fn view(&self) -> CounterView {
        CounterView {
            user_id: self.user_id,
            guild_id: self.guild_id,
            token: self.token@,
            count: self.count,
        }
    }
}

/// The mathematical content of the store.
pub struct StoreView {
    /// The rows of the user settings, by user.
    pub users: Map<u64, UserSettings>,
    /// The rows of the guild settings, by guild: the guild's mute setting.
    pub guilds: Map<u64, Option<u32>>,
    /// The counters, in the order of their first increment.
    pub counters: Seq<CounterView>,
}

/// The contents of a list of counters.
pub open spec fn counter_views(counters: Seq<CounterEntry>) -> Seq<CounterView> {
    Seq::new(counters.len(), |i: int| counters[i]@)
}

/// The settings of a user without a row.
pub open spec fn default_settings() -> UserSettings {
    UserSettings { opted_out: false, notify_every: None }
}

/// The settings of a user: those of the user's row, or the default ones.
pub open spec fn settings_of(store: StoreView, user_id: u64) -> UserSettings {
    if store.users.contains_key(user_id) {
        store.users[user_id]
    } else {
        default_settings()
    }
}

/// The mute setting of a guild: that of the guild's row, or none.
pub open spec fn mute_of(store: StoreView, guild_id: u64) -> Option<u32> {
    if store.guilds.contains_key(guild_id) {
        store.guilds[guild_id]
    } else {
        None
    }
}

/// Whether a counter belongs to the given user, guild and token.
pub open spec fn has_key(entry: CounterView, user_id: u64, guild_id: u64, token: Seq<char>) -> bool {
    entry.user_id == user_id && entry.guild_id == guild_id && entry.token == token
}

/// The place of the last counter of the given user, guild and token.
pub open spec fn counter_index(
    counters: Seq<CounterView>,
    user_id: u64,
    guild_id: u64,
    token: Seq<char>,
) -> Option<int>
    decreases counters.len(),
{
    if counters.len() == 0 {
        None
    } else if has_key(counters.last(), user_id, guild_id, token) {
        Some(counters.len() - 1)
    } else {
        counter_index(counters.drop_last(), user_id, guild_id, token)
    }
}

/// The count of the given user, guild and token: zero without a counter.
pub open spec fn count_of(store: StoreView, user_id: u64, guild_id: u64, token: Seq<char>) -> nat {
    match counter_index(store.counters, user_id, guild_id, token) {
        Some(i) => store.counters[i].count as nat,
        None => 0,
    }
}

/// Whether the store is sound: no two counters belong to the same user, guild
/// and token, and every count is at least one and fits its column.
pub open spec fn valid_store(store: StoreView) -> bool {
    &&& forall|i: int, j: int|
        0 <= i < j < store.counters.len() ==> !has_key(
            #[trigger] store.counters[i],
            (#[trigger] store.counters[j]).user_id,
            store.counters[j].guild_id,
            store.counters[j].token,
        )
    &&& forall|i: int|
        0 <= i < store.counters.len() ==> 1 <= (#[trigger] store.counters[i]).count <= MAX_COUNT
}

/// The store after an increment for the given user, guild and lower-case
/// token, and what the increment returns. An opted-out user changes nothing
/// and gets nothing; a first increment adds a counter of one; a further
/// increment adds one to the counter, unless the counter is full.
pub open spec fn incremented(store: StoreView, user_id: u64, guild_id: u64, token: Seq<char>) -> (
    StoreView,
    Result<Option<u32>, StoreError>,
) {
    let current = count_of(store, user_id, guild_id, token);
    if settings_of(store, user_id).opted_out {
        (store, Ok(None))
    } else if current >= MAX_COUNT {
        (store, Err(StoreError::OutOfRange))
    } else {
        let count = (current + 1) as u32;
        (with_count(store, user_id, guild_id, token, count), Ok(Some(count)))
    }
}

/// The store after the opt-out of a user has been set or cleared.
pub open spec fn with_opt_out(store: StoreView, user_id: u64, value: bool) -> StoreView {
    StoreView {
        users: store.users.insert(
            user_id,
            UserSettings { opted_out: value, ..settings_of(store, user_id) },
        ),
        ..store
    }
}

/// The store after the notify setting of a user has been set.
pub open spec fn with_notify_every(store: StoreView, user_id: u64, value: Option<u32>) -> StoreView {
    StoreView {
        users: store.users.insert(
            user_id,
            UserSettings { notify_every: value, ..settings_of(store, user_id) },
        ),
        ..store
    }
}

/// The store after the mute setting of a guild has been set.
pub open spec fn with_mute_every(store: StoreView, guild_id: u64, value: Option<u32>) -> StoreView {
    StoreView { guilds: store.guilds.insert(guild_id, value), ..store }
}

/// The store after the counter of the given user, guild and lower-case token
/// has been set to a count: its counter holds the count, and is added behind
/// the others where there was none.
pub open spec fn with_count(
    store: StoreView,
    user_id: u64,
    guild_id: u64,
    token: Seq<char>,
    count: u32,
) -> StoreView {
    match counter_index(store.counters, user_id, guild_id, token) {
        None => StoreView {
            counters: store.counters.push(CounterView { user_id, guild_id, token, count }),
            ..store
        },
        Some(i) => StoreView {
            counters: store.counters.update(i, CounterView { count, ..store.counters[i] }),
            ..store
        },
    }
}

/// The store after `k` increments for the same user, guild and lower-case
/// token.
pub open spec fn incremented_times(
    store: StoreView,
    user_id: u64,
    guild_id: u64,
    token: Seq<char>,
    k: nat,
) -> StoreView
    decreases k,
{
    if k == 0 {
        store
    } else {
        incremented(
            incremented_times(store, user_id, guild_id, token, (k - 1) as nat),
            user_id,
            guild_id,
            token,
        ).0
    }
}

/// What `counter_index` finds: a counter of that key with none of that key
/// after it; and it finds nothing only where no counter has that key.
pub proof fn lemma_counter_index(
    counters: Seq<CounterView>,
    user_id: u64,
    guild_id: u64,
    token: Seq<char>,
)
    ensures
        match counter_index(counters, user_id, guild_id, token) {
            Some(j) => 0 <= j < counters.len() && has_key(counters[j], user_id, guild_id, token)
                && forall|k: int|
                j < k < counters.len() ==> !has_key(counters[k], user_id, guild_id, token),
            None => forall|k: int|
                0 <= k < counters.len() ==> !has_key(counters[k], user_id, guild_id, token),
        },
    decreases counters.len(),
{
    if counters.len() > 0 && !has_key(counters.last(), user_id, guild_id, token) {
        let shorter = counters.drop_last();
        lemma_counter_index(shorter, user_id, guild_id, token);
        assert(forall|k: int| 0 <= k < shorter.len() ==> shorter[k] == counters[k]);
    }
}

/// The form in which a token is counted: in lower case.
pub fn counted_form(emote: &str) -> (r: String)
    ensures
        r@ == lowercase(emote@),
{
    to_lowercase(emote)
}

/// The counting store.
pub struct DatabaseHandler {
    users: HashMap<u64, UserSettings>,
    guilds: HashMap<u64, Option<u32>>,
    counters: Vec<CounterEntry>,
}

impl View for DatabaseHandler {
    type V = StoreView;

    closed spec fn view(&self) -> StoreView {
        StoreView {
            users: self.users@,
            guilds: self.guilds@,
            counters: counter_views(self.counters@),
        }
    }
}

impl DatabaseHandler {
    /// Whether the store is sound.
    pub open spec fn wf(&self) -> bool {
        valid_store(self@)
    }

    /// An empty store: nobody has settings and nothing has been counted.
    pub fn new() -> (r: Self)
        ensures
            r.wf(),
            r@.users == Map::<u64, UserSettings>::empty(),
            r@.guilds == Map::<u64, Option<u32>>::empty(),
            r@.counters == Seq::<CounterView>::empty(),
    {
        let r = DatabaseHandler {
            users: HashMap::new(),
            guilds: HashMap::new(),
            counters: Vec::new(),
        };
        assert(r@.counters =~= Seq::<CounterView>::empty());
        r
    }

    /// The settings of a user.
    pub fn user_settings(&self, user_id: u64) -> (r: UserSettings)
        ensures
            r == settings_of(self@, user_id),
    {
        match self.users.get(&user_id) {
            Some(settings) => *settings,
            None => UserSettings { opted_out: false, notify_every: None },
        }
    }

    /// Sets or clears the opt-out of a user, and leaves everything else as it
    /// is.
    pub fn set_opt_out(&mut self, user_id: u64, value: bool)
        ensures
            final(self)@ == with_opt_out(old(self)@, user_id, value),
            old(self).wf() ==> final(self).wf(),
    {
        let current = self.user_settings(user_id);
        self.users.insert(
            user_id,
            UserSettings { opted_out: value, notify_every: current.notify_every },
        );
        assert(self@.counters == old(self)@.counters);
    }

    /// Whether a user has opted out.
    pub fn is_opt_out(&self, user_id: u64) -> (r: bool)
        ensures
            r == settings_of(self@, user_id).opted_out,
    {
        self.user_settings(user_id).opted_out
    }

    /// Sets the notify setting of a user, and leaves everything else as it is.
    pub fn set_silent(&mut self, user_id: u64, value: Option<u32>)
        ensures
            final(self)@ == with_notify_every(old(self)@, user_id, value),
            old(self).wf() ==> final(self).wf(),
    {
        let current = self.user_settings(user_id);
        self.users.insert(
            user_id,
            UserSettings { opted_out: current.opted_out, notify_every: value },
        );
        assert(self@.counters == old(self)@.counters);
    }

    /// Sets the mute setting of a guild, and leaves everything else as it is.
    pub fn mute_all(&mut self, server_id: u64, value: Option<u32>)
        ensures
            final(self)@ == with_mute_every(old(self)@, server_id, value),
            old(self).wf() ==> final(self).wf(),
    {
        self.guilds.insert(server_id, value);
        assert(self@.counters == old(self)@.counters);
    }

    /// Silences a guild altogether or clears its mute setting, and leaves
    /// everything else as it is.
    pub fn set_mute_all(&mut self, server_id: u64, value: bool)
        ensures
            final(self)@ == with_mute_every(
                old(self)@,
                server_id,
                if value {
                    Some(0u32)
                } else {
                    None
                },
            ),
            old(self).wf() ==> final(self).wf(),
    {
        let setting = if value {
            Some(0u32)
        } else {
            None
        };
        self.mute_all(server_id, setting);
    }

    /// The mute setting of a guild.
    pub fn mute_every(&self, server_id: u64) -> (r: Option<u32>)
        ensures
            r == mute_of(self@, server_id),
    {
        match self.guilds.get(&server_id) {
            Some(setting) => *setting,
            None => None,
        }
    }

    /// The level that governs a user in a guild.
    pub fn verbose_level(&self, user_id: u64, server_id: u64) -> (r: VerboseLevel)
        ensures
            r == resolved_level(
                mute_of(self@, server_id),
                settings_of(self@, user_id).notify_every,
            ),
            r.wf(),
    {
        resolve(self.mute_every(server_id), self.user_settings(user_id).notify_every)
    }
}

impl DatabaseHandler {
    /// Finds the counter of the given user, guild and token.
    fn find_counter(&self, user_id: u64, guild_id: u64, token: &String) -> (r: Option<usize>)
        ensures
            match r {
                Some(i) => i < self.counters@.len() && counter_index(
                    self@.counters,
                    user_id,
                    guild_id,
                    token@,
                ) == Some(i as int),
                None => counter_index(self@.counters, user_id, guild_id, token@) is None,
            },
    {
        let ghost views = counter_views(self.counters@);
        let mut i: usize = self.counters.len();
        proof {
            assert(views.subrange(0, i as int) =~= views);
        }
        while i > 0
            invariant
                i <= self.counters@.len(),
                views == counter_views(self.counters@),
                counter_index(views, user_id, guild_id, token@) == counter_index(
                    views.subrange(0, i as int),
                    user_id,
                    guild_id,
                    token@,
                ),
            decreases i,
        {
            proof {
                let prefix = views.subrange(0, i as int);
                assert(prefix.drop_last() =~= views.subrange(0, i as int - 1));
                assert(prefix.last() == self.counters@[i as int - 1]@);
            }
            let entry = &self.counters[i - 1];
            if entry.user_id == user_id && entry.guild_id == guild_id && entry.token == *token {
                return Some(i - 1);
            }
            i -= 1;
        }
        None
    }

    /// Counts one more message of a user that ends with a token in a guild.
    ///
    /// The token is counted in lower case. A user who has opted out gets
    /// nothing and changes nothing. Otherwise the counter of the user, guild
    /// and token goes up by one, from zero where there was none, and the new
    /// count is returned. A counter that is full stays as it is, and the
    /// increment is refused.
    pub fn add_one(&mut self, user_id: u64, server_id: u64, emote: &str) -> (r: Result<
        Option<u32>,
        StoreError,
    >)
        requires
            old(self).wf(),
        ensures
            final(self).wf(),
            final(self)@ == incremented(old(self)@, user_id, server_id, lowercase(emote@)).0,
            r == incremented(old(self)@, user_id, server_id, lowercase(emote@)).1,
    {
        if self.is_opt_out(user_id) {
            return Ok(None);
        }
        let token = counted_form(emote);
        proof {
            lemma_counter_index(self@.counters, user_id, server_id, token@);
        }
        match self.find_counter(user_id, server_id, &token) {
            None => {
                self.put_count(None, user_id, server_id, token, 1);
                Ok(Some(1))
            },
            Some(i) => {
                let current = self.counters[i].count;
                if current >= MAX_COUNT {
                    return Err(StoreError::OutOfRange);
                }
                let count = current + 1;
                self.put_count(Some(i), user_id, server_id, token, count);
                Ok(Some(count))
            },
        }
    }
}

/// Looking up a key after a counter has been added.
proof fn lemma_index_after_push(
    counters: Seq<CounterView>,
    entry: CounterView,
    user_id: u64,
    guild_id: u64,
    token: Seq<char>,
)
    ensures
        counter_index(counters.push(entry), user_id, guild_id, token) == if has_key(
            entry,
            user_id,
            guild_id,
            token,
        ) {
            Some(counters.len() as int)
        } else {
            counter_index(counters, user_id, guild_id, token)
        },
{
    assert(counters.push(entry).drop_last() =~= counters);
}

/// Looking up a key after the count of a counter has changed.
proof fn lemma_index_after_update(
    counters: Seq<CounterView>,
    i: int,
    count: u32,
    user_id: u64,
    guild_id: u64,
    token: Seq<char>,
)
    requires
        0 <= i < counters.len(),
    ensures
        counter_index(
            counters.update(i, CounterView { count, ..counters[i] }),
            user_id,
            guild_id,
            token,
        ) == counter_index(counters, user_id, guild_id, token),
    decreases counters.len(),
{
    let changed = counters.update(i, CounterView { count, ..counters[i] });
    if i == counters.len() - 1 {
        assert(changed.drop_last() =~= counters.drop_last());
    } else {
        assert(changed.drop_last() =~= counters.drop_last().update(
            i,
            CounterView { count, ..counters.drop_last()[i] },
        ));
        lemma_index_after_update(counters.drop_last(), i, count, user_id, guild_id, token);
    }
}

/// An increment keeps a sound store sound, changes no settings, and changes
/// no count but the one it is for; that one goes up by one where the
/// increment returns a count.
pub proof fn lemma_incremented(store: StoreView, user_id: u64, guild_id: u64, token: Seq<char>)
    requires
        valid_store(store),
    ensures
        valid_store(incremented(store, user_id, guild_id, token).0),
        incremented(store, user_id, guild_id, token).0.users == store.users,
        incremented(store, user_id, guild_id, token).0.guilds == store.guilds,
        forall|u: u64, g: u64, t: Seq<char>|
            !(u == user_id && g == guild_id && t == token) ==> #[trigger] count_of(
                incremented(store, user_id, guild_id, token).0,
                u,
                g,
                t,
            ) == count_of(store, u, g, t),
        match incremented(store, user_id, guild_id, token).1 {
            Ok(Some(count)) => count == count_of(store, user_id, guild_id, token) + 1 && count_of(
                incremented(store, user_id, guild_id, token).0,
                user_id,
                guild_id,
                token,
            ) == count,
            _ => incremented(store, user_id, guild_id, token).0 == store,
        },
{
    let after = incremented(store, user_id, guild_id, token).0;
    let found = counter_index(store.counters, user_id, guild_id, token);
    lemma_counter_index(store.counters, user_id, guild_id, token);
    if !settings_of(store, user_id).opted_out {
        match found {
            None => {
                let entry = CounterView { user_id, guild_id, token, count: 1 };
                assert(after.counters == store.counters.push(entry));
                assert forall|u: u64, g: u64, t: Seq<char>|
                    !(u == user_id && g == guild_id && t == token) implies #[trigger] count_of(
                    after,
                    u,
                    g,
                    t,
                ) == count_of(store, u, g, t) by {
                    lemma_index_after_push(store.counters, entry, u, g, t);
                    lemma_counter_index(store.counters, u, g, t);
                }
                lemma_index_after_push(store.counters, entry, user_id, guild_id, token);
            },
            Some(i) => {
                if store.counters[i].count < MAX_COUNT {
                    let count = (store.counters[i].count + 1) as u32;
                    assert forall|u: u64, g: u64, t: Seq<char>|
                        !(u == user_id && g == guild_id && t == token) implies #[trigger] count_of(
                        after,
                        u,
                        g,
                        t,
                    ) == count_of(store, u, g, t) by {
                        lemma_index_after_update(store.counters, i, count, u, g, t);
                        lemma_counter_index(store.counters, u, g, t);
                    }
                    lemma_index_after_update(store.counters, i, count, user_id, guild_id, token);
                }
            },
        }
    }
}

/// Counting goes up by one at a time: for a user who has not opted out, the
/// increments for one guild and token return, one after the other, the count
/// before them plus one, plus two, and so on without a gap, for as long as
/// the counter is not full. From a store without that counter they return
/// one, two, three and so on.
pub proof fn lemma_counting_is_gapless(
    store: StoreView,
    user_id: u64,
    guild_id: u64,
    token: Seq<char>,
    k: nat,
)
    requires
        valid_store(store),
        !settings_of(store, user_id).opted_out,
        count_of(store, user_id, guild_id, token) + k <= MAX_COUNT,
    ensures
        valid_store(incremented_times(store, user_id, guild_id, token, k)),
        incremented_times(store, user_id, guild_id, token, k).users == store.users,
        count_of(incremented_times(store, user_id, guild_id, token, k), user_id, guild_id, token)
            == count_of(store, user_id, guild_id, token) + k,
        forall|i: nat|
            1 <= i <= k ==> (#[trigger] incremented(
                incremented_times(store, user_id, guild_id, token, (i - 1) as nat),
                user_id,
                guild_id,
                token,
            )).1 == Ok::<Option<u32>, StoreError>(
                Some((count_of(store, user_id, guild_id, token) + i) as u32),
            ),
    decreases k,
{
    if k > 0 {
        let shorter = (k - 1) as nat;
        lemma_counting_is_gapless(store, user_id, guild_id, token, shorter);
        let before = incremented_times(store, user_id, guild_id, token, shorter);
        lemma_incremented(before, user_id, guild_id, token);
        lemma_counter_index(before.counters, user_id, guild_id, token);
        assert forall|i: nat| 1 <= i <= k implies (#[trigger] incremented(
            incremented_times(store, user_id, guild_id, token, (i - 1) as nat),
            user_id,
            guild_id,
            token,
        )).1 == Ok::<Option<u32>, StoreError>(
            Some((count_of(store, user_id, guild_id, token) + i) as u32),
        ) by {
            if i == k {
            }
        }
    }
}

/// Tokens that differ only in case share a counter: for a user who has not
/// opted out, an increment for each of two tokens with the same lower-case
/// form raises the one counter of that form by two, returns the count before
/// plus one and plus two, adds at most one counter, and leaves every other
/// count as it is.
pub proof fn lemma_case_folding(
    store: StoreView,
    user_id: u64,
    guild_id: u64,
    first: Seq<char>,
    second: Seq<char>,
)
    requires
        valid_store(store),
        !settings_of(store, user_id).opted_out,
        lowercase(first) == lowercase(second),
        count_of(store, user_id, guild_id, lowercase(first)) + 2 <= MAX_COUNT,
    ensures
        ({
            let before = count_of(store, user_id, guild_id, lowercase(first));
            let one = incremented(store, user_id, guild_id, lowercase(first));
            let two = incremented(one.0, user_id, guild_id, lowercase(second));
            &&& one.1 == Ok::<Option<u32>, StoreError>(Some((before + 1) as u32))
            &&& two.1 == Ok::<Option<u32>, StoreError>(Some((before + 2) as u32))
            &&& valid_store(two.0)
            &&& count_of(two.0, user_id, guild_id, lowercase(first)) == before + 2
            &&& two.0.counters.len() <= store.counters.len() + 1
            &&& two.0.users == store.users
            &&& two.0.guilds == store.guilds
            &&& forall|u: u64, g: u64, t: Seq<char>|
                !(u == user_id && g == guild_id && t == lowercase(first)) ==> #[trigger] count_of(
                    two.0,
                    u,
                    g,
                    t,
                ) == count_of(store, u, g, t)
        }),
{
    let token = lowercase(first);
    let one = incremented(store, user_id, guild_id, token);
    lemma_incremented(store, user_id, guild_id, token);
    lemma_incremented(one.0, user_id, guild_id, token);
    lemma_counter_index(store.counters, user_id, guild_id, token);
    lemma_counter_index(one.0.counters, user_id, guild_id, token);
    let two = incremented(one.0, user_id, guild_id, token);
    assert forall|u: u64, g: u64, t: Seq<char>|
        !(u == user_id && g == guild_id && t == token) implies #[trigger] count_of(
        two.0,
        u,
        g,
        t,
    ) == count_of(store, u, g, t) by {
        assert(count_of(one.0, u, g, t) == count_of(store, u, g, t));
    }
}

/// The opt-out gate: for a user who has opted out, an increment returns
/// nothing and leaves the store as it is.
pub proof fn lemma_opt_out_gate(store: StoreView, user_id: u64, guild_id: u64, token: Seq<char>)
    requires
        settings_of(store, user_id).opted_out,
    ensures
        incremented(store, user_id, guild_id, token) == (store, Ok::<Option<u32>, StoreError>(None)),
{
}

/// Counting resumes where it stopped: after a user has opted out, any number
/// of increments, and an opt-in, the next increment returns the count from
/// before the opt-out plus one.
pub proof fn lemma_counting_resumes_after_opt_in(
    store: StoreView,
    user_id: u64,
    guild_id: u64,
    token: Seq<char>,
    k: nat,
)
    requires
        valid_store(store),
        count_of(store, user_id, guild_id, token) < MAX_COUNT,
    ensures
        incremented_times(with_opt_out(store, user_id, true), user_id, guild_id, token, k)
            == with_opt_out(store, user_id, true),
        incremented(
            with_opt_out(
                incremented_times(
                    with_opt_out(store, user_id, true),
                    user_id,
                    guild_id,
                    token,
                    k,
                ),
                user_id,
                false,
            ),
            user_id,
            guild_id,
            token,
        ).1 == Ok::<Option<u32>, StoreError>(
            Some((count_of(store, user_id, guild_id, token) + 1) as u32),
        ),
    decreases k,
{
    let out = with_opt_out(store, user_id, true);
    if k > 0 {
        lemma_counting_resumes_after_opt_in(store, user_id, guild_id, token, (k - 1) as nat);
    }
    assert(incremented_times(out, user_id, guild_id, token, k) == out);
    let back = with_opt_out(out, user_id, false);
    lemma_counter_index(store.counters, user_id, guild_id, token);
}

impl DatabaseHandler {
    /// Puts the counter at place `found`, or a new one, at the given count.
    fn put_count(
        &mut self,
        found: Option<usize>,
        user_id: u64,
        guild_id: u64,
        token: String,
        count: u32,
    )
        requires
            old(self).wf(),
            1 <= count <= MAX_COUNT,
            match found {
                Some(i) => i < old(self)@.counters.len() && counter_index(
                    old(self)@.counters,
                    user_id,
                    guild_id,
                    token@,
                ) == Some(i as int),
                None => counter_index(old(self)@.counters, user_id, guild_id, token@) is None,
            },
        ensures
            final(self).wf(),
            final(self)@ == with_count(old(self)@, user_id, guild_id, token@, count),
    {
        let ghost before = self@;
        proof {
            lemma_counter_index(before.counters, user_id, guild_id, token@);
        }
        let entry = CounterEntry { user_id, guild_id, token, count };
        match found {
            None => {
                self.counters.push(entry);
                proof {
                    assert(self@.counters =~= before.counters.push(entry@));
                }
            },
            Some(i) => {
                self.counters.set(i, entry);
                proof {
                    assert(self@.counters =~= before.counters.update(
                        i as int,
                        CounterView { count, ..before.counters[i as int] },
                    ));
                }
            },
        }
    }

    /// Sets the counter of a user, guild and token to a count, as when counts
    /// that were kept elsewhere are brought in. The token is kept in lower
    /// case. A count of zero or one that does not fit the column is refused,
    /// and nothing changes.
    pub fn set_count(&mut self, user_id: u64, server_id: u64, emote: &str, count: u32) -> (r:
        Result<(), StoreError>)
        requires
            old(self).wf(),
        ensures
            final(self).wf(),
            r is Ok <==> 1 <= count <= MAX_COUNT,
            r is Err ==> r == Err::<(), StoreError>(StoreError::OutOfRange) && final(self)@ == old(
                self,
            )@,
            r is Ok ==> final(self)@ == with_count(
                old(self)@,
                user_id,
                server_id,
                lowercase(emote@),
                count,
            ),
    {
        if count == 0 || count > MAX_COUNT {
            return Err(StoreError::OutOfRange);
        }
        let token = counted_form(emote);
        let found = self.find_counter(user_id, server_id, &token);
        self.put_count(found, user_id, server_id, token, count);
        Ok(())
    }
}

} // verus!
