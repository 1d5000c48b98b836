//! The counts of one user, token by token.
//!
//! Over all guilds, the count of a token is the sum of the user's counters
//! of that token. Within one guild it is the user's one counter of that token
//! in the guild. A sum that does not fit a signed 64-bit column is refused.

use crate::database::unsigned::{PsqlU, PsqlU64};
use crate::database::{
    count_of, counter_index, counter_views, has_key, lemma_counter_index, valid_store,
    CounterEntry, CounterView, DatabaseHandler, StoreError, StoreView, MAX_COUNT,
};
use vstd::prelude::*;

verus! {

/// The largest sum that the store hands out.
pub const MAX_TOTAL: u64 = 0x7fff_ffff_ffff_ffff;

/// The count of one token.
#[derive(Debug)]
pub struct UserCount {
    pub emote: String,
    pub count: PsqlU64,
}

/// The mathematical content of the count of one token.
pub struct UserCountView {
    pub emote: Seq<char>,
    pub count: u64,
}

impl View for UserCount {
    type V = UserCountView;

    open spec fn view(&self) -> UserCountView {
        UserCountView { emote: self.emote@, count: self.count.0 }
    }
}

/// The contents of a list of counts.
pub open spec fn count_views(counts: Seq<UserCount>) -> Seq<UserCountView> {
    Seq::new(counts.len(), |i: int| counts[i]@)
}

/// Whether a counter is one of the given user, in the given guild if one is
/// given and in any guild otherwise.
pub open spec fn in_scope(entry: CounterView, user_id: u64, guild_id: Option<u64>) -> bool {
    entry.user_id == user_id && match guild_id {
        Some(g) => entry.guild_id == g,
        None => true,
    }
}

/// The sum of the counts of a token over the first `n` counters in scope.
pub open spec fn total_upto(
    counters: Seq<CounterView>,
    user_id: u64,
    guild_id: Option<u64>,
    token: Seq<char>,
    n: int,
) -> nat
    decreases n,
{
    if n <= 0 {
        0
    } else {
        let before = total_upto(counters, user_id, guild_id, token, n - 1);
        if in_scope(counters[n - 1], user_id, guild_id) && counters[n - 1].token == token {
            before + counters[n - 1].count as nat
        } else {
            before
        }
    }
}

/// The sum of the counts of a token over all counters in scope.
pub open spec fn total(
    counters: Seq<CounterView>,
    user_id: u64,
    guild_id: Option<u64>,
    token: Seq<char>,
) -> nat {
    total_upto(counters, user_id, guild_id, token, counters.len() as int)
}

/// Whether one of the first `n` counters in scope has the given token.
pub open spec fn token_counted(
    counters: Seq<CounterView>,
    user_id: u64,
    guild_id: Option<u64>,
    token: Seq<char>,
    n: int,
) -> bool {
    exists|k: int|
        0 <= k < n && k < counters.len() && in_scope(#[trigger] counters[k], user_id, guild_id)
            && counters[k].token == token
}

/// Whether `counts` lists the first `n` counters in scope token by token:
/// every token of such a counter once, no other token, and with each token
/// the sum of its counts.
pub open spec fn lists_totals(
    counts: Seq<UserCountView>,
    counters: Seq<CounterView>,
    user_id: u64,
    guild_id: Option<u64>,
    n: int,
) -> bool {
    &&& forall|i: int, j: int|
        0 <= i < j < counts.len() ==> (#[trigger] counts[i]).emote != (#[trigger] counts[j]).emote
    &&& forall|i: int|
        0 <= i < counts.len() ==> token_counted(
            counters,
            user_id,
            guild_id,
            (#[trigger] counts[i]).emote,
            n,
        ) && counts[i].count == total_upto(counters, user_id, guild_id, counts[i].emote, n)
    &&& forall|k: int|
        0 <= k < n && k < counters.len() && in_scope(#[trigger] counters[k], user_id, guild_id)
            ==> exists|i: int| 0 <= i < counts.len() && (#[trigger] counts[i]).emote == counters[k].token
}

/// The place of the last count of the given token in a list of counts.
pub open spec fn last_counted(counts: Seq<UserCountView>, token: Seq<char>) -> Option<int>
    decreases counts.len(),
{
    if counts.len() == 0 {
        None
    } else if counts.last().emote == token {
        Some(counts.len() - 1)
    } else {
        last_counted(counts.drop_last(), token)
    }
}

/// The counts of the first `n` counters in scope, token by token, in the
/// order in which the tokens are first met: the count of a counter is added
/// to the count of its token, which is put behind the others where the token
/// is met for the first time.
pub open spec fn summed_upto(
    counters: Seq<CounterView>,
    user_id: u64,
    guild_id: Option<u64>,
    n: int,
) -> Seq<UserCountView>
    decreases n,
{
    if n <= 0 {
        Seq::<UserCountView>::empty()
    } else {
        let before = summed_upto(counters, user_id, guild_id, n - 1);
        let entry = counters[n - 1];
        if !in_scope(entry, user_id, guild_id) {
            before
        } else {
            match last_counted(before, entry.token) {
                Some(i) => before.update(
                    i,
                    UserCountView {
                        emote: entry.token,
                        count: (before[i].count + entry.count) as u64,
                    },
                ),
                None => before.push(
                    UserCountView { emote: entry.token, count: entry.count as u64 },
                ),
            }
        }
    }
}

/// The counts of all counters in scope, token by token, in the order in
/// which the tokens are first met.
pub open spec fn summed(counters: Seq<CounterView>, user_id: u64, guild_id: Option<u64>) -> Seq<
    UserCountView,
> {
    summed_upto(counters, user_id, guild_id, counters.len() as int)
}

/// What `last_counted` finds: a count of that token with none of that token
/// after it; and it finds nothing only where the token does not occur.
pub proof fn lemma_last_counted(counts: Seq<UserCountView>, token: Seq<char>)
    ensures
        match last_counted(counts, token) {
            Some(j) => 0 <= j < counts.len() && counts[j].emote == token && forall|k: int|
                j < k < counts.len() ==> counts[k].emote != token,
            None => forall|k: int| 0 <= k < counts.len() ==> counts[k].emote != token,
        },
    decreases counts.len(),
{
    if counts.len() > 0 && counts.last().emote != token {
        let shorter = counts.drop_last();
        lemma_last_counted(shorter, token);
        assert(forall|k: int| 0 <= k < shorter.len() ==> shorter[k] == counts[k]);
    }
}

/// A sum over more counters is not smaller.
pub proof fn lemma_total_grows(
    counters: Seq<CounterView>,
    user_id: u64,
    guild_id: Option<u64>,
    token: Seq<char>,
    n: int,
    m: int,
)
    requires
        n <= m,
    ensures
        total_upto(counters, user_id, guild_id, token, n) <= total_upto(
            counters,
            user_id,
            guild_id,
            token,
            m,
        ),
    decreases m - n,
{
    if n < m {
        lemma_total_grows(counters, user_id, guild_id, token, n, m - 1);
    }
}

/// The sum of a token that no counter in scope has is zero.
pub proof fn lemma_total_of_uncounted(
    counters: Seq<CounterView>,
    user_id: u64,
    guild_id: Option<u64>,
    token: Seq<char>,
    n: int,
)
    requires
        n <= counters.len(),
        !token_counted(counters, user_id, guild_id, token, n),
    ensures
        total_upto(counters, user_id, guild_id, token, n) == 0,
    decreases n,
{
    if n > 0 {
        assert(!token_counted(counters, user_id, guild_id, token, n - 1)) by {
            if token_counted(counters, user_id, guild_id, token, n - 1) {
                let k = choose|k: int|
                    0 <= k < n - 1 && k < counters.len() && in_scope(
                        #[trigger] counters[k],
                        user_id,
                        guild_id,
                    ) && counters[k].token == token;
                assert(in_scope(counters[k], user_id, guild_id));
            }
        }
        lemma_total_of_uncounted(counters, user_id, guild_id, token, n - 1);
        assert(!(in_scope(counters[n - 1], user_id, guild_id) && counters[n - 1].token == token));
    }
}

/// Finds the last count of the given token in a list of counts.
fn find_count(counts: &Vec<UserCount>, token: &String) -> (r: Option<usize>)
    ensures
        match r {
            Some(i) => i < counts@.len() && last_counted(count_views(counts@), token@) == Some(
                i as int,
            ),
            None => last_counted(count_views(counts@), token@) is None,
        },
{
    let ghost views = count_views(counts@);
    let mut i: usize = counts.len();
    proof {
        assert(views.subrange(0, i as int) =~= views);
    }
    while i > 0
        invariant
            i <= counts@.len(),
            views == count_views(counts@),
            last_counted(views, token@) == last_counted(views.subrange(0, i as int), token@),
        decreases i,
    {
        proof {
            let prefix = views.subrange(0, i as int);
            assert(prefix.drop_last() =~= views.subrange(0, i as int - 1));
            assert(prefix.last() == counts@[i as int - 1]@);
        }
        if counts[i - 1].emote == *token {
            return Some(i - 1);
        }
        i -= 1;
    }
    None
}

/// Sums the counters of a user token by token, within the guild where one is
/// given and over all guilds where none is: every token that the user has a
/// counter of in scope, once, in the order in which the tokens are first met,
/// with the sum of its counts. The sums are refused exactly when one of them
/// does not fit.
pub fn sum_counters(counters: &Vec<CounterEntry>, user_id: u64, guild_id: Option<u64>) -> (r:
    Result<Vec<UserCount>, StoreError>)
    ensures
        match r {
            Ok(counts) => count_views(counts@) == summed(counter_views(counters@), user_id, guild_id)
                && lists_totals(
                count_views(counts@),
                counter_views(counters@),
                user_id,
                guild_id,
                counter_views(counters@).len() as int,
            ) && forall|token: Seq<char>|
                total(counter_views(counters@), user_id, guild_id, token) <= MAX_TOTAL,
            Err(error) => error == StoreError::OutOfRange && exists|token: Seq<char>|
                total(counter_views(counters@), user_id, guild_id, token) > MAX_TOTAL,
        },
{
    let ghost views = counter_views(counters@);
    let n = counters.len();
    let mut out: Vec<UserCount> = Vec::new();
    let mut k: usize = 0;
    while k < n
        invariant
            n == counters@.len(),
            k <= n,
            views == counter_views(counters@),
            views == counter_views(counters@),
            lists_totals(count_views(out@), views, user_id, guild_id, k as int),
            count_views(out@) == summed_upto(views, user_id, guild_id, k as int),
            forall|i: int| 0 <= i < out@.len() ==> (#[trigger] out@[i]).count.0 <= MAX_TOTAL,
        decreases n - k,
    {
        let entry = &counters[k];
        let ghost before = count_views(out@);
        let ghost token = entry.token@;
        assert(views[k as int] == entry@);
        let scoped = entry.user_id == user_id && match guild_id {
            Some(g) => entry.guild_id == g,
            None => true,
        };
        proof {
            lemma_last_counted(before, token);
        }
        if scoped {
            match find_count(&out, &entry.token) {
                Some(idx) => {
                    assert(before[idx as int] == out@[idx as int]@);
                    let sum: u64 = out[idx].count.0 + entry.count as u64;
                    if sum > MAX_TOTAL {
                        proof {
                            lemma_total_grows(
                                views,
                                user_id,
                                guild_id,
                                token,
                                k as int + 1,
                                n as int,
                            );
                            assert(total(views, user_id, guild_id, token) > MAX_TOTAL);
                        }
                        return Err(StoreError::OutOfRange);
                    }
                    out.set(idx, UserCount { emote: entry.token.clone(), count: PsqlU(sum) });
                    proof {
                        let after = count_views(out@);
                        assert(after =~= before.update(
                            idx as int,
                            UserCountView { emote: token, count: sum },
                        ));
                        lemma_lists_totals_step(
                            before,
                            after,
                            views,
                            user_id,
                            guild_id,
                            k as int,
                        );
                    }
                },
                None => {
                    proof {
                        assert(!token_counted(views, user_id, guild_id, token, k as int)) by {
                            if token_counted(views, user_id, guild_id, token, k as int) {
                                let q = choose|q: int|
                                    0 <= q < k && q < views.len() && in_scope(
                                        #[trigger] views[q],
                                        user_id,
                                        guild_id,
                                    ) && views[q].token == token;
                                let i = choose|i: int|
                                    0 <= i < before.len() && (#[trigger] before[i]).emote
                                        == views[q].token;
                                assert(out@[i].emote@ == token);
                            }
                        }
                        lemma_total_of_uncounted(views, user_id, guild_id, token, k as int);
                    }
                    out.push(
                        UserCount {
                            emote: entry.token.clone(),
                            count: PsqlU(entry.count as u64),
                        },
                    );
                    proof {
                        let after = count_views(out@);
                        assert(after =~= before.push(
                            UserCountView { emote: token, count: entry.count as u64 },
                        ));
                        lemma_lists_totals_step(
                            before,
                            after,
                            views,
                            user_id,
                            guild_id,
                            k as int,
                        );
                    }
                },
            }
        } else {
            proof {
                lemma_lists_totals_step(before, before, views, user_id, guild_id, k as int);
            }
        }
        k += 1;
    }
    proof {
        assert forall|token: Seq<char>| total(views, user_id, guild_id, token)
            <= MAX_TOTAL by {
            if token_counted(views, user_id, guild_id, token, n as int) {
                let q = choose|q: int|
                    0 <= q < n && q < views.len() && in_scope(
                        #[trigger] views[q],
                        user_id,
                        guild_id,
                    ) && views[q].token == token;
                let i = choose|i: int|
                    0 <= i < count_views(out@).len() && (#[trigger] count_views(
                        out@,
                    )[i]).emote == views[q].token;
                assert(out@[i].count.0 <= MAX_TOTAL);
            } else {
                lemma_total_of_uncounted(views, user_id, guild_id, token, n as int);
            }
        }
    }
    Ok(out)
}

/// One more counter taken into account: the list stays a list of totals if
/// it is left alone for a counter out of scope, and gets the counter's count
/// added to its token, as a new entry where the token has none, for one in
/// scope.
proof fn lemma_lists_totals_step(
    before: Seq<UserCountView>,
    after: Seq<UserCountView>,
    counters: Seq<CounterView>,
    user_id: u64,
    guild_id: Option<u64>,
    k: int,
)
    requires
        0 <= k < counters.len(),
        lists_totals(before, counters, user_id, guild_id, k),
        !in_scope(counters[k], user_id, guild_id) ==> after == before,
        in_scope(counters[k], user_id, guild_id) ==> {
            ||| exists|idx: int|
                0 <= idx < before.len() && before[idx].emote == counters[k].token && after
                    == before.update(
                    idx,
                    UserCountView {
                        emote: counters[k].token,
                        count: (before[idx].count + counters[k].count) as u64,
                    },
                ) && before[idx].count + counters[k].count <= u64::MAX
            ||| (forall|i: int| 0 <= i < before.len() ==> before[i].emote != counters[k].token)
                && total_upto(counters, user_id, guild_id, counters[k].token, k) == 0 && after
                == before.push(
                UserCountView { emote: counters[k].token, count: counters[k].count as u64 },
            )
        },
    ensures
        lists_totals(after, counters, user_id, guild_id, k + 1),
{
    let token = counters[k].token;
    assert forall|i: int| 0 <= i < after.len() implies token_counted(
        counters,
        user_id,
        guild_id,
        (#[trigger] after[i]).emote,
        k + 1,
    ) && after[i].count == total_upto(counters, user_id, guild_id, after[i].emote, k + 1) by {
        if i < before.len() {
            assert(token_counted(counters, user_id, guild_id, before[i].emote, k));
            let q = choose|q: int|
                0 <= q < k && q < counters.len() && in_scope(
                    #[trigger] counters[q],
                    user_id,
                    guild_id,
                ) && counters[q].token == before[i].emote;
            assert(in_scope(counters[q], user_id, guild_id));
            assert(after[i].emote == before[i].emote);
        } else {
            assert(in_scope(counters[k], user_id, guild_id));
        }
    }
    assert forall|q: int|
        0 <= q < k + 1 && q < counters.len() && in_scope(
            #[trigger] counters[q],
            user_id,
            guild_id,
        ) implies exists|i: int|
        0 <= i < after.len() && (#[trigger] after[i]).emote == counters[q].token by {
        if q < k {
            let i = choose|i: int|
                0 <= i < before.len() && (#[trigger] before[i]).emote == counters[q].token;
            assert(after[i].emote == counters[q].token);
        } else {
            if exists|idx: int|
                0 <= idx < before.len() && before[idx].emote == counters[k].token && after
                    == before.update(
                    idx,
                    UserCountView {
                        emote: counters[k].token,
                        count: (before[idx].count + counters[k].count) as u64,
                    },
                ) {
                let idx = choose|idx: int|
                    0 <= idx < before.len() && before[idx].emote == counters[k].token && after
                        == before.update(
                        idx,
                        UserCountView {
                            emote: counters[k].token,
                            count: (before[idx].count + counters[k].count) as u64,
                        },
                    );
                assert(after[idx].emote == token);
            } else {
                assert(after[before.len() as int].emote == token);
            }
        }
    }
    assert forall|i: int, j: int| 0 <= i < j < after.len() implies (#[trigger] after[i]).emote != (
    #[trigger] after[j]).emote by {
        if j < before.len() {
            assert(before[i].emote != before[j].emote);
            assert(after[i].emote == before[i].emote);
            assert(after[j].emote == before[j].emote);
        } else {
            assert(before[i].emote != token);
        }
    }
}

/// In a sound store, the sum of a user's counts of a token within one guild
/// is the one counter of that user, guild and token.
pub proof fn lemma_total_in_guild(store: StoreView, user_id: u64, guild_id: u64, token: Seq<char>)
    requires
        valid_store(store),
    ensures
        total(store.counters, user_id, Some(guild_id), token) == count_of(
            store,
            user_id,
            guild_id,
            token,
        ),
        total(store.counters, user_id, Some(guild_id), token) <= MAX_COUNT,
{
    lemma_total_in_guild_upto(
        store.counters,
        user_id,
        guild_id,
        token,
        store.counters.len() as int,
    );
    assert(store.counters.subrange(0, store.counters.len() as int) =~= store.counters);
    lemma_counter_index(store.counters, user_id, guild_id, token);
}

/// Over the first `n` counters of a store without two counters of one key,
/// the sum within one guild is the count of the one counter of the key, if
/// there is one among them.
proof fn lemma_total_in_guild_upto(
    counters: Seq<CounterView>,
    user_id: u64,
    guild_id: u64,
    token: Seq<char>,
    n: int,
)
    requires
        0 <= n <= counters.len(),
        forall|i: int, j: int|
            0 <= i < j < counters.len() ==> !has_key(
                #[trigger] counters[i],
                (#[trigger] counters[j]).user_id,
                counters[j].guild_id,
                counters[j].token,
            ),
    ensures
        total_upto(counters, user_id, Some(guild_id), token, n) == match counter_index(
            counters.subrange(0, n),
            user_id,
            guild_id,
            token,
        ) {
            Some(i) => counters[i].count as nat,
            None => 0,
        },
    decreases n,
{
    if n > 0 {
        let prefix = counters.subrange(0, n);
        let shorter = counters.subrange(0, n - 1);
        assert(prefix.drop_last() =~= shorter);
        assert(prefix.last() == counters[n - 1]);
        lemma_total_in_guild_upto(counters, user_id, guild_id, token, n - 1);
        lemma_counter_index(shorter, user_id, guild_id, token);
        if has_key(counters[n - 1], user_id, guild_id, token) {
            match counter_index(shorter, user_id, guild_id, token) {
                Some(i) => {
                    assert(shorter[i] == counters[i]);
                    assert(!has_key(
                        counters[i],
                        counters[n - 1].user_id,
                        counters[n - 1].guild_id,
                        counters[n - 1].token,
                    ));
                },
                None => {},
            }
        } else {
            match counter_index(shorter, user_id, guild_id, token) {
                Some(i) => {
                    assert(shorter[i] == counters[i]);
                },
                None => {},
            }
        }
    }
}

impl DatabaseHandler {
    /// The counts of a user over all guilds, token by token: every token that
    /// the user has a counter of, once, with the sum of the user's counts of
    /// it. The request is refused exactly when one of the sums does not fit.
    pub fn get_user_counts(&self, user_id: u64) -> (r: Result<Vec<UserCount>, StoreError>)
        ensures
            match r {
                Ok(counts) => count_views(counts@) == summed(self@.counters, user_id, None)
                    && lists_totals(
                    count_views(counts@),
                    self@.counters,
                    user_id,
                    None,
                    self@.counters.len() as int,
                ) && forall|token: Seq<char>|
                    total(self@.counters, user_id, None, token) <= MAX_TOTAL,
                Err(error) => error == StoreError::OutOfRange && exists|token: Seq<char>|
                    total(self@.counters, user_id, None, token) > MAX_TOTAL,
            },
    {
        assert(self@.counters == counter_views(self.counters@));
        sum_counters(&self.counters, user_id, None)
    }

    /// The counts of a user within one guild, token by token: every token
    /// that the user has a counter of in the guild, once, with that count.
    pub fn get_user_server_counts(&self, user_id: u64, server_id: u64) -> (r: Vec<UserCount>)
        requires
            self.wf(),
        ensures
            count_views(r@) == summed(self@.counters, user_id, Some(server_id)),
            lists_totals(
                count_views(r@),
                self@.counters,
                user_id,
                Some(server_id),
                self@.counters.len() as int,
            ),
            forall|i: int|
                0 <= i < r@.len() ==> (#[trigger] r@[i]).count.0 == count_of(
                    self@,
                    user_id,
                    server_id,
                    r@[i].emote@,
                ),
    {
        assert(self@.counters == counter_views(self.counters@));
        match sum_counters(&self.counters, user_id, Some(server_id)) {
            Ok(counts) => {
                proof {
                    assert forall|i: int| 0 <= i < counts@.len() implies (
                    #[trigger] counts@[i]).count.0 == count_of(
                        self@,
                        user_id,
                        server_id,
                        counts@[i].emote@,
                    ) by {
                        assert(count_views(counts@)[i] == counts@[i]@);
                        lemma_total_in_guild(self@, user_id, server_id, counts@[i].emote@);
                    }
                }
                counts
            },
            Err(_) => {
                proof {
                    let token = choose|token: Seq<char>|
                        total(self@.counters, user_id, Some(server_id), token) > MAX_TOTAL;
                    lemma_total_in_guild(self@, user_id, server_id, token);
                }
                Vec::new()
            },
        }
    }
}

/// The counts token by token hold every token in scope once, and with it the
/// sum of its counts, as long as the sums fit 64 bits.
pub proof fn lemma_summed_lists_totals(
    counters: Seq<CounterView>,
    user_id: u64,
    guild_id: Option<u64>,
    n: int,
)
    requires
        0 <= n <= counters.len(),
        forall|token: Seq<char>| #[trigger]
            total_upto(counters, user_id, guild_id, token, n) <= u64::MAX,
    ensures
        lists_totals(
            summed_upto(counters, user_id, guild_id, n),
            counters,
            user_id,
            guild_id,
            n,
        ),
    decreases n,
{
    if n > 0 {
        let m = n - 1;
        assert forall|token: Seq<char>| #[trigger]
            total_upto(counters, user_id, guild_id, token, m) <= u64::MAX by {
            lemma_total_grows(counters, user_id, guild_id, token, m, n);
        }
        lemma_summed_lists_totals(counters, user_id, guild_id, n - 1);
        let before = summed_upto(counters, user_id, guild_id, n - 1);
        let after = summed_upto(counters, user_id, guild_id, n);
        let entry = counters[n - 1];
        lemma_last_counted(before, entry.token);
        if in_scope(entry, user_id, guild_id) {
            match last_counted(before, entry.token) {
                Some(i) => {
                    assert(before[i].count == total_upto(
                        counters,
                        user_id,
                        guild_id,
                        before[i].emote,
                        n - 1,
                    ));
                    assert(total_upto(counters, user_id, guild_id, entry.token, n) <= u64::MAX);
                },
                None => {
                    assert(!token_counted(counters, user_id, guild_id, entry.token, n - 1)) by {
                        if token_counted(counters, user_id, guild_id, entry.token, n - 1) {
                            let q = choose|q: int|
                                0 <= q < n - 1 && q < counters.len() && in_scope(
                                    #[trigger] counters[q],
                                    user_id,
                                    guild_id,
                                ) && counters[q].token == entry.token;
                            let i = choose|i: int|
                                0 <= i < before.len() && (#[trigger] before[i]).emote
                                    == counters[q].token;
                        }
                    }
                    lemma_total_of_uncounted(counters, user_id, guild_id, entry.token, n - 1);
                },
            }
        }
        lemma_lists_totals_step(before, after, counters, user_id, guild_id, n - 1);
    }
}

} // verus!
