//! The leaderboard of a guild: for every token, the users by their counts.
//!
//! Within a guild and a token the counters are ranked densely by count, the
//! highest first: counters with the same count share a rank, and the next
//! lower count has the next rank. The rank of a counter is therefore one more
//! than the number of different counts above its own.

use crate::database::unsigned::{PsqlU, PsqlU32, PsqlU64};
use crate::database::{counter_views, CounterEntry, CounterView, DatabaseHandler};
use crate::text::{
    decimal, is_text_le, lemma_text_le_antisymmetric, lemma_text_le_total,
    lemma_text_le_transitive, text_le,
};
use vstd::prelude::*;
use vstd::string::StringExecFns;
use vstd::seq_lib::{to_multiset_build, to_multiset_insert};

verus! {

/// One line of a leaderboard.
#[derive(Debug)]
pub struct LeaderboardRow {
    pub emote: String,
    pub user_id: PsqlU64,
    pub count: PsqlU32,
    pub rank: PsqlU64,
}

/// The mathematical content of a line of a leaderboard.
pub struct RowView {
    pub emote: Seq<char>,
    pub user_id: u64,
    pub count: u32,
    pub rank: u64,
}

impl View for LeaderboardRow {
    type V = RowView;

    open spec fn view(&self) -> RowView {
        RowView {
            emote: self.emote@,
            user_id: self.user_id.0,
            count: self.count.0,
            rank: self.rank.0,
        }
    }
}

/// The text of a line: the rank, the user and the count.
pub open spec fn row_text(row: RowView) -> Seq<char> {
    decimal(row.rank as nat) + "\\. <@"@ + decimal(row.user_id as nat) + "> - "@ + decimal(
        row.count as nat,
    )
}

impl LeaderboardRow {
    /// Writes the line as text.
    pub fn to_text(&self) -> (r: String)
        ensures
            r@ == row_text(self@),
    {
        let mut r = self.rank.to_text();
        r.append("\\. <@");
        let user = self.user_id.to_text();
        r.append(user.as_str());
        r.append("> - ");
        let count = self.count.to_text();
        r.append(count.as_str());
        r
    }
}

/// The contents of a list of lines.
pub open spec fn row_views(rows: Seq<LeaderboardRow>) -> Seq<RowView> {
    Seq::new(rows.len(), |i: int| rows[i]@)
}

/// Whether a counter belongs to the given guild and token.
pub open spec fn in_partition(entry: CounterView, guild_id: u64, token: Seq<char>) -> bool {
    entry.guild_id == guild_id && entry.token == token
}

/// The different counts above `count` among the counters of a guild and
/// token.
pub open spec fn higher_counts(
    counters: Seq<CounterView>,
    guild_id: u64,
    token: Seq<char>,
    count: u32,
) -> Set<u32> {
    Set::new(
        |c: u32|
            c > count && exists|i: int|
                0 <= i < counters.len() && in_partition(#[trigger] counters[i], guild_id, token)
                    && counters[i].count == c,
    )
}

/// The dense rank of a count among the counters of a guild and token.
pub open spec fn dense_rank(
    counters: Seq<CounterView>,
    guild_id: u64,
    token: Seq<char>,
    count: u32,
) -> nat {
    higher_counts(counters, guild_id, token, count).len() + 1
}

/// The line of the counter at place `i`: its token, user and count, and the
/// dense rank of its count within its guild and token.
pub open spec fn board_row(counters: Seq<CounterView>, i: int) -> RowView {
    RowView {
        emote: counters[i].token,
        user_id: counters[i].user_id,
        count: counters[i].count,
        rank: dense_rank(
            counters,
            counters[i].guild_id,
            counters[i].token,
            counters[i].count,
        ) as u64,
    }
}

/// Whether the counter at place `i` is on the leaderboard of the guild: it
/// belongs to the guild and its rank is at most `top`.
pub open spec fn on_board(counters: Seq<CounterView>, guild_id: u64, top: u64, i: int) -> bool {
    counters[i].guild_id == guild_id && dense_rank(
        counters,
        guild_id,
        counters[i].token,
        counters[i].count,
    ) <= top
}

/// The lines of the first `n` counters that are on the leaderboard, in the
/// order of the counters.
pub open spec fn board_upto(counters: Seq<CounterView>, guild_id: u64, top: u64, n: int) -> Seq<
    RowView,
>
    decreases n,
{
    if n <= 0 {
        Seq::<RowView>::empty()
    } else {
        let before = board_upto(counters, guild_id, top, n - 1);
        if on_board(counters, guild_id, top, n - 1) {
            before.push(board_row(counters, n - 1))
        } else {
            before
        }
    }
}

/// Whether line `a` may stand before line `b`: its token comes first, or the
/// tokens are the same and its rank is not the greater one.
pub open spec fn row_le(a: RowView, b: RowView) -> bool {
    if a.emote == b.emote {
        a.rank <= b.rank
    } else {
        text_le(a.emote, b.emote)
    }
}

/// Whether the lines are in order: by token, and by rank within a token.
pub open spec fn sorted_rows(rows: Seq<RowView>) -> bool {
    forall|i: int, j: int| 0 <= i < j < rows.len() ==> row_le(#[trigger] rows[i], #[trigger] rows[j])
}

/// The number of lines at the start of `rows` that may stand before `row`:
/// the place at which `row` is put.
pub open spec fn insertion_point(rows: Seq<RowView>, row: RowView) -> int
    decreases rows.len(),
{
    if rows.len() == 0 {
        0
    } else if row_le(rows[0], row) {
        1 + insertion_point(rows.drop_first(), row)
    } else {
        0
    }
}

/// The lines with one more line put in, behind the lines at the start that
/// may stand before it.
pub open spec fn inserted(rows: Seq<RowView>, row: RowView) -> Seq<RowView> {
    rows.insert(insertion_point(rows, row), row)
}

/// The leaderboard of the first `n` counters: the lines of those that are on
/// the board, each put in its place in the order of the counters. Lines of
/// the same token and rank therefore stand in the order of their counters.
pub open spec fn ranked_board(counters: Seq<CounterView>, guild_id: u64, top: u64, n: int) -> Seq<
    RowView,
>
    decreases n,
{
    if n <= 0 {
        Seq::<RowView>::empty()
    } else {
        let before = ranked_board(counters, guild_id, top, n - 1);
        if on_board(counters, guild_id, top, n - 1) {
            inserted(before, board_row(counters, n - 1))
        } else {
            before
        }
    }
}

/// The leaderboard of a guild with the ranks up to `top`.
pub open spec fn board_of(counters: Seq<CounterView>, guild_id: u64, top: u64) -> Seq<RowView> {
    ranked_board(counters, guild_id, top, counters.len() as int)
}

/// Of two lines, one may stand before the other.
pub proof fn lemma_row_le_total(a: RowView, b: RowView)
    ensures
        row_le(a, b) || row_le(b, a),
{
    lemma_text_le_total(a.emote, b.emote);
}

/// The order of lines is transitive.
pub proof fn lemma_row_le_transitive(a: RowView, b: RowView, c: RowView)
    requires
        row_le(a, b),
        row_le(b, c),
    ensures
        row_le(a, c),
{
    if a.emote != b.emote && b.emote != c.emote {
        lemma_text_le_transitive(a.emote, b.emote, c.emote);
        if a.emote == c.emote {
            lemma_text_le_antisymmetric(a.emote, b.emote);
        }
    }
}

/// The counts above `count` once one more counter is taken into account.
proof fn lemma_higher_counts_push(
    counters: Seq<CounterView>,
    entry: CounterView,
    guild_id: u64,
    token: Seq<char>,
    count: u32,
)
    ensures
        higher_counts(counters.push(entry), guild_id, token, count) == if in_partition(
            entry,
            guild_id,
            token,
        ) && entry.count > count {
            higher_counts(counters, guild_id, token, count).insert(entry.count)
        } else {
            higher_counts(counters, guild_id, token, count)
        },
{
    let longer = counters.push(entry);
    let old_set = higher_counts(counters, guild_id, token, count);
    let new_set = higher_counts(longer, guild_id, token, count);
    let expected = if in_partition(entry, guild_id, token) && entry.count > count {
        old_set.insert(entry.count)
    } else {
        old_set
    };
    assert forall|c: u32| new_set.contains(c) implies expected.contains(c) by {
        let i = choose|i: int|
            0 <= i < longer.len() && in_partition(#[trigger] longer[i], guild_id, token)
                && longer[i].count == c;
        if i < counters.len() {
            assert(in_partition(counters[i], guild_id, token));
        }
    }
    assert forall|c: u32| expected.contains(c) implies new_set.contains(c) by {
        if old_set.contains(c) {
            let i = choose|i: int|
                0 <= i < counters.len() && in_partition(#[trigger] counters[i], guild_id, token)
                    && counters[i].count == c;
            assert(in_partition(longer[i], guild_id, token));
        } else {
            assert(in_partition(longer[counters.len() as int], guild_id, token));
        }
    }
    assert(new_set =~= expected);
}

/// Whether a list of counts holds the given count.
fn holds_count(seen: &Vec<u32>, count: u32) -> (r: bool)
    ensures
        r == seen@.contains(count),
{
    let n = seen.len();
    let mut i: usize = 0;
    while i < n
        invariant
            n == seen@.len(),
            i <= n,
            forall|k: int| 0 <= k < i ==> seen@[k] != count,
        decreases n - i,
    {
        if seen[i] == count {
            return true;
        }
        i += 1;
    }
    false
}

/// Compares two lines in the order of lines.
pub fn is_row_le(a: &LeaderboardRow, b: &LeaderboardRow) -> (r: bool)
    ensures
        r == row_le(a@, b@),
{
    if a.emote == b.emote {
        a.rank.0 <= b.rank.0
    } else {
        is_text_le(a.emote.as_str(), b.emote.as_str())
    }
}

/// Counts the different counts above `count` among the counters of a guild
/// and token.
fn higher_count(counters: &Vec<CounterEntry>, guild_id: u64, token: &String, count: u32) -> (r:
    usize)
    ensures
        r == higher_counts(counter_views(counters@), guild_id, token@, count).len(),
{
    let ghost views = counter_views(counters@);
    let n = counters.len();
    let mut seen: Vec<u32> = Vec::new();
    let mut j: usize = 0;
    proof {
        assert(views.subrange(0, 0) =~= Seq::<CounterView>::empty());
        assert(higher_counts(views.subrange(0, 0), guild_id, token@, count) =~= Set::<
            u32,
        >::empty());
        assert(seen@.to_set() =~= Set::<u32>::empty());
    }
    while j < n
        invariant
            n == counters@.len(),
            j <= n,
            views == counter_views(counters@),
            seen@.no_duplicates(),
            seen@.len() <= j,
            seen@.to_set() == higher_counts(
                views.subrange(0, j as int),
                guild_id,
                token@,
                count,
            ),
        decreases n - j,
    {
        let entry = &counters[j];
        proof {
            assert(views.subrange(0, j as int + 1) =~= views.subrange(0, j as int).push(
                entry@,
            ));
            lemma_higher_counts_push(
                views.subrange(0, j as int),
                entry@,
                guild_id,
                token@,
                count,
            );
        }
        if entry.guild_id == guild_id && entry.token == *token && entry.count > count {
            if !holds_count(&seen, entry.count) {
                proof {
                    seen@.lemma_push_to_set_commute(entry.count);
                }
                seen.push(entry.count);
            } else {
                assert(seen@.to_set().insert(entry.count) =~= seen@.to_set());
            }
        }
        j += 1;
    }
    proof {
        assert(views.subrange(0, n as int) =~= views);
        seen@.unique_seq_to_set();
    }
    seen.len()
}

/// The leaderboard of a guild over the given counters: the counters of the
/// guild whose dense rank within their token is at most `top`, ordered by
/// token and, within a token, by rank. Counters that share a rank are all on
/// the board, so a token can have more than `top` lines.
pub fn rank_counters(counters: &Vec<CounterEntry>, server_id: u64, top: u64) -> (r: Vec<
    LeaderboardRow,
>)
    ensures
        row_views(r@) == board_of(counter_views(counters@), server_id, top),
        sorted_rows(row_views(r@)),
        row_views(r@).to_multiset() =~= board_upto(
            counter_views(counters@),
            server_id,
            top,
            counter_views(counters@).len() as int,
        ).to_multiset(),
{
    let ghost views = counter_views(counters@);
    let n = counters.len();
    let mut rows: Vec<LeaderboardRow> = Vec::new();
    let mut i: usize = 0;
    proof {
        assert(row_views(rows@) =~= ranked_board(views, server_id, top, 0));
    }
    while i < n
        invariant
            n == counters@.len(),
            i <= n,
            views == counter_views(counters@),
            row_views(rows@) == ranked_board(views, server_id, top, i as int),
        decreases n - i,
    {
        let entry = &counters[i];
        assert(views[i as int] == entry@);
        if entry.guild_id == server_id {
            let higher = higher_count(counters, server_id, &entry.token, entry.count);
            if (higher as u64) < top {
                let row = LeaderboardRow {
                    emote: entry.token.clone(),
                    user_id: PsqlU(entry.user_id),
                    count: PsqlU(entry.count),
                    rank: PsqlU(higher as u64 + 1),
                };
                assert(row@ == board_row(views, i as int));
                insert_row(&mut rows, row);
            }
        }
        i += 1;
    }
    proof {
        lemma_ranked_board(views, server_id, top, n as int);
    }
    rows
}

impl DatabaseHandler {
    /// The leaderboard of a guild: the counters of the guild whose dense rank
    /// within their token is at most `top`, ordered by token and, within a
    /// token, by rank. Counters that share a rank are all on the board, so a
    /// token can have more than `top` lines.
    pub fn leaderboard(&self, server_id: u64, top: u64) -> (r: Vec<LeaderboardRow>)
        ensures
            row_views(r@) == board_of(self@.counters, server_id, top),
            sorted_rows(row_views(r@)),
            row_views(r@).to_multiset() =~= board_upto(
                self@.counters,
                server_id,
                top,
                self@.counters.len() as int,
            ).to_multiset(),
    {
        rank_counters(&self.counters, server_id, top)
    }
}

/// Where a line is put: behind lines that may all stand before it, and
/// before a line that may not.
pub proof fn lemma_insertion_point(rows: Seq<RowView>, row: RowView)
    ensures
        0 <= insertion_point(rows, row) <= rows.len(),
        forall|q: int| 0 <= q < insertion_point(rows, row) ==> row_le(#[trigger] rows[q], row),
        insertion_point(rows, row) < rows.len() ==> !row_le(
            rows[insertion_point(rows, row)],
            row,
        ),
    decreases rows.len(),
{
    if rows.len() > 0 && row_le(rows[0], row) {
        let rest = rows.drop_first();
        lemma_insertion_point(rest, row);
        assert forall|q: int| 0 <= q < insertion_point(rows, row) implies row_le(
            #[trigger] rows[q],
            row,
        ) by {
            if q > 0 {
                assert(rows[q] == rest[q - 1]);
            }
        }
        if insertion_point(rows, row) < rows.len() {
            assert(rows[insertion_point(rows, row)] == rest[insertion_point(rest, row)]);
        }
    }
}

/// Putting a line into lines that are in order leaves them in order, and
/// adds the line and nothing else.
pub proof fn lemma_inserted(rows: Seq<RowView>, row: RowView)
    requires
        sorted_rows(rows),
    ensures
        sorted_rows(inserted(rows, row)),
        inserted(rows, row).to_multiset() =~= rows.to_multiset().insert(row),
{
    let p = insertion_point(rows, row);
    lemma_insertion_point(rows, row);
    to_multiset_insert(rows, p, row);
    let after = inserted(rows, row);
    if p < rows.len() {
        lemma_row_le_total(rows[p], row);
        assert forall|q: int| p <= q < rows.len() implies row_le(row, #[trigger] rows[q]) by {
            if q > p {
                lemma_row_le_transitive(row, rows[p], rows[q]);
            }
        }
    }
    assert forall|i: int, j: int| 0 <= i < j < after.len() implies row_le(
        #[trigger] after[i],
        #[trigger] after[j],
    ) by {
        if i < p && j > p {
            assert(after[i] == rows[i]);
            assert(after[j] == rows[j - 1]);
        } else if i > p {
            assert(after[i] == rows[i - 1]);
            assert(after[j] == rows[j - 1]);
        } else if j < p {
            assert(after[i] == rows[i]);
            assert(after[j] == rows[j]);
        } else if i == p {
            assert(after[j] == rows[j - 1]);
        } else {
            assert(after[i] == rows[i]);
        }
    }
}

/// The leaderboard is in order, by token and by rank within a token, and
/// holds exactly the lines of the counters that are on the board, each as
/// often as it occurs among them.
pub proof fn lemma_ranked_board(counters: Seq<CounterView>, guild_id: u64, top: u64, n: int)
    ensures
        sorted_rows(ranked_board(counters, guild_id, top, n)),
        ranked_board(counters, guild_id, top, n).to_multiset() =~= board_upto(
            counters,
            guild_id,
            top,
            n,
        ).to_multiset(),
    decreases n,
{
    if n > 0 {
        lemma_ranked_board(counters, guild_id, top, n - 1);
        if on_board(counters, guild_id, top, n - 1) {
            lemma_inserted(
                ranked_board(counters, guild_id, top, n - 1),
                board_row(counters, n - 1),
            );
            to_multiset_build(
                board_upto(counters, guild_id, top, n - 1),
                board_row(counters, n - 1),
            );
        }
    }
}

/// Puts a line into a list of lines, behind the lines at the start that may
/// stand before it.
fn insert_row(rows: &mut Vec<LeaderboardRow>, row: LeaderboardRow)
    ensures
        row_views(final(rows)@) == inserted(row_views(old(rows)@), row@),
{
    let ghost before = row_views(rows@);
    let n = rows.len();
    let mut p: usize = 0;
    proof {
        assert(before.subrange(0, n as int) =~= before);
    }
    while p < n && is_row_le(&rows[p], &row)
        invariant
            n == rows@.len(),
            p <= n,
            before == row_views(rows@),
            insertion_point(before, row@) == p + insertion_point(
                before.subrange(p as int, n as int),
                row@,
            ),
        decreases n - p,
    {
        proof {
            let rest = before.subrange(p as int, n as int);
            assert(rest[0] == rows@[p as int]@);
            assert(rest.drop_first() =~= before.subrange(p as int + 1, n as int));
        }
        p += 1;
    }
    proof {
        let rest = before.subrange(p as int, n as int);
        if p < n {
            assert(rest[0] == rows@[p as int]@);
        }
        assert(insertion_point(before, row@) == p);
    }
    rows.insert(p, row);
    proof {
        assert(row_views(rows@) =~= before.insert(p as int, row@));
    }
}

/// Whether a count occurs among the counters of a guild and token.
pub open spec fn count_occurs(
    counters: Seq<CounterView>,
    guild_id: u64,
    token: Seq<char>,
    count: u32,
) -> bool {
    exists|i: int|
        0 <= i < counters.len() && in_partition(#[trigger] counters[i], guild_id, token)
            && counters[i].count == count
}

/// The counts above a count are finitely many.
pub proof fn lemma_higher_counts_finite(
    counters: Seq<CounterView>,
    guild_id: u64,
    token: Seq<char>,
    count: u32,
)
    ensures
        higher_counts(counters, guild_id, token, count).finite(),
    decreases counters.len(),
{
    if counters.len() == 0 {
        assert(higher_counts(counters, guild_id, token, count) =~= Set::<u32>::empty());
    } else {
        let shorter = counters.drop_last();
        lemma_higher_counts_finite(shorter, guild_id, token, count);
        lemma_higher_counts_push(shorter, counters.last(), guild_id, token, count);
        assert(shorter.push(counters.last()) =~= counters);
    }
}

/// Dense ranks: the highest count has rank one; a higher count never has the
/// greater rank; and of two counts that occur with no count between them that
/// occurs, the lower has the rank of the higher plus one, however many
/// counters share the higher count.
pub proof fn lemma_dense_rank(
    counters: Seq<CounterView>,
    guild_id: u64,
    token: Seq<char>,
    higher: u32,
    lower: u32,
)
    requires
        higher >= lower,
    ensures
        dense_rank(counters, guild_id, token, higher) >= 1,
        dense_rank(counters, guild_id, token, higher) <= dense_rank(
            counters,
            guild_id,
            token,
            lower,
        ),
        (forall|c: u32| c > higher ==> !count_occurs(counters, guild_id, token, c))
            ==> dense_rank(counters, guild_id, token, higher) == 1,
        higher > lower && count_occurs(counters, guild_id, token, higher) && (forall|c: u32|
            lower < c < higher ==> !count_occurs(counters, guild_id, token, c)) ==> dense_rank(
            counters,
            guild_id,
            token,
            lower,
        ) == dense_rank(counters, guild_id, token, higher) + 1,
{
    let above_higher = higher_counts(counters, guild_id, token, higher);
    let above_lower = higher_counts(counters, guild_id, token, lower);
    lemma_higher_counts_finite(counters, guild_id, token, higher);
    lemma_higher_counts_finite(counters, guild_id, token, lower);
    assert(above_higher.subset_of(above_lower));
    vstd::set_lib::lemma_len_subset(above_higher, above_lower);
    if forall|c: u32| c > higher ==> !count_occurs(counters, guild_id, token, c) {
        assert forall|c: u32| !above_higher.contains(c) by {
            if above_higher.contains(c) {
                assert(count_occurs(counters, guild_id, token, c));
            }
        }
        assert(above_higher =~= Set::<u32>::empty());
    }
    if higher > lower && count_occurs(counters, guild_id, token, higher) && (forall|c: u32|
        lower < c < higher ==> !count_occurs(counters, guild_id, token, c)) {
        assert forall|c: u32| above_lower.contains(c) implies above_higher.insert(
            higher,
        ).contains(c) by {
            if c < higher {
                assert(count_occurs(counters, guild_id, token, c));
            }
        }
        assert(above_lower =~= above_higher.insert(higher));
    }
}

} // verus!
