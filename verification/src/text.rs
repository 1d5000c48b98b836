//! Texts: equality and order, splitting into lines, comparing lists as
//! multisets, lower case, and decimal rendering of numbers.

use vstd::multiset::lemma_multiset_empty_len;
use vstd::prelude::*;
use vstd::seq_lib::{
    lemma_multiset_commutative, to_multiset_build, to_multiset_contains, to_multiset_len,
    to_multiset_remove,
};
use vstd::string::StringExecFns;

verus! {

/// Equality of string slices, `<str as PartialEq>::eq` of the standard
/// library: two slices are equal exactly when they hold the same characters.
pub assume_specification[ <str as PartialEq>::eq ](a: &str, b: &str) -> (r: bool)
    ensures
        r == (a@ == b@),
;

/// The characters of a text, one by one.
pub fn chars_of(s: &str) -> (r: Vec<char>)
    ensures
        r@ == s@,
{
    let mut r: Vec<char> = Vec::new();
    for c in it: s.chars()
        invariant
            it.seq() == s@,
            r@ == it.seq().subrange(0, it.index() as int),
    {
        r.push(c);
        assert(r@ =~= it.seq().subrange(0, it.index() + 1));
    }
    assert(r@ =~= s@);
    r
}

/// The pieces of `s` between its line feeds, in order. A text without a line
/// feed is one piece; a line feed at the very end leaves an empty last piece.
pub open spec fn split_lines(s: Seq<char>) -> Seq<Seq<char>>
    decreases s.len(),
{
    if s.len() == 0 {
        seq![Seq::<char>::empty()]
    } else {
        let before = split_lines(s.drop_last());
        if s.last() == '\n' {
            before.push(Seq::<char>::empty())
        } else {
            before.drop_last().push(before.last().push(s.last()))
        }
    }
}

/// The texts that a vector of string slices holds.
pub open spec fn slice_views(v: Seq<&str>) -> Seq<Seq<char>> {
    Seq::new(v.len(), |i: int| v[i]@)
}

/// The texts that a vector of strings holds.
pub open spec fn string_views(v: Seq<String>) -> Seq<Seq<char>> {
    Seq::new(v.len(), |i: int| v[i]@)
}

/// Splits `s` at every line feed.
pub fn lines<'a>(s: &'a str) -> (pieces: Vec<&'a str>)
    ensures
        slice_views(pieces@) == split_lines(s@),
{
    let chars = chars_of(s);
    let n = chars.len();
    let mut pieces: Vec<&'a str> = Vec::new();
    let mut start: usize = 0;
    let mut i: usize = 0;
    assert(s@.subrange(0, 0) =~= Seq::<char>::empty());
    assert(slice_views(pieces@).push(s@.subrange(0, 0)) =~= split_lines(s@.subrange(0, 0)));
    while i < n
        invariant
            n == s@.len(),
            chars@ == s@,
            start <= i <= n,
            slice_views(pieces@).push(s@.subrange(start as int, i as int)) == split_lines(
                s@.subrange(0, i as int),
            ),
        decreases n - i,
    {
        let c = chars[i];
        let ghost prefix = s@.subrange(0, i as int + 1);
        proof {
            assert(prefix.drop_last() =~= s@.subrange(0, i as int));
            assert(prefix.last() == c);
        }
        if c == '\n' {
            let piece = s.substring_char(start, i);
            let ghost before = slice_views(pieces@);
            pieces.push(piece);
            proof {
                assert(slice_views(pieces@) =~= before.push(piece@));
                assert(s@.subrange(i as int + 1, i as int + 1) =~= Seq::<char>::empty());
            }
            start = i + 1;
        } else {
            proof {
                let before = split_lines(prefix.drop_last());
                assert(before.drop_last() =~= slice_views(pieces@));
                assert(before.last() == s@.subrange(start as int, i as int));
                assert(s@.subrange(start as int, i as int).push(c) =~= s@.subrange(
                    start as int,
                    i as int + 1,
                ));
            }
        }
        i += 1;
    }
    let piece = s.substring_char(start, n);
    let ghost before = slice_views(pieces@);
    pieces.push(piece);
    proof {
        assert(slice_views(pieces@) =~= before.push(piece@));
        assert(s@.subrange(0, n as int) =~= s@);
    }
    pieces
}

/// The first place in `list` that holds `wanted`, if there is one.
pub fn position_of<'a>(list: &Vec<&'a str>, wanted: &str) -> (r: Option<usize>)
    ensures
        match r {
            Some(k) => k < list@.len() && list@[k as int]@ == wanted@ && forall|q: int|
                0 <= q < k ==> list@[q]@ != wanted@,
            None => forall|q: int| 0 <= q < list@.len() ==> list@[q]@ != wanted@,
        },
{
    let m = list.len();
    let mut k: usize = 0;
    while k < m
        invariant
            m == list@.len(),
            k <= m,
            forall|q: int| 0 <= q < k ==> list@[q]@ != wanted@,
        decreases m - k,
    {
        if list[k].eq(wanted) {
            return Some(k);
        }
        k += 1;
    }
    None
}

/// Whether two lists of texts hold the same texts the same number of times,
/// in whatever order.
pub fn same_texts<'a>(a: &Vec<&'a str>, b: &Vec<String>) -> (r: bool)
    ensures
        r == (slice_views(a@).to_multiset() =~= string_views(b@).to_multiset()),
{
    let ghost left = slice_views(a@);
    let ghost right = string_views(b@);
    proof {
        to_multiset_len(left);
        to_multiset_len(right);
    }
    if a.len() != b.len() {
        return false;
    }
    let n = a.len();
    let mut remaining: Vec<&str> = Vec::new();
    let mut j: usize = 0;
    while j < n
        invariant
            n == b@.len(),
            j <= n,
            right == string_views(b@),
            slice_views(remaining@) == right.subrange(0, j as int),
        decreases n - j,
    {
        let ghost before = slice_views(remaining@);
        remaining.push(b[j].as_str());
        proof {
            assert(slice_views(remaining@) =~= before.push(right[j as int]));
            assert(right.subrange(0, j as int + 1) =~= before.push(right[j as int]));
        }
        j += 1;
    }
    proof {
        assert(right.subrange(0, n as int) =~= right);
        assert(left.subrange(0, 0) =~= Seq::<Seq<char>>::empty());
        to_multiset_len(left.subrange(0, 0));
        lemma_multiset_empty_len(left.subrange(0, 0).to_multiset());
    }
    let mut i: usize = 0;
    while i < n
        invariant
            n == a@.len(),
            i <= n,
            left == slice_views(a@),
            right == string_views(b@),
            left.subrange(0, i as int).to_multiset().add(slice_views(remaining@).to_multiset())
                =~= right.to_multiset(),
        decreases n - i,
    {
        let wanted = a[i];
        let position = position_of(&remaining, wanted);
        let ghost rest = slice_views(remaining@);
        let ghost done = left.subrange(0, i as int);
        let ghost next = left.subrange(0, i as int + 1);
        proof {
            assert(next =~= done.push(wanted@));
            to_multiset_build(done, wanted@);
        }
        let k = match position {
            Some(k) => k,
            None => {
                proof {
                assert(!rest.contains(wanted@)) by {
                    if rest.contains(wanted@) {
                        let q = choose|q: int| 0 <= q < rest.len() && rest[q] == wanted@;
                        assert(remaining@[q]@ == wanted@);
                    }
                }
                to_multiset_contains(rest, wanted@);
                let tail = left.subrange(i as int + 1, n as int);
                assert(left =~= next + tail);
                lemma_multiset_commutative(next, tail);
                    assert(left.to_multiset().count(wanted@) > right.to_multiset().count(
                        wanted@,
                    ));
                    assert(left.to_multiset() != right.to_multiset());
                }
                return false;
            },
        };
        remaining.remove(k);
        proof {
            to_multiset_remove(rest, k as int);
            assert(slice_views(remaining@) =~= rest.remove(k as int));
            to_multiset_contains(rest, wanted@);
            assert(rest.contains(wanted@)) by {
                assert(rest[k as int] == wanted@);
            }
        }
        i += 1;
    }
    proof {
        assert(left.subrange(0, n as int) =~= left);
        to_multiset_len(slice_views(remaining@));
        assert(slice_views(remaining@).to_multiset().len() == 0);
        lemma_multiset_empty_len(slice_views(remaining@).to_multiset());
    }
    true
}

/// The lower-case form of a text, as `str::to_lowercase` of the standard
/// library gives it.
pub uninterp spec fn lowercase(s: Seq<char>) -> Seq<char>;

/// Lower-cases a text with `str::to_lowercase` of the standard library. The
/// result is a function of the text alone, named `lowercase`.
#[verifier::external_body]
pub(crate) fn to_lowercase(s: &str) -> (r: String)
    ensures
        r@ == lowercase(s@),
{
    s.to_lowercase()
}

/// Whether `a` comes before `b` or equals it in the order of texts: character
/// by character, by the characters' code points, a text before any longer
/// text that starts with it.
pub open spec fn text_le(a: Seq<char>, b: Seq<char>) -> bool
    decreases a.len(),
{
    if a.len() == 0 {
        true
    } else if b.len() == 0 {
        false
    } else if a[0] != b[0] {
        (a[0] as int) < (b[0] as int)
    } else {
        text_le(a.drop_first(), b.drop_first())
    }
}

/// Of two texts, one comes before the other or equals it.
pub proof fn lemma_text_le_total(a: Seq<char>, b: Seq<char>)
    ensures
        text_le(a, b) || text_le(b, a),
    decreases a.len(),
{
    if a.len() > 0 && b.len() > 0 && a[0] == b[0] {
        lemma_text_le_total(a.drop_first(), b.drop_first());
    }
}

/// Two texts of which each comes before the other or equals it are equal.
pub proof fn lemma_text_le_antisymmetric(a: Seq<char>, b: Seq<char>)
    requires
        text_le(a, b),
        text_le(b, a),
    ensures
        a == b,
    decreases a.len(),
{
    if a.len() == 0 || b.len() == 0 {
        assert(a =~= b);
    } else {
        lemma_text_le_antisymmetric(a.drop_first(), b.drop_first());
        assert(a =~= seq![a[0]] + a.drop_first());
        assert(b =~= seq![b[0]] + b.drop_first());
    }
}

/// The order of texts is transitive.
pub proof fn lemma_text_le_transitive(a: Seq<char>, b: Seq<char>, c: Seq<char>)
    requires
        text_le(a, b),
        text_le(b, c),
    ensures
        text_le(a, c),
    decreases a.len(),
{
    if a.len() > 0 && b.len() > 0 && c.len() > 0 && a[0] == b[0] && b[0] == c[0] {
        lemma_text_le_transitive(a.drop_first(), b.drop_first(), c.drop_first());
    }
}

/// Texts that agree on their first `i` characters compare as what follows
/// those characters compares.
proof fn lemma_text_le_skips_common_prefix(a: Seq<char>, b: Seq<char>, i: int)
    requires
        0 <= i <= a.len(),
        i <= b.len(),
        forall|k: int| 0 <= k < i ==> a[k] == b[k],
    ensures
        text_le(a, b) == text_le(a.subrange(i, a.len() as int), b.subrange(i, b.len() as int)),
    decreases i,
{
    if i == 0 {
        assert(a.subrange(0, a.len() as int) =~= a);
        assert(b.subrange(0, b.len() as int) =~= b);
    } else {
        lemma_text_le_skips_common_prefix(a.drop_first(), b.drop_first(), i - 1);
        assert(a.drop_first().subrange(i - 1, a.len() - 1) =~= a.subrange(i, a.len() as int));
        assert(b.drop_first().subrange(i - 1, b.len() - 1) =~= b.subrange(i, b.len() as int));
    }
}

/// Compares two texts in the order of texts.
pub fn is_text_le(a: &str, b: &str) -> (r: bool)
    ensures
        r == text_le(a@, b@),
{
    let left = chars_of(a);
    let right = chars_of(b);
    let n = left.len();
    let m = right.len();
    let mut i: usize = 0;
    while i < n && i < m
        invariant
            n == a@.len(),
            m == b@.len(),
            left@ == a@,
            right@ == b@,
            i <= n,
            i <= m,
            forall|k: int| 0 <= k < i ==> a@[k] == b@[k],
        decreases n - i,
    {
        let x = left[i];
        let y = right[i];
        if x != y {
            proof {
                lemma_text_le_skips_common_prefix(a@, b@, i as int);
            }
            return x < y;
        }
        i += 1;
    }
    proof {
        lemma_text_le_skips_common_prefix(a@, b@, i as int);
    }
    i == n
}

/// The character of a decimal digit.
pub open spec fn digit_char(d: nat) -> char {
    if d == 0 {
        '0'
    } else if d == 1 {
        '1'
    } else if d == 2 {
        '2'
    } else if d == 3 {
        '3'
    } else if d == 4 {
        '4'
    } else if d == 5 {
        '5'
    } else if d == 6 {
        '6'
    } else if d == 7 {
        '7'
    } else if d == 8 {
        '8'
    } else {
        '9'
    }
}

/// The decimal digits of a natural number, without leading zeros.
pub open spec fn decimal(n: nat) -> Seq<char>
    decreases n,
{
    if n < 10 {
        seq![digit_char(n)]
    } else {
        decimal(n / 10).push(digit_char(n % 10))
    }
}

/// The decimal form of a whole number, with a minus sign where it is
/// negative.
pub open spec fn signed_decimal(v: int) -> Seq<char> {
    if v < 0 {
        seq!['-'] + decimal((-v) as nat)
    } else {
        decimal(v as nat)
    }
}

/// The text of one decimal digit.
fn digit_text(d: u64) -> (r: &'static str)
    requires
        d < 10,
    ensures
        r@ == seq![digit_char(d as nat)],
{
    proof {
        reveal_strlit("0");
        reveal_strlit("1");
        reveal_strlit("2");
        reveal_strlit("3");
        reveal_strlit("4");
        reveal_strlit("5");
        reveal_strlit("6");
        reveal_strlit("7");
        reveal_strlit("8");
        reveal_strlit("9");
    }
    let r = if d == 0 {
        "0"
    } else if d == 1 {
        "1"
    } else if d == 2 {
        "2"
    } else if d == 3 {
        "3"
    } else if d == 4 {
        "4"
    } else if d == 5 {
        "5"
    } else if d == 6 {
        "6"
    } else if d == 7 {
        "7"
    } else if d == 8 {
        "8"
    } else {
        "9"
    };
    assert(r@ =~= seq![digit_char(d as nat)]);
    r
}

/// Writes a number in decimal.
pub fn u64_to_text(n: u64) -> (r: String)
    ensures
        r@ == decimal(n as nat),
    decreases n,
{
    if n < 10 {
        String::from_str(digit_text(n))
    } else {
        let mut r = u64_to_text(n / 10);
        r.append(digit_text(n % 10));
        assert(r@ =~= decimal(n as nat));
        r
    }
}

/// Writes a whole number in decimal, with a minus sign where it is negative.
pub fn i64_to_text(v: i64) -> (r: String)
    ensures
        r@ == signed_decimal(v as int),
{
    if v < 0 {
        let magnitude: u64 = ((-(v + 1)) as u64) + 1;
        proof {
            reveal_strlit("-");
        }
        let mut r = String::from_str("-");
        let digits = u64_to_text(magnitude);
        r.append(digits.as_str());
        assert(r@ =~= signed_decimal(v as int));
        r
    } else {
        u64_to_text(v as u64)
    }
}

} // verus!
