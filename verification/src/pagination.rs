//! Which slice of a chronological message list a page holds, and the cursors
//! that lead to its neighbours.
//!
//! A page is the slice `[lo, hi)` of the chat's messages in chronological order:
//! - without a cursor, the first `limit` messages;
//! - with a forward cursor, the first `limit` messages whose key `(created_at, id)`
//!   comes after the cursor's key;
//! - with a backward cursor, the last `limit` messages whose key comes before it.
//!
//! A non-empty page has a next cursor (forward, at its last message) when
//! messages follow it, and a previous cursor (backward, at its first message)
//! when messages precede it.

use vstd::prelude::*;
use crate::cursor::{cursor_token, lemma_token_roundtrip, token_cursor, CursorV1, Direction};
use crate::model::Message;

verus! {

broadcast use vstd::seq_lib::group_seq_properties;

/// Messages in strictly increasing `created_at` order.
pub open spec fn chronological(s: Seq<Message>) -> bool {
    forall|i: int, j: int| 0 <= i < j < s.len() ==> s[i].created_at < s[j].created_at
}

/// Whether `m`'s key `(created_at, id)` comes before the cursor's key, or, when
/// `inclusive`, is equal to it.
pub open spec fn precedes(m: Message, c: CursorV1, inclusive: bool) -> bool {
    ||| m.created_at < c.created_at
    ||| (m.created_at == c.created_at && (m.id < c.id || (inclusive && m.id == c.id)))
}

/// How many messages of `s` precede the cursor's key.
pub open spec fn count_preceding(s: Seq<Message>, c: CursorV1, inclusive: bool) -> nat
    decreases s.len(),
{
    if s.len() == 0 {
        0
    } else {
        count_preceding(s.drop_last(), c, inclusive) + if precedes(s.last(), c, inclusive) {
            1nat
        } else {
            0nat
        }
    }
}

pub open spec fn min_nat(a: nat, b: nat) -> nat {
    if a <= b {
        a
    } else {
        b
    }
}

/// The slice `[lo, hi)` of `s` that a page of at most `limit` items holds.
pub open spec fn page_bounds(s: Seq<Message>, limit: nat, cursor: Option<CursorV1>) -> (nat, nat) {
    match cursor {
        None => (0, min_nat(limit, s.len())),
        Some(c) => match c.direction {
            Direction::Forward => {
                let lo = count_preceding(s, c, true);
                (lo, min_nat(lo + limit, s.len()))
            },
            Direction::Backward => {
                let hi = count_preceding(s, c, false);
                (if hi >= limit {
                    (hi - limit) as nat
                } else {
                    0
                }, hi)
            },
        },
    }
}

/// The cursor at a message's key.
pub open spec fn cursor_at(m: Message, d: Direction) -> CursorV1 {
    CursorV1 { created_at: m.created_at, id: m.id, direction: d }
}

/// The token of the cursor to the page after `[lo, hi)`, if any.
pub open spec fn next_token(s: Seq<Message>, lo: nat, hi: nat) -> Option<Seq<char>> {
    if lo < hi && hi < s.len() {
        Some(cursor_token(cursor_at(s[hi - 1], Direction::Forward)))
    } else {
        None
    }
}

/// The token of the cursor to the page before `[lo, hi)`, if any.
pub open spec fn prev_token(s: Seq<Message>, lo: nat, hi: nat) -> Option<Seq<char>> {
    if lo < hi && lo > 0 {
        Some(cursor_token(cursor_at(s[lo as int], Direction::Backward)))
    } else {
        None
    }
}

/// A page as values: its items and the tokens to its neighbours.
pub struct PageView {
    pub items: Seq<Message>,
    pub next_cursor: Option<Seq<char>>,
    pub prev_cursor: Option<Seq<char>>,
    pub limit: nat,
}

/// The page of `s` that `limit` and `cursor` select.
pub open spec fn page_of(s: Seq<Message>, limit: nat, cursor: Option<CursorV1>) -> PageView {
    let (lo, hi) = page_bounds(s, limit, cursor);
    PageView {
        items: s.subrange(lo as int, hi as int),
        next_cursor: next_token(s, lo, hi),
        prev_cursor: prev_token(s, lo, hi),
        limit,
    }
}

proof fn lemma_count_all_precede(s: Seq<Message>, c: CursorV1, inclusive: bool)
    requires
        forall|i: int| 0 <= i < s.len() ==> precedes(#[trigger] s[i], c, inclusive),
    ensures
        count_preceding(s, c, inclusive) == s.len(),
    decreases s.len(),
{
    if s.len() > 0 {
        let p = s.drop_last();
        assert forall|i: int| 0 <= i < p.len() implies precedes(#[trigger] p[i], c, inclusive) by {
            assert(p[i] == s[i]);
        }
        lemma_count_all_precede(p, c, inclusive);
        assert(precedes(s[s.len() - 1], c, inclusive));
    }
}

/// In a chronological list, the messages that precede the key of `s[k]` are
/// those before index `k`, and `s[k]` itself when `inclusive`.
pub proof fn lemma_count_at_key(s: Seq<Message>, k: int, d: Direction, inclusive: bool)
    requires
        chronological(s),
        0 <= k < s.len(),
    ensures
        count_preceding(s, cursor_at(s[k], d), inclusive) == if inclusive {
            k + 1
        } else {
            k
        },
    decreases s.len(),
{
    let c = cursor_at(s[k], d);
    let p = s.drop_last();
    assert(chronological(p)) by {
        assert forall|i: int, j: int| 0 <= i < j < p.len() implies p[i].created_at
            < p[j].created_at by {
            assert(p[i] == s[i] && p[j] == s[j]);
        }
    }
    if k < s.len() - 1 {
        assert(p[k] == s[k]);
        lemma_count_at_key(p, k, d, inclusive);
        assert(s[k].created_at < s[s.len() - 1].created_at);
    } else {
        assert forall|i: int| 0 <= i < p.len() implies precedes(#[trigger] p[i], c, inclusive) by {
            assert(p[i] == s[i]);
            assert(s[i].created_at < s[k].created_at);
        }
        lemma_count_all_precede(p, c, inclusive);
    }
}

/// A page never holds more than `limit` items, and its bounds lie within the list.
pub proof fn lemma_page_bounds_valid(s: Seq<Message>, limit: nat, cursor: Option<CursorV1>)
    ensures
        page_bounds(s, limit, cursor).0 <= page_bounds(s, limit, cursor).1 <= s.len(),
        page_bounds(s, limit, cursor).1 - page_bounds(s, limit, cursor).0 <= limit,
{
    lemma_count_bounded(s, cursor_default(cursor), true);
    lemma_count_bounded(s, cursor_default(cursor), false);
}

spec fn cursor_default(cursor: Option<CursorV1>) -> CursorV1 {
    match cursor {
        Some(c) => c,
        None => CursorV1 { created_at: 0, id: 0, direction: Direction::Forward },
    }
}

proof fn lemma_count_bounded(s: Seq<Message>, c: CursorV1, inclusive: bool)
    ensures
        count_preceding(s, c, inclusive) <= s.len(),
    decreases s.len(),
{
    if s.len() > 0 {
        lemma_count_bounded(s.drop_last(), c, inclusive);
    }
}

/// Forward paging continues where the page left off: the page that the next
/// cursor of a page selects (with the same limit) starts right after it, and
/// the items of the two pages are consecutive slices of the list.
pub proof fn lemma_next_page_follows(s: Seq<Message>, limit: nat, cursor: Option<CursorV1>)
    requires
        chronological(s),
        page_of(s, limit, cursor).next_cursor is Some,
    ensures
        ({
            let (lo, hi) = page_bounds(s, limit, cursor);
            let t = page_of(s, limit, cursor).next_cursor.unwrap();
            &&& token_cursor(t) is Some
            &&& page_bounds(s, limit, token_cursor(t)) == (hi, min_nat(hi + limit, s.len()))
            &&& page_of(s, limit, cursor).items + page_of(s, limit, token_cursor(t)).items
                == s.subrange(lo as int, min_nat(hi + limit, s.len()) as int)
        }),
{
    let (lo, hi) = page_bounds(s, limit, cursor);
    lemma_page_bounds_valid(s, limit, cursor);
    let c = cursor_at(s[hi - 1], Direction::Forward);
    lemma_token_roundtrip(c);
    lemma_count_at_key(s, hi - 1, Direction::Forward, true);
    lemma_page_bounds_valid(s, limit, Some(c));
    assert(s.subrange(lo as int, hi as int) + s.subrange(hi as int, min_nat(hi + limit, s.len()) as int)
        =~= s.subrange(lo as int, min_nat(hi + limit, s.len()) as int));
}

/// Backward paging steps back over a full page: the previous cursor of a page
/// selects the `limit` items before it (or all of them, when fewer precede).
/// In particular, from the page that follows a full page `P`, it returns `P`.
pub proof fn lemma_prev_page_precedes(s: Seq<Message>, limit: nat, cursor: Option<CursorV1>)
    requires
        chronological(s),
        page_of(s, limit, cursor).prev_cursor is Some,
    ensures
        ({
            let (lo, hi) = page_bounds(s, limit, cursor);
            let t = page_of(s, limit, cursor).prev_cursor.unwrap();
            &&& token_cursor(t) is Some
            &&& page_bounds(s, limit, token_cursor(t)) == (if lo >= limit {
                (lo - limit) as nat
            } else {
                0
            }, lo)
        }),
{
    let (lo, hi) = page_bounds(s, limit, cursor);
    lemma_page_bounds_valid(s, limit, cursor);
    let c = cursor_at(s[lo as int], Direction::Backward);
    lemma_token_roundtrip(c);
    lemma_count_at_key(s, lo as int, Direction::Backward, false);
}

/// Going forward one page and then back one page, with the same limit, returns
/// the page one started from, when that page was full.
pub proof fn lemma_forward_then_back(s: Seq<Message>, limit: nat, cursor: Option<CursorV1>)
    requires
        chronological(s),
        page_of(s, limit, cursor).items.len() == limit,
        page_of(s, limit, cursor).next_cursor is Some,
    ensures
        ({
            let next = token_cursor(page_of(s, limit, cursor).next_cursor.unwrap());
            &&& next is Some
            &&& page_of(s, limit, next).prev_cursor is Some
            &&& token_cursor(page_of(s, limit, next).prev_cursor.unwrap()) is Some
            &&& page_of(
                s,
                limit,
                token_cursor(page_of(s, limit, next).prev_cursor.unwrap()),
            ).items == page_of(s, limit, cursor).items
        }),
{
    let (lo, hi) = page_bounds(s, limit, cursor);
    lemma_page_bounds_valid(s, limit, cursor);
    lemma_next_page_follows(s, limit, cursor);
    let next = token_cursor(page_of(s, limit, cursor).next_cursor.unwrap());
    assert(page_bounds(s, limit, next).0 == hi);
    assert(hi < s.len());
    lemma_prev_page_precedes(s, limit, next);
}

/// The first page starts at the first message; a non-empty page has no next
/// cursor exactly when it ends at the last message, and no previous cursor
/// exactly when it starts at the first. So following next cursors from the
/// first page visits every message once, in order.
pub proof fn lemma_page_ends(s: Seq<Message>, limit: nat, cursor: Option<CursorV1>)
    ensures
        page_bounds(s, limit, None).0 == 0,
        page_of(s, limit, cursor).items.len() > 0 ==> (page_of(s, limit, cursor).next_cursor
            is None <==> page_bounds(s, limit, cursor).1 == s.len()),
        page_of(s, limit, cursor).items.len() > 0 ==> (page_of(s, limit, cursor).prev_cursor
            is None <==> page_bounds(s, limit, cursor).0 == 0),
        limit >= s.len() ==> page_of(s, limit, None).items == s,
        limit >= s.len() ==> page_of(s, limit, None).next_cursor is None,
        page_of(s, limit, None).prev_cursor is None,
{
    lemma_page_bounds_valid(s, limit, cursor);
    lemma_page_bounds_valid(s, limit, None);
    assert(limit >= s.len() ==> s.subrange(0, s.len() as int) =~= s);
}

/// A slice of a chronological list is chronological.
pub proof fn lemma_page_chronological(s: Seq<Message>, limit: nat, cursor: Option<CursorV1>)
    requires
        chronological(s),
    ensures
        chronological(page_of(s, limit, cursor).items),
{
    lemma_page_bounds_valid(s, limit, cursor);
    let (lo, hi) = page_bounds(s, limit, cursor);
    let t = s.subrange(lo as int, hi as int);
    assert forall|i: int, j: int| 0 <= i < j < t.len() implies t[i].created_at
        < t[j].created_at by {
        assert(t[i] == s[lo + i] && t[j] == s[lo + j]);
    }
}

/// The items of a page and of the pages after it, following next cursors at
/// most `fuel` times.
pub open spec fn forward_walk(s: Seq<Message>, limit: nat, cursor: Option<CursorV1>, fuel: nat) -> Seq<
    Message,
>
    decreases fuel,
{
    let p = page_of(s, limit, cursor);
    if fuel == 0 {
        p.items
    } else {
        match p.next_cursor {
            None => p.items,
            Some(t) => p.items + forward_walk(s, limit, token_cursor(t), (fuel - 1) as nat),
        }
    }
}

proof fn lemma_forward_walk_from(s: Seq<Message>, limit: nat, cursor: Option<CursorV1>, fuel: nat)
    requires
        chronological(s),
        limit >= 1,
        cursor is None || cursor.unwrap().direction == Direction::Forward,
        fuel + page_bounds(s, limit, cursor).0 >= s.len(),
    ensures
        forward_walk(s, limit, cursor, fuel) == s.subrange(
            page_bounds(s, limit, cursor).0 as int,
            s.len() as int,
        ),
    decreases fuel,
{
    let (lo, hi) = page_bounds(s, limit, cursor);
    lemma_page_bounds_valid(s, limit, cursor);
    let p = page_of(s, limit, cursor);
    if p.next_cursor is Some {
        lemma_next_page_follows(s, limit, cursor);
        let next = token_cursor(p.next_cursor.unwrap());
        lemma_token_roundtrip(cursor_at(s[hi - 1], Direction::Forward));
        lemma_forward_walk_from(s, limit, next, (fuel - 1) as nat);
        assert(s.subrange(lo as int, hi as int) + s.subrange(hi as int, s.len() as int)
            =~= s.subrange(lo as int, s.len() as int));
    } else {
        assert(hi == s.len());
    }
}

/// Walking forward from the first page, following next cursors, yields every
/// message of the list exactly once, in order, and then stops.
pub proof fn lemma_forward_walk_covers(s: Seq<Message>, limit: nat)
    requires
        chronological(s),
        limit >= 1,
    ensures
        forward_walk(s, limit, None, s.len()) == s,
{
    lemma_forward_walk_from(s, limit, None, s.len());
    assert(s.subrange(0, s.len() as int) =~= s);
}

/// In a chronological list, the messages that precede a key come first: those
/// before the count precede it, those from the count on do not.
pub proof fn lemma_preceding_prefix(s: Seq<Message>, c: CursorV1, inclusive: bool)
    requires
        chronological(s),
    ensures
        count_preceding(s, c, inclusive) <= s.len(),
        forall|i: int| 0 <= i < count_preceding(s, c, inclusive) ==> precedes(#[trigger] s[i], c, inclusive),
        forall|i: int|
            count_preceding(s, c, inclusive) <= i < s.len() ==> !precedes(#[trigger] s[i], c, inclusive),
    decreases s.len(),
{
    if s.len() > 0 {
        let p = s.drop_last();
        assert(chronological(p)) by {
            assert forall|i: int, j: int| 0 <= i < j < p.len() implies p[i].created_at
                < p[j].created_at by {
                assert(p[i] == s[i] && p[j] == s[j]);
            }
        }
        lemma_preceding_prefix(p, c, inclusive);
        let last = s[s.len() - 1];
        if precedes(last, c, inclusive) {
            assert forall|i: int| 0 <= i < s.len() implies precedes(#[trigger] s[i], c, inclusive) by {
                if i < s.len() - 1 {
                    assert(s[i].created_at < last.created_at);
                }
            }
            lemma_count_all_precede(s, c, inclusive);
        } else {
            assert forall|i: int| 0 <= i < count_preceding(s, c, inclusive) implies precedes(
                #[trigger] s[i],
                c,
                inclusive,
            ) by {
                assert(s[i] == p[i]);
            }
            assert forall|i: int|
                count_preceding(s, c, inclusive) <= i < s.len() implies !precedes(
                #[trigger] s[i],
                c,
                inclusive,
            ) by {
                if i < s.len() - 1 {
                    assert(s[i] == p[i]);
                }
            }
        }
    }
}

/// What a page holds, in terms of the cursor's key. Without a cursor, the first
/// `limit` messages. With a forward cursor, messages whose key comes after the
/// cursor's key, starting at the first such message, and `limit` of them unless
/// the list ends first. With a backward cursor, messages whose key comes before
/// it, ending at the last such message, and `limit` of them unless the list
/// starts first. A page reports the limit it was made with.
pub proof fn lemma_page_contents(s: Seq<Message>, limit: nat, cursor: Option<CursorV1>)
    requires
        chronological(s),
    ensures
        ({
            let p = page_of(s, limit, cursor);
            let (lo, hi) = page_bounds(s, limit, cursor);
            &&& p.limit == limit
            &&& p.items.len() == hi - lo
            &&& forall|i: int| 0 <= i < p.items.len() ==> p.items[i] == s[lo + i]
            &&& cursor is None ==> lo == 0 && p.items.len() == if limit <= s.len() {
                limit
            } else {
                s.len()
            }
            &&& cursor matches Some(c) ==> c.direction == Direction::Forward ==> {
                &&& forall|i: int| 0 <= i < lo ==> precedes(#[trigger] s[i], c, true)
                &&& forall|i: int| 0 <= i < p.items.len() ==> !precedes(#[trigger] p.items[i], c, true)
                &&& p.items.len() == limit || hi == s.len()
            }
            &&& cursor matches Some(c) ==> c.direction == Direction::Backward ==> {
                &&& forall|i: int| hi <= i < s.len() ==> !precedes(#[trigger] s[i], c, false)
                &&& forall|i: int| 0 <= i < p.items.len() ==> precedes(#[trigger] p.items[i], c, false)
                &&& p.items.len() == limit || lo == 0
            }
        }),
{
    lemma_page_bounds_valid(s, limit, cursor);
    let (lo, hi) = page_bounds(s, limit, cursor);
    let p = page_of(s, limit, cursor);
    if let Some(c) = cursor {
        let incl = c.direction == Direction::Forward;
        lemma_preceding_prefix(s, c, incl);
        assert forall|i: int| 0 <= i < p.items.len() implies p.items[i] == s[lo + i] by {}
    }
}

} // verus!
