//! Filling a chat with exchanges: a user's message and the assistant's reply
//! to it, stored one after the other in the tenant's scope.

use vstd::prelude::*;
use crate::ids::{random_id, TimeOrderedIds};
use crate::model::{
    AccessScope, DomainError, InsertAssistantMessageParams, InsertUserMessageParams, Message, Role,
};
use crate::service::{limit_cfg, MessageRepository};
use crate::store::{chat_accessible, message_id_taken, Database, DbView};

verus! {

broadcast use vstd::seq_lib::group_seq_properties;

/// The ids of an exchange: `(request_id, user_message_id, assistant_message_id)`.
pub type ExchangeIds = (u128, u128, u128);

/// The message ids in the order in which they are written: the user's and then
/// the assistant's, exchange by exchange.
pub open spec fn write_ids(ids: Seq<ExchangeIds>) -> Seq<u128> {
    Seq::new(2 * ids.len(), |j: int| if j % 2 == 0 { ids[j / 2].1 } else { ids[j / 2].2 })
}

/// Why the write of message `j` fails, when all the writes before it succeeded:
/// the chat is not the tenant's; or the id is taken, by a stored message or by an
/// earlier write; or the clock has no time left.
pub open spec fn write_error(
    db: DbView,
    tenant_id: u128,
    chat_id: u128,
    w: Seq<u128>,
    j: int,
) -> Option<DomainError> {
    if !chat_accessible(db.chats, chat_id, tenant_id) {
        Some(DomainError::ChatNotFound { chat_id })
    } else if message_id_taken(db.messages, w[j]) || exists|k: int| 0 <= k < j && w[k] == w[j] {
        Some(DomainError::IdConflict { id: w[j] })
    } else if db.clock + j >= u64::MAX {
        Some(DomainError::StorageExhausted)
    } else {
        None
    }
}

/// How many writes succeed, counting on from write `j`.
pub open spec fn writes_done(db: DbView, tenant_id: u128, chat_id: u128, w: Seq<u128>, j: nat) -> nat
    decreases w.len() - j,
{
    if j >= w.len() {
        w.len()
    } else if write_error(db, tenant_id, chat_id, w, j as int) is Some {
        j
    } else {
        writes_done(db, tenant_id, chat_id, w, j + 1)
    }
}

/// `m` is the `j`-th message written: for even `j` the user's `"Hello"`, for odd
/// `j` the assistant's `"Hi there!"` (10 tokens in, 20 out, model `"gpt-5.2"`),
/// under the ids of exchange `j / 2`, stamped with time `t`.
pub open spec fn written_message(
    m: Message,
    tenant_id: u128,
    chat_id: u128,
    ids: Seq<ExchangeIds>,
    j: int,
    t: int,
) -> bool {
    let (request_id, user_id, assistant_id) = ids[j / 2];
    &&& m.tenant_id == tenant_id
    &&& m.chat_id == chat_id
    &&& m.request_id == request_id
    &&& m.created_at == t
    &&& m.provider_response_id is None
    &&& if j % 2 == 0 {
        &&& m.id == user_id
        &&& m.role == Role::User
        &&& m.content@ == "Hello"@
        &&& m.input_tokens is None
        &&& m.output_tokens is None
        &&& m.model is None
    } else {
        &&& m.id == assistant_id
        &&& m.role == Role::Assistant
        &&& m.content@ == "Hi there!"@
        &&& m.input_tokens == Some(10u64)
        &&& m.output_tokens == Some(20u64)
        &&& (m.model matches Some(md) && md@ == "gpt-5.2"@)
    }
}

/// Message `b + j` of `s` is the `j`-th message written, from clock `clock` on.
pub open spec fn written_at(
    s: Seq<Message>,
    b: int,
    tenant_id: u128,
    chat_id: u128,
    ids: Seq<ExchangeIds>,
    j: int,
    clock: int,
) -> bool {
    written_message(s[b + j], tenant_id, chat_id, ids, j, clock + j)
}

/// What storing the exchanges `ids`, in order, gives and leaves: the writes
/// before the first failing one are stored (and stay), nothing after it is
/// written, and the result is that failure, or `Ok` when every write succeeds.
pub open spec fn exchanges_outcome(
    before: DbView,
    after: DbView,
    r: Result<(), DomainError>,
    tenant_id: u128,
    chat_id: u128,
    ids: Seq<ExchangeIds>,
) -> bool {
    let w = write_ids(ids);
    let f = writes_done(before, tenant_id, chat_id, w, 0);
    let b = before.messages.len() as int;
    &&& after.chats == before.chats
    &&& after.clock == before.clock + f
    &&& after.messages.len() == b + f
    &&& after.messages.subrange(0, b) == before.messages
    &&& forall|j: int|
        0 <= j < f ==> #[trigger] written_at(
            after.messages,
            b,
            tenant_id,
            chat_id,
            ids,
            j,
            before.clock as int,
        )
    &&& r == if f == w.len() {
        Ok(())
    } else {
        Err(write_error(before, tenant_id, chat_id, w, f as int).unwrap())
    }
}

/// Request ids are version-4 UUIDs, message ids version-7 UUIDs, and the message
/// ids increase in the order in which they are written.
pub open spec fn fresh_exchange_ids(ids: Seq<ExchangeIds>) -> bool {
    &&& forall|k: int|
        0 <= k < ids.len() ==> ((#[trigger] ids[k]).0 >> 76u128) & 0xfu128 == 4u128 && (ids[k].0
            >> 62u128) & 0x3u128 == 2u128 && (ids[k].1 >> 76u128) & 0xfu128 == 7u128 && (ids[k].1
            >> 62u128) & 0x3u128 == 2u128 && (ids[k].2 >> 76u128) & 0xfu128 == 7u128 && (ids[k].2
            >> 62u128) & 0x3u128 == 2u128
    &&& forall|a: int, c: int|
        0 <= a < c < write_ids(ids).len() ==> #[trigger] write_ids(ids)[a] < #[trigger] write_ids(
            ids,
        )[c]
}

proof fn lemma_writes_done_bounded(db: DbView, tenant_id: u128, chat_id: u128, w: Seq<u128>, j: nat)
    requires
        j <= w.len(),
    ensures
        j <= writes_done(db, tenant_id, chat_id, w, j) <= w.len(),
        writes_done(db, tenant_id, chat_id, w, j) < w.len() ==> write_error(
            db,
            tenant_id,
            chat_id,
            w,
            writes_done(db, tenant_id, chat_id, w, j) as int,
        ) is Some,
    decreases w.len() - j,
{
    if j < w.len() && write_error(db, tenant_id, chat_id, w, j as int) is None {
        lemma_writes_done_bounded(db, tenant_id, chat_id, w, j + 1);
    }
}

/// The stored messages past `b` have ids `w[0..j]`: then an id is taken in the
/// store exactly when it was taken before or is one of those.
proof fn lemma_taken_after_writes(
    before: Seq<Message>,
    cur: Seq<Message>,
    w: Seq<u128>,
    j: int,
    id: u128,
)
    requires
        0 <= j <= w.len(),
        cur.len() == before.len() + j,
        cur.subrange(0, before.len() as int) == before,
        forall|k: int| 0 <= k < j ==> #[trigger] cur[before.len() + k].id == w[k],
    ensures
        message_id_taken(cur, id) == (message_id_taken(before, id) || exists|k: int|
            0 <= k < j && w[k] == id),
{
    let b = before.len() as int;
    if message_id_taken(cur, id) {
        let i = choose|i: int| 0 <= i < cur.len() && #[trigger] cur[i].id == id;
        if i < b {
            assert(before[i] == cur.subrange(0, b)[i]);
        } else {
            assert(cur[b + (i - b)].id == w[i - b]);
        }
    }
    if message_id_taken(before, id) {
        let i = choose|i: int| 0 <= i < before.len() && #[trigger] before[i].id == id;
        assert(cur.subrange(0, b)[i] == cur[i]);
    }
    if exists|k: int| 0 <= k < j && w[k] == id {
        let k = choose|k: int| 0 <= k < j && w[k] == id;
        assert(cur[b + k].id == w[k]);
    }
}

/// Stores the given exchanges in a chat of the tenant, in the tenant's scope, one
/// write after the other, stopping at the first write that fails.
pub fn insert_message_pairs_with_ids(
    db: &mut Database,
    tenant_id: u128,
    chat_id: u128,
    ids: &Vec<ExchangeIds>,
) -> (r: Result<(), DomainError>)
    requires
        old(db)@.wf(),
    ensures
        final(db)@.wf(),
        exchanges_outcome(old(db)@, final(db)@, r, tenant_id, chat_id, ids@),
{
    let scope = AccessScope::for_tenant(tenant_id);
    let repo = MessageRepository::new(limit_cfg());
    let ghost orig = db@;
    let ghost w = write_ids(ids@);
    let ghost b = orig.messages.len() as int;
    let n = ids.len();
    let mut k: usize = 0;
    while k < n
        invariant
            n == ids@.len(),
            k <= n,
            orig == old(db)@,
            w == write_ids(ids@),
            b == orig.messages.len(),
            scope.tenant_id == tenant_id,
            db@.wf(),
            db@.chats == orig.chats,
            db@.clock == orig.clock + 2 * k,
            db@.messages.len() == b + 2 * k,
            db@.messages.subrange(0, b) == orig.messages,
            forall|j: int|
                0 <= j < 2 * k ==> #[trigger] written_at(
                    db@.messages,
                    b,
                    tenant_id,
                    chat_id,
                    ids@,
                    j,
                    orig.clock as int,
                ),
            writes_done(orig, tenant_id, chat_id, w, 0) == writes_done(
                orig,
                tenant_id,
                chat_id,
                w,
                (2 * k) as nat,
            ),
        decreases n - k,
    {
        let (request_id, user_id, assistant_id) = ids[k];
        let ghost j = 2 * k as int;
        assert(w[j] == user_id && w[j + 1] == assistant_id);
        proof {
            assert forall|i: int| 0 <= i < j implies #[trigger] db@.messages[b + i].id == w[i] by {
                assert(written_at(db@.messages, b, tenant_id, chat_id, ids@, i, orig.clock as int));
            }
            lemma_taken_after_writes(orig.messages, db@.messages, w, j, user_id);
        }
        let ghost before_user = db@;
        let user = InsertUserMessageParams {
            id: user_id,
            tenant_id,
            chat_id,
            request_id,
            content: String::from_str("Hello"),
        };
        match repo.insert_user_message(db, &scope, user) {
            Ok(_) => {},
            Err(e) => {
                assert(write_error(orig, tenant_id, chat_id, w, j) == Some(e));
                assert(db@ == before_user);
                return Err(e);
            },
        }
        assert(write_error(orig, tenant_id, chat_id, w, j) is None);
        assert(writes_done(orig, tenant_id, chat_id, w, j as nat) == writes_done(
            orig,
            tenant_id,
            chat_id,
            w,
            (j + 1) as nat,
        ));
        assert(db@.messages.subrange(0, b) =~= orig.messages) by {
            assert forall|i: int| 0 <= i < b implies db@.messages[i] == orig.messages[i] by {
                assert(db@.messages[i] == before_user.messages[i]);
                assert(before_user.messages.subrange(0, b)[i] == orig.messages[i]);
            }
        }
        assert(db@.messages[b + j] == db@.messages.last());
        assert(written_at(db@.messages, b, tenant_id, chat_id, ids@, j, orig.clock as int));
        proof {
            assert forall|i: int| 0 <= i < j + 1 implies #[trigger] db@.messages[b + i].id == w[i] by {
                if i < j {
                    assert(db@.messages[b + i] == before_user.messages[b + i]);
                    assert(written_at(
                        before_user.messages,
                        b,
                        tenant_id,
                        chat_id,
                        ids@,
                        i,
                        orig.clock as int,
                    ));
                }
            }
            lemma_taken_after_writes(orig.messages, db@.messages, w, j + 1, assistant_id);
        }
        let ghost before_assistant = db@;
        let assistant = InsertAssistantMessageParams {
            id: assistant_id,
            tenant_id,
            chat_id,
            request_id,
            content: String::from_str("Hi there!"),
            input_tokens: Some(10),
            output_tokens: Some(20),
            model: Some(String::from_str("gpt-5.2")),
            provider_response_id: None,
        };
        match repo.insert_assistant_message(db, &scope, assistant) {
            Ok(_) => {},
            Err(e) => {
                assert(write_error(orig, tenant_id, chat_id, w, j + 1) == Some(e));
                assert(writes_done(orig, tenant_id, chat_id, w, (j + 1) as nat) == j + 1);
                assert(db@ == before_assistant);
                proof {
                    assert(db@.messages.subrange(0, b) =~= orig.messages) by {
                        assert forall|i: int| 0 <= i < b implies db@.messages[i]
                            == orig.messages[i] by {
                            assert(db@.messages[i] == before_user.messages[i]);
                            assert(before_user.messages.subrange(0, b)[i] == orig.messages[i]);
                        }
                    }
                    assert forall|i: int| 0 <= i < j + 1 implies #[trigger] written_at(
                        db@.messages,
                        b,
                        tenant_id,
                        chat_id,
                        ids@,
                        i,
                        orig.clock as int,
                    ) by {
                        if i < j {
                            assert(db@.messages[b + i] == before_user.messages[b + i]);
                            assert(written_at(
                                before_user.messages,
                                b,
                                tenant_id,
                                chat_id,
                                ids@,
                                i,
                                orig.clock as int,
                            ));
                        }
                    }
                }
                return Err(e);
            },
        }
        assert(write_error(orig, tenant_id, chat_id, w, j + 1) is None);
        assert(writes_done(orig, tenant_id, chat_id, w, (j + 1) as nat) == writes_done(
            orig,
            tenant_id,
            chat_id,
            w,
            (j + 2) as nat,
        ));
        proof {
            let s = db@.messages;
            assert(s.subrange(0, b) =~= orig.messages) by {
                assert forall|i: int| 0 <= i < b implies s[i] == orig.messages[i] by {
                    assert(s[i] == before_user.messages[i]);
                    assert(before_user.messages.subrange(0, b)[i] == orig.messages[i]);
                }
            }
            assert forall|i: int| 0 <= i < j + 2 implies #[trigger] written_at(
                s,
                b,
                tenant_id,
                chat_id,
                ids@,
                i,
                orig.clock as int,
            ) by {
                if i < j {
                    assert(s[b + i] == before_user.messages[b + i]);
                    assert(written_at(
                        before_user.messages,
                        b,
                        tenant_id,
                        chat_id,
                        ids@,
                        i,
                        orig.clock as int,
                    ));
                } else if i == j {
                    assert(s[b + i] == before_assistant.messages[b + i]);
                }
            }
        }
        k = k + 1;
    }
    Ok(())
}

/// Stores `count` exchanges in a chat of the tenant, with fresh ids: a random
/// request id (version-4 UUID) per exchange, and time-ordered message ids
/// (version-7 UUIDs) that increase in the order of writing. Whatever ids came
/// back, the outcome is that of `insert_message_pairs_with_ids` with them.
///
/// The chat must be the tenant's (when there is anything to store) and the
/// clock must have the `2 * count` times left. Then the only write that can
/// fail is one whose freshly drawn id happens to be taken by a stored message;
/// that chance no precondition can rule out, and the call then stops with
/// `IdConflict`, keeping what it wrote before.
pub fn insert_message_pairs(db: &mut Database, tenant_id: u128, chat_id: u128, count: usize) -> (r:
    Result<(), DomainError>)
    requires
        old(db)@.wf(),
        count > 0 ==> chat_accessible(old(db)@.chats, chat_id, tenant_id),
        old(db)@.clock + 2 * count <= u64::MAX,
    ensures
        final(db)@.wf(),
        exists|ids: Seq<ExchangeIds>|
            ids.len() == count && fresh_exchange_ids(ids) && #[trigger] exchanges_outcome(
                old(db)@,
                final(db)@,
                r,
                tenant_id,
                chat_id,
                ids,
            ),
        count == 0 ==> r == Ok::<(), DomainError>(()) && final(db)@ == old(db)@,
        r is Ok || r matches Err(DomainError::IdConflict { .. }),
        r matches Err(DomainError::IdConflict { id }) ==> message_id_taken(old(db)@.messages, id),
{
    let mut ids: Vec<ExchangeIds> = Vec::new();
    let mut source = TimeOrderedIds::new();
    let mut i: usize = 0;
    while i < count
        invariant
            i <= count,
            ids@.len() == i,
            fresh_exchange_ids(ids@),
            forall|a: int| 0 <= a < write_ids(ids@).len() ==> #[trigger] write_ids(ids@)[a] <= source.last(),
        decreases count - i,
    {
        let request_id = random_id();
        let user_id = source.next();
        let assistant_id = source.next();
        let ghost old_ids = ids@;
        ids.push((request_id, user_id, assistant_id));
        proof {
            let wo = write_ids(old_ids);
            let wn = write_ids(ids@);
            assert forall|a: int| 0 <= a < wo.len() implies wn[a] == wo[a] by {
                assert(ids@[a / 2] == old_ids[a / 2]);
            }
            assert(wn[2 * i] == user_id);
            assert(wn[2 * i + 1] == assistant_id);
            assert forall|a: int, c: int| 0 <= a < c < wn.len() implies #[trigger] wn[a]
                < #[trigger] wn[c] by {
                if c < wo.len() {
                    assert(wn[a] == wo[a] && wn[c] == wo[c]);
                } else if a < wo.len() {
                    assert(wn[a] == wo[a]);
                }
            }
            assert forall|k: int| 0 <= k < ids@.len() implies ((#[trigger] ids@[k]).0 >> 76u128)
                & 0xfu128 == 4u128 && (ids@[k].0 >> 62u128) & 0x3u128 == 2u128 && (ids@[k].1
                >> 76u128) & 0xfu128 == 7u128 && (ids@[k].1 >> 62u128) & 0x3u128 == 2u128 && (
            ids@[k].2 >> 76u128) & 0xfu128 == 7u128 && (ids@[k].2 >> 62u128) & 0x3u128 == 2u128 by {
                if k < i {
                    assert(ids@[k] == old_ids[k]);
                }
            }
            assert forall|a: int| 0 <= a < wn.len() implies #[trigger] wn[a] <= source.last() by {
                if a < wo.len() {
                    assert(wn[a] == wo[a]);
                }
            }
        }
        i = i + 1;
    }
    let r = insert_message_pairs_with_ids(db, tenant_id, chat_id, &ids);
    proof {
        let w = write_ids(ids@);
        let f = writes_done(old(db)@, tenant_id, chat_id, w, 0);
        lemma_writes_done_bounded(old(db)@, tenant_id, chat_id, w, 0);
        assert(exchanges_outcome(old(db)@, db@, r, tenant_id, chat_id, ids@));
        if count == 0 {
            assert(db@.messages =~= old(db)@.messages);
        }
        if f < w.len() {
            assert(count > 0);
            assert(old(db)@.clock + f < u64::MAX);
        }
        if let Err(DomainError::IdConflict { id }) = r {
            assert(f < w.len());
            assert(write_error(old(db)@, tenant_id, chat_id, w, f as int) == Some(
                DomainError::IdConflict { id },
            ));
            assert(!exists|k: int| 0 <= k < f && w[k] == w[f as int]);
        }
    }
    r
}

} // verus!
