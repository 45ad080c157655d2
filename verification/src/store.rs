//! The in-memory database behind the repositories: chats, messages, and a
//! logical clock that stamps each message with its insertion time.

use vstd::prelude::*;
use crate::model::{Chat, DomainError, Message};
use crate::pagination::chronological;

verus! {

broadcast use vstd::seq_lib::group_seq_properties;

/// The contents of a database.
pub struct DbView {
    pub chats: Seq<Chat>,
    pub messages: Seq<Message>,
    pub clock: u64,
}

impl DbView {
    /// Messages are stored in insertion order, stamped with strictly increasing
    /// times below the clock; each belongs to a stored chat of its own tenant;
    /// no two chats and no two messages share an id.
    pub open spec fn wf(self) -> bool {
        &&& chronological(self.messages)
        &&& forall|i: int| 0 <= i < self.messages.len() ==> chat_accessible(
            self.chats,
            (#[trigger] self.messages[i]).chat_id,
            self.messages[i].tenant_id,
        )
        &&& forall|i: int| 0 <= i < self.messages.len() ==> #[trigger] self.messages[i].created_at
            < self.clock
        &&& forall|i: int, j: int|
            0 <= i < self.messages.len() && 0 <= j < self.messages.len() && i != j
                ==> #[trigger] self.messages[i].id != #[trigger] self.messages[j].id
        &&& forall|i: int, j: int|
            0 <= i < self.chats.len() && 0 <= j < self.chats.len() && i != j
                ==> #[trigger] self.chats[i].id != #[trigger] self.chats[j].id
    }
}

/// Whether a chat with this id belongs to this tenant.
pub open spec fn chat_accessible(chats: Seq<Chat>, chat_id: u128, tenant_id: u128) -> bool {
    exists|i: int| 0 <= i < chats.len() && #[trigger] chats[i].id == chat_id && chats[i].tenant_id == tenant_id
}

/// Whether some chat has this id.
pub open spec fn chat_id_taken(chats: Seq<Chat>, id: u128) -> bool {
    exists|i: int| 0 <= i < chats.len() && #[trigger] chats[i].id == id
}

/// Whether some message has this id.
pub open spec fn message_id_taken(messages: Seq<Message>, id: u128) -> bool {
    exists|i: int| 0 <= i < messages.len() && #[trigger] messages[i].id == id
}

pub open spec fn in_chat(chat_id: u128) -> spec_fn(Message) -> bool {
    |m: Message| m.chat_id == chat_id
}

/// The messages of one chat, in the order in which they are stored.
pub open spec fn chat_messages(messages: Seq<Message>, chat_id: u128) -> Seq<Message> {
    messages.filter(in_chat(chat_id))
}

/// `m` stamped with time `t`.
pub open spec fn stamped(m: Message, t: u64) -> Message {
    Message { created_at: t, ..m }
}

/// Keeping some messages of a chronological list keeps it chronological.
pub proof fn lemma_filter_chronological(s: Seq<Message>, p: spec_fn(Message) -> bool)
    requires
        chronological(s),
    ensures
        chronological(s.filter(p)),
    decreases s.len(),
{
    reveal(Seq::filter);
    if s.len() > 0 {
        let rest = s.drop_last();
        assert(chronological(rest)) by {
            assert forall|i: int, j: int| 0 <= i < j < rest.len() implies rest[i].created_at
                < rest[j].created_at by {
                assert(rest[i] == s[i] && rest[j] == s[j]);
            }
        }
        lemma_filter_chronological(rest, p);
        let f = rest.filter(p);
        if p(s.last()) {
            let g = f.push(s.last());
            assert forall|i: int, j: int| 0 <= i < j < g.len() implies g[i].created_at
                < g[j].created_at by {
                if j == g.len() - 1 {
                    assert(f.contains(f[i]));
                    rest.lemma_filter_contains_rev(p, f[i]);
                    let k = choose|k: int| 0 <= k < rest.len() && rest[k] == f[i];
                    assert(s[k] == rest[k]);
                } else {
                    assert(g[i] == f[i] && g[j] == f[j]);
                }
            }
        }
    }
}

/// The messages of a chat are chronological.
pub proof fn lemma_chat_messages_chronological(db: DbView, chat_id: u128)
    requires
        db.wf(),
    ensures
        chronological(chat_messages(db.messages, chat_id)),
{
    lemma_filter_chronological(db.messages, in_chat(chat_id));
}

/// Every message of a chat of a tenant is of that chat and that tenant: a
/// tenant's listing shows no other tenant's messages.
pub proof fn lemma_chat_messages_of_tenant(db: DbView, chat_id: u128, tenant_id: u128)
    requires
        db.wf(),
        chat_accessible(db.chats, chat_id, tenant_id),
    ensures
        forall|i: int|
            0 <= i < chat_messages(db.messages, chat_id).len() ==> (#[trigger] chat_messages(
                db.messages,
                chat_id,
            )[i]).chat_id == chat_id && chat_messages(db.messages, chat_id)[i].tenant_id
                == tenant_id,
{
    broadcast use vstd::seq_lib::group_filter_ensures;

    let cm = chat_messages(db.messages, chat_id);
    assert forall|i: int| 0 <= i < cm.len() implies (#[trigger] cm[i]).chat_id == chat_id
        && cm[i].tenant_id == tenant_id by {
        assert(in_chat(chat_id)(cm[i]));
        assert(cm.contains(cm[i]));
        db.messages.lemma_filter_contains_rev(in_chat(chat_id), cm[i]);
        let k = choose|k: int| 0 <= k < db.messages.len() && db.messages[k] == cm[i];
        assert(chat_accessible(db.chats, db.messages[k].chat_id, db.messages[k].tenant_id));
        let a = choose|a: int|
            0 <= a < db.chats.len() && #[trigger] db.chats[a].id == chat_id && db.chats[a].tenant_id
                == tenant_id;
        let b = choose|b: int|
            0 <= b < db.chats.len() && #[trigger] db.chats[b].id == chat_id && db.chats[b].tenant_id
                == cm[i].tenant_id;
        assert(a == b);
    }
}

/// Appending a message of another chat leaves a chat's messages as they were;
/// appending one of the chat adds it at the end.
pub proof fn lemma_chat_messages_push(s: Seq<Message>, m: Message, chat_id: u128)
    ensures
        chat_messages(s.push(m), chat_id) == if m.chat_id == chat_id {
            chat_messages(s, chat_id).push(m)
        } else {
            chat_messages(s, chat_id)
        },
{
    reveal(Seq::filter);
    assert(s.push(m).drop_last() =~= s);
}

/// What storing `m` gives and leaves: `ChatNotFound` when its chat is not one
/// of its tenant's chats, a conflict when its id is taken, an exhausted clock
/// when no time is left, else `m` stamped with the clock's time, appended, with
/// the clock advanced.
pub open spec fn append_outcome(db: DbView, m: Message) -> (Result<Message, DomainError>, DbView) {
    if !chat_accessible(db.chats, m.chat_id, m.tenant_id) {
        (Err(DomainError::ChatNotFound { chat_id: m.chat_id }), db)
    } else if message_id_taken(db.messages, m.id) {
        (Err(DomainError::IdConflict { id: m.id }), db)
    } else if db.clock == u64::MAX {
        (Err(DomainError::StorageExhausted), db)
    } else {
        (
            Ok(stamped(m, db.clock)),
            DbView {
                messages: db.messages.push(stamped(m, db.clock)),
                clock: (db.clock + 1) as u64,
                ..db
            },
        )
    }
}

/// What storing `chat` gives and leaves: a conflict when its id is taken, else
/// the chat appended.
pub open spec fn insert_chat_outcome(db: DbView, chat: Chat) -> (Result<(), DomainError>, DbView) {
    if chat_id_taken(db.chats, chat.id) {
        (Err(DomainError::IdConflict { id: chat.id }), db)
    } else {
        (Ok(()), DbView { chats: db.chats.push(chat), ..db })
    }
}

/// Storing a chat whose id no stored chat has always succeeds, whatever the
/// chat's other fields: the chat is added after the stored ones, and messages
/// and clock are untouched. A chat whose id is taken is refused with a conflict
/// on that id, and nothing changes.
pub proof fn lemma_insert_chat_by_id(db: DbView, chat: Chat)
    ensures
        !(exists|i: int| 0 <= i < db.chats.len() && db.chats[i].id == chat.id) ==> {
            let (r, after) = insert_chat_outcome(db, chat);
            &&& r is Ok
            &&& after.chats.len() == db.chats.len() + 1
            &&& after.chats[db.chats.len() as int] == chat
            &&& forall|i: int| 0 <= i < db.chats.len() ==> after.chats[i] == db.chats[i]
            &&& after.messages == db.messages
            &&& after.clock == db.clock
        },
        (exists|i: int| 0 <= i < db.chats.len() && db.chats[i].id == chat.id) ==> {
            let (r, after) = insert_chat_outcome(db, chat);
            &&& r == Err::<(), DomainError>(DomainError::IdConflict { id: chat.id })
            &&& after == db
        },
{
}

/// Storing a message into a chat of its tenant, under an id that no stored
/// message has, while the clock has time left, always succeeds: the message is
/// added after the stored ones, exactly as given but stamped with the clock's
/// time, and the clock moves on by one. Otherwise nothing changes, and the
/// error names the first thing wrong: the chat, then the id, then the clock.
pub proof fn lemma_append_message_by_cases(db: DbView, m: Message)
    ensures
        ({
            let (r, after) = append_outcome(db, m);
            let chat_ok = exists|i: int|
                0 <= i < db.chats.len() && db.chats[i].id == m.chat_id && db.chats[i].tenant_id
                    == m.tenant_id;
            let id_free = !exists|i: int| 0 <= i < db.messages.len() && db.messages[i].id == m.id;
            &&& chat_ok && id_free && db.clock < u64::MAX ==> {
                &&& r matches Ok(s) && s.id == m.id && s.tenant_id == m.tenant_id && s.chat_id
                    == m.chat_id && s.request_id == m.request_id && s.role == m.role && s.content
                    == m.content && s.input_tokens == m.input_tokens && s.output_tokens
                    == m.output_tokens && s.model == m.model && s.provider_response_id
                    == m.provider_response_id && s.created_at == db.clock
                &&& after.messages.len() == db.messages.len() + 1
                &&& after.messages[db.messages.len() as int] == r->Ok_0
                &&& forall|i: int| 0 <= i < db.messages.len() ==> after.messages[i] == db.messages[i]
                &&& after.clock == db.clock + 1
                &&& after.chats == db.chats
            }
            &&& !chat_ok ==> r == Err::<Message, DomainError>(
                DomainError::ChatNotFound { chat_id: m.chat_id },
            ) && after == db
            &&& chat_ok && !id_free ==> r == Err::<Message, DomainError>(
                DomainError::IdConflict { id: m.id },
            ) && after == db
            &&& chat_ok && id_free && db.clock == u64::MAX ==> r == Err::<Message, DomainError>(
                DomainError::StorageExhausted,
            ) && after == db
        }),
{
    let chat_ok = exists|i: int|
        0 <= i < db.chats.len() && db.chats[i].id == m.chat_id && db.chats[i].tenant_id == m.tenant_id;
    if chat_ok {
        let i = choose|i: int|
            0 <= i < db.chats.len() && db.chats[i].id == m.chat_id && db.chats[i].tenant_id
                == m.tenant_id;
        assert(chat_accessible(db.chats, m.chat_id, m.tenant_id));
    }
    if message_id_taken(db.messages, m.id) {
        let i = choose|i: int| 0 <= i < db.messages.len() && #[trigger] db.messages[i].id == m.id;
        assert(db.messages[i].id == m.id);
    }
}

/// A chat belongs to one tenant only: in a well-formed store, a chat id that is
/// accessible to two tenants is accessible to one and the same tenant. So a
/// tenant can reach another tenant's chat by no id.
pub proof fn lemma_chat_has_one_owner(db: DbView, chat_id: u128, t1: u128, t2: u128)
    requires
        db.wf(),
        chat_accessible(db.chats, chat_id, t1),
        chat_accessible(db.chats, chat_id, t2),
    ensures
        t1 == t2,
        exists|i: int| 0 <= i < db.chats.len() && db.chats[i].id == chat_id && db.chats[i].tenant_id == t1,
{
    let a = choose|a: int|
        0 <= a < db.chats.len() && #[trigger] db.chats[a].id == chat_id && db.chats[a].tenant_id == t1;
    let b = choose|b: int|
        0 <= b < db.chats.len() && #[trigger] db.chats[b].id == chat_id && db.chats[b].tenant_id == t2;
    assert(a == b);
}

/// The database: chats, messages and the logical clock.
pub struct Database {
    chats: Vec<Chat>,
    messages: Vec<Message>,
    clock: u64,
}

impl View for Database {
    type V = DbView;

    closed spec fn view(&self) -> DbView {
        DbView { chats: self.chats@, messages: self.messages@, clock: self.clock }
    }
}

impl Database {
    /// An empty database.
    pub fn new() -> (db: Database)
        ensures
            db@.wf(),
            db@.chats == Seq::<Chat>::empty(),
            db@.messages == Seq::<Message>::empty(),
            db@.clock == 0,
    {
        Database { chats: Vec::new(), messages: Vec::new(), clock: 0 }
    }

    /// The stored chats.
    pub fn chats(&self) -> (r: &Vec<Chat>)
        ensures
            r@ == self@.chats,
    {
        &self.chats
    }

    /// The stored messages, in insertion order.
    pub fn messages(&self) -> (r: &Vec<Message>)
        ensures
            r@ == self@.messages,
    {
        &self.messages
    }

    /// The time that the next stored message gets.
    pub fn clock(&self) -> (r: u64)
        ensures
            r == self@.clock,
    {
        self.clock
    }

    /// Whether a chat with this id belongs to this tenant.
    pub fn chat_accessible(&self, chat_id: u128, tenant_id: u128) -> (r: bool)
        ensures
            r == chat_accessible(self@.chats, chat_id, tenant_id),
    {
        let n = self.chats.len();
        let mut i: usize = 0;
        while i < n
            invariant
                n == self.chats@.len(),
                i <= n,
                forall|j: int|
                    0 <= j < i ==> !(#[trigger] self.chats@[j].id == chat_id && self.chats@[j].tenant_id
                        == tenant_id),
            decreases n - i,
        {
            if self.chats[i].id == chat_id && self.chats[i].tenant_id == tenant_id {
                return true;
            }
            i = i + 1;
        }
        false
    }

    /// Whether some chat has this id.
    pub fn chat_id_taken(&self, id: u128) -> (r: bool)
        ensures
            r == chat_id_taken(self@.chats, id),
    {
        let n = self.chats.len();
        let mut i: usize = 0;
        while i < n
            invariant
                n == self.chats@.len(),
                i <= n,
                forall|j: int| 0 <= j < i ==> #[trigger] self.chats@[j].id != id,
            decreases n - i,
        {
            if self.chats[i].id == id {
                return true;
            }
            i = i + 1;
        }
        false
    }

    /// Whether some message has this id.
    pub fn message_id_taken(&self, id: u128) -> (r: bool)
        ensures
            r == message_id_taken(self@.messages, id),
    {
        let n = self.messages.len();
        let mut i: usize = 0;
        while i < n
            invariant
                n == self.messages@.len(),
                i <= n,
                forall|j: int| 0 <= j < i ==> #[trigger] self.messages@[j].id != id,
            decreases n - i,
        {
            if self.messages[i].id == id {
                return true;
            }
            i = i + 1;
        }
        false
    }

    /// Stores a chat, unless its id is taken.
    pub fn insert_chat(&mut self, chat: Chat) -> (r: Result<(), DomainError>)
        requires
            old(self)@.wf(),
        ensures
            final(self)@.wf(),
            (r, final(self)@) == insert_chat_outcome(old(self)@, chat),
    {
        if self.chat_id_taken(chat.id) {
            return Err(DomainError::IdConflict { id: chat.id });
        }
        let ghost before = self@;
        self.chats.push(chat);
        proof {
            let cs = self.chats@;
            assert forall|i: int, j: int|
                0 <= i < cs.len() && 0 <= j < cs.len() && i != j implies #[trigger] cs[i].id
                != #[trigger] cs[j].id by {
                if i < before.chats.len() && j < before.chats.len() {
                    assert(cs[i] == before.chats[i] && cs[j] == before.chats[j]);
                } else if i < before.chats.len() {
                    assert(cs[i] == before.chats[i]);
                } else {
                    assert(cs[j] == before.chats[j]);
                }
            }
            let ms = self.messages@;
            assert forall|i: int| 0 <= i < ms.len() implies chat_accessible(
                cs,
                (#[trigger] ms[i]).chat_id,
                ms[i].tenant_id,
            ) by {
                let j = choose|j: int|
                    0 <= j < before.chats.len() && #[trigger] before.chats[j].id == ms[i].chat_id
                        && before.chats[j].tenant_id == ms[i].tenant_id;
                assert(cs[j] == before.chats[j]);
            }
        }
        assert(self@ == (DbView { chats: before.chats.push(chat), ..before }));
        Ok(())
    }

    /// Stores a message stamped with the clock's time, and advances the clock;
    /// unless its chat is not its tenant's, its id is taken, or the clock has no
    /// time left. Gives back the stored message.
    pub fn append_message(&mut self, m: Message) -> (r: Result<Message, DomainError>)
        requires
            old(self)@.wf(),
        ensures
            final(self)@.wf(),
            (r, final(self)@) == append_outcome(old(self)@, m),
    {
        if !self.chat_accessible(m.chat_id, m.tenant_id) {
            return Err(DomainError::ChatNotFound { chat_id: m.chat_id });
        }
        if self.message_id_taken(m.id) {
            return Err(DomainError::IdConflict { id: m.id });
        }
        if self.clock == u64::MAX {
            return Err(DomainError::StorageExhausted);
        }
        let ghost before = self@;
        let mut m = m;
        m.created_at = self.clock;
        let stored = m.duplicate();
        self.messages.push(m);
        self.clock = self.clock + 1;
        proof {
            let ms = self.messages@;
            let n = before.messages.len();
            assert forall|i: int, j: int| 0 <= i < j < ms.len() implies ms[i].created_at
                < ms[j].created_at by {
                assert(ms[i] == before.messages[i]);
                if j < n {
                    assert(ms[j] == before.messages[j]);
                }
            }
            assert forall|i: int| 0 <= i < ms.len() implies chat_accessible(
                self.chats@,
                (#[trigger] ms[i]).chat_id,
                ms[i].tenant_id,
            ) by {
                if i < n {
                    assert(ms[i] == before.messages[i]);
                }
            }
            assert forall|i: int| 0 <= i < ms.len() implies #[trigger] ms[i].created_at
                < self.clock by {
                if i < n {
                    assert(ms[i] == before.messages[i]);
                }
            }
            assert forall|i: int, j: int|
                0 <= i < ms.len() && 0 <= j < ms.len() && i != j implies #[trigger] ms[i].id
                != #[trigger] ms[j].id by {
                if i < n && j < n {
                    assert(ms[i] == before.messages[i] && ms[j] == before.messages[j]);
                } else if i < n {
                    assert(ms[i] == before.messages[i]);
                } else {
                    assert(ms[j] == before.messages[j]);
                }
            }
        }
        Ok(stored)
    }

    /// Copies of the messages of one chat, in the order in which they are stored.
    pub fn chat_messages(&self, chat_id: u128) -> (r: Vec<Message>)
        requires
            self@.wf(),
        ensures
            r@ == chat_messages(self@.messages, chat_id),
            chronological(r@),
    {
        let n = self.messages.len();
        let mut out: Vec<Message> = Vec::new();
        let mut i: usize = 0;
        while i < n
            invariant
                n == self.messages@.len(),
                i <= n,
                out@ == self.messages@.take(i as int).filter(in_chat(chat_id)),
            decreases n - i,
        {
            proof {
                reveal_with_fuel(Seq::filter, 1);
                assert(self.messages@.take(i + 1).drop_last() =~= self.messages@.take(i as int));
            }
            if self.messages[i].chat_id == chat_id {
                out.push(self.messages[i].duplicate());
            }
            i = i + 1;
        }
        proof {
            assert(self.messages@.take(n as int) =~= self.messages@);
            lemma_filter_chronological(self@.messages, in_chat(chat_id));
        }
        out
    }
}

} // verus!
