//! Repositories and services over the database: creating chats, storing
//! messages in a tenant's scope, and listing a chat's messages page by page.

use std::sync::Arc;
use vstd::prelude::*;
use crate::cursor::{token_cursor, CursorV1, Direction};
use crate::ids::TimeOrderedIds;
use crate::model::{
    AccessScope, Chat, DomainError, InsertAssistantMessageParams, InsertUserMessageParams, Message,
    NewChat, Role, SecurityCtx,
};
use crate::pagination::{
    chronological, count_preceding, cursor_at, forward_walk, lemma_forward_then_back,
    lemma_forward_walk_covers, lemma_next_page_follows, lemma_page_bounds_valid,
    lemma_page_chronological, min_nat, page_bounds, page_of, precedes, PageView,
};
use crate::query::{effective_limit_spec, opt_chars, LimitCfg, ODataQuery, Page, PageInfo};
use crate::store::{
    append_outcome, chat_accessible, chat_messages, insert_chat_outcome,
    lemma_append_message_by_cases, lemma_chat_messages_chronological, lemma_chat_messages_of_tenant,
    lemma_insert_chat_by_id, Database,
    DbView,
};

verus! {

broadcast use vstd::seq_lib::group_seq_properties;

/// The page sizes of the chat and message repositories.
pub fn limit_cfg() -> (r: LimitCfg)
    ensures
        r == limit_cfg_spec(),
{
    LimitCfg { default: 20, max: 100 }
}

/// The standard limits, as values: 20 items by default, 100 at most.
pub open spec fn limit_cfg_spec() -> LimitCfg {
    LimitCfg { default: 20, max: 100 }
}

/// The repository of chats.
#[derive(Clone, Copy, Debug)]
pub struct ChatRepository {
    pub limits: LimitCfg,
}

impl ChatRepository {
    pub fn new(limits: LimitCfg) -> (r: ChatRepository)
        ensures
            r.limits == limits,
    {
        ChatRepository { limits }
    }
}

/// The repository of messages; `limits` bounds the pages it lists.
#[derive(Clone, Copy, Debug)]
pub struct MessageRepository {
    pub limits: LimitCfg,
}

/// The message that a user-message request stores (before it is stamped).
pub open spec fn user_message(p: InsertUserMessageParams) -> Message {
    Message {
        id: p.id,
        tenant_id: p.tenant_id,
        chat_id: p.chat_id,
        request_id: p.request_id,
        role: Role::User,
        content: p.content,
        input_tokens: None,
        output_tokens: None,
        model: None,
        provider_response_id: None,
        created_at: 0,
    }
}

/// The message that an assistant-message request stores (before it is stamped).
pub open spec fn assistant_message(p: InsertAssistantMessageParams) -> Message {
    Message {
        id: p.id,
        tenant_id: p.tenant_id,
        chat_id: p.chat_id,
        request_id: p.request_id,
        role: Role::Assistant,
        content: p.content,
        input_tokens: p.input_tokens,
        output_tokens: p.output_tokens,
        model: p.model,
        provider_response_id: p.provider_response_id,
        created_at: 0,
    }
}

/// Whether a write for `tenant_id` into chat `chat_id` is within `scope`: the
/// scope is the tenant's, and the chat is one of the tenant's chats.
pub open spec fn write_allowed(
    db: DbView,
    scope: AccessScope,
    tenant_id: u128,
    chat_id: u128,
) -> bool {
    scope.tenant_id == tenant_id && chat_accessible(db.chats, chat_id, tenant_id)
}

/// What a scoped message write gives and leaves.
pub open spec fn scoped_append_outcome(
    db: DbView,
    scope: AccessScope,
    m: Message,
) -> (Result<Message, DomainError>, DbView) {
    if write_allowed(db, scope, m.tenant_id, m.chat_id) {
        append_outcome(db, m)
    } else {
        (Err(DomainError::ChatNotFound { chat_id: m.chat_id }), db)
    }
}

impl MessageRepository {
    pub fn new(limits: LimitCfg) -> (r: MessageRepository)
        ensures
            r.limits == limits,
    {
        MessageRepository { limits }
    }

    /// Stores a user message in a chat of the scope's tenant. The chat must be
    /// the tenant's (else `ChatNotFound`, as for a chat that does not exist) and
    /// the id must be new (else `IdConflict`).
    pub fn insert_user_message(
        &self,
        db: &mut Database,
        scope: &AccessScope,
        params: InsertUserMessageParams,
    ) -> (r: Result<Message, DomainError>)
        requires
            old(db)@.wf(),
        ensures
            final(db)@.wf(),
            (r, final(db)@) == scoped_append_outcome(old(db)@, *scope, user_message(params)),
    {
        let ghost m = user_message(params);
        if scope.tenant_id != params.tenant_id {
            return Err(DomainError::ChatNotFound { chat_id: params.chat_id });
        }
        let msg = Message {
            id: params.id,
            tenant_id: params.tenant_id,
            chat_id: params.chat_id,
            request_id: params.request_id,
            role: Role::User,
            content: params.content,
            input_tokens: None,
            output_tokens: None,
            model: None,
            provider_response_id: None,
            created_at: 0,
        };
        assert(msg == m);
        db.append_message(msg)
    }

    /// Stores an assistant message in a chat of the scope's tenant, under the
    /// same rules as a user message.
    pub fn insert_assistant_message(
        &self,
        db: &mut Database,
        scope: &AccessScope,
        params: InsertAssistantMessageParams,
    ) -> (r: Result<Message, DomainError>)
        requires
            old(db)@.wf(),
        ensures
            final(db)@.wf(),
            (r, final(db)@) == scoped_append_outcome(old(db)@, *scope, assistant_message(params)),
    {
        let ghost m = assistant_message(params);
        if scope.tenant_id != params.tenant_id {
            return Err(DomainError::ChatNotFound { chat_id: params.chat_id });
        }
        let msg = Message {
            id: params.id,
            tenant_id: params.tenant_id,
            chat_id: params.chat_id,
            request_id: params.request_id,
            role: Role::Assistant,
            content: params.content,
            input_tokens: params.input_tokens,
            output_tokens: params.output_tokens,
            model: params.model,
            provider_response_id: params.provider_response_id,
            created_at: 0,
        };
        assert(msg == m);
        db.append_message(msg)
    }
}

/// The chat that a creation request gives, for a tenant, under an id.
pub open spec fn chat_from(new_chat: NewChat, tenant_id: u128, id: u128) -> Chat {
    Chat {
        id,
        tenant_id,
        model: new_chat.model,
        title: new_chat.title,
        is_temporary: new_chat.is_temporary,
    }
}

/// Creates chats on behalf of a caller.
#[derive(Debug)]
pub struct ChatService {
    pub chats: Arc<ChatRepository>,
}

impl ChatService {
    pub fn new(chats: Arc<ChatRepository>) -> (r: ChatService)
        ensures
            r.chats == chats,
    {
        ChatService { chats }
    }

    /// Creates a chat of the caller's tenant under the given id; `IdConflict`
    /// when a chat has that id already.
    pub fn create_chat_with_id(
        &self,
        db: &mut Database,
        ctx: &SecurityCtx,
        new_chat: NewChat,
        id: u128,
    ) -> (r: Result<Chat, DomainError>)
        requires
            old(db)@.wf(),
        ensures
            final(db)@.wf(),
            ({
                let (res, after) = insert_chat_outcome(
                    old(db)@,
                    chat_from(new_chat, ctx.tenant_id, id),
                );
                &&& final(db)@ == after
                &&& r == match res {
                    Ok(_) => Ok(chat_from(new_chat, ctx.tenant_id, id)),
                    Err(e) => Err::<Chat, DomainError>(e),
                }
            }),
    {
        let chat = Chat {
            id,
            tenant_id: ctx.tenant_id,
            model: new_chat.model,
            title: new_chat.title,
            is_temporary: new_chat.is_temporary,
        };
        let copy = chat.duplicate();
        match db.insert_chat(chat) {
            Ok(()) => Ok(copy),
            Err(e) => Err(e),
        }
    }

    /// Creates a chat of the caller's tenant under a fresh time-ordered id (a
    /// version-7 UUID). Whatever id came back, the outcome is that of
    /// `create_chat_with_id` with it.
    pub fn create_chat(&self, db: &mut Database, ctx: &SecurityCtx, new_chat: NewChat) -> (r:
        Result<Chat, DomainError>)
        requires
            old(db)@.wf(),
        ensures
            final(db)@.wf(),
            exists|id: u128|
                #[trigger] create_chat_outcome(old(db)@, final(db)@, *ctx, new_chat, id, r),
    {
        let mut ids = TimeOrderedIds::new();
        let id = ids.next();
        let r = self.create_chat_with_id(db, ctx, new_chat, id);
        assert(create_chat_outcome(old(db)@, db@, *ctx, new_chat, id, r));
        r
    }
}

/// The outcome of creating a chat under the time-ordered id `id`: that of
/// `create_chat_with_id` with it.
pub open spec fn create_chat_outcome(
    before: DbView,
    after: DbView,
    ctx: SecurityCtx,
    new_chat: NewChat,
    id: u128,
    r: Result<Chat, DomainError>,
) -> bool {
    let (res, expected) = insert_chat_outcome(before, chat_from(new_chat, ctx.tenant_id, id));
    &&& (id >> 76u128) & 0xfu128 == 7u128
    &&& (id >> 62u128) & 0x3u128 == 2u128
    &&& after == expected
    &&& r == match res {
        Ok(_) => Ok(chat_from(new_chat, ctx.tenant_id, id)),
        Err(e) => Err::<Chat, DomainError>(e),
    }
}

/// Lists the messages of chats on behalf of a caller.
#[derive(Debug)]
pub struct MessageService {
    pub messages: Arc<MessageRepository>,
    pub chats: Arc<ChatRepository>,
}

/// A page as values.
pub open spec fn page_view(p: Page<Message>) -> PageView {
    PageView {
        items: p.items@,
        next_cursor: opt_chars(p.page_info.next_cursor),
        prev_cursor: opt_chars(p.page_info.prev_cursor),
        limit: p.page_info.limit as nat,
    }
}

/// How many messages of `s` precede the cursor's key.
fn count_preceding_exec(s: &Vec<Message>, c: CursorV1, inclusive: bool) -> (r: usize)
    ensures
        r == count_preceding(s@, c, inclusive),
{
    let n = s.len();
    let mut cnt: usize = 0;
    let mut i: usize = 0;
    while i < n
        invariant
            n == s@.len(),
            i <= n,
            cnt == count_preceding(s@.take(i as int), c, inclusive),
            cnt <= i,
        decreases n - i,
    {
        let m = &s[i];
        let before = m.created_at < c.created_at || (m.created_at == c.created_at && (m.id < c.id
            || (inclusive && m.id == c.id)));
        proof {
            assert(s@.take(i + 1).drop_last() =~= s@.take(i as int));
            assert(before == precedes(s@[i as int], c, inclusive));
        }
        if before {
            cnt = cnt + 1;
        }
        i = i + 1;
    }
    assert(s@.take(n as int) =~= s@);
    cnt
}

/// The bounds `[lo, hi)` of the page of `s` that `limit` and `cursor` select.
fn page_bounds_exec(s: &Vec<Message>, limit: u64, cursor: Option<CursorV1>) -> (r: (usize, usize))
    ensures
        r.0 as nat == page_bounds(s@, limit as nat, cursor).0,
        r.1 as nat == page_bounds(s@, limit as nat, cursor).1,
{
    proof {
        lemma_page_bounds_valid(s@, limit as nat, cursor);
    }
    let n = s.len();
    match cursor {
        None => {
            let hi = if (limit as u128) < (n as u128) {
                limit as usize
            } else {
                n
            };
            (0, hi)
        },
        Some(c) => match c.direction {
            Direction::Forward => {
                let lo = count_preceding_exec(s, c, true);
                let room = n - lo;
                let hi = if (limit as u128) < (room as u128) {
                    lo + limit as usize
                } else {
                    n
                };
                (lo, hi)
            },
            Direction::Backward => {
                let hi = count_preceding_exec(s, c, false);
                let lo = if (hi as u128) >= (limit as u128) {
                    hi - limit as usize
                } else {
                    0
                };
                (lo, hi)
            },
        },
    }
}

impl MessageService {
    pub fn new(messages: Arc<MessageRepository>, chats: Arc<ChatRepository>) -> (r: MessageService)
        ensures
            r.messages == messages,
            r.chats == chats,
    {
        MessageService { messages, chats }
    }

    /// One page of a chat's messages, in chronological order, for the caller.
    ///
    /// A chat that is not the caller's tenant's gives `ChatNotFound`, as one that
    /// does not exist does. Otherwise the page is the one that the query's cursor
    /// and page size select from the chat's messages (see `page_of`), with the
    /// page size cut to the repository's limits.
    pub fn list_messages(
        &self,
        db: &Database,
        ctx: &SecurityCtx,
        chat_id: u128,
        query: &ODataQuery,
    ) -> (r: Result<Page<Message>, DomainError>)
        requires
            db@.wf(),
        ensures
            !chat_accessible(db@.chats, chat_id, ctx.tenant_id) ==> r == Err::<
                Page<Message>,
                DomainError,
            >(DomainError::ChatNotFound { chat_id }),
            chat_accessible(db@.chats, chat_id, ctx.tenant_id) ==> r is Ok && page_view(r->Ok_0)
                == page_of(
                chat_messages(db@.messages, chat_id),
                effective_limit_spec(self.messages.limits, query.limit) as nat,
                query.cursor,
            ),
            r matches Ok(page) ==> chronological(page.items@) && forall|i: int|
                0 <= i < page.items@.len() ==> (#[trigger] page.items@[i]).chat_id == chat_id
                    && page.items@[i].tenant_id == ctx.tenant_id,
    {
        if !db.chat_accessible(chat_id, ctx.tenant_id) {
            return Err(DomainError::ChatNotFound { chat_id });
        }
        let limit = self.messages.limits.effective_limit(query.limit);
        let cm = db.chat_messages(chat_id);
        let n = cm.len();
        let (lo, hi) = page_bounds_exec(&cm, limit, query.cursor);
        proof {
            lemma_page_bounds_valid(cm@, limit as nat, query.cursor);
            lemma_chat_messages_of_tenant(db@, chat_id, ctx.tenant_id);
            lemma_page_chronological(cm@, limit as nat, query.cursor);
        }
        let mut items: Vec<Message> = Vec::new();
        let mut i = lo;
        while i < hi
            invariant
                lo <= i <= hi <= n,
                n == cm@.len(),
                items@ == cm@.subrange(lo as int, i as int),
            decreases hi - i,
        {
            items.push(cm[i].duplicate());
            assert(items@ =~= cm@.subrange(lo as int, i + 1));
            i = i + 1;
        }
        let next_cursor = if lo < hi && hi < n {
            let c = CursorV1 {
                created_at: cm[hi - 1].created_at,
                id: cm[hi - 1].id,
                direction: Direction::Forward,
            };
            assert(c == cursor_at(cm@[hi - 1], Direction::Forward));
            Some(c.encode())
        } else {
            None
        };
        let prev_cursor = if lo < hi && lo > 0 {
            let c = CursorV1 {
                created_at: cm[lo].created_at,
                id: cm[lo].id,
                direction: Direction::Backward,
            };
            assert(c == cursor_at(cm@[lo as int], Direction::Backward));
            Some(c.encode())
        } else {
            None
        };
        let page = Page { items, page_info: PageInfo { next_cursor, prev_cursor, limit } };
        assert(page_view(page) == page_of(cm@, limit as nat, query.cursor));
        assert forall|i: int| 0 <= i < page.items@.len() implies (#[trigger] page.items@[i]).chat_id
            == chat_id && page.items@[i].tenant_id == ctx.tenant_id by {
            assert(page.items@[i] == cm@[lo + i]);
        }
        Ok(page)
    }
}

/// The chat service of the chat repository.
pub fn build_chat_service(chat_repo: Arc<ChatRepository>) -> (r: ChatService)
    ensures
        r.chats == chat_repo,
{
    ChatService::new(chat_repo)
}

/// The message service over a fresh message repository with the standard
/// limits, and the chat repository.
pub fn build_message_service(chat_repo: Arc<ChatRepository>) -> (r: MessageService)
    ensures
        r.chats == chat_repo,
        r.messages.limits == limit_cfg_spec(),
{
    let message_repo = Arc::new(MessageRepository::new(limit_cfg()));
    MessageService::new(message_repo, chat_repo)
}


/// Forward paging through a chat's listing continues where a page left off:
/// the page that its next cursor selects (same limit) holds the messages right
/// after it, so the two pages together are one unbroken slice of the chat's
/// chronological messages.
pub proof fn lemma_listing_next_page_follows(
    db: DbView,
    chat_id: u128,
    limit: nat,
    cursor: Option<CursorV1>,
)
    requires
        db.wf(),
        page_of(chat_messages(db.messages, chat_id), limit, cursor).next_cursor is Some,
    ensures
        ({
            let s = chat_messages(db.messages, chat_id);
            let (lo, hi) = page_bounds(s, limit, cursor);
            let next = token_cursor(page_of(s, limit, cursor).next_cursor.unwrap());
            &&& next is Some
            &&& page_bounds(s, limit, next) == (hi, min_nat(hi + limit, s.len()))
            &&& page_of(s, limit, cursor).items + page_of(s, limit, next).items == s.subrange(
                lo as int,
                min_nat(hi + limit, s.len()) as int,
            )
        }),
{
    lemma_chat_messages_chronological(db, chat_id);
    lemma_next_page_follows(chat_messages(db.messages, chat_id), limit, cursor);
}

/// In a chat's listing, going one page forward and then one page back (same
/// limit) returns the full page one started from.
pub proof fn lemma_listing_forward_then_back(
    db: DbView,
    chat_id: u128,
    limit: nat,
    cursor: Option<CursorV1>,
)
    requires
        db.wf(),
        page_of(chat_messages(db.messages, chat_id), limit, cursor).items.len() == limit,
        page_of(chat_messages(db.messages, chat_id), limit, cursor).next_cursor is Some,
    ensures
        ({
            let s = chat_messages(db.messages, chat_id);
            let next = token_cursor(page_of(s, limit, cursor).next_cursor.unwrap());
            let back = token_cursor(page_of(s, limit, next).prev_cursor.unwrap());
            &&& next is Some
            &&& page_of(s, limit, next).prev_cursor is Some
            &&& back is Some
            &&& page_of(s, limit, back).items == page_of(s, limit, cursor).items
        }),
{
    lemma_chat_messages_chronological(db, chat_id);
    lemma_forward_then_back(chat_messages(db.messages, chat_id), limit, cursor);
}

/// Listing a chat page by page from the first page, following next cursors,
/// yields each of the chat's messages exactly once, in chronological order.
pub proof fn lemma_listing_walk_covers(db: DbView, chat_id: u128, limit: nat)
    requires
        db.wf(),
        limit >= 1,
    ensures
        forward_walk(
            chat_messages(db.messages, chat_id),
            limit,
            None,
            chat_messages(db.messages, chat_id).len(),
        ) == chat_messages(db.messages, chat_id),
{
    lemma_chat_messages_chronological(db, chat_id);
    lemma_forward_walk_covers(chat_messages(db.messages, chat_id), limit);
}

/// A user-message write in the writer's own scope, into a chat of its tenant,
/// under a fresh id, with time left, stores and gives back a user message that
/// carries every field of the request unchanged, has no tokens, model or
/// provider response, and is stamped with the clock's time.
pub proof fn lemma_user_write_keeps_request(db: DbView, scope: AccessScope, p: InsertUserMessageParams)
    requires
        scope.tenant_id == p.tenant_id,
        exists|i: int|
            0 <= i < db.chats.len() && db.chats[i].id == p.chat_id && db.chats[i].tenant_id
                == p.tenant_id,
        !exists|i: int| 0 <= i < db.messages.len() && db.messages[i].id == p.id,
        db.clock < u64::MAX,
    ensures
        ({
            let (r, after) = scoped_append_outcome(db, scope, user_message(p));
            &&& r matches Ok(m) && m.id == p.id && m.tenant_id == p.tenant_id && m.chat_id
                == p.chat_id && m.request_id == p.request_id && m.content == p.content && m.role
                == Role::User && m.input_tokens is None && m.output_tokens is None && m.model is None
                && m.provider_response_id is None && m.created_at == db.clock
            &&& after.messages == db.messages.push(r->Ok_0)
            &&& after.chats == db.chats
            &&& after.clock == db.clock + 1
        }),
{
    let i = choose|i: int|
        0 <= i < db.chats.len() && db.chats[i].id == p.chat_id && db.chats[i].tenant_id == p.tenant_id;
    assert(chat_accessible(db.chats, p.chat_id, p.tenant_id));
    lemma_append_message_by_cases(db, user_message(p));
}

/// An assistant-message write in the writer's own scope, into a chat of its
/// tenant, under a fresh id, with time left, stores and gives back an assistant
/// message that carries every field of the request unchanged (tokens, model and
/// provider response id among them), stamped with the clock's time.
pub proof fn lemma_assistant_write_keeps_request(
    db: DbView,
    scope: AccessScope,
    p: InsertAssistantMessageParams,
)
    requires
        scope.tenant_id == p.tenant_id,
        exists|i: int|
            0 <= i < db.chats.len() && db.chats[i].id == p.chat_id && db.chats[i].tenant_id
                == p.tenant_id,
        !exists|i: int| 0 <= i < db.messages.len() && db.messages[i].id == p.id,
        db.clock < u64::MAX,
    ensures
        ({
            let (r, after) = scoped_append_outcome(db, scope, assistant_message(p));
            &&& r matches Ok(m) && m.id == p.id && m.tenant_id == p.tenant_id && m.chat_id
                == p.chat_id && m.request_id == p.request_id && m.content == p.content && m.role
                == Role::Assistant && m.input_tokens == p.input_tokens && m.output_tokens
                == p.output_tokens && m.model == p.model && m.provider_response_id
                == p.provider_response_id && m.created_at == db.clock
            &&& after.messages == db.messages.push(r->Ok_0)
            &&& after.chats == db.chats
            &&& after.clock == db.clock + 1
        }),
{
    let i = choose|i: int|
        0 <= i < db.chats.len() && db.chats[i].id == p.chat_id && db.chats[i].tenant_id == p.tenant_id;
    assert(chat_accessible(db.chats, p.chat_id, p.tenant_id));
    lemma_append_message_by_cases(db, assistant_message(p));
}

/// A write whose scope is another tenant's, or whose chat is not one of the
/// request's tenant's chats, is refused as `ChatNotFound` and changes nothing.
pub proof fn lemma_write_outside_scope_refused(db: DbView, scope: AccessScope, m: Message)
    requires
        scope.tenant_id != m.tenant_id || !exists|i: int|
            0 <= i < db.chats.len() && db.chats[i].id == m.chat_id && db.chats[i].tenant_id
                == m.tenant_id,
    ensures
        scoped_append_outcome(db, scope, m) == (
            Err::<Message, DomainError>(DomainError::ChatNotFound { chat_id: m.chat_id }),
            db,
        ),
{
}

/// Creating a chat under an id that no stored chat has always succeeds, for
/// every request: the chat given back, and stored after the existing ones,
/// has that id, the caller's tenant, and the request's model, title and
/// temporariness; messages and clock are untouched.
pub proof fn lemma_created_chat_keeps_request(
    db: DbView,
    ctx: SecurityCtx,
    new_chat: NewChat,
    id: u128,
)
    requires
        !exists|i: int| 0 <= i < db.chats.len() && db.chats[i].id == id,
    ensures
        ({
            let (res, after) = insert_chat_outcome(db, chat_from(new_chat, ctx.tenant_id, id));
            let c = chat_from(new_chat, ctx.tenant_id, id);
            &&& res is Ok
            &&& c.id == id
            &&& c.tenant_id == ctx.tenant_id
            &&& c.model == new_chat.model
            &&& c.title == new_chat.title
            &&& c.is_temporary == new_chat.is_temporary
            &&& after.chats == db.chats.push(c)
            &&& after.messages == db.messages
            &&& after.clock == db.clock
        }),
{
    lemma_insert_chat_by_id(db, chat_from(new_chat, ctx.tenant_id, id));
    let (res, after) = insert_chat_outcome(db, chat_from(new_chat, ctx.tenant_id, id));
    assert(after.chats =~= db.chats.push(chat_from(new_chat, ctx.tenant_id, id)));
}

} // verus!
