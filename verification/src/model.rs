//! The records of the chat store and the values that its operations take and give.

use vstd::prelude::*;

verus! {

/// Who wrote a message.
#[derive(Clone, Copy, Debug, PartialEq, Eq, Structural)]
pub enum Role {
    User,
    Assistant,
}

pub open spec fn role_name(r: Role) -> Seq<char> {
    match r {
        Role::User => "user"@,
        Role::Assistant => "assistant"@,
    }
}

impl Role {
    /// The role's name as stored: `"user"` or `"assistant"`.
    pub fn as_str(&self) -> (s: &'static str)
        ensures
            s@ == role_name(*self),
    {
        match self {
            Role::User => "user",
            Role::Assistant => "assistant",
        }
    }
}

/// A copy of an optional string that is equal to it.
pub fn copy_opt_string(s: &Option<String>) -> (r: Option<String>)
    ensures
        r == *s,
{
    match s {
        Some(v) => Some(v.clone()),
        None => None,
    }
}

/// A stored chat.
#[derive(Debug)]
pub struct Chat {
    pub id: u128,
    pub tenant_id: u128,
    pub model: Option<String>,
    pub title: Option<String>,
    pub is_temporary: bool,
}

impl Chat {
    /// A copy equal to `self`.
    pub fn duplicate(&self) -> (r: Chat)
        ensures
            r == *self,
    {
        Chat {
            id: self.id,
            tenant_id: self.tenant_id,
            model: copy_opt_string(&self.model),
            title: copy_opt_string(&self.title),
            is_temporary: self.is_temporary,
        }
    }
}

/// What a caller gives to create a chat.
#[derive(Debug)]
pub struct NewChat {
    pub model: Option<String>,
    pub title: Option<String>,
    pub is_temporary: bool,
}

/// A stored message. `created_at` is the store's logical clock at insertion.
#[derive(Debug)]
pub struct Message {
    pub id: u128,
    pub tenant_id: u128,
    pub chat_id: u128,
    pub request_id: u128,
    pub role: Role,
    pub content: String,
    pub input_tokens: Option<u64>,
    pub output_tokens: Option<u64>,
    pub model: Option<String>,
    pub provider_response_id: Option<String>,
    pub created_at: u64,
}

impl Message {
    /// A copy equal to `self`.
    pub fn duplicate(&self) -> (r: Message)
        ensures
            r == *self,
    {
        Message {
            id: self.id,
            tenant_id: self.tenant_id,
            chat_id: self.chat_id,
            request_id: self.request_id,
            role: self.role,
            content: self.content.clone(),
            input_tokens: self.input_tokens,
            output_tokens: self.output_tokens,
            model: copy_opt_string(&self.model),
            provider_response_id: copy_opt_string(&self.provider_response_id),
            created_at: self.created_at,
        }
    }
}

/// What a caller gives to store a user message.
#[derive(Debug)]
pub struct InsertUserMessageParams {
    pub id: u128,
    pub tenant_id: u128,
    pub chat_id: u128,
    pub request_id: u128,
    pub content: String,
}

/// What a caller gives to store an assistant message.
#[derive(Debug)]
pub struct InsertAssistantMessageParams {
    pub id: u128,
    pub tenant_id: u128,
    pub chat_id: u128,
    pub request_id: u128,
    pub content: String,
    pub input_tokens: Option<u64>,
    pub output_tokens: Option<u64>,
    pub model: Option<String>,
    pub provider_response_id: Option<String>,
}

/// The caller on whose behalf a service acts.
#[derive(Clone, Copy, Debug, PartialEq, Eq, Structural)]
pub struct SecurityCtx {
    pub tenant_id: u128,
}

impl SecurityCtx {
    /// The context of a caller of the given tenant.
    pub fn for_tenant(tenant_id: u128) -> (r: SecurityCtx)
        ensures
            r.tenant_id == tenant_id,
    {
        SecurityCtx { tenant_id }
    }
}

/// The rows that a repository operation may touch: those of one tenant.
#[derive(Clone, Copy, Debug, PartialEq, Eq, Structural)]
pub struct AccessScope {
    pub tenant_id: u128,
}

impl AccessScope {
    /// The scope of one tenant's rows.
    pub fn for_tenant(tenant_id: u128) -> (r: AccessScope)
        ensures
            r.tenant_id == tenant_id,
    {
        AccessScope { tenant_id }
    }
}

/// Why a service or repository call failed.
#[derive(Clone, Copy, Debug, PartialEq, Eq, Structural)]
pub enum DomainError {
    /// No chat with this id is visible to the caller's tenant.
    ChatNotFound { chat_id: u128 },
    /// A row with this id is stored already.
    IdConflict { id: u128 },
    /// The store's logical clock has no value left to give.
    StorageExhausted,
}

} // verus!
