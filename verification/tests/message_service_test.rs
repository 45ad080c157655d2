use std::sync::Arc;

use mini_chat::cursor::CursorV1;
use mini_chat::model::{
    AccessScope, DomainError, InsertAssistantMessageParams, InsertUserMessageParams, NewChat,
    SecurityCtx,
};
use mini_chat::query::ODataQuery;
use mini_chat::service::{
    build_chat_service, build_message_service, limit_cfg, ChatRepository,
    ChatService, MessageRepository, MessageService,
};
use mini_chat::exchanges::insert_message_pairs;
use mini_chat::store::Database;
use uuid::Uuid;

fn services() -> (Database, ChatService, MessageService) {
    let db = Database::new();
    let chat_repo = Arc::new(ChatRepository::new(limit_cfg()));
    let chat_svc = build_chat_service(Arc::clone(&chat_repo));
    let msg_svc = build_message_service(Arc::clone(&chat_repo));
    (db, chat_svc, msg_svc)
}

fn new_chat(title: &str) -> NewChat {
    NewChat {
        model: None,
        title: Some(title.to_owned()),
        is_temporary: false,
    }
}

#[test]
fn list_messages_empty_chat() {
    let (mut db, chat_svc, msg_svc) = services();

    let tenant_id = Uuid::new_v4().as_u128();
    let ctx = SecurityCtx::for_tenant(tenant_id);

    let chat = chat_svc
        .create_chat(&mut db, &ctx, new_chat("Empty chat"))
        .expect("create_chat failed");

    let page = msg_svc
        .list_messages(&db, &ctx, chat.id, &ODataQuery::default())
        .expect("list_messages failed");

    assert!(page.items.is_empty(), "Expected no messages in new chat");
}

#[test]
fn list_messages_returns_messages_chronologically() {
    let (mut db, chat_svc, msg_svc) = services();

    let tenant_id = Uuid::new_v4().as_u128();
    let ctx = SecurityCtx::for_tenant(tenant_id);

    let chat = chat_svc
        .create_chat(&mut db, &ctx, new_chat("With messages"))
        .expect("create_chat failed");

    let scope = AccessScope::for_tenant(tenant_id);
    let message_repo = MessageRepository::new(limit_cfg());

    let request_id = Uuid::new_v4().as_u128();

    message_repo
        .insert_user_message(
            &mut db,
            &scope,
            InsertUserMessageParams {
                id: Uuid::now_v7().as_u128(),
                tenant_id,
                chat_id: chat.id,
                request_id,
                content: "Hello".to_owned(),
            },
        )
        .expect("insert_user_message failed");

    message_repo
        .insert_assistant_message(
            &mut db,
            &scope,
            InsertAssistantMessageParams {
                id: Uuid::now_v7().as_u128(),
                tenant_id,
                chat_id: chat.id,
                request_id,
                content: "Hi there!".to_owned(),
                input_tokens: Some(10),
                output_tokens: Some(20),
                model: Some("gpt-5.2".to_owned()),
                provider_response_id: None,
            },
        )
        .expect("insert_assistant_message failed");

    let page = msg_svc
        .list_messages(&db, &ctx, chat.id, &ODataQuery::default())
        .expect("list_messages failed");

    assert_eq!(page.items.len(), 2, "Expected 2 messages");
    assert_eq!(page.items[0].role.as_str(), "user", "First message should be user");
    assert_eq!(
        page.items[1].role.as_str(),
        "assistant",
        "Second message should be assistant"
    );
    assert!(
        page.items[0].created_at <= page.items[1].created_at,
        "Messages should be in chronological order"
    );
}

#[test]
fn list_messages_chat_not_found() {
    let (db, _chat_svc, msg_svc) = services();

    let ctx = SecurityCtx::for_tenant(Uuid::new_v4().as_u128());
    let random_chat_id = Uuid::new_v4().as_u128();

    let result = msg_svc.list_messages(&db, &ctx, random_chat_id, &ODataQuery::default());

    assert!(result.is_err(), "Expected error for non-existent chat");
    assert!(
        matches!(result.unwrap_err(), DomainError::ChatNotFound { .. }),
        "Expected ChatNotFound"
    );
}

#[test]
fn list_messages_cross_tenant_returns_not_found() {
    let (mut db, chat_svc, msg_svc) = services();

    let tenant_a = Uuid::new_v4().as_u128();
    let tenant_b = Uuid::new_v4().as_u128();
    let ctx_a = SecurityCtx::for_tenant(tenant_a);
    let ctx_b = SecurityCtx::for_tenant(tenant_b);

    // Tenant A creates a chat
    let chat = chat_svc
        .create_chat(&mut db, &ctx_a, new_chat("Tenant A chat"))
        .expect("create_chat failed");

    // Tenant B tries to list messages in Tenant A's chat
    let result = msg_svc.list_messages(&db, &ctx_b, chat.id, &ODataQuery::default());

    assert!(result.is_err(), "Cross-tenant list must fail");
    assert!(
        matches!(result.unwrap_err(), DomainError::ChatNotFound { .. }),
        "Expected ChatNotFound for cross-tenant access"
    );
}

#[test]
fn list_messages_pagination_forward_cursor() {
    let (mut db, chat_svc, msg_svc) = services();

    let tenant_id = Uuid::new_v4().as_u128();
    let ctx = SecurityCtx::for_tenant(tenant_id);

    let chat = chat_svc
        .create_chat(&mut db, &ctx, new_chat("Pagination chat"))
        .expect("create_chat failed");

    // Insert 5 pairs = 10 messages
    insert_message_pairs(&mut db, tenant_id, chat.id, 5).expect("insert_message_pairs failed");

    // Page 1: request 3 items
    let query = ODataQuery::new().with_limit(3);
    let page1 = msg_svc
        .list_messages(&db, &ctx, chat.id, &query)
        .expect("list_messages page 1 failed");

    assert_eq!(page1.items.len(), 3, "Page 1 should have 3 items");
    assert!(
        page1.page_info.next_cursor.is_some(),
        "Page 1 must have next_cursor (7 more messages remain)"
    );
    assert!(
        page1.page_info.prev_cursor.is_none(),
        "Page 1 must not have prev_cursor (first page)"
    );

    // Page 2: use next_cursor
    let cursor = CursorV1::decode(page1.page_info.next_cursor.as_ref().unwrap())
        .expect("decode cursor failed");
    let query2 = ODataQuery::new().with_limit(3).with_cursor(cursor);
    let page2 = msg_svc
        .list_messages(&db, &ctx, chat.id, &query2)
        .expect("list_messages page 2 failed");

    assert_eq!(page2.items.len(), 3, "Page 2 should have 3 items");
    assert!(
        page2.page_info.next_cursor.is_some(),
        "Page 2 must have next_cursor (4 more messages remain)"
    );

    // Continue until exhausted, collecting all IDs
    let mut all_ids: Vec<u128> = page1
        .items
        .iter()
        .chain(page2.items.iter())
        .map(|m| m.id)
        .collect();

    let mut current_page = page2;
    while let Some(ref next) = current_page.page_info.next_cursor {
        let cursor = CursorV1::decode(next).expect("decode cursor failed");
        let q = ODataQuery::new().with_limit(3).with_cursor(cursor);
        current_page = msg_svc
            .list_messages(&db, &ctx, chat.id, &q)
            .expect("list_messages next page failed");
        all_ids.extend(current_page.items.iter().map(|m| m.id));
    }

    assert_eq!(
        all_ids.len(),
        10,
        "Total messages across all pages should be 10"
    );
    let unique_count = {
        let mut sorted = all_ids.clone();
        sorted.sort();
        sorted.dedup();
        sorted.len()
    };
    assert_eq!(unique_count, 10, "All message IDs must be unique");
}

#[test]
fn list_messages_pagination_no_cursor_when_all_fit() {
    let (mut db, chat_svc, msg_svc) = services();

    let tenant_id = Uuid::new_v4().as_u128();
    let ctx = SecurityCtx::for_tenant(tenant_id);

    let chat = chat_svc
        .create_chat(&mut db, &ctx, new_chat("Small chat"))
        .expect("create_chat failed");

    // Insert 2 pairs = 4 messages, request page of 20
    insert_message_pairs(&mut db, tenant_id, chat.id, 2).expect("insert_message_pairs failed");

    let query = ODataQuery::new().with_limit(20);
    let page = msg_svc
        .list_messages(&db, &ctx, chat.id, &query)
        .expect("list_messages failed");

    assert_eq!(page.items.len(), 4);
    assert!(
        page.page_info.next_cursor.is_none(),
        "No next_cursor when all messages fit in a single page"
    );
    assert!(
        page.page_info.prev_cursor.is_none(),
        "No prev_cursor on the first (and only) page"
    );
}

#[test]
fn list_messages_pagination_backward_cursor() {
    let (mut db, chat_svc, msg_svc) = services();

    let tenant_id = Uuid::new_v4().as_u128();
    let ctx = SecurityCtx::for_tenant(tenant_id);

    let chat = chat_svc
        .create_chat(&mut db, &ctx, new_chat("Backward pagination chat"))
        .expect("create_chat failed");

    // Insert 5 pairs = 10 messages
    insert_message_pairs(&mut db, tenant_id, chat.id, 5).expect("insert_message_pairs failed");

    // Page 1 forward (3 items)
    let query = ODataQuery::new().with_limit(3);
    let page1 = msg_svc
        .list_messages(&db, &ctx, chat.id, &query)
        .expect("list_messages page 1 failed");
    assert_eq!(page1.items.len(), 3);

    // Page 2 forward
    let cursor = CursorV1::decode(page1.page_info.next_cursor.as_ref().unwrap())
        .expect("decode cursor failed");
    let query2 = ODataQuery::new().with_limit(3).with_cursor(cursor);
    let page2 = msg_svc
        .list_messages(&db, &ctx, chat.id, &query2)
        .expect("list_messages page 2 failed");
    assert_eq!(page2.items.len(), 3);
    assert!(
        page2.page_info.prev_cursor.is_some(),
        "Page 2 must have prev_cursor"
    );

    // Navigate backward from page 2
    let prev = CursorV1::decode(page2.page_info.prev_cursor.as_ref().unwrap())
        .expect("decode prev cursor failed");
    let query_back = ODataQuery::new().with_limit(3).with_cursor(prev);
    let page_back = msg_svc
        .list_messages(&db, &ctx, chat.id, &query_back)
        .expect("list_messages backward failed");

    assert_eq!(
        page_back.items.len(),
        page1.items.len(),
        "Backward page should have same count as page 1"
    );
    let back_ids: Vec<u128> = page_back.items.iter().map(|m| m.id).collect();
    let page1_ids: Vec<u128> = page1.items.iter().map(|m| m.id).collect();
    assert_eq!(
        back_ids, page1_ids,
        "Backward navigation must return to page 1 items"
    );
}
