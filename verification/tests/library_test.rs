use std::sync::Arc;

use mini_chat::api_tags::{
    invalid_tag_formats, is_well_formed_tag, HttpMethod, OperationBuilder, TagArg, INVALID_TAG,
};
use mini_chat::cursor::{CursorError, CursorV1, Direction};
use mini_chat::model::{
    AccessScope, DomainError, InsertAssistantMessageParams, InsertUserMessageParams, NewChat, Role,
    SecurityCtx,
};
use mini_chat::query::{LimitCfg, ODataQuery};
use mini_chat::service::{
    build_chat_service, build_message_service, limit_cfg, ChatRepository,
    ChatService, MessageRepository, MessageService,
};
use mini_chat::exchanges::{insert_message_pairs, insert_message_pairs_with_ids};
use mini_chat::store::Database;

fn services() -> (Database, ChatService, MessageService) {
    let db = Database::new();
    let chat_repo = Arc::new(ChatRepository::new(limit_cfg()));
    let chat_svc = build_chat_service(Arc::clone(&chat_repo));
    let msg_svc = build_message_service(Arc::clone(&chat_repo));
    (db, chat_svc, msg_svc)
}

fn titled(title: &str) -> NewChat {
    NewChat {
        model: Some("gpt-5.2".to_owned()),
        title: Some(title.to_owned()),
        is_temporary: false,
    }
}

fn user_params(id: u128, tenant_id: u128, chat_id: u128) -> InsertUserMessageParams {
    InsertUserMessageParams {
        id,
        tenant_id,
        chat_id,
        request_id: 99,
        content: "question".to_owned(),
    }
}

#[test]
fn cursor_token_exact_value() {
    let c = CursorV1 {
        created_at: 0x1f,
        id: 0xabc,
        direction: Direction::Forward,
    };
    let token = c.encode();
    assert_eq!(
        token,
        "f000000000000001f00000000000000000000000000000abc"
    );
    assert_eq!(token.chars().count(), 49);
}

#[test]
fn cursor_roundtrip_both_directions() {
    for direction in [Direction::Forward, Direction::Backward] {
        let c = CursorV1 {
            created_at: u64::MAX,
            id: u128::MAX - 7,
            direction,
        };
        assert_eq!(CursorV1::decode(&c.encode()), Ok(c));
    }
    let b = CursorV1 {
        created_at: 5,
        id: 6,
        direction: Direction::Backward,
    };
    assert!(b.encode().starts_with('b'));
}

#[test]
fn cursor_decode_rejects_malformed_tokens() {
    let good = "f000000000000001f00000000000000000000000000000abc";
    assert!(CursorV1::decode(good).is_ok());
    // too short
    assert_eq!(CursorV1::decode("f00"), Err(CursorError::Malformed));
    // unknown direction letter
    let bad_dir = good.replacen('f', "x", 1);
    assert_eq!(CursorV1::decode(&bad_dir), Err(CursorError::Malformed));
    // upper-case hex digit
    let upper = good.replace("abc", "ABC");
    assert_eq!(CursorV1::decode(&upper), Err(CursorError::Malformed));
    // not a hex digit
    let not_hex = good.replace("abc", "abg");
    assert_eq!(CursorV1::decode(&not_hex), Err(CursorError::Malformed));
    assert_eq!(CursorV1::decode(""), Err(CursorError::Malformed));
}

#[test]
fn effective_limit_values() {
    let cfg = limit_cfg();
    assert_eq!(cfg, LimitCfg { default: 20, max: 100 });
    assert_eq!(cfg.effective_limit(None), 20);
    assert_eq!(cfg.effective_limit(Some(7)), 7);
    assert_eq!(cfg.effective_limit(Some(500)), 100);
    assert_eq!(cfg.effective_limit(Some(0)), 1);
    let zero = LimitCfg { default: 0, max: 0 };
    assert_eq!(zero.effective_limit(None), 1);
}

#[test]
fn query_builders() {
    let q = ODataQuery::default();
    assert_eq!(q, ODataQuery { limit: None, cursor: None });
    let c = CursorV1 {
        created_at: 1,
        id: 2,
        direction: Direction::Backward,
    };
    let q = ODataQuery::new().with_limit(4).with_cursor(c);
    assert_eq!(q.limit, Some(4));
    assert_eq!(q.cursor, Some(c));
}

#[test]
fn default_limit_applies_when_query_names_none() {
    let (mut db, chat_svc, msg_svc) = services();
    let tenant = 7;
    let ctx = SecurityCtx::for_tenant(tenant);
    let chat = chat_svc.create_chat(&mut db, &ctx, titled("Long")).unwrap();
    insert_message_pairs(&mut db, tenant, chat.id, 15).unwrap();
    let page = msg_svc
        .list_messages(&db, &ctx, chat.id, &ODataQuery::default())
        .unwrap();
    assert_eq!(page.items.len(), 20);
    assert_eq!(page.page_info.limit, 20);
    assert!(page.page_info.next_cursor.is_some());
    let capped = msg_svc
        .list_messages(&db, &ctx, chat.id, &ODataQuery::new().with_limit(1000))
        .unwrap();
    assert_eq!(capped.page_info.limit, 100);
    assert_eq!(capped.items.len(), 30);
    assert!(capped.page_info.next_cursor.is_none());
}

#[test]
fn pages_walked_forward_cover_every_message_in_order() {
    let (mut db, chat_svc, msg_svc) = services();
    let tenant = 11;
    let ctx = SecurityCtx::for_tenant(tenant);
    let chat = chat_svc.create_chat(&mut db, &ctx, titled("Walk")).unwrap();
    insert_message_pairs(&mut db, tenant, chat.id, 4).unwrap();
    let all = msg_svc
        .list_messages(&db, &ctx, chat.id, &ODataQuery::new().with_limit(100))
        .unwrap();
    let all_ids: Vec<u128> = all.items.iter().map(|m| m.id).collect();
    assert_eq!(all_ids.len(), 8);

    let mut seen: Vec<u128> = Vec::new();
    let mut query = ODataQuery::new().with_limit(3);
    let mut sizes = Vec::new();
    loop {
        let page = msg_svc.list_messages(&db, &ctx, chat.id, &query).unwrap();
        sizes.push(page.items.len());
        seen.extend(page.items.iter().map(|m| m.id));
        match page.page_info.next_cursor {
            Some(t) => query = ODataQuery::new().with_limit(3).with_cursor(CursorV1::decode(&t).unwrap()),
            None => break,
        }
    }
    assert_eq!(sizes, vec![3, 3, 2]);
    assert_eq!(seen, all_ids);
    for w in all.items.windows(2) {
        assert!(w[0].created_at < w[1].created_at);
    }
}

#[test]
fn backward_cursor_at_start_gives_empty_page() {
    let (mut db, chat_svc, msg_svc) = services();
    let tenant = 3;
    let ctx = SecurityCtx::for_tenant(tenant);
    let chat = chat_svc.create_chat(&mut db, &ctx, titled("Edge")).unwrap();
    insert_message_pairs(&mut db, tenant, chat.id, 2).unwrap();
    let first = msg_svc
        .list_messages(&db, &ctx, chat.id, &ODataQuery::new().with_limit(2))
        .unwrap();
    let c = CursorV1 {
        created_at: first.items[0].created_at,
        id: first.items[0].id,
        direction: Direction::Backward,
    };
    let page = msg_svc
        .list_messages(&db, &ctx, chat.id, &ODataQuery::new().with_limit(2).with_cursor(c))
        .unwrap();
    assert!(page.items.is_empty());
    assert!(page.page_info.next_cursor.is_none());
    assert!(page.page_info.prev_cursor.is_none());
    // the second page goes back to exactly the first
    let second = msg_svc
        .list_messages(
            &db,
            &ctx,
            chat.id,
            &ODataQuery::new()
                .with_limit(2)
                .with_cursor(CursorV1::decode(first.page_info.next_cursor.as_ref().unwrap()).unwrap()),
        )
        .unwrap();
    assert_eq!(second.items.len(), 2);
    assert!(second.page_info.next_cursor.is_none());
    let prev = second.page_info.prev_cursor.as_ref().unwrap();
    let expected = CursorV1 {
        created_at: second.items[0].created_at,
        id: second.items[0].id,
        direction: Direction::Backward,
    };
    assert_eq!(prev, &expected.encode());
}

#[test]
fn messages_of_other_chats_are_not_listed() {
    let (mut db, chat_svc, msg_svc) = services();
    let tenant = 5;
    let ctx = SecurityCtx::for_tenant(tenant);
    let a = chat_svc.create_chat(&mut db, &ctx, titled("A")).unwrap();
    let b = chat_svc.create_chat(&mut db, &ctx, titled("B")).unwrap();
    insert_message_pairs(&mut db, tenant, a.id, 1).unwrap();
    insert_message_pairs(&mut db, tenant, b.id, 2).unwrap();
    insert_message_pairs(&mut db, tenant, a.id, 1).unwrap();
    let pa = msg_svc.list_messages(&db, &ctx, a.id, &ODataQuery::default()).unwrap();
    let pb = msg_svc.list_messages(&db, &ctx, b.id, &ODataQuery::default()).unwrap();
    assert_eq!(pa.items.len(), 4);
    assert_eq!(pb.items.len(), 4);
    assert!(pa.items.iter().all(|m| m.chat_id == a.id));
    assert!(pb.items.iter().all(|m| m.chat_id == b.id));
}

#[test]
fn insert_into_other_tenants_chat_is_chat_not_found() {
    let (mut db, chat_svc, _msg_svc) = services();
    let ctx = SecurityCtx::for_tenant(1);
    let chat = chat_svc.create_chat(&mut db, &ctx, titled("Mine")).unwrap();
    let repo = MessageRepository::new(limit_cfg());
    // scope of another tenant
    let r = repo.insert_user_message(&mut db, &AccessScope::for_tenant(2), user_params(10, 1, chat.id));
    assert_eq!(r.unwrap_err(), DomainError::ChatNotFound { chat_id: chat.id });
    // params claiming another tenant
    let r = repo.insert_user_message(&mut db, &AccessScope::for_tenant(2), user_params(10, 2, chat.id));
    assert_eq!(r.unwrap_err(), DomainError::ChatNotFound { chat_id: chat.id });
    // a chat that does not exist
    let r = repo.insert_user_message(&mut db, &AccessScope::for_tenant(1), user_params(10, 1, chat.id + 1));
    assert_eq!(r.unwrap_err(), DomainError::ChatNotFound { chat_id: chat.id + 1 });
    assert!(db.messages().is_empty());
    assert_eq!(
        insert_message_pairs_with_ids(&mut db, 2, chat.id, &vec![(1, 2, 3)]),
        Err(DomainError::ChatNotFound { chat_id: chat.id })
    );
    assert_eq!(insert_message_pairs(&mut db, 2, chat.id, 0), Ok(()));
    assert!(db.messages().is_empty());
}

#[test]
fn duplicate_message_id_is_conflict() {
    let (mut db, chat_svc, _msg_svc) = services();
    let ctx = SecurityCtx::for_tenant(1);
    let chat = chat_svc.create_chat(&mut db, &ctx, titled("Dup")).unwrap();
    let repo = MessageRepository::new(limit_cfg());
    let scope = AccessScope::for_tenant(1);
    let first = repo.insert_user_message(&mut db, &scope, user_params(42, 1, chat.id)).unwrap();
    assert_eq!(first.id, 42);
    assert_eq!(first.created_at, 0);
    assert_eq!(first.role, Role::User);
    assert_eq!(first.content, "question");
    let again = repo.insert_assistant_message(
        &mut db,
        &scope,
        InsertAssistantMessageParams {
            id: 42,
            tenant_id: 1,
            chat_id: chat.id,
            request_id: 99,
            content: "answer".to_owned(),
            input_tokens: None,
            output_tokens: None,
            model: None,
            provider_response_id: Some("resp-1".to_owned()),
        },
    );
    assert_eq!(again.unwrap_err(), DomainError::IdConflict { id: 42 });
    assert_eq!(db.messages().len(), 1);
    let second = repo.insert_user_message(&mut db, &scope, user_params(43, 1, chat.id)).unwrap();
    assert_eq!(second.created_at, 1);
    assert_eq!(db.clock(), 2);
}

#[test]
fn duplicate_chat_id_is_conflict() {
    let (mut db, chat_svc, _msg_svc) = services();
    let ctx = SecurityCtx::for_tenant(9);
    let chat = chat_svc.create_chat_with_id(&mut db, &ctx, titled("One"), 77).unwrap();
    assert_eq!(chat.id, 77);
    assert_eq!(chat.tenant_id, 9);
    assert_eq!(chat.title.as_deref(), Some("One"));
    assert_eq!(chat.model.as_deref(), Some("gpt-5.2"));
    assert!(!chat.is_temporary);
    let r = chat_svc.create_chat_with_id(&mut db, &ctx, titled("Two"), 77);
    assert_eq!(r.unwrap_err(), DomainError::IdConflict { id: 77 });
    assert_eq!(db.chats().len(), 1);
}

#[test]
fn inserted_exchanges_have_the_stated_shape() {
    let (mut db, chat_svc, _msg_svc) = services();
    let ctx = SecurityCtx::for_tenant(4);
    let chat = chat_svc.create_chat(&mut db, &ctx, titled("Shape")).unwrap();
    insert_message_pairs(&mut db, 4, chat.id, 2).unwrap();
    let ms = db.messages();
    assert_eq!(ms.len(), 4);
    for pair in ms.chunks(2) {
        let (u, a) = (&pair[0], &pair[1]);
        assert_eq!(u.role.as_str(), "user");
        assert_eq!(u.content, "Hello");
        assert_eq!(u.tenant_id, 4);
        assert_eq!(a.role.as_str(), "assistant");
        assert_eq!(a.content, "Hi there!");
        assert_eq!(a.request_id, u.request_id);
        assert_eq!(a.input_tokens, Some(10));
        assert_eq!(a.output_tokens, Some(20));
        assert_eq!(a.model.as_deref(), Some("gpt-5.2"));
        assert_eq!(a.provider_response_id, None);
        assert!(u.created_at < a.created_at);
    }
    assert_ne!(ms[0].request_id, ms[2].request_id);
}

#[test]
fn generated_ids_carry_their_uuid_version() {
    let (mut db, chat_svc, _msg_svc) = services();
    let ctx = SecurityCtx::for_tenant(1);
    let chat = chat_svc.create_chat(&mut db, &ctx, titled("Ids")).unwrap();
    assert_eq!((chat.id >> 76) & 0xf, 7);
    assert_eq!((chat.id >> 62) & 0x3, 2);
    insert_message_pairs(&mut db, 1, chat.id, 1).unwrap();
    let u = &db.messages()[0];
    assert_eq!((u.request_id >> 76) & 0xf, 4);
    assert_eq!((u.id >> 76) & 0xf, 7);
    assert_eq!((u.request_id >> 62) & 0x3, 2);
    assert_eq!((u.id >> 62) & 0x3, 2);
}

#[test]
fn role_names() {
    assert_eq!(Role::User.as_str(), "user");
    assert_eq!(Role::Assistant.as_str(), "assistant");
}

#[test]
fn tag_rule() {
    assert!(is_well_formed_tag("Simple Resource Registry"));
    assert!(is_well_formed_tag("Chats"));
    assert!(is_well_formed_tag("Dynamic Tag"));
    assert!(!is_well_formed_tag("simple resource registry"));
    assert!(!is_well_formed_tag("Simple resource registry"));
    assert!(!is_well_formed_tag("registry"));
    assert!(!is_well_formed_tag(""));
    assert!(!is_well_formed_tag("Two  Spaces"));
    assert!(!is_well_formed_tag("Trailing "));
    assert!(!is_well_formed_tag(" Leading"));
}

#[test]
fn invalid_tag_formats_arguments_are_all_flagged() {
    // the function only describes the operations; it returns nothing
    invalid_tag_formats();
    let arguments = [
        TagArg::Literal("simple resource registry".to_owned()),
        TagArg::Literal("Simple resource registry".to_owned()),
        TagArg::Literal("registry".to_owned()),
        TagArg::Literal(String::new()),
        TagArg::Variable("Dynamic Tag".to_owned()),
        TagArg::Const(INVALID_TAG.to_owned()),
    ];
    for a in arguments.iter() {
        assert!(!a.is_accepted(), "every tag call is flagged");
    }
    // the variable's text alone would pass
    assert!(is_well_formed_tag(arguments[4].text()));
}

#[test]
fn tag_rule_on_arguments() {
    assert!(TagArg::Literal("Simple Resource Registry".to_owned()).is_accepted());
    assert!(TagArg::Const("Chats".to_owned()).is_accepted());
    assert!(!TagArg::Variable("Chats".to_owned()).is_accepted());
    assert!(!TagArg::Const("chats".to_owned()).is_accepted());
    assert!(!TagArg::Literal(String::new()).is_accepted());
}

#[test]
fn exchanges_with_given_ids_stop_at_first_failure() {
    let (mut db, chat_svc, _msg_svc) = services();
    let ctx = SecurityCtx::for_tenant(6);
    let chat = chat_svc.create_chat_with_id(&mut db, &ctx, titled("Ids"), 5).unwrap();
    // the fourth write reuses the first message id
    let ids = vec![(1, 10, 11), (2, 12, 10), (3, 13, 14)];
    let r = insert_message_pairs_with_ids(&mut db, 6, chat.id, &ids);
    assert_eq!(r, Err(DomainError::IdConflict { id: 10 }));
    let ms = db.messages();
    assert_eq!(ms.len(), 3);
    assert_eq!(ms.iter().map(|m| m.id).collect::<Vec<_>>(), vec![10, 11, 12]);
    assert_eq!(ms.iter().map(|m| m.request_id).collect::<Vec<_>>(), vec![1, 1, 2]);
    assert_eq!(ms.iter().map(|m| m.created_at).collect::<Vec<_>>(), vec![0, 1, 2]);
    assert_eq!(ms[2].role, Role::User);
    assert_eq!(db.clock(), 3);
    // with fresh ids every write succeeds
    let ok = insert_message_pairs_with_ids(&mut db, 6, chat.id, &vec![(4, 20, 21)]);
    assert_eq!(ok, Ok(()));
    assert_eq!(db.messages().len(), 5);
    assert_eq!(db.messages()[4].content, "Hi there!");
    // no exchanges: nothing written, whatever the chat
    assert_eq!(insert_message_pairs_with_ids(&mut db, 9, 12345, &vec![]), Ok(()));
    assert_eq!(
        insert_message_pairs_with_ids(&mut db, 9, chat.id, &vec![(5, 30, 31)]),
        Err(DomainError::ChatNotFound { chat_id: chat.id })
    );
    assert_eq!(db.messages().len(), 5);
}

#[test]
fn generated_message_ids_increase_in_writing_order() {
    let (mut db, chat_svc, _msg_svc) = services();
    let ctx = SecurityCtx::for_tenant(8);
    let chat = chat_svc.create_chat(&mut db, &ctx, titled("Order")).unwrap();
    insert_message_pairs(&mut db, 8, chat.id, 6).unwrap();
    let ids: Vec<u128> = db.messages().iter().map(|m| m.id).collect();
    assert_eq!(ids.len(), 12);
    for w in ids.windows(2) {
        assert!(w[0] < w[1]);
    }
}

#[test]
fn operation_builder_keeps_tags_in_order() {
    let op = OperationBuilder::get("/chats")
        .operation_id("list_chats")
        .tag("Chats")
        .tag("Mini Chat");
    assert_eq!(op.method, HttpMethod::Get);
    assert_eq!(op.path, "/chats");
    assert_eq!(op.tags, vec!["Chats".to_string(), "Mini Chat".to_string()]);
    let del = OperationBuilder::delete("/chats/{id}");
    assert_eq!(del.method, HttpMethod::Delete);
    assert!(del.operation_id.is_none());
    assert!(del.tags.is_empty());
    assert_eq!(OperationBuilder::put("/x").method, HttpMethod::Put);
    assert_eq!(OperationBuilder::patch("/x").method, HttpMethod::Patch);
    assert_eq!(OperationBuilder::post("/x").method, HttpMethod::Post);
}
