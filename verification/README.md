# mini_chat

A chat message store, verified with Verus: tenants create chats, store the
messages of a conversation, and list a chat's messages page by page with
opaque cursors.

- `src/store.rs`: the in-memory database and its invariant.
- `src/service.rs`: repositories and services (create chats, store messages
  in a tenant's scope, list a chat's messages).
- `src/exchanges.rs`: filling a chat with user/assistant exchanges, under
  given ids or fresh ones.
- `src/pagination.rs`: which slice of a chat's messages a page holds, and the
  laws of forward and backward paging.
- `src/cursor.rs`: cursor tokens and their encoding.
- `src/query.rs`: list queries, page-size limits, pages.
- `src/model.rs`: records, request parameters, errors.
- `src/api_tags.rs`: operation descriptions and the rule for `.tag(..)` arguments.
- `src/ids.rs`: fresh ids from the `uuid` crate (random, and time-ordered).
- `app/main.rs`: builds the tagged operation descriptions.
