//! The message store and the replies that are made of it.

use mimicwx::content::MsgContent;
use mimicwx::feed::{
    check_history_query, default_message_limit, get_messages, get_new_messages, history_response,
    stream_step, MessageHistoryQuery, MessageQuery, StreamAction, StreamEvent, PING_SECONDS,
};
use mimicwx::http::BAD_REQUEST;
use mimicwx::message::DbMessage;
use mimicwx::store::{passes_filters, MessageStore};

fn message(id: &str, chat: &str, sender: &str) -> DbMessage {
    DbMessage {
        message_id: id.to_string(),
        local_id: 1,
        server_id: 1,
        create_time: 1,
        content: "hello".to_string(),
        parsed: MsgContent::Text {
            text: "hello".to_string(),
        },
        msg_type: 1,
        talker: sender.to_string(),
        talker_display_name: sender.to_string(),
        chat: chat.to_string(),
        chat_display_name: chat.to_string(),
        is_self: false,
        is_at_me: false,
        at_user_list: Vec::new(),
        conversation_id: chat.to_string(),
        conversation_name: chat.to_string(),
        sender_id: sender.to_string(),
        sender_name: sender.to_string(),
        direction: "incoming".to_string(),
        is_group: false,
        attachment: None,
    }
}

fn query(after: u64, limit: usize) -> MessageQuery {
    MessageQuery {
        after,
        limit,
        chat: None,
        sender: None,
        direction: None,
    }
}

fn history_query(offset: usize, sender: Option<&str>) -> MessageHistoryQuery {
    MessageHistoryQuery {
        since: 7,
        offset,
        limit: 100,
        chat: None,
        sender: sender.map(|s| s.to_string()),
        direction: None,
    }
}

#[test]
fn message_store_has_independent_cursors_and_filters() {
    let mut store = MessageStore::new(128);
    let first = store.push(message("m1", "chat-a", "user-a"));
    let second = store.push(message("m2", "chat-b", "user-b"));
    assert_eq!(first.cursor, 1);
    assert_eq!(second.cursor, 2);

    let (all, more) = store.query(0, 100, None, None, None);
    assert_eq!(all.len(), 2);
    assert!(!more);
    let (filtered, _) = store.query(0, 100, Some("chat-b"), None, None);
    assert_eq!(filtered.len(), 1);
    assert_eq!(filtered[0].message.message_id, "m2");
    let (after, _) = store.query(1, 100, None, None, None);
    assert_eq!(after.len(), 1);
    assert_eq!(after[0].cursor, 2);
}

#[test]
fn a_small_capacity_is_raised() {
    let mut store = MessageStore::new(1);
    for i in 0..130 {
        store.push(message(&format!("m{i}"), "c", "s"));
    }
    let (kept, more) = store.query(0, 500, None, None, None);
    assert_eq!(kept.len(), 128);
    assert!(!more);
    assert_eq!(kept[0].cursor, 3);
    assert_eq!(kept[127].cursor, 130);
    assert_eq!(store.latest_cursor(), 130);
    assert!(store.find_message("m1").is_none());
    assert_eq!(store.find_message("m2").unwrap().cursor, 3);
}

#[test]
fn a_query_is_cut_to_its_limit() {
    let mut store = MessageStore::new(600);
    for i in 0..600 {
        store.push(message(&format!("m{i}"), "c", "s"));
    }
    let (none_asked, more) = store.query(0, 0, None, None, None);
    assert_eq!(none_asked.len(), 1);
    assert!(more);
    let (many, more) = store.query(0, 10_000, None, None, None);
    assert_eq!(many.len(), 500);
    assert!(more);
    let (exact, more) = store.query(100, 500, None, None, None);
    assert_eq!(exact.len(), 500);
    assert!(!more);
}

#[test]
fn filters_take_identifiers_and_names() {
    let mut m = message("m", "chat-id", "sender-id");
    m.conversation_name = "Chat".to_string();
    m.sender_name = "Sender".to_string();
    assert!(passes_filters(&m, None, None, None));
    assert!(passes_filters(&m, Some("chat-id"), Some("Sender"), Some("incoming")));
    assert!(passes_filters(&m, Some("Chat"), Some("sender-id"), None));
    assert!(!passes_filters(&m, Some("chat"), None, None));
    assert!(!passes_filters(&m, None, Some("x"), None));
    assert!(!passes_filters(&m, None, None, Some("outgoing")));
}

#[test]
fn the_newest_message_of_an_identifier_is_found() {
    let mut store = MessageStore::new(128);
    store.push(message("same", "a", "s"));
    store.push(message("same", "b", "s"));
    assert_eq!(store.find_message("same").unwrap().message.chat, "b");
    assert!(store.find_message("other").is_none());
}

#[test]
fn the_single_consumer_gets_each_message_once() {
    let mut store = MessageStore::new(128);
    for i in 0..5 {
        store.push(message(&format!("m{i}"), "c", "s"));
    }
    assert_eq!(store.take_legacy(3).len(), 3);
    let rest = store.take_legacy(10);
    assert_eq!(rest.len(), 2);
    assert_eq!(rest[0].cursor, 4);
    assert!(store.take_legacy(10).is_empty());
}

#[test]
fn lists_tell_where_to_go_on() {
    let mut store = MessageStore::new(128);
    for i in 0..5 {
        store.push(message(&format!("m{i}"), "c", "s"));
    }
    let list = get_messages(&store, &query(1, 2));
    assert_eq!(list.messages.len(), 2);
    assert_eq!(list.next_cursor, 3);
    assert_eq!(list.latest_cursor, 5);
    assert!(list.has_more);
    let rest = get_messages(&store, &query(list.next_cursor, 2));
    assert_eq!(rest.next_cursor, 5);
    assert!(!rest.has_more);
    let empty = get_messages(&store, &query(5, 2));
    assert!(empty.messages.is_empty());
    assert_eq!(empty.next_cursor, 5);
}

#[test]
fn a_cursor_or_a_filter_leaves_the_single_consumer_alone() {
    let mut store = MessageStore::new(128);
    store.push(message("m1", "c", "s"));
    store.push(message("m2", "d", "s"));
    let mut filtered = query(0, 10);
    filtered.chat = Some("d".to_string());
    assert_eq!(get_new_messages(&mut store, &filtered).len(), 1);
    assert_eq!(get_new_messages(&mut store, &query(1, 10)).len(), 1);
    assert_eq!(get_new_messages(&mut store, &query(0, 10)).len(), 2);
    assert!(get_new_messages(&mut store, &query(0, 10)).is_empty());
}

#[test]
fn history_offsets_are_limited() {
    assert_eq!(default_message_limit(), 100);
    assert!(check_history_query(&history_query(100_000, None)).is_ok());
    let error = check_history_query(&history_query(100_001, None)).unwrap_err();
    assert_eq!(error.status, BAD_REQUEST);
    assert_eq!(error.message, "历史分页 offset 不能超过 100000");
}

#[test]
fn history_pages_count_what_was_read() {
    let mut late = message("m2", "c", "other");
    late.create_time = 20;
    let page = vec![message("m1", "c", "s"), late];
    let response = history_response(page, true, &history_query(40, Some("s")));
    assert_eq!(response.messages.len(), 1);
    assert_eq!(response.messages[0].message_id, "m1");
    assert_eq!(response.next_offset, 42);
    assert_eq!(response.checkpoint_time, 20);
    assert_eq!(response.next_since, 20);
    assert!(response.has_more);
    let nothing = history_response(Vec::new(), false, &history_query(3, None));
    assert_eq!(nothing.next_offset, 3);
    assert_eq!(nothing.checkpoint_time, 7);
}

#[test]
fn streams_end_with_their_client_or_source() {
    assert_eq!(PING_SECONDS, 30);
    assert_eq!(stream_step(StreamEvent::Message), StreamAction::Forward);
    assert_eq!(stream_step(StreamEvent::Tick), StreamAction::Ping);
    assert_eq!(stream_step(StreamEvent::Frame), StreamAction::Wait);
    assert_eq!(stream_step(StreamEvent::SourceLost), StreamAction::Close);
    assert_eq!(stream_step(StreamEvent::ClientGone), StreamAction::Close);
    assert_eq!(stream_step(StreamEvent::SendFailed), StreamAction::Close);
}
