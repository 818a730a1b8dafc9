//! Messages, tables, history pages and attachments.

use mimicwx::attachment::{
    attachment_info, attachment_locator, attachment_roots, check_locator, decode_attachment_id,
    is_available, join, normalize_md5, resolve_from_candidates, valid_attachment_name,
    visit_entry, worth_reading, AttachmentError, AttachmentLocator, Candidate, EntryKind,
    FileDigest, FileFacts, Visit, MAX_DEPTH,
};
use mimicwx::cell::Cell;
use mimicwx::contacts::{load_contacts, ContactInfo, ContactRow};
use mimicwx::content::MsgContent;
use mimicwx::history::{fetch_limit, history_page, page_limit, page_offset, TableReading};
use mimicwx::message::{
    build_message, echoes, hydrate, hydrate_raw_messages, mention_list, message_of_row,
    messages_of_rows, sent_contents, split_sender, stable_message_id, DbMessage, MessageRow, RawMsg,
};
use mimicwx::tables::{
    add_names, build_single_table_meta, chat_row_number, digest_names, is_message_db, max_id_sql, needs_names,
    relative_path, resolve_chat_from_table, table_key, watermark_key,
};
use mimicwx::textmap::TextMap;

fn text(s: &str) -> Cell {
    Cell::Text(s.as_bytes().to_vec())
}

fn book() -> TextMap<ContactInfo> {
    let row = |username: &str, nick: &str, remark: &str| ContactRow {
        username: text(username),
        nick_name: text(nick),
        remark: text(remark),
        alias: Cell::Null,
    };
    load_contacts(&vec![
        row("wxid_a", "Anna", "A."),
        row("1@chatroom", "Group", ""),
    ])
    .0
}

fn raw(chat: &str, talker: &str, content: &str) -> RawMsg {
    RawMsg {
        local_id: 5,
        server_id: 0,
        create_time: 100,
        content: content.to_string(),
        msg_type: 1,
        talker: talker.to_string(),
        chat: chat.to_string(),
        status: 2,
        source: String::new(),
    }
}

fn built(raw: &RawMsg) -> DbMessage {
    hydrate(raw, "wxid_me", "Me", &book())
}

fn at(id: &str, time: i64) -> DbMessage {
    let mut message = built(&raw("c", "t", "x"));
    message.message_id = id.to_string();
    message.create_time = time;
    message
}

fn ids(messages: &[DbMessage]) -> Vec<String> {
    messages.iter().map(|m| m.message_id.clone()).collect()
}

fn locator(name: &str, size: Option<u64>, md5: Option<&str>) -> AttachmentLocator {
    AttachmentLocator {
        name: name.to_string(),
        size,
        md5: md5.map(|s| s.to_string()),
    }
}

fn candidate(name: &str, modified: i128, digest: Option<&str>, canonical: &str) -> Candidate {
    Candidate {
        file_name: Some(name.as_bytes().to_vec()),
        facts: Some(FileFacts {
            is_file: true,
            size: 10,
            modified,
        }),
        digest: digest.map(|s| s.to_string()),
        canonical: Some(canonical.as_bytes().to_vec()),
    }
}

fn roots() -> Vec<Option<Vec<u8>>> {
    vec![None, Some("/root/msg".as_bytes().to_vec())]
}

const DIGEST: &str = "0123456789abcdef0123456789abcdef";

#[test]
fn attachment_name_rejects_path_traversal() {
    assert!(valid_attachment_name("report.zip"));
    assert!(valid_attachment_name("知识库资料.pdf"));
    assert!(!valid_attachment_name("../secret"));
    assert!(!valid_attachment_name("a/b.exe"));
    assert!(!valid_attachment_name("a\\b.apk"));
}

#[test]
fn stable_message_id_prefers_server_id() {
    assert_eq!(stable_message_id(123, "chat", 1, 2), "wx:123");
    assert_eq!(
        stable_message_id(0, "chat", 1, 2),
        stable_message_id(0, "chat", 1, 2),
    );
    assert_ne!(
        stable_message_id(0, "chat", 1, 2),
        stable_message_id(0, "chat", 2, 2),
    );
}

#[test]
fn local_identifiers_are_digests() {
    assert_eq!(
        stable_message_id(0, "chat", 1, 2),
        format!("local:{:x}", md5::compute("chat\u{0}1\u{0}2"))
    );
    assert_eq!(
        stable_message_id(-7, "c", -1, 0),
        format!("local:{:x}", md5::compute("c\u{0}-1\u{0}0"))
    );
}

#[test]
fn attachment_names_are_single_names() {
    assert!(!valid_attachment_name(""));
    assert!(!valid_attachment_name("."));
    assert!(!valid_attachment_name(".."));
    assert!(!valid_attachment_name("a\u{0}b"));
    assert!(!valid_attachment_name("a\u{85}b"));
    assert!(valid_attachment_name(" "));
    assert!(valid_attachment_name("..."));
    assert!(valid_attachment_name(&"x".repeat(255)));
    assert!(!valid_attachment_name(&"x".repeat(256)));
}

#[test]
fn digests_are_normalized() {
    assert_eq!(
        normalize_md5(Some(" 0123456789ABCDEF0123456789abcdef\n")).unwrap(),
        DIGEST
    );
    assert!(normalize_md5(Some("0123456789ABCDEF0123456789abcde")).is_none());
    assert!(normalize_md5(Some("0123456789ABCDEF0123456789abcdeg")).is_none());
    assert!(normalize_md5(None).is_none());
}

#[test]
fn files_get_an_identifier() {
    let parsed = MsgContent::File {
        title: Some(" a.zip ".to_string()),
        file_size: Some(3),
        file_ext: Some("zip".to_string()),
        md5: Some("x".to_string()),
    };
    let wanted = attachment_locator(&parsed).unwrap();
    assert_eq!((wanted.name.as_str(), wanted.size), ("a.zip", Some(3)));
    assert!(wanted.md5.is_none());
    let json = "{\"name\":\"a.zip\",\"size\":3,\"md5\":null}";
    let info = attachment_info(&parsed, json.as_bytes(), true).unwrap();
    assert_eq!(info.id, "eyJuYW1lIjoiYS56aXAiLCJzaXplIjozLCJtZDUiOm51bGx9");
    assert_eq!(info.download_url, format!("/attachments/{}", info.id));
    assert_eq!((info.name.as_str(), info.size), ("a.zip", Some(3)));
    assert_eq!(info.extension.as_deref(), Some("zip"));
    assert!(info.available);
    assert_eq!(decode_attachment_id(&info.id).unwrap(), json.as_bytes());
    let text_only = MsgContent::Text {
        text: "a".to_string(),
    };
    assert!(attachment_info(&text_only, json.as_bytes(), true).is_none());
    let nameless = MsgContent::File {
        title: Some("a/b".to_string()),
        file_size: None,
        file_ext: None,
        md5: None,
    };
    assert!(attachment_locator(&nameless).is_none());
}

#[test]
fn identifiers_are_checked() {
    assert_eq!(
        decode_attachment_id(&"A".repeat(2049)).unwrap_err(),
        AttachmentError::IdTooLong
    );
    assert_eq!(decode_attachment_id("A*").unwrap_err(), AttachmentError::IdFormat);
    assert_eq!(decode_attachment_id("AA==").unwrap_err(), AttachmentError::IdFormat);
    assert_eq!(decode_attachment_id("_-8").unwrap(), vec![0xff, 0xef]);
    assert_eq!(
        check_locator(&locator("a/b", None, None)).unwrap_err(),
        AttachmentError::InvalidName
    );
    assert_eq!(
        check_locator(&locator("a", None, Some("x"))).unwrap_err(),
        AttachmentError::InvalidMd5
    );
    assert!(check_locator(&locator("a", None, Some(DIGEST))).is_ok());
    assert_eq!(AttachmentError::IdTooLong.message(), "附件标识过长");
    assert_eq!(AttachmentError::IdFormat.message(), "附件标识格式错误");
    assert_eq!(AttachmentError::IdContent.message(), "附件标识内容错误");
    assert_eq!(AttachmentError::InvalidName.message(), "附件文件名无效");
    assert_eq!(AttachmentError::InvalidMd5.message(), "附件 MD5 无效");
    assert_eq!(AttachmentError::NoRoots.message(), "微信附件目录不存在");
    assert_eq!(AttachmentError::NotDownloaded.message(), "附件尚未下载到微信本地目录");
}

#[test]
fn directories_are_walked() {
    assert_eq!(join("/a".as_bytes(), "b"), "/a/b".as_bytes());
    assert_eq!(join("/a/".as_bytes(), "b"), "/a/b".as_bytes());
    assert_eq!(join("".as_bytes(), "b"), "b".as_bytes());
    let found = attachment_roots(Some("/w".as_bytes()));
    assert_eq!(
        found,
        vec![
            "/w/msg/file".as_bytes().to_vec(),
            "/w/msg/attach".as_bytes().to_vec(),
            "/w/msg/video".as_bytes().to_vec(),
            "/w/temp".as_bytes().to_vec(),
        ]
    );
    assert!(attachment_roots(None).is_empty());
    assert_eq!(MAX_DEPTH, 8);
    assert_eq!(visit_entry(0, EntryKind::File), Visit::Take);
    assert_eq!(visit_entry(0, EntryKind::Directory), Visit::Descend(1));
    assert_eq!(visit_entry(8, EntryKind::Directory), Visit::Skip);
    assert_eq!(visit_entry(8, EntryKind::File), Visit::Take);
    assert_eq!(visit_entry(0, EntryKind::Symlink), Visit::Skip);
    assert_eq!(visit_entry(0, EntryKind::Unreadable), Visit::Skip);
    assert_eq!(visit_entry(0, EntryKind::Other), Visit::Skip);
}

#[test]
fn the_newest_file_of_the_name_is_taken() {
    let wanted = locator("a", Some(10), None);
    let files = vec![
        candidate("b", 9, None, "/root/msg/b"),
        candidate("a", 1, None, "/root/msg/x/a"),
        candidate("a", 2, None, "/root/msg/y/a"),
        candidate("a", 2, None, "/root/msg/z/a"),
    ];
    let found = resolve_from_candidates(&wanted, &files, &roots()).unwrap();
    assert_eq!(found.path, "/root/msg/y/a".as_bytes());
    assert_eq!((found.name.as_str(), found.size), ("a", 10));
    assert!(found.md5.is_none());
}

#[test]
fn a_digest_stands_in_for_the_name() {
    let wanted = locator("a", None, Some(DIGEST));
    let files = vec![
        candidate("b", 9, Some(DIGEST), "/root/msg/b"),
        candidate("a", 1, Some(DIGEST), "/root/msg/a"),
        candidate("a", 8, Some("other"), "/root/msg/c"),
    ];
    let found = resolve_from_candidates(&wanted, &files, &roots()).unwrap();
    assert_eq!(found.path, "/root/msg/a".as_bytes());
    assert_eq!(found.md5.as_deref(), Some(DIGEST));
    assert!(worth_reading(&wanted, &files[0].file_name, &files[0].facts));
    assert!(!worth_reading(&locator("a", None, None), &files[0].file_name, &files[0].facts));
    assert!(!worth_reading(&locator("a", Some(11), None), &files[1].file_name, &files[1].facts));
}

#[test]
fn files_outside_the_directories_are_not_taken() {
    let wanted = locator("a", None, None);
    let outside = vec![
        candidate("a", 1, None, "/root/msgs/a"),
        candidate("a", 1, None, "/etc/a"),
    ];
    assert_eq!(
        resolve_from_candidates(&wanted, &outside, &roots()).unwrap_err(),
        AttachmentError::NotDownloaded
    );
    assert_eq!(
        resolve_from_candidates(&wanted, &outside, &Vec::new()).unwrap_err(),
        AttachmentError::NoRoots
    );
    assert_eq!(
        resolve_from_candidates(&locator("..", None, None), &outside, &roots()).unwrap_err(),
        AttachmentError::InvalidName
    );
}

#[test]
fn rows_become_messages() {
    let row = MessageRow {
        local_id: Cell::Integer(3),
        server_id: Cell::Null,
        create_time: Cell::Integer(9),
        content: Cell::Blob(zstd::encode_all("x".as_bytes(), 0).unwrap()),
        msg_type: Cell::Null,
        talker: Cell::Blob(vec![0x28, 0xb5, 0x2f, 0xfd]),
        status: Cell::Null,
        source: Cell::Null,
    };
    let message = message_of_row(&row, "c", false).unwrap();
    assert_eq!((message.local_id, message.server_id, message.create_time), (3, 0, 9));
    assert_eq!((message.content.as_str(), message.chat.as_str()), ("x", "c"));
    assert_eq!(message.talker, "(\u{fffd}/\u{fffd}");
    assert!(message_of_row(&row, "c", true).is_some());
    let broken = MessageRow {
        local_id: Cell::Null,
        ..row
    };
    assert!(message_of_row(&broken, "c", false).is_none());
    assert!(messages_of_rows(&vec![broken], "c", false).is_empty());
}

#[test]
fn group_senders_stand_before_the_text() {
    let (talker, content) = split_sender(&raw("1@chatroom", "", "wxid_a:\nhello"));
    assert_eq!((talker.as_str(), content.as_str()), ("wxid_a", "hello"));
    let (talker, content) = split_sender(&raw("1@chatroom", "x", "wxid_a:\nhello"));
    assert_eq!((talker.as_str(), content.as_str()), ("x", "wxid_a:\nhello"));
    let (talker, content) = split_sender(&raw("wxid_a", "", "wxid_a:\nhello"));
    assert_eq!((talker.as_str(), content.as_str()), ("", "wxid_a:\nhello"));
    for kept in ["a b:\nhello", ":\nhello", "hello"] {
        let (talker, content) = split_sender(&raw("1@chatroom", "", kept));
        assert_eq!((talker.as_str(), content.as_str()), ("", kept));
    }
    let long = format!("{}:\nhello", "x".repeat(50));
    assert_eq!(split_sender(&raw("1@chatroom", "", &long)).0, "");
}

#[test]
fn messages_are_completed() {
    let incoming = built(&raw("wxid_a", "", "hello"));
    assert_eq!((incoming.talker.as_str(), incoming.talker_display_name.as_str()), ("wxid_a", "A."));
    assert_eq!((incoming.direction.as_str(), incoming.is_self, incoming.is_group), ("incoming", false, false));
    assert_eq!(incoming.conversation_name, "A.");
    let mut own = raw("1@chatroom", "", "hello");
    own.status = 4;
    let own = built(&own);
    assert_eq!((own.talker.as_str(), own.sender_name.as_str()), ("wxid_me", "Me"));
    assert_eq!((own.direction.as_str(), own.is_group), ("outgoing", true));
    assert_eq!(own.conversation_name, "Group");
    let mut system = raw("1@chatroom", "", "joined");
    system.msg_type = 10000;
    system.status = 0;
    let system = built(&system);
    assert_eq!((system.direction.as_str(), system.is_self), ("system", false));
    assert_eq!(system.talker, "");
    assert!(system.attachment.is_none());
    let group = built(&raw("1@chatroom", "", "wxid_b:\nhi"));
    assert_eq!((group.sender_id.as_str(), group.sender_name.as_str()), ("wxid_b", "wxid_b"));
    assert_eq!(group.content, "hi");
    let mut served = raw("c", "t", "x");
    served.server_id = 77;
    assert_eq!(built(&served).message_id, "wx:77");
}

#[test]
fn mentions_are_listed() {
    let mut mentioned = raw("1@chatroom", "wxid_a", "@Me hi");
    mentioned.source = "<msgsource><atuserlist>wxid_x, wxid_me ,,</atuserlist></msgsource>".to_string();
    let message = built(&mentioned);
    assert!(message.is_at_me);
    assert_eq!(message.at_user_list, vec!["wxid_x".to_string(), "wxid_me".to_string()]);
    assert!(!hydrate(&mentioned, "", "Me", &book()).is_at_me);
    assert!(mention_list(&None).is_empty());
    assert_eq!(mention_list(&Some(" a ,b".to_string())), vec!["a".to_string(), "b".to_string()]);
    let built_with = build_message(&raw("c", "t", "x"), "me", "Me", &book(), vec!["me".to_string()]);
    assert!(built_with.is_at_me);
}

#[test]
fn own_messages_are_echoed() {
    let mut own = raw("c", "", "sent text");
    own.status = 0;
    let messages = hydrate_raw_messages(&vec![own, raw("c", "t", "other")], "wxid_me", "Me", &book());
    assert_eq!(sent_contents(&messages), vec!["sent text".to_string()]);
    assert!(echoes(" sent text ", "text"));
    assert!(echoes("sent", "a sent text"));
    assert!(!echoes("  ", "text"));
    assert!(!echoes("abc", "xyz"));
}

#[test]
fn attachments_are_attached_to_files() {
    let mut message = built(&raw("c", "t", "x"));
    message.attach("{}".as_bytes(), true);
    assert!(message.attachment.is_none());
    message.parsed = MsgContent::File {
        title: Some("a".to_string()),
        file_size: None,
        file_ext: None,
        md5: None,
    };
    message.attach("{}".as_bytes(), false);
    let info = message.attachment.unwrap();
    assert_eq!((info.id.as_str(), info.available), ("e30", false));
}

#[test]
fn history_is_sorted_and_without_doubles() {
    let messages = vec![at("b", 2), at("a", 2), at("c", 1), at("b", 9)];
    let (page, more) = history_page(messages, 0, 10);
    assert_eq!(ids(&page), ["c", "a", "b"]);
    assert_eq!(page[2].create_time, 2);
    assert!(!more);
    let (page, _) = history_page(vec![at("b", 9), at("a", 5), at("b", 2)], 0, 10);
    assert_eq!(ids(&page), ["b", "a"]);
    assert_eq!(page[0].create_time, 2);
}

/// A row with a server's number and a time.
fn numbered(server_id: i64, create_time: i64) -> MessageRow {
    MessageRow {
        local_id: Cell::Integer(100 - server_id),
        server_id: Cell::Integer(server_id),
        create_time: Cell::Integer(create_time),
        content: text("x"),
        msg_type: Cell::Integer(1),
        talker: Cell::Null,
        status: Cell::Integer(2),
        source: Cell::Null,
    }
}

/// The page of a history of one table, which is read as far as the page needs.
fn page_of_table(rows: &Vec<MessageRow>, offset: usize, limit: usize) -> (Vec<String>, bool) {
    let mut reading = TableReading::new(fetch_limit(offset, limit));
    for row in rows {
        if !reading.add_row(row, "c") {
            break;
        }
    }
    let messages = hydrate_raw_messages(&reading.messages(), "wxid_me", "Me", &book());
    let (page, more) = history_page(messages, offset, limit);
    (page.iter().map(|m| m.message_id.clone()).collect(), more)
}

#[test]
fn offsets_are_stable_within_a_second() {
    let rows = vec![numbered(9, 5), numbered(8, 5), numbered(7, 5), numbered(1, 6)];
    let mut seen = Vec::new();
    let mut more = true;
    while more {
        let (page, next) = page_of_table(&rows, seen.len(), 1);
        seen.extend(page);
        more = next;
    }
    assert_eq!(seen, ["wx:7", "wx:8", "wx:9", "wx:1"]);
}

#[test]
fn doubles_in_a_table_do_not_hide_messages() {
    let rows = vec![numbered(3, 1), numbered(3, 2), numbered(3, 3), numbered(4, 4), numbered(5, 5)];
    assert_eq!(page_of_table(&rows, 0, 1), (vec!["wx:3".to_string()], true));
    assert_eq!(page_of_table(&rows, 1, 1), (vec!["wx:4".to_string()], true));
    assert_eq!(page_of_table(&rows, 2, 1), (vec!["wx:5".to_string()], false));
}

#[test]
fn tables_are_read_to_the_end_of_a_second() {
    let mut reading = TableReading::new(2);
    assert!(reading.add_row(&numbered(1, 1), "c"));
    assert!(reading.add_row(&numbered(2, 2), "c"));
    assert!(reading.add_row(&numbered(3, 2), "c"));
    let mut broken = numbered(4, 9);
    broken.local_id = Cell::Null;
    assert!(reading.add_row(&broken, "c"));
    assert!(!reading.add_row(&numbered(4, 3), "c"));
    assert!(!reading.add_row(&numbered(5, 3), "c"));
    let ids: Vec<i64> = reading.messages().iter().map(|m| m.server_id).collect();
    assert_eq!(ids, [1, 2, 3]);
}

#[test]
fn files_are_digested_piece_by_piece() {
    let mut digest = FileDigest::new();
    digest.add_piece("hel".as_bytes());
    digest.add_piece("".as_bytes());
    digest.add_piece("lo".as_bytes());
    assert_eq!(digest.file_md5(), "5d41402abc4b2a76b9719d911017c592");
    assert_eq!(FileDigest::new().file_md5(), "d41d8cd98f00b204e9800998ecf8427e");
}

#[test]
fn identifiers_resolve_where_the_file_is_available() {
    let file = |size| Candidate {
        file_name: Some("a.txt".as_bytes().to_vec()),
        facts: Some(FileFacts { is_file: true, size, modified: 0 }),
        digest: None,
        canonical: Some("/r/a.txt".as_bytes().to_vec()),
    };
    let parsed = MsgContent::File {
        title: Some(" a.txt ".to_string()),
        file_size: Some(4),
        file_ext: None,
        md5: None,
    };
    let roots = vec![Some("/r".as_bytes().to_vec())];
    assert!(is_available(&parsed, &vec![file(4)], &roots));
    assert!(!is_available(&parsed, &vec![file(5)], &roots));
    assert!(!is_available(&MsgContent::Text { text: "a".to_string() }, &vec![file(4)], &roots));
    let locator = attachment_locator(&parsed).unwrap();
    let info = attachment_info(&parsed, "{}".as_bytes(), true).unwrap();
    assert_eq!(info.download_url, format!("/attachments/{}", info.id));
    assert_eq!(decode_attachment_id(&info.id).unwrap(), "{}".as_bytes());
    let found = resolve_from_candidates(&locator, &vec![file(4)], &roots).unwrap();
    assert_eq!(found.name, info.name);
}

#[test]
fn names_of_several_databases_are_known() {
    let mut names = digest_names(&vec!["wxid_a".to_string()]);
    let table = format!("Msg_{:x}", md5::compute("wxid_z"));
    assert!(needs_names(&table, None, &names));
    add_names(&mut names, &vec!["wxid_y".to_string(), "wxid_z".to_string()]);
    assert!(!needs_names(&table, None, &names));
    assert_eq!(resolve_chat_from_table(&table, None, &names), "wxid_z");
    let first = format!("Chat_{:x}", md5::compute("wxid_a"));
    assert_eq!(resolve_chat_from_table(&first, None, &names), "wxid_a");
}

#[test]
fn history_pages_follow_each_other() {
    let all: Vec<DbMessage> = (0..5).map(|i| at(&format!("m{i}"), 10 - i)).collect();
    let copy = all.clone();
    let (first, more) = history_page(all, 0, 2);
    assert_eq!(ids(&first), ["m4", "m3"]);
    assert!(more);
    let (last, more) = history_page(copy, 4, 2);
    assert_eq!(ids(&last), ["m0"]);
    assert!(!more);
    assert_eq!(page_limit(0), 1);
    assert_eq!(page_limit(501), 500);
    assert_eq!(page_offset(100_001), 100_000);
    assert_eq!(fetch_limit(0, 0), 2);
    assert_eq!(fetch_limit(200_000, 1000), 100_501);
    let (none_asked, _) = history_page(vec![at("a", 1), at("b", 2)], 0, 0);
    assert_eq!(ids(&none_asked), ["a"]);
}

#[test]
fn databases_of_messages_are_recognised() {
    assert!(is_message_db("message_0.db"));
    assert!(is_message_db("message_12.db"));
    for other in ["message_.db", "message_fts.db", "message_0.db-wal", "Message_0.db", "message_1x.db"] {
        assert!(!is_message_db(other), "{other}");
    }
    assert_eq!(relative_path("message_0.db"), "message/message_0.db");
    assert_eq!(watermark_key("message/message_0.db", "Msg_x"), "message_0::Msg_x");
    assert_eq!(watermark_key("message/message/a.db.db", "t"), "a::t");
    assert_eq!(table_key("message/message_0.db", "t"), "message/message_0.db::t");
}

#[test]
fn queries_are_written_for_a_table() {
    let columns = |names: &[&str]| names.iter().map(|s| s.to_string()).collect::<Vec<String>>();
    let meta = build_single_table_meta(
        "Msg_x",
        &columns(&["LOCAL_ID", "server_id", "local_type", "real_sender_id", "create_time", "status", "source", "message_content"]),
    )
    .unwrap();
    assert_eq!(
        meta.select_sql,
        "SELECT LOCAL_ID, server_id, create_time, message_content, local_type, real_sender_id, status, source FROM [Msg_x] WHERE LOCAL_ID > ?1 ORDER BY LOCAL_ID ASC"
    );
    assert_eq!(
        meta.history_sql,
        "SELECT LOCAL_ID, server_id, create_time, message_content, local_type, real_sender_id, status, source FROM [Msg_x] WHERE create_time >= ?1 ORDER BY create_time ASC, LOCAL_ID ASC"
    );
    assert_eq!(max_id_sql(&meta), "SELECT MAX(LOCAL_ID) FROM [Msg_x]");
    let bare = build_single_table_meta("T", &columns(&["content"])).unwrap();
    assert_eq!(
        bare.select_sql,
        "SELECT rowid, 0, 0, content, 0, '', 0, '' FROM [T] WHERE rowid > ?1 ORDER BY rowid ASC"
    );
    assert!(build_single_table_meta("T", &columns(&["local_id"])).is_none());
}

#[test]
fn tables_are_assigned_to_chats() {
    let names = digest_names(&vec!["wxid_a".to_string(), "wxid_b".to_string()]);
    let table = format!("Msg_{:x}", md5::compute("wxid_b"));
    assert_eq!(resolve_chat_from_table(&table, None, &names), "wxid_b");
    let upper = format!("MSG_{:x}", md5::compute("wxid_a"));
    assert_eq!(resolve_chat_from_table(&upper, None, &names), "wxid_a");
    assert_eq!(resolve_chat_from_table("Chat_none", None, &names), "Chat_none");
    assert_eq!(resolve_chat_from_table("ChatMsg_7", Some("wxid_c"), &names), "wxid_c");
    assert_eq!(resolve_chat_from_table("ChatMsg_7", None, &names), "ChatMsg_7");
    assert_eq!(chat_row_number("ChatMsg_7"), Some(7));
    assert_eq!(chat_row_number("ChatMsg_x"), None);
    assert_eq!(chat_row_number("Msg_7"), None);
    let empty = digest_names(&Vec::new());
    assert!(needs_names("Msg_x", None, &empty));
    assert!(needs_names("Msg_x", None, &names));
    assert!(!needs_names(&table, None, &names));
    assert!(!needs_names("ChatMsg_7", Some("a"), &empty));
    assert!(!needs_names("ChatMsg_7", None, &empty));
}
