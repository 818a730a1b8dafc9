//! Keys, contacts and the state of the database side.

use mimicwx::attachment::{AttachmentError, AttachmentLocator, Candidate, FileFacts};
use mimicwx::cell::Cell;
use mimicwx::contacts::{
    add_rooms, contact_of_row, list_sessions, load_contacts, resolve_identifier, resolve_name,
    session_of_row, ContactRow, RoomRow, SessionRow,
};
use mimicwx::db::{
    databases_to_open, has_external_change, keys_changed, load_watermarks, wants_table,
    watermarks_text, DbError, DbManager, FileChange, SentEvent, TableMaximum,
};
use mimicwx::keys::{
    all_json_keys, file_name, hex_to_bytes, hex_val, is_cut_into_pairs, is_derived, key_attempts,
    key_entries, key_pragma, lookup_db_key, no_key_message, read_keys, self_wxid,
    strip_device_suffix, KeyEntry,
};
use mimicwx::message::MessageRow;
use mimicwx::send::{check_text, route};
use mimicwx::tables::build_single_table_meta;
use mimicwx::textmap::TextMap;

fn text(s: &str) -> Cell {
    Cell::Text(s.as_bytes().to_vec())
}

fn contact(username: &str, nick: &str, remark: &str, alias: &str) -> ContactRow {
    ContactRow {
        username: text(username),
        nick_name: text(nick),
        remark: text(remark),
        alias: text(alias),
    }
}

fn room(username: &str, nick: &str) -> RoomRow {
    RoomRow {
        username: text(username),
        nick_name: text(nick),
    }
}

fn entry(db_name: &str, key: &str) -> KeyEntry {
    KeyEntry {
        db_name: db_name.to_string(),
        key: key.to_string(),
    }
}

fn row(id: i64, content: &str, status: i64) -> MessageRow {
    MessageRow {
        local_id: Cell::Integer(id),
        server_id: Cell::Integer(0),
        create_time: Cell::Integer(id),
        content: text(content),
        msg_type: Cell::Integer(1),
        talker: Cell::Null,
        status: Cell::Integer(status),
        source: Cell::Null,
    }
}

fn components() -> Vec<Option<String>> {
    ["/", "home", "wxid_me_c024", "db_storage"]
        .iter()
        .map(|s| Some(s.to_string()))
        .collect()
}

fn manager() -> DbManager {
    DbManager::new("ab".repeat(32), &components(), &Vec::new()).unwrap()
}

fn listed(names: &[&str]) -> Vec<String> {
    names.iter().map(|s| s.to_string()).collect()
}

#[test]
fn hexadecimal_is_read() {
    assert_eq!(hex_to_bytes("00fF").unwrap(), vec![0x00, 0xff]);
    assert_eq!(hex_to_bytes("").unwrap(), Vec::<u8>::new());
    assert_eq!(hex_to_bytes("+f").unwrap(), vec![0x0f]);
    assert_eq!(hex_to_bytes("abc").unwrap_err().message(), "hex 长度必须为偶数");
    assert_eq!(hex_to_bytes("00zz").unwrap_err().message(), "无效 hex 字符: zz");
    assert_eq!(hex_to_bytes("-1").unwrap_err().message(), "无效 hex 字符: -1");
    assert!(is_cut_into_pairs("00é0") == false || hex_to_bytes("00é0").is_err());
    assert!(!is_cut_into_pairs("0é0"));
    assert_eq!(hex_val(0x39), Some(9));
    assert_eq!(hex_val(0x61), Some(10));
    assert_eq!(hex_val(0x46), Some(15));
    assert_eq!(hex_val(0x67), None);
}

#[test]
fn accounts_are_read_from_the_path() {
    assert_eq!(strip_device_suffix("wxid_abc_c024"), "wxid_abc");
    assert_eq!(strip_device_suffix("wxid_abcdefg"), "wxid_abcdefg");
    assert_eq!(strip_device_suffix("wxid_abc_1"), "wxid_abc_1");
    assert_eq!(strip_device_suffix("wxid_ab"), "wxid");
    assert_eq!(strip_device_suffix("wxid_a_b-c"), "wxid_a_b-c");
    assert_eq!(self_wxid(&components()), "wxid_me");
    assert_eq!(self_wxid(&vec![None, Some("home".to_string())]), "");
    assert_eq!(file_name("message/message_0.db"), "message_0.db");
    assert_eq!(file_name("a/b/"), "b");
    assert_eq!(file_name(".."), "");
}

#[test]
fn keys_are_tried_in_order() {
    let entries = vec![
        entry("contact/contact.db", "aa"),
        entry("x/message_0.db", "bb"),
        entry("y/other.db", "zz"),
        entry("z/more.db", "aa"),
    ];
    assert_eq!(lookup_db_key(&entries, "contact/contact.db").unwrap(), "aa");
    assert_eq!(lookup_db_key(&entries, "message/message_0.db").unwrap(), "bb");
    assert!(lookup_db_key(&entries, "message/message_1.db").is_none());
    assert_eq!(all_json_keys(&entries), listed(&["aa", "bb", "zz"]));
    let attempts = key_attempts(&entries, "message/message_0.db", "cc", &vec![0xcc]);
    let tried: Vec<(String, Vec<u8>)> = attempts.into_iter().map(|a| (a.key_hex, a.key_bytes)).collect();
    assert_eq!(
        tried,
        vec![
            ("bb".to_string(), vec![0xbb]),
            ("cc".to_string(), vec![0xcc]),
            ("aa".to_string(), vec![0xaa]),
            ("bb".to_string(), vec![0xbb]),
        ]
    );
    let attempts = key_attempts(&entries, "other.db", "aa", &vec![0xaa]);
    let tried: Vec<String> = attempts.iter().map(|a| a.key_hex.clone()).collect();
    assert_eq!(tried, listed(&["zz", "aa", "bb"]));
    assert!(attempts[0].key_bytes.is_empty());
    assert_eq!(
        no_key_message("a.db", &entries),
        "数据库解密验证失败: a.db (已尝试 4 个密钥)"
    );
    assert_eq!(key_pragma("00ff"), "PRAGMA key = \"x'00ff'\";");
    assert!(is_derived(&vec![0; 48]));
    assert!(!is_derived(&vec![0; 32]));
}

#[test]
fn contacts_have_a_name_to_show() {
    let shown = |row: &ContactRow| contact_of_row(row).unwrap().display_name;
    assert_eq!(shown(&contact("u", "nick", "remark", "")), "remark");
    assert_eq!(shown(&contact("u", "nick", "", "")), "nick");
    assert_eq!(shown(&contact("u", "", "", "alias")), "u");
    assert!(contact_of_row(&contact("", "nick", "", "")).is_none());
    let packed = ContactRow {
        username: Cell::Blob(zstd::encode_all("u".as_bytes(), 0).unwrap()),
        nick_name: Cell::Null,
        remark: Cell::Null,
        alias: Cell::Null,
    };
    assert_eq!(contact_of_row(&packed).unwrap().username, "u");
}

#[test]
fn the_last_contact_of_a_name_is_kept() {
    let rows = vec![
        contact("a", "first", "", ""),
        contact("b", "B", "", ""),
        contact("a", "second", "", ""),
        contact("", "x", "", ""),
    ];
    let (mut book, count) = load_contacts(&rows);
    assert_eq!((book.len(), count), (2, 3));
    assert_eq!(resolve_name(&book, "a"), "second");
    assert_eq!(resolve_name(&book, "c"), "c");
    add_rooms(
        &mut book,
        &vec![room("1@chatroom", "Room"), room("a", "no"), room("2@chatroom", ""), room("", "x")],
    );
    assert_eq!(book.len(), 3);
    assert_eq!(resolve_name(&book, "a"), "second");
    assert_eq!(resolve_name(&book, "1@chatroom"), "Room");
    assert_eq!(resolve_name(&book, "2@chatroom"), "2@chatroom");
}

#[test]
fn names_are_turned_into_identifiers() {
    let (book, _) = load_contacts(&vec![
        contact("id1", "nick1", "remark1", "alias1"),
        contact("id2", "nick1", "", ""),
    ]);
    assert_eq!(resolve_identifier(&book, "id2"), "id2");
    assert_eq!(resolve_identifier(&book, "remark1"), "id1");
    assert_eq!(resolve_identifier(&book, "alias1"), "id1");
    assert_eq!(resolve_identifier(&book, "nick1"), "id1");
    assert_eq!(resolve_identifier(&book, "nobody"), "nobody");
    let once = resolve_identifier(&book, "remark1");
    assert_eq!(resolve_identifier(&book, &once), once);
}

#[test]
fn sessions_are_listed() {
    let (book, _) = load_contacts(&vec![contact("u", "Nick", "", "")]);
    let session = |unread: Cell, username: Cell| SessionRow {
        username,
        unread_count: unread,
        summary: Cell::Null,
        last_timestamp: Cell::Integer(5),
        last_msg_sender: text("s"),
    };
    let found = session_of_row(&book, &session(Cell::Null, text("u"))).unwrap();
    assert_eq!((found.display_name.as_str(), found.unread_count), ("Nick", 0));
    assert_eq!((found.summary.as_str(), found.last_timestamp), ("", 5));
    assert_eq!(found.last_msg_sender, "s");
    assert!(session_of_row(&book, &session(Cell::Null, Cell::Null)).is_none());
    assert!(session_of_row(&book, &session(Cell::Integer(1 << 31), text("u"))).is_none());
    let rows = vec![session(Cell::Integer(2), text("x")), session(Cell::Real, text("y"))];
    let sessions = list_sessions(&book, &rows);
    assert_eq!(sessions.len(), 1);
    assert_eq!((sessions[0].display_name.as_str(), sessions[0].unread_count), ("x", 2));
}

#[test]
fn maps_keep_their_order() {
    let mut map: TextMap<String> = TextMap::new();
    map.insert("b".to_string(), "1".to_string());
    map.insert("a".to_string(), "2".to_string());
    map.insert("b".to_string(), "3".to_string());
    assert_eq!(map.len(), 2);
    assert_eq!((map.key_at(0).as_str(), map.value_at(0).as_str()), ("b", "3"));
    assert_eq!(map.find("a"), Some(1));
    assert_eq!(map.get("a").unwrap(), "2");
    assert!(map.get("c").is_none());
}

#[test]
fn a_manager_needs_a_proper_key() {
    let new = |key: String| DbManager::new(key, &components(), &Vec::new());
    assert!(new("ab".repeat(48)).is_ok());
    match new("ab".repeat(31)) {
        Err(DbError::KeyLength(n)) => assert_eq!(n, 31),
        _ => panic!("a key of another length was taken"),
    }
    match new("x".repeat(64)) {
        Err(e) => assert_eq!(e.message(), "密钥 hex 格式错误"),
        Ok(_) => panic!("a key that is not hexadecimal was taken"),
    }
    assert_eq!(
        DbError::KeyLength(31).message(),
        "密钥长度必须为 32 或 48 字节, 实际: 31"
    );
    let made = manager();
    assert_eq!(made.self_wxid(), "wxid_me");
    assert_eq!(made.key_hex().len(), 64);
    assert_eq!(made.key_bytes(), &vec![0xab; 32]);
}

#[test]
fn new_messages_are_read_once() {
    let mut db = manager();
    assert!(!db.has_persisted_watermarks());
    let mut scan = db.begin_scan();
    assert_eq!(scan.last_id("message/message_0.db", "Msg_a"), 0);
    scan.add_table("message/message_0.db", "Msg_a", "wxid_a", &vec![row(3, "x", 2), row(7, "y", 0)]);
    scan.add_table("message/message_0.db", "Msg_b", "wxid_b", &Vec::new());
    assert_eq!(scan.last_id("message/message_0.db", "Msg_a"), 7);
    let messages = db.get_new_messages(scan);
    assert_eq!(messages.len(), 2);
    assert_eq!((messages[0].content.as_str(), messages[1].talker.as_str()), ("x", "wxid_me"));
    assert_eq!(messages[1].sender_name, "我");
    assert_eq!(db.saved_watermarks(), vec![("message_0::Msg_a".to_string(), 7)]);
    let again = db.begin_scan();
    assert_eq!(again.last_id("message/message_0.db", "Msg_a"), 7);
    assert!(db.get_new_messages(again).is_empty());
    let restarted = DbManager::new("ab".repeat(32), &components(), &db.saved_watermarks()).unwrap();
    assert!(restarted.has_persisted_watermarks());
    assert_eq!(restarted.begin_scan().last_id("message/message_0.db", "Msg_a"), 7);
}

#[test]
fn everything_can_be_marked_as_read() {
    let mut db = manager();
    let maximum = |table: &str, max_id| TableMaximum {
        db_name: "message/message_1.db".to_string(),
        table: table.to_string(),
        max_id,
    };
    db.mark_all_read(&vec![maximum("Msg_a", Some(4)), maximum("Msg_b", None)]);
    assert_eq!(db.saved_watermarks(), vec![("message_1::Msg_a".to_string(), 4)]);
    db.mark_all_read(&Vec::new());
    assert!(!db.has_persisted_watermarks());
}

#[test]
fn contacts_are_refreshed() {
    let mut db = manager();
    let count = db.refresh_contacts(
        &vec![contact("wxid_me", "Me", "", ""), contact("wxid_a", "Anna", "", "")],
        &vec![room("1@chatroom", "Room")],
    );
    assert_eq!(count, 2);
    assert_eq!(db.get_contacts().len(), 3);
    assert_eq!(db.resolve_chat_identifier("Anna"), "wxid_a");
    assert_eq!(db.conversation_display_name("1@chatroom"), "Room");
    let plan = route(Some(&db), "Anna");
    assert_eq!((plan.conversation_id.as_str(), plan.conversation_name.as_str()), ("wxid_a", "Anna"));
    let mut scan = db.begin_scan();
    scan.add_table("message/message_0.db", "Msg_a", "wxid_a", &vec![row(1, "hi", 0)]);
    assert_eq!(db.get_new_messages(scan)[0].sender_name, "Me");
    let sessions = db.get_sessions(&vec![SessionRow {
        username: text("wxid_a"),
        unread_count: Cell::Integer(1),
        summary: text("s"),
        last_timestamp: Cell::Null,
        last_msg_sender: Cell::Null,
    }]);
    assert_eq!(sessions[0].display_name, "Anna");
}

#[test]
fn table_structures_are_remembered() {
    let mut db = manager();
    assert!(db.known_table("message/message_0.db", "Msg_a").is_none());
    let meta = build_single_table_meta("Msg_a", &listed(&["content"])).unwrap();
    db.learn_table("message/message_0.db", "Msg_a", meta);
    assert_eq!(db.known_table("message/message_0.db", "Msg_a").unwrap().id_col, "rowid");
    assert!(db.known_table("message/message_1.db", "Msg_a").is_none());
    db.forget_tables();
    assert!(db.known_table("message/message_0.db", "Msg_a").is_none());
}

#[test]
fn history_does_not_move_the_marks() {
    let db = manager();
    let raws = mimicwx::message::messages_of_rows(&vec![row(2, "b", 2), row(1, "a", 2)], "c", true);
    let (page, more) = db.get_message_history(&raws, 0, 1);
    assert_eq!(page.len(), 1);
    assert_eq!(page[0].content, "a");
    assert!(more);
    assert!(!db.has_persisted_watermarks());
}

#[test]
fn sent_texts_are_waited_for() {
    let db = manager();
    assert_eq!(db.verify_sent("hello", &SentEvent::Content(" hello you ".to_string())), Some(true));
    assert_eq!(db.verify_sent("hello", &SentEvent::Content("other".to_string())), None);
    assert_eq!(db.verify_sent("hello", &SentEvent::Content("  ".to_string())), None);
    assert_eq!(db.verify_sent("hello", &SentEvent::Lagged), None);
    assert_eq!(db.verify_sent("hello", &SentEvent::Closed), Some(false));
    assert_eq!(db.verify_sent("hello", &SentEvent::TimedOut), Some(false));
}

#[test]
fn attachments_are_resolved() {
    let db = manager();
    let wanted = AttachmentLocator {
        name: "a".to_string(),
        size: None,
        md5: None,
    };
    let files = vec![Candidate {
        file_name: Some("a".as_bytes().to_vec()),
        facts: Some(FileFacts {
            is_file: true,
            size: 4,
            modified: 0,
        }),
        digest: None,
        canonical: Some("/r/a".as_bytes().to_vec()),
    }];
    let roots = vec![Some("/r".as_bytes().to_vec())];
    let found = db.resolve_attachment("e30", Some(&wanted), &files, &roots).unwrap();
    assert_eq!((found.path.as_slice(), found.size), ("/r/a".as_bytes(), 4));
    let refused = |id: &str, locator| db.resolve_attachment(id, locator, &files, &roots).unwrap_err();
    assert_eq!(refused("e30", None), AttachmentError::IdContent);
    assert_eq!(refused("*", Some(&wanted)), AttachmentError::IdFormat);
    let bad = AttachmentLocator {
        name: "a/b".to_string(),
        size: None,
        md5: None,
    };
    assert_eq!(refused("e30", Some(&bad)), AttachmentError::InvalidName);
}

#[test]
fn new_databases_are_opened() {
    let names = listed(&["message_0.db", "message_fts.db", "message_1.db"]);
    let open = listed(&["message/message_0.db"]);
    assert_eq!(databases_to_open(&names, &open), listed(&["message/message_1.db"]));
    assert!(keys_changed(None, Some(1)));
    assert!(keys_changed(Some(2), Some(1)));
    assert!(!keys_changed(Some(1), Some(1)));
    assert!(!keys_changed(Some(1), None));
    assert!(wants_table(None, "a"));
    assert!(wants_table(Some("a"), "a"));
    assert!(!wants_table(Some("b"), "a"));
    assert!(!wants_table(None, ""));
}

#[test]
fn own_changes_do_not_count() {
    let change = |pid, path: &str| FileChange {
        pid,
        path: path.to_string(),
    };
    assert!(has_external_change(&vec![change(1, "/d/message/a"), change(2, "/d/message/a")], 1, "/d/message"));
    assert!(!has_external_change(&vec![change(1, "/d/message/a"), change(2, "/other")], 1, "/d/message"));
    assert!(!has_external_change(&Vec::new(), 1, "/d/message"));
}

#[test]
fn marks_are_written_and_read_back() {
    let marks = vec![
        ("message_0::Msg_a".to_string(), 7),
        ("quote \" and \n line 名".to_string(), i64::MIN),
        ("message_0::Msg_a".to_string(), 9),
    ];
    let content = watermarks_text(&marks);
    assert!(content.ends_with("\n"));
    let mut loaded = load_watermarks(Some(&content));
    loaded.sort();
    assert_eq!(
        loaded,
        vec![
            ("message_0::Msg_a".to_string(), 9),
            ("quote \" and \n line 名".to_string(), i64::MIN),
        ]
    );
    assert_eq!(watermarks_text(&Vec::new()), "{}\n");
    assert_eq!(load_watermarks(Some("{\"a\": 3}")), vec![("a".to_string(), 3)]);
    assert!(load_watermarks(Some("{\"a\": 1.5}")).is_empty());
    assert!(load_watermarks(Some("[]")).is_empty());
    assert!(load_watermarks(None).is_empty());
}

#[test]
fn marks_survive_a_restart() {
    let key = "00".repeat(32);
    let saved = load_watermarks(Some("{\"message_0::Msg_a\": 4, \"message_1::Msg_b\": 6}"));
    let db = DbManager::new(key.clone(), &components(), &saved).unwrap();
    let again = load_watermarks(Some(&watermarks_text(&db.saved_watermarks())));
    let restarted = DbManager::new(key, &components(), &again).unwrap();
    let scan = restarted.begin_scan();
    assert_eq!(scan.last_id("message/message_0.db", "Msg_a"), 4);
    assert_eq!(scan.last_id("message/message_1.db", "Msg_b"), 6);
}

#[test]
fn the_first_readable_key_file_counts() {
    let contents = |list: &[Option<&str>]| -> Vec<Option<String>> {
        list.iter().map(|c| c.map(|t| t.to_string())).collect()
    };
    let first = read_keys(&contents(&[
        None,
        Some("not json"),
        Some("{\"a.db\": \"00ff\"}"),
        Some("{\"b.db\": \"11\"}"),
    ]));
    assert_eq!(first.unwrap(), vec![("a.db".to_string(), "00ff".to_string())]);
    assert!(read_keys(&contents(&[None, Some("{\"a\": 1}")])).is_none());
    let entries = key_entries(vec![
        ("a.db".to_string(), "00ff".to_string()),
        ("b.db".to_string(), "0é0".to_string()),
    ]);
    assert_eq!(entries.len(), 1);
    assert_eq!((entries[0].db_name.as_str(), entries[0].key.as_str()), ("a.db", "00ff"));
}

#[test]
fn an_empty_conversation_is_nobody() {
    let mut db = manager();
    db.refresh_contacts(&vec![contact("wxid_a", "Anna", "", "")], &Vec::new());
    let target = route(Some(&db), "");
    assert_eq!((target.conversation_id.as_str(), target.conversation_name.as_str()), ("", ""));
    let refused = check_text(&target.conversation_name, "hello", &Vec::new()).unwrap_err();
    assert_eq!((refused.status, refused.message.as_str()), (400, "会话不能为空"));
    assert_eq!(db.resolve_chat_identifier(""), "");
    assert_eq!(route(Some(&db), "Anna").conversation_id, "wxid_a");
}

#[test]
fn passes_over_several_tables_do_not_overlap() {
    let mut db = manager();
    let tables = ["Msg_a", "Msg_b"];
    let pass = |db: &mut DbManager, rows: &[&[i64]]| -> Vec<i64> {
        let mut scan = db.begin_scan();
        for (table, ids) in tables.iter().zip(rows) {
            let mark = scan.last_id("message/message_0.db", table);
            let found = ids.iter().filter(|id| **id > mark).map(|id| row(*id, "x", 2)).collect();
            scan.add_table("message/message_0.db", table, "c", &found);
        }
        db.get_new_messages(scan).iter().map(|m| m.local_id).collect()
    };
    assert_eq!(pass(&mut db, &[&[1, 3], &[2]]), [1, 3, 2]);
    assert!(pass(&mut db, &[&[1, 3], &[2]]).is_empty());
    assert_eq!(pass(&mut db, &[&[1, 3, 4], &[2]]), [4]);
    assert_eq!(pass(&mut db, &[&[4], &[2, 9]]), [9]);
    let scan = db.begin_scan();
    assert_eq!(scan.last_id("message/message_0.db", "Msg_a"), 4);
    assert_eq!(scan.last_id("message/message_0.db", "Msg_b"), 9);
}
