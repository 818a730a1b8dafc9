//! Sending: what is checked, where it goes, and what is answered.

use mimicwx::content::MsgContent;
use mimicwx::http::{BAD_REQUEST, INTERNAL_SERVER_ERROR, NOT_FOUND, SERVICE_UNAVAILABLE};
use mimicwx::message::DbMessage;
use mimicwx::send::{
    accept_upload, chat_outcome, check_text, decode_image, decode_upload, default_image_name,
    default_true, image_extension, image_path, listen_outcome, outgoing_dir, plan_reply, rand_u16,
    reply_to, route, send_outcome, unlisten_outcome, validate_upload_name, verifies_in_database, ActorReply,
    ChatReply, ListenReply, Payload, MAX_ENCODED_BYTES, MAX_FILE_BYTES,
};
use mimicwx::store::MessageStore;

fn group_message() -> DbMessage {
    DbMessage {
        message_id: "wx:1".to_string(),
        local_id: 1,
        server_id: 1,
        create_time: 1,
        content: "hello".to_string(),
        parsed: MsgContent::Text {
            text: "hello".to_string(),
        },
        msg_type: 1,
        talker: "wxid_a".to_string(),
        talker_display_name: "A".to_string(),
        chat: "1@chatroom".to_string(),
        chat_display_name: "Group".to_string(),
        is_self: false,
        is_at_me: false,
        at_user_list: Vec::new(),
        conversation_id: "1@chatroom".to_string(),
        conversation_name: "Group".to_string(),
        sender_id: "wxid_a".to_string(),
        sender_name: "A".to_string(),
        direction: "incoming".to_string(),
        is_group: true,
        attachment: None,
    }
}

fn done(sent: bool, verified: bool) -> ActorReply {
    ActorReply::Done {
        sent,
        verified,
        message: "m".to_string(),
    }
}

#[test]
fn texts_are_checked() {
    let nobody: Vec<String> = Vec::new();
    let refusal = |to: &str, text: &str, at: &Vec<String>| {
        let error = check_text(to, text, at).unwrap_err();
        assert_eq!(error.status, BAD_REQUEST);
        error.message
    };
    assert!(check_text("a", "b", &nobody).is_ok());
    assert!(check_text("a", &"x".repeat(65536), &vec![String::new(); 100]).is_ok());
    assert_eq!(refusal(" \u{3000}", "b", &nobody), "会话不能为空");
    assert_eq!(refusal("a", "\n\t", &nobody), "消息内容不能为空");
    assert_eq!(
        refusal("a", &"x".repeat(65537), &nobody),
        "单条文本消息不能超过 64 KiB"
    );
    assert_eq!(
        refusal("a", "b", &vec![String::new(); 101]),
        "单条消息最多 @ 100 人"
    );
}

#[test]
fn without_a_database_names_stay() {
    let plan = route(None, "Somebody");
    assert_eq!(plan.conversation_id, "Somebody");
    assert_eq!(plan.conversation_name, "Somebody");
}

#[test]
fn images_that_cannot_be_decoded_are_bad_requests() {
    assert_eq!(decode_image("!!!").unwrap_err().status, BAD_REQUEST);
}

#[test]
fn replies_mention_the_sender_in_groups() {
    let plan = plan_reply(&group_message(), true);
    assert_eq!(plan.conversation_name, "Group");
    assert_eq!(plan.conversation_id, "1@chatroom");
    assert_eq!(plan.at, vec!["A".to_string()]);
    assert!(plan_reply(&group_message(), false).at.is_empty());
    let mut own = group_message();
    own.is_self = true;
    assert!(plan_reply(&own, true).at.is_empty());
    let mut single = group_message();
    single.is_group = false;
    assert!(plan_reply(&single, true).at.is_empty());
    let mut nameless = group_message();
    nameless.sender_name = String::new();
    nameless.conversation_name = String::new();
    let plan = plan_reply(&nameless, true);
    assert!(plan.at.is_empty());
    assert_eq!(plan.conversation_name, "1@chatroom");
}

#[test]
fn replies_go_to_the_newest_kept_message() {
    let mut store = MessageStore::new(8);
    let id = group_message().message_id;
    let refused = reply_to(&store, &id, true).unwrap_err();
    assert_eq!(refused.status, NOT_FOUND);
    assert_eq!(refused.message, "消息不在实时缓存中；请使用 conversation 调用 /messages/send");
    store.push(group_message());
    let mut later = group_message();
    later.sender_name = "B".to_string();
    store.push(later);
    let plan = reply_to(&store, &id, true).unwrap();
    assert_eq!(plan.conversation_id, "1@chatroom");
    assert_eq!(plan.at, vec!["B".to_string()]);
    assert!(reply_to(&store, "another", true).is_err());
}

#[test]
fn the_database_has_the_last_word() {
    let outcome = send_outcome(Payload::Text, done(true, false), Some(true)).unwrap();
    assert!(outcome.sent && outcome.verified);
    assert_eq!(outcome.message, "m");
    let outcome = send_outcome(Payload::Text, done(true, true), None).unwrap();
    assert!(outcome.verified);
    let outcome = send_outcome(Payload::Image, done(true, false), Some(true)).unwrap();
    assert!(!outcome.verified);
    let outcome = send_outcome(Payload::File, done(false, true), Some(true)).unwrap();
    assert!(!outcome.sent && !outcome.verified);
    assert!(verifies_in_database(Payload::Text, &done(false, false)));
    assert!(!verifies_in_database(Payload::File, &done(false, false)));
    assert!(verifies_in_database(Payload::File, &done(true, false)));
    assert!(!verifies_in_database(Payload::Image, &done(true, false)));
    assert!(!verifies_in_database(Payload::Text, &ActorReply::Closed));
}

#[test]
fn failures_to_send_are_told() {
    let failed = |payload, reply| {
        let error = send_outcome(payload, reply, None).unwrap_err();
        (error.status, error.message)
    };
    assert_eq!(
        failed(Payload::Text, ActorReply::Failed("x".to_string())),
        (INTERNAL_SERVER_ERROR, "发送失败: x".to_string())
    );
    assert_eq!(
        failed(Payload::Image, ActorReply::Failed("x".to_string())),
        (INTERNAL_SERVER_ERROR, "发送图片失败: x".to_string())
    );
    assert_eq!(
        failed(Payload::File, ActorReply::Failed("x".to_string())),
        (INTERNAL_SERVER_ERROR, "发送文件失败: x".to_string())
    );
    assert_eq!(
        failed(Payload::Text, ActorReply::Closed),
        (INTERNAL_SERVER_ERROR, "actor 响应通道已关闭".to_string())
    );
    assert_eq!(
        failed(Payload::Text, ActorReply::Stopped),
        (SERVICE_UNAVAILABLE, "InputEngine actor 已停止".to_string())
    );
    assert_eq!(
        failed(Payload::File, ActorReply::TimedOut),
        (
            SERVICE_UNAVAILABLE,
            "发送文件超时；微信可能仍在处理，请检查会话".to_string()
        )
    );
}

#[test]
fn upload_names_are_checked() {
    assert_eq!(validate_upload_name("  a b.txt ").unwrap(), "a b.txt");
    for bad in ["", "  ", ".", "..", "a/b", "a\\b", "a\nb", "a\u{7f}", "a.pdf\n", "\ta.pdf", "a.pdf/"] {
        let error = validate_upload_name(bad).unwrap_err();
        assert_eq!((error.status, error.message.as_str()), (BAD_REQUEST, "文件名无效"));
    }
    assert!(validate_upload_name(&"x".repeat(255)).is_ok());
    assert!(validate_upload_name(&"x".repeat(256)).is_err());
}

#[test]
fn uploads_are_decoded() {
    let upload = decode_upload("aGVsbG8=", " a.txt ").unwrap();
    assert_eq!(upload.name, "a.txt");
    assert_eq!(upload.data, "hello".as_bytes());
    assert!(decode_upload("aGVsbG8", "a.txt").is_err());
    let error = decode_upload("a*==", "a.txt").unwrap_err();
    assert_eq!(error.status, BAD_REQUEST);
    assert_eq!(error.message, "base64 解码失败: Invalid symbol 42, offset 1.");
    assert_eq!(decode_upload("aGVsbG8=", "a/b").unwrap_err().message, "文件名无效");
    assert_eq!(decode_image("aGVsbG8=").unwrap(), "hello".as_bytes());
    let error = decode_image("a*==").unwrap_err();
    assert_eq!(error.status, BAD_REQUEST);
    assert_eq!(error.message, "base64 解码失败: Invalid symbol 42, offset 1.");
}

#[test]
fn large_uploads_are_refused() {
    assert_eq!(MAX_FILE_BYTES, 100 * 1024 * 1024);
    assert_eq!(MAX_ENCODED_BYTES, MAX_FILE_BYTES * 4 / 3 + 16);
    let error = accept_upload(MAX_ENCODED_BYTES + 1, "a", Ok(Vec::new())).unwrap_err();
    assert_eq!(error.message, "发送文件不能超过 100 MiB");
    let error = accept_upload(8, "a", Ok(vec![0; MAX_FILE_BYTES + 1])).unwrap_err();
    assert_eq!(error.message, "发送文件不能超过 100 MiB");
    let error = accept_upload(8, "a", Err("why".to_string())).unwrap_err();
    assert_eq!(error.message, "base64 解码失败: why");
    assert!(accept_upload(MAX_ENCODED_BYTES, "a", Ok(vec![1])).is_ok());
}

#[test]
fn temporary_names_are_made() {
    assert_eq!(rand_u16(0x1234_5678, 0x1_0000_ffff), 0xa987);
    assert_eq!(image_extension("a.b.jpg"), "jpg");
    assert_eq!(image_extension("plain"), "png");
    assert_eq!(image_extension("dot."), "");
    assert_eq!(
        image_path("x.jpg", 1700000000123, 0xab),
        "/tmp/mimicwx_img_1700000000123_00ab.jpg"
    );
    assert_eq!(
        outgoing_dir(1700000000123, 0xffff),
        "/tmp/mimicwx_outgoing_1700000000123_ffff"
    );
    assert_eq!(default_image_name(), "image.png");
    assert!(default_true());
}

#[test]
fn switching_is_answered() {
    let opened = chat_outcome(ChatReply::Opened("A".to_string())).unwrap();
    assert!(opened.success);
    assert_eq!(opened.chat_name.unwrap(), "A");
    let missing = chat_outcome(ChatReply::NotFound).unwrap();
    assert!(!missing.success && missing.chat_name.is_none());
    let error = chat_outcome(ChatReply::Failed("x".to_string())).unwrap_err();
    assert_eq!((error.status, error.message.as_str()), (500, "切换聊天失败: x"));
    let error = chat_outcome(ChatReply::Closed).unwrap_err();
    assert_eq!((error.status, error.message.as_str()), (500, "actor 响应通道已关闭"));
    let error = chat_outcome(ChatReply::Stopped).unwrap_err();
    assert_eq!((error.status, error.message.as_str()), (503, "InputEngine actor 已停止"));
}

#[test]
fn listening_is_answered() {
    let yes = listen_outcome("A", ListenReply::Done(true)).unwrap();
    assert_eq!((yes.success, yes.message.as_str()), (true, "已添加监听: A"));
    let no = listen_outcome("A", ListenReply::Done(false)).unwrap();
    assert_eq!((no.success, no.message.as_str()), (false, "添加监听失败: A"));
    let error = listen_outcome("A", ListenReply::Failed("x".to_string())).unwrap_err();
    assert_eq!((error.status, error.message.as_str()), (500, "添加监听错误: x"));
    let error = listen_outcome("A", ListenReply::Closed).unwrap_err();
    assert_eq!((error.status, error.message.as_str()), (500, "actor 响应通道已关闭"));
    let error = listen_outcome("A", ListenReply::Stopped).unwrap_err();
    assert_eq!((error.status, error.message.as_str()), (503, "InputEngine actor 已停止"));
    let gone = unlisten_outcome("A", Some(true));
    assert_eq!((gone.success, gone.message.as_str()), (true, "已移除监听: A"));
    for other in [Some(false), None] {
        let kept = unlisten_outcome("A", other);
        assert_eq!((kept.success, kept.message.as_str()), (false, "未找到监听: A"));
    }
}
