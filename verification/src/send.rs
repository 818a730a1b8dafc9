//! Outgoing messages: what is checked before something is sent, where it goes, and how the
//! outcome is told.

use vstd::prelude::*;
use vstd::string::*;
use vstd::utf8::*;

use crate::attachment::valid_attachment_name;
use crate::db::DbManager;
use crate::http::ApiError;
use crate::message::DbMessage;
use crate::store::MessageStore;
use crate::number::{push_hex, push_u64};
use crate::outside::base64_decode;
use crate::text::{
    contains_char, has_control, rsplit_last, text_eq, text_len, trim,
};

verus! {

// ---------------------------------------------------------------------------
// Texts
// ---------------------------------------------------------------------------

/// The longest text message, in bytes.
pub const MAX_TEXT: usize = 65536;

/// The greatest number of mentions in one message.
pub const MAX_MENTIONS: usize = 100;

/// Why a text is not sent: nobody to send it to, nothing to send, too long, or too many
/// mentions.
pub open spec fn text_fault(to: Seq<char>, text: Seq<char>, mentions: nat) -> Option<Seq<char>> {
    if crate::text::trimmed(to).len() == 0 {
        Some("会话不能为空"@)
    } else if crate::text::trimmed(text).len() == 0 {
        Some("消息内容不能为空"@)
    } else if crate::text::byte_len(text) > MAX_TEXT {
        Some("单条文本消息不能超过 64 KiB"@)
    } else if mentions > MAX_MENTIONS {
        Some("单条消息最多 @ 100 人"@)
    } else {
        None
    }
}

/// Checks a text message before it is sent.
pub fn check_text(to: &str, text: &str, at: &Vec<String>) -> (checked: Result<(), ApiError>)
    ensures
        match checked {
            Ok(_) => text_fault(to@, text@, at@.len()) is None,
            Err(error) => text_fault(to@, text@, at@.len()) == Some(error.message@) && error.status
                == crate::http::BAD_REQUEST,
        },
{
    if trim(to).is_empty() {
        return Err(ApiError::bad_request("会话不能为空"));
    }
    if trim(text).is_empty() {
        return Err(ApiError::bad_request("消息内容不能为空"));
    }
    if text_len(text) > MAX_TEXT {
        return Err(ApiError::bad_request("单条文本消息不能超过 64 KiB"));
    }
    if at.len() > MAX_MENTIONS {
        return Err(ApiError::bad_request("单条消息最多 @ 100 人"));
    }
    Ok(())
}

// ---------------------------------------------------------------------------
// Where a message goes
// ---------------------------------------------------------------------------

/// A conversation: its identifier, and the name by which the client finds it.
#[derive(Debug)]
pub struct Route {
    pub conversation_id: String,
    pub conversation_name: String,
}

/// The conversation that a client's name for it means; without contacts it stays as it is,
/// and no name means no conversation.
pub open spec fn route_of(book: Option<crate::contacts::BookView>, conversation: Seq<char>) -> (
    Seq<char>,
    Seq<char>,
) {
    match book {
        Some(contacts) => if conversation.len() == 0 {
            (conversation, conversation)
        } else {
            let id = crate::contacts::identifier_in(contacts, conversation);
            (id, crate::contacts::name_in(contacts, id))
        },
        None => (conversation, conversation),
    }
}

/// A text for which no conversation is given is refused, whoever the contacts are.
pub proof fn empty_conversations_are_refused(
    book: Option<crate::contacts::BookView>,
    text: Seq<char>,
    mentions: nat,
)
    ensures
        text_fault(route_of(book, seq![]).1, text, mentions) == Some("会话不能为空"@),
{
    assert(crate::text::trimmed(seq![]).len() == 0) by {
        crate::text::lemma_trim_idempotent(seq![]);
    }
}

/// The conversation that a client's name for it means.
pub fn route(db: Option<&DbManager>, conversation: &str) -> (route: Route)
    requires
        db is Some ==> db->0.wf(),
    ensures
        (route.conversation_id@, route.conversation_name@) == route_of(
            match db {
                Some(d) => Some(d@.contacts),
                None => None,
            },
            conversation@,
        ),
{
    match db {
        Some(d) if !conversation.is_empty() => {
            let conversation_id = d.resolve_chat_identifier(conversation);
            let conversation_name = d.conversation_display_name(conversation_id.as_str());
            Route { conversation_id, conversation_name }
        },
        _ => Route {
            conversation_id: conversation.to_owned(),
            conversation_name: conversation.to_owned(),
        },
    }
}

/// An answer to a message: the conversation it goes to, and whom it mentions.
#[derive(Debug)]
pub struct ReplyPlan {
    pub conversation_id: String,
    pub conversation_name: String,
    pub at: Vec<String>,
}

/// Whether an answer mentions the sender: only where that is wanted, in a group, another's
/// message, and a sender with a name.
pub open spec fn mentions_sender(message: crate::message::MessageView, wanted: bool) -> bool {
    wanted && message.is_group && !message.is_self && message.sender_name.len() > 0
}

/// Whether a plan answers a message: it goes to the message's conversation, which is named
/// by its identifier where it has no name.
pub open spec fn answers(
    plan: ReplyPlan,
    message: crate::message::MessageView,
    mention_sender: bool,
) -> bool {
    &&& plan.conversation_id@ == message.conversation_id
    &&& plan.conversation_name@ == if message.conversation_name.len() == 0 {
        message.conversation_id
    } else {
        message.conversation_name
    }
    &&& crate::text::texts_of(plan.at@) == if mentions_sender(message, mention_sender) {
        seq![message.sender_name]
    } else {
        seq![]
    }
}

/// What an answer to a message that is no longer kept is told.
pub const NOT_BUFFERED: &'static str =
    "消息不在实时缓存中；请使用 conversation 调用 /messages/send";

/// What is planned for an answer to a message.
pub open spec fn replies(
    store: crate::store::StoreView,
    message_id: Seq<char>,
    mention_sender: bool,
    plan: Result<ReplyPlan, ApiError>,
) -> bool {
    let kept = crate::store::last_with_id(store.entries, message_id);
    match plan {
        Ok(p) => kept is Some && answers(p, kept->0.message, mention_sender),
        Err(e) => {
            &&& kept is None
            &&& e@ == (crate::http::ErrorView {
                status: crate::http::NOT_FOUND,
                message: NOT_BUFFERED@,
            })
        },
    }
}

/// An answer goes to the newest kept message with that identifier.
pub fn reply_to(store: &MessageStore, message_id: &str, mention_sender: bool) -> (plan: Result<
    ReplyPlan,
    ApiError,
>)
    ensures
        replies(store@, message_id@, mention_sender, plan),
{
    match store.find_message(message_id) {
        Some(entry) => Ok(plan_reply(&entry.message, mention_sender)),
        None => Err(ApiError::not_found(NOT_BUFFERED)),
    }
}

/// Where an answer to a message goes, and whom it mentions.
pub fn plan_reply(message: &DbMessage, mention_sender: bool) -> (plan: ReplyPlan)
    ensures
        answers(plan, message@, mention_sender),
{
    let conversation_name = if message.conversation_name.as_str().is_empty() {
        message.conversation_id.clone()
    } else {
        message.conversation_name.clone()
    };
    let mut at: Vec<String> = Vec::new();
    if mention_sender && message.is_group && !message.is_self
        && !message.sender_name.as_str().is_empty() {
        at.push(message.sender_name.clone());
        proof {
            assert(crate::text::texts_of(at@) =~= seq![message@.sender_name]);
        }
    } else {
        proof {
            assert(crate::text::texts_of(at@) =~= Seq::<Seq<char>>::empty());
        }
    }
    ReplyPlan { conversation_id: message.conversation_id.clone(), conversation_name, at }
}

// ---------------------------------------------------------------------------
// Outcomes
// ---------------------------------------------------------------------------

/// What came of a command to the client.
#[derive(Debug)]
pub enum ActorReply {
    /// It was carried out: whether something was sent, whether that was seen on the
    /// screen, and the words for it.
    Done { sent: bool, verified: bool, message: String },
    /// It failed, and why.
    Failed(String),
    /// The answer never came.
    Closed,
    /// Nobody takes commands.
    Stopped,
    /// The answer took too long.
    TimedOut,
}

/// What a client is told of something that was sent.
#[derive(Debug)]
pub struct SendResponse {
    pub sent: bool,
    pub verified: bool,
    pub message: String,
}

/// What is sent.
#[derive(Clone, Copy, Debug, PartialEq, Eq, Structural)]
pub enum Payload {
    Text,
    Image,
    File,
}

/// The words before the reason of a failure.
pub open spec fn failure_words(payload: Payload) -> Seq<char> {
    match payload {
        Payload::Text => "发送失败: "@,
        Payload::Image => "发送图片失败: "@,
        Payload::File => "发送文件失败: "@,
    }
}

/// Whether the database is asked if a message went out: for a text always, for a file where
/// something was sent, for an image never.
pub open spec fn asks_database(payload: Payload, sent: bool) -> bool {
    match payload {
        Payload::Text => true,
        Payload::Image => false,
        Payload::File => sent,
    }
}

/// Whether a message counts as gone out: as the database says where it was asked and knew,
/// else as the screen showed. A file that was not sent never does.
pub open spec fn counts_as_verified(
    payload: Payload,
    sent: bool,
    on_screen: bool,
    in_database: Option<bool>,
) -> bool {
    if payload == Payload::File && !sent {
        false
    } else if asks_database(payload, sent) && in_database is Some {
        in_database->0
    } else {
        on_screen
    }
}

/// Whether the database is asked if a message went out.
pub fn verifies_in_database(payload: Payload, reply: &ActorReply) -> (asks: bool)
    ensures
        asks == match reply {
            ActorReply::Done { sent, verified, message } => asks_database(payload, *sent),
            _ => false,
        },
{
    match reply {
        ActorReply::Done { sent, verified: _, message: _ } => match payload {
            Payload::Text => true,
            Payload::Image => false,
            Payload::File => *sent,
        },
        _ => false,
    }
}

/// What a client is told of something that was sent.
pub open spec fn tells(
    payload: Payload,
    reply: ActorReply,
    in_database: Option<bool>,
    outcome: Result<SendResponse, ApiError>,
) -> bool {
    match reply {
        ActorReply::Done { sent, verified, message } => {
            &&& outcome is Ok
            &&& outcome->Ok_0.sent == sent
            &&& outcome->Ok_0.verified == counts_as_verified(payload, sent, verified, in_database)
            &&& outcome->Ok_0.message@ == message@
        },
        ActorReply::Failed(reason) => {
            &&& outcome is Err
            &&& outcome->Err_0@ == (crate::http::ErrorView {
                status: crate::http::INTERNAL_SERVER_ERROR,
                message: failure_words(payload) + reason@,
            })
        },
        ActorReply::Closed => {
            &&& outcome is Err
            &&& outcome->Err_0@ == (crate::http::ErrorView {
                status: crate::http::INTERNAL_SERVER_ERROR,
                message: "actor 响应通道已关闭"@,
            })
        },
        ActorReply::Stopped => {
            &&& outcome is Err
            &&& outcome->Err_0@ == (crate::http::ErrorView {
                status: crate::http::SERVICE_UNAVAILABLE,
                message: "InputEngine actor 已停止"@,
            })
        },
        ActorReply::TimedOut => {
            &&& outcome is Err
            &&& outcome->Err_0@ == (crate::http::ErrorView {
                status: crate::http::SERVICE_UNAVAILABLE,
                message: "发送文件超时；微信可能仍在处理，请检查会话"@,
            })
        },
    }
}

/// What a client is told of something that was sent; `in_database` is what the database
/// said where it was asked.
pub fn send_outcome(payload: Payload, reply: ActorReply, in_database: Option<bool>) -> (outcome: Result<
    SendResponse,
    ApiError,
>)
    ensures
        tells(payload, reply, in_database, outcome),
{
    match reply {
        ActorReply::Done { sent, verified, message } => {
            let asks: bool = match payload {
                Payload::Text => true,
                Payload::Image => false,
                Payload::File => sent,
            };
            let refused: bool = match payload {
                Payload::File => !sent,
                _ => false,
            };
            let gone_out: bool = if refused {
                false
            } else if asks {
                match in_database {
                    Some(seen) => seen,
                    None => verified,
                }
            } else {
                verified
            };
            Ok(SendResponse { sent, verified: gone_out, message })
        },
        ActorReply::Failed(reason) => {
            let words = match payload {
                Payload::Text => "发送失败: ",
                Payload::Image => "发送图片失败: ",
                Payload::File => "发送文件失败: ",
            };
            Err(ApiError::internal(words.to_owned().concat(reason.as_str()).as_str()))
        },
        ActorReply::Closed => Err(ApiError::internal("actor 响应通道已关闭")),
        ActorReply::Stopped => Err(ApiError::unavailable("InputEngine actor 已停止")),
        ActorReply::TimedOut => Err(
            ApiError::unavailable("发送文件超时；微信可能仍在处理，请检查会话"),
        ),
    }
}

/// A file that was not sent never counts as gone out, whatever screen and database say.
pub proof fn unsent_files_are_not_verified(on_screen: bool, in_database: Option<bool>)
    ensures
        !counts_as_verified(Payload::File, false, on_screen, in_database),
{
}

// ---------------------------------------------------------------------------
// Uploads
// ---------------------------------------------------------------------------

/// The largest file that is sent, in bytes.
pub const MAX_FILE_BYTES: usize = 104857600;

/// The longest encoded file that is looked at, in bytes.
pub const MAX_ENCODED_BYTES: usize = 139810149;

/// A name under which a file can be sent: it holds no separator and no control character
/// anywhere, and is one component of a path once the white space around it is gone.
pub open spec fn upload_name(name: Seq<char>) -> bool {
    &&& !name.contains('/')
    &&& !name.contains('\\')
    &&& forall|k: int| 0 <= k < name.len() ==> !crate::text::control_char(#[trigger] name[k])
    &&& crate::attachment::valid_name(crate::text::trimmed(name))
}

/// Checks the name of a file that is sent, and takes the white space around it away.
pub fn validate_upload_name(name: &str) -> (result: Result<&str, ApiError>)
    ensures
        match result {
            Ok(inner) => inner@ == crate::text::trimmed(name@) && upload_name(name@),
            Err(error) => !upload_name(name@) && error@ == (crate::http::ErrorView {
                status: crate::http::BAD_REQUEST,
                message: "文件名无效"@,
            }),
        },
{
    if contains_char(name, '/') || contains_char(name, '\\') || has_control(name) {
        return Err(ApiError::bad_request("文件名无效"));
    }
    let inner = trim(name);
    if !valid_attachment_name(inner) {
        return Err(ApiError::bad_request("文件名无效"));
    }
    Ok(inner)
}

/// A file to be sent.
#[derive(Debug)]
pub struct Upload {
    pub name: String,
    pub data: Vec<u8>,
}

/// Why a file is not sent; `decoded` is what its encoded text stands for.
pub open spec fn upload_fault(
    encoded_len: nat,
    name: Seq<char>,
    decoded: Result<Seq<u8>, Seq<char>>,
) -> Option<Seq<char>> {
    if encoded_len > MAX_ENCODED_BYTES {
        Some("发送文件不能超过 100 MiB"@)
    } else if !upload_name(name) {
        Some("文件名无效"@)
    } else {
        match decoded {
            Ok(data) => if data.len() > MAX_FILE_BYTES {
                Some("发送文件不能超过 100 MiB"@)
            } else {
                None
            },
            Err(words) => Some("base64 解码失败: "@ + words),
        }
    }
}

/// The file in a request, `decoded` being what its encoded text stands for.
pub fn accept_upload(
    encoded_len: usize,
    name: &str,
    decoded: Result<Vec<u8>, String>,
) -> (upload: Result<Upload, ApiError>)
    ensures
        ({
            let data = match decoded {
                Ok(d) => Ok(d@),
                Err(e) => Err(e@),
            };
            match upload {
                Ok(file) => {
                    &&& upload_fault(encoded_len as nat, name@, data) is None
                    &&& file.name@ == crate::text::trimmed(name@)
                    &&& data == Ok::<Seq<u8>, Seq<char>>(file.data@)
                },
                Err(error) => upload_fault(encoded_len as nat, name@, data) == Some(error.message@)
                    && error.status == crate::http::BAD_REQUEST,
            }
        }),
{
    if encoded_len > MAX_ENCODED_BYTES {
        return Err(ApiError::bad_request("发送文件不能超过 100 MiB"));
    }
    let inner = match validate_upload_name(name) {
        Ok(inner) => inner,
        Err(error) => {
            return Err(error);
        },
    };
    match decoded {
        Ok(data) => {
            if data.len() > MAX_FILE_BYTES {
                return Err(ApiError::bad_request("发送文件不能超过 100 MiB"));
            }
            Ok(Upload { name: inner.to_owned(), data })
        },
        Err(words) => Err(
            ApiError::bad_request("base64 解码失败: ".to_owned().concat(words.as_str()).as_str()),
        ),
    }
}

/// The file in a request. A text that is too long is not decoded.
pub fn decode_upload(file: &str, name: &str) -> (upload: Result<Upload, ApiError>)
    ensures
        ({
            let data = crate::outside::base64_decoded(file@);
            match upload {
                Ok(u) => {
                    &&& upload_fault(crate::text::byte_len(file@), name@, data) is None
                    &&& u.name@ == crate::text::trimmed(name@)
                    &&& data == Ok::<Seq<u8>, Seq<char>>(u.data@)
                },
                Err(error) => upload_fault(crate::text::byte_len(file@), name@, data) == Some(
                    error.message@,
                ) && error.status == crate::http::BAD_REQUEST,
            }
        }),
{
    let encoded_len: usize = text_len(file);
    if encoded_len > MAX_ENCODED_BYTES {
        return Err(ApiError::bad_request("发送文件不能超过 100 MiB"));
    }
    accept_upload(encoded_len, name, base64_decode(file))
}

/// A name under which a file is sent is one under which an attachment can be had, and no
/// separator or control character stood anywhere in the request's name.
pub proof fn upload_names_are_attachment_names(
    encoded_len: nat,
    name: Seq<char>,
    decoded: Result<Seq<u8>, Seq<char>>,
)
    requires
        upload_fault(encoded_len, name, decoded) is None,
    ensures
        crate::attachment::valid_name(crate::text::trimmed(name)),
        crate::text::trimmed(name) != ".."@,
        !name.contains('/'),
        !name.contains('\\'),
        forall|k: int| 0 <= k < name.len() ==> !crate::text::control_char(#[trigger] name[k]),
{
}

/// The image in a request, or the words of the refusal.
pub fn decode_image(file: &str) -> (image: Result<Vec<u8>, ApiError>)
    ensures
        match image {
            Ok(data) => crate::outside::base64_decoded(file@) == Ok::<Seq<u8>, Seq<char>>(data@),
            Err(error) => crate::outside::base64_decoded(file@) is Err && error@ == (
            crate::http::ErrorView {
                status: crate::http::BAD_REQUEST,
                message: "base64 解码失败: "@ + crate::outside::base64_decoded(file@)->Err_0,
            }),
        },
{
    match base64_decode(file) {
        Ok(data) => Ok(data),
        Err(words) => Err(
            ApiError::bad_request("base64 解码失败: ".to_owned().concat(words.as_str()).as_str()),
        ),
    }
}

/// The extension of a name: what stands behind its last point, `png` where it has none.
pub open spec fn extension_of(name: Seq<char>) -> Seq<char> {
    if name.contains('.') {
        crate::text::last_part(name, '.')
    } else {
        "png"@
    }
}

/// The extension of an image's name.
pub fn image_extension(name: &str) -> (extension: String)
    ensures
        extension@ == extension_of(name@),
{
    if contains_char(name, '.') {
        rsplit_last(name, '.').to_owned()
    } else {
        "png".to_owned()
    }
}

/// A number that differs from call to call, from the time of the call: the low sixteen
/// bits of the nanoseconds within the second and of the milliseconds, one against the
/// other.
pub fn rand_u16(subsec_nanos: u32, millis: u64) -> (number: u16)
    ensures
        number == ((subsec_nanos ^ (millis % 0x1_0000_0000) as u32) % 0x10000) as u16,
{
    let low: u32 = (millis % 0x1_0000_0000) as u32;
    ((subsec_nanos ^ low) % 0x10000) as u16
}

/// Where an image is put for the client to take it.
pub fn image_path(name: &str, millis: u64, random: u16) -> (path: String)
    ensures
        path@ == "/tmp/mimicwx_img_"@ + crate::number::digits(millis as nat) + "_"@
            + crate::number::hex_digits(random as nat, 4) + "."@ + extension_of(name@),
{
    let mut path = "/tmp/mimicwx_img_".to_owned();
    push_u64(&mut path, millis);
    path.append("_");
    push_hex(&mut path, random as u64, 4);
    path.append(".");
    path.concat(image_extension(name).as_str())
}

/// The directory in which a file is put for the client to take it.
pub fn outgoing_dir(millis: u64, random: u16) -> (path: String)
    ensures
        path@ == "/tmp/mimicwx_outgoing_"@ + crate::number::digits(millis as nat) + "_"@
            + crate::number::hex_digits(random as nat, 4),
{
    let mut path = "/tmp/mimicwx_outgoing_".to_owned();
    push_u64(&mut path, millis);
    path.append("_");
    push_hex(&mut path, random as u64, 4);
    path
}

/// The name of an image that comes without one.
pub fn default_image_name() -> (name: String)
    ensures
        name@ == "image.png"@,
{
    "image.png".to_owned()
}

/// Whether an answer mentions the sender where the request does not say.
pub fn default_true() -> (value: bool)
    ensures
        value,
{
    true
}

// ---------------------------------------------------------------------------
// Conversations and listening
// ---------------------------------------------------------------------------

/// What came of switching to a conversation.
#[derive(Debug)]
pub enum ChatReply {
    /// The conversation was opened, under that name.
    Opened(String),
    NotFound,
    Failed(String),
    Closed,
    Stopped,
}

/// What a client is told of switching to a conversation.
#[derive(Debug)]
pub struct ChatResponse {
    pub success: bool,
    pub chat_name: Option<String>,
}

/// What a client is told of switching to a conversation.
pub fn chat_outcome(reply: ChatReply) -> (outcome: Result<ChatResponse, ApiError>)
    ensures
        match reply {
            ChatReply::Opened(name) => {
                &&& outcome is Ok
                &&& outcome->Ok_0.success
                &&& crate::text::text_of(outcome->Ok_0.chat_name) == Some(name@)
            },
            ChatReply::NotFound => {
                &&& outcome is Ok
                &&& !outcome->Ok_0.success
                &&& outcome->Ok_0.chat_name is None
            },
            ChatReply::Failed(reason) => outcome is Err && outcome->Err_0@ == (
            crate::http::ErrorView {
                status: crate::http::INTERNAL_SERVER_ERROR,
                message: "切换聊天失败: "@ + reason@,
            }),
            ChatReply::Closed => outcome is Err && outcome->Err_0@ == (crate::http::ErrorView {
                status: crate::http::INTERNAL_SERVER_ERROR,
                message: "actor 响应通道已关闭"@,
            }),
            ChatReply::Stopped => outcome is Err && outcome->Err_0@ == (crate::http::ErrorView {
                status: crate::http::SERVICE_UNAVAILABLE,
                message: "InputEngine actor 已停止"@,
            }),
        },
{
    match reply {
        ChatReply::Opened(name) => Ok(ChatResponse { success: true, chat_name: Some(name) }),
        ChatReply::NotFound => Ok(ChatResponse { success: false, chat_name: None }),
        ChatReply::Failed(reason) => Err(
            ApiError::internal("切换聊天失败: ".to_owned().concat(reason.as_str()).as_str()),
        ),
        ChatReply::Closed => Err(ApiError::internal("actor 响应通道已关闭")),
        ChatReply::Stopped => Err(ApiError::unavailable("InputEngine actor 已停止")),
    }
}

/// What came of a command to listen to somebody.
#[derive(Debug)]
pub enum ListenReply {
    /// Whether it was carried out.
    Done(bool),
    Failed(String),
    Closed,
    Stopped,
}

/// What a client is told of listening to somebody.
#[derive(Debug)]
pub struct ListenResponse {
    pub success: bool,
    pub message: String,
}

/// Whether an outcome is what is told of a reply to somebody who is to be listened to.
pub open spec fn tells_addition(
    who: Seq<char>,
    reply: ListenReply,
    outcome: Result<ListenResponse, ApiError>,
) -> bool {
    match reply {
        ListenReply::Done(added) => {
            &&& outcome is Ok
            &&& outcome->Ok_0.success == added
            &&& outcome->Ok_0.message@ == (if added {
                "已添加监听: "@ + who
            } else {
                "添加监听失败: "@ + who
            })
        },
        ListenReply::Failed(reason) => outcome is Err && outcome->Err_0@ == (
        crate::http::ErrorView {
            status: crate::http::INTERNAL_SERVER_ERROR,
            message: "添加监听错误: "@ + reason@,
        }),
        ListenReply::Closed => outcome is Err && outcome->Err_0@ == (crate::http::ErrorView {
            status: crate::http::INTERNAL_SERVER_ERROR,
            message: "actor 响应通道已关闭"@,
        }),
        ListenReply::Stopped => outcome is Err && outcome->Err_0@ == (crate::http::ErrorView {
            status: crate::http::SERVICE_UNAVAILABLE,
            message: "InputEngine actor 已停止"@,
        }),
    }
}

/// What a client is told of beginning to listen.
pub fn listen_outcome(who: &str, reply: ListenReply) -> (outcome: Result<ListenResponse, ApiError>)
    ensures
        tells_addition(who@, reply, outcome),
{
    match reply {
        ListenReply::Done(added) => {
            let words = if added {
                "已添加监听: "
            } else {
                "添加监听失败: "
            };
            Ok(ListenResponse { success: added, message: words.to_owned().concat(who) })
        },
        ListenReply::Failed(reason) => Err(
            ApiError::internal("添加监听错误: ".to_owned().concat(reason.as_str()).as_str()),
        ),
        ListenReply::Closed => Err(ApiError::internal("actor 响应通道已关闭")),
        ListenReply::Stopped => Err(ApiError::unavailable("InputEngine actor 已停止")),
    }
}

/// Whether a response is what is told of somebody who is listened to no longer.
pub open spec fn tells_removal(
    who: Seq<char>,
    removed: Option<bool>,
    response: ListenResponse,
) -> bool {
    &&& response.success == (removed == Some(true))
    &&& response.message@ == (if removed == Some(true) {
        "已移除监听: "@ + who
    } else {
        "未找到监听: "@ + who
    })
}

/// What a client is told of ceasing to listen; no answer counts as nobody found.
pub fn unlisten_outcome(who: &str, removed: Option<bool>) -> (response: ListenResponse)
    ensures
        tells_removal(who@, removed, response),
{
    let success: bool = match removed {
        Some(done) => done,
        None => false,
    };
    let words = if success {
        "已移除监听: "
    } else {
        "未找到监听: "
    };
    ListenResponse { success, message: words.to_owned().concat(who) }
}

// ---------------------------------------------------------------------------
// Laws of sending
// ---------------------------------------------------------------------------

/// A text is sent exactly where there is somebody to send it to, something to send, and
/// neither the text nor the list of mentions is too long.
pub proof fn texts_that_can_be_sent(to: Seq<char>, text: Seq<char>, mentions: nat)
    ensures
        text_fault(to, text, mentions) is None <==> (exists|i: int|
            0 <= i < to.len() && !crate::text::white_space(#[trigger] to[i])) && (exists|j: int|
            0 <= j < text.len() && !crate::text::white_space(#[trigger] text[j])) && encode_utf8(
            text,
        ).len() <= 65536 && mentions <= 100,
{
    crate::text::blank_texts_are_trimmed_away(to);
    crate::text::blank_texts_are_trimmed_away(text);
}

/// An answer goes to the conversation of the newest message with that identifier, and to no
/// other; it mentions its sender where that is wanted, in a group, and where the sender is
/// somebody else who has a name, and nobody otherwise. Where no such message is kept there
/// is no answer.
pub proof fn answers_go_where_the_message_came_from(
    store: crate::store::StoreView,
    message_id: Seq<char>,
    mention_sender: bool,
    plan: Result<ReplyPlan, ApiError>,
)
    requires
        replies(store, message_id, mention_sender, plan),
    ensures
        plan is Ok <==> exists|i: int|
            0 <= i < store.entries.len() && (#[trigger] store.entries[i]).message.message_id
                == message_id,
        plan is Err ==> plan->Err_0.status == 404,
        plan is Ok ==> exists|i: int|
            0 <= i < store.entries.len() && {
                let m = (#[trigger] store.entries[i]).message;
                let p = plan->Ok_0;
                &&& m.message_id == message_id
                &&& forall|j: int|
                    i < j < store.entries.len() ==> (
                    #[trigger] store.entries[j]).message.message_id != message_id
                &&& p.conversation_id@ == m.conversation_id
                &&& m.conversation_name.len() > 0 ==> p.conversation_name@ == m.conversation_name
                &&& m.conversation_name.len() == 0 ==> p.conversation_name@ == m.conversation_id
                &&& p.at@.len() <= 1
                &&& p.at@.len() == 1 ==> p.at@[0]@ == m.sender_name && m.is_group && !m.is_self
                    && mention_sender && m.sender_name.len() > 0
                &&& mention_sender && m.is_group && !m.is_self && m.sender_name.len() > 0
                    ==> p.at@.len() == 1
            },
{
    crate::store::found_messages_are_the_newest(store.entries, message_id);
    if plan is Ok {
        let kept = crate::store::last_with_id(store.entries, message_id)->0;
        let i = choose|i: int|
            0 <= i < store.entries.len() && #[trigger] store.entries[i] == kept && forall|j: int|
                i < j < store.entries.len() ==> (
                #[trigger] store.entries[j]).message.message_id != message_id;
        let p = plan->Ok_0;
        let texts = crate::text::texts_of(p.at@);
        assert(texts.len() == p.at@.len());
        if p.at@.len() == 1 {
            assert(texts[0] == p.at@[0]@);
        }
        assert(store.entries[i].message.message_id == message_id);
    }
}

/// What a client is told: what was carried out is told as it was, and counts as gone out as
/// the database says where it was asked and knew; an image goes by the screen alone, and a
/// file that was not sent never counts. What was not carried out is an error, and says why.
pub proof fn outcomes_are_told_as_they_are(
    payload: Payload,
    reply: ActorReply,
    in_database: Option<bool>,
    outcome: Result<SendResponse, ApiError>,
)
    requires
        tells(payload, reply, in_database, outcome),
    ensures
        outcome is Ok <==> reply is Done,
        reply is Done ==> {
            let told = outcome->Ok_0;
            &&& told.sent == reply->sent
            &&& told.message@ == reply->message@
            &&& payload == Payload::Image ==> told.verified == reply->verified
            &&& payload == Payload::Text && in_database is Some ==> told.verified == in_database->0
            &&& payload == Payload::Text && in_database is None ==> told.verified
                == reply->verified
            &&& payload == Payload::File && !reply->sent ==> !told.verified
            &&& payload == Payload::File && reply->sent && in_database is Some ==> told.verified
                == in_database->0
            &&& payload == Payload::File && reply->sent && in_database is None ==> told.verified
                == reply->verified
        },
        reply is Failed ==> outcome->Err_0.status == 500 && crate::text::has_suffix(
            outcome->Err_0.message@,
            reply->Failed_0@,
        ),
        reply is Closed ==> outcome->Err_0.status == 500,
        reply is Stopped || reply is TimedOut ==> outcome->Err_0.status == 503,
{
    if reply is Failed {
        let words = outcome->Err_0.message@;
        let reason = reply->Failed_0@;
        let at = words.len() - reason.len();
        assert(words.subrange(at, at + reason.len()) =~= reason);
    }
}

/// A file is taken exactly where its text is not too long and can be decoded, what it stands
/// for is not too long, and its name is one component of a path.
pub proof fn uploads_that_are_taken(
    encoded_len: nat,
    name: Seq<char>,
    decoded: Result<Seq<u8>, Seq<char>>,
)
    ensures
        upload_fault(encoded_len, name, decoded) is None <==> encoded_len <= 139810149 && decoded
            is Ok && decoded->Ok_0.len() <= 104857600 && !name.contains('/') && !name.contains(
            '\\',
        ) && (forall|k: int|
            0 <= k < name.len() ==> !crate::text::control_char(#[trigger] name[k]))
            && crate::text::trimmed(name).len() > 0 && crate::text::trimmed(name) != "."@
            && crate::text::trimmed(name) != ".."@ && encode_utf8(crate::text::trimmed(name)).len()
            <= 255,
{
    let inner = crate::text::trimmed(name);
    crate::text::trimmed_texts_are_parts(name);
    if !name.contains('/') && !name.contains('\\') && (forall|k: int|
        0 <= k < name.len() ==> !crate::text::control_char(#[trigger] name[k])) {
        let from = choose|from: int| #[trigger] crate::text::stands_alone(name, inner, from);
        assert forall|k: int| 0 <= k < inner.len() implies !crate::text::control_char(
            #[trigger] inner[k],
        ) && inner[k] != '/' && inner[k] != '\\' by {
            assert(inner[k] == name[from + k]);
            assert(name.contains(name[from + k]));
        }
    }
}

/// The extension of an image's name is what stands behind its last point, whatever stands
/// before it; a name without a point has none, and `png` is taken.
pub proof fn extensions_stand_behind_the_last_point(stem: Seq<char>, extension: Seq<char>)
    requires
        !extension.contains('.'),
    ensures
        extension_of(stem + seq!['.'] + extension) == extension,
        extension_of(extension) == "png"@,
{
    let name = stem + seq!['.'] + extension;
    assert(name[stem.len() as int] == '.');
    crate::text::last_parts_are_last(stem, extension, '.');
}

/// A conversation that a client names is the one that the contacts know it as, shown by the
/// name that they give it.
pub proof fn routes_follow_the_contacts(
    book: crate::contacts::BookView,
    conversation: Seq<char>,
)
    ensures
        route_of(None, conversation) == (conversation, conversation),
        route_of(Some(book), seq![]) == (Seq::<char>::empty(), Seq::<char>::empty()),
        conversation.len() > 0 ==> route_of(Some(book), conversation).0
            == crate::contacts::identifier_in(book, conversation),
        conversation.len() > 0 ==> route_of(Some(book), conversation).1
            == crate::contacts::name_in(book, route_of(Some(book), conversation).0),
{
}

/// Whether somebody is listened to is told as the client told it: success means that it was
/// done, an error that it could not be asked for; the response names whom it is about.
pub proof fn listening_is_told_as_it_is(
    who: Seq<char>,
    reply: ListenReply,
    outcome: Result<ListenResponse, ApiError>,
    removed: Option<bool>,
    response: ListenResponse,
)
    requires
        tells_addition(who, reply, outcome),
        tells_removal(who, removed, response),
    ensures
        outcome is Ok <==> reply is Done,
        outcome is Ok && outcome->Ok_0.success <==> reply == ListenReply::Done(true),
        outcome is Ok ==> crate::text::has_suffix(outcome->Ok_0.message@, who),
        outcome is Err ==> outcome->Err_0@.status == 500 || outcome->Err_0@.status == 503,
        outcome is Err ==> (outcome->Err_0@.status == 503 <==> reply is Stopped),
        reply matches ListenReply::Failed(reason) ==> crate::text::has_suffix(
            outcome->Err_0@.message,
            reason@,
        ),
        response.success <==> removed == Some(true),
        crate::text::has_suffix(response.message@, who),
{
    lemma_ends_with_name("已添加监听: "@, who);
    lemma_ends_with_name("添加监听失败: "@, who);
    lemma_ends_with_name("已移除监听: "@, who);
    lemma_ends_with_name("未找到监听: "@, who);
    if let ListenReply::Failed(reason) = reply {
        lemma_ends_with_name("添加监听错误: "@, reason@);
    }
}

proof fn lemma_ends_with_name(words: Seq<char>, name: Seq<char>)
    ensures
        crate::text::has_suffix(words + name, name),
{
    let all = words + name;
    assert(all.subrange(all.len() - name.len(), all.len() as int) =~= name);
}

} // verus!
