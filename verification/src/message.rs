//! Messages: from the rows of the message tables to what clients are told.

use vstd::prelude::*;
use vstd::string::*;

use crate::attachment::{attachment_info, AttachmentInfo};
use crate::cell::{read_integer, read_uncompressed, wcdb_get_text, Cell};
use crate::contacts::{resolve_name, ContactInfo};
use crate::content::{parse_msg_content, MsgContent};
use crate::number::push_i64;
use crate::outside::md5_text;
use crate::text::{
    chars_find, chars_to_text, clone_texts, contains_char, list_contains, split, text_contains,
    text_len, to_chars, trim,
};
use crate::textmap::TextMap;
use crate::xml::extract_xml_text;

verus! {

// ---------------------------------------------------------------------------
// Identifiers
// ---------------------------------------------------------------------------

/// What the identifier of a message without a server identifier is a digest of.
pub open spec fn local_key(chat: Seq<char>, local_id: i64, create_time: i64) -> Seq<char> {
    chat + "\0"@ + crate::number::decimal(local_id as int) + "\0"@ + crate::number::decimal(
        create_time as int,
    )
}

/// The identifier of a message across all interfaces: the server's where there is one.
pub open spec fn message_id_of(
    server_id: i64,
    chat: Seq<char>,
    local_id: i64,
    create_time: i64,
) -> Seq<char> {
    if server_id > 0 {
        "wx:"@ + crate::number::decimal(server_id as int)
    } else {
        "local:"@ + crate::outside::md5_hex(
            vstd::utf8::encode_utf8(local_key(chat, local_id, create_time)),
        )
    }
}

/// The identifier of a message across all interfaces. One made from a digest has
/// thirty-two hexadecimal digits.
pub fn stable_message_id(server_id: i64, chat: &str, local_id: i64, create_time: i64) -> (id: String)
    ensures
        id@ == message_id_of(server_id, chat@, local_id, create_time),
        server_id <= 0 ==> {
            let digest = id@.skip("local:"@.len() as int);
            digest.len() == 32 && forall|k: int|
                0 <= k < 32 ==> crate::outside::small_hex(#[trigger] digest[k])
        },
{
    if server_id > 0 {
        let mut id = "wx:".to_owned();
        push_i64(&mut id, server_id);
        return id;
    }
    let mut key = chat.to_owned().concat("\0");
    push_i64(&mut key, local_id);
    key.append("\0");
    push_i64(&mut key, create_time);
    proof {
        assert(key@ =~= local_key(chat@, local_id, create_time));
    }
    let digest = md5_text(key.as_str().as_bytes());
    let id = "local:".to_owned().concat(digest.as_str());
    proof {
        assert(id@.skip("local:"@.len() as int) =~= digest@);
    }
    id
}

/// Messages with different server identifiers have different identifiers, and none of
/// them is mistaken for a message that has no server identifier.
pub proof fn server_ids_identify(
    server_id: i64,
    chat: Seq<char>,
    local_id: i64,
    create_time: i64,
    other_server_id: i64,
    other_chat: Seq<char>,
    other_local_id: i64,
    other_create_time: i64,
)
    requires
        server_id > 0,
        message_id_of(server_id, chat, local_id, create_time) == message_id_of(
            other_server_id,
            other_chat,
            other_local_id,
            other_create_time,
        ),
    ensures
        other_server_id == server_id,
{
    let id = message_id_of(server_id, chat, local_id, create_time);
    reveal_strlit("wx:");
    reveal_strlit("local:");
    if other_server_id > 0 {
        assert(id.skip(3) =~= crate::number::decimal(server_id as int));
        assert(id.skip(3) =~= crate::number::decimal(other_server_id as int));
        crate::number::decimal_injective(server_id as int, other_server_id as int);
    } else {
        assert(id[0] == 'w');
        assert(id[0] == 'l');
    }
}

/// The key of a message without a server identifier tells its chat, its number in the
/// table and its time apart from those of any other, as long as no chat has a NUL in its
/// name.
pub proof fn local_keys_identify(
    chat: Seq<char>,
    local_id: i64,
    create_time: i64,
    other_chat: Seq<char>,
    other_local_id: i64,
    other_create_time: i64,
)
    requires
        !chat.contains('\0'),
        !other_chat.contains('\0'),
        local_key(chat, local_id, create_time) == local_key(
            other_chat,
            other_local_id,
            other_create_time,
        ),
    ensures
        chat == other_chat,
        local_id == other_local_id,
        create_time == other_create_time,
{
    let a = crate::number::decimal(local_id as int);
    let b = crate::number::decimal(other_local_id as int);
    let ta = crate::number::decimal(create_time as int);
    let tb = crate::number::decimal(other_create_time as int);
    let key = local_key(chat, local_id, create_time);
    reveal_strlit("\0");
    lemma_cut_at_nul(key, chat, a + "\0"@ + ta, other_chat, b + "\0"@ + tb);
    crate::number::decimal_chars(local_id as int);
    crate::number::decimal_chars(other_local_id as int);
    assert(!a.contains('\0'));
    assert(!b.contains('\0'));
    lemma_cut_at_nul(a + "\0"@ + ta, a, ta, b, tb);
    crate::number::decimal_injective(local_id as int, other_local_id as int);
    crate::number::decimal_injective(create_time as int, other_create_time as int);
}

proof fn lemma_cut_at_nul(
    key: Seq<char>,
    head: Seq<char>,
    tail: Seq<char>,
    other_head: Seq<char>,
    other_tail: Seq<char>,
)
    requires
        !head.contains('\0'),
        !other_head.contains('\0'),
        key =~= head + "\0"@ + tail,
        key =~= other_head + "\0"@ + other_tail,
    ensures
        head == other_head,
        tail == other_tail,
{
    reveal_strlit("\0");
    assert(key[head.len() as int] == '\0');
    assert(key[other_head.len() as int] == '\0');
    if head.len() < other_head.len() {
        assert(other_head[head.len() as int] == '\0');
    }
    if other_head.len() < head.len() {
        assert(head[other_head.len() as int] == '\0');
    }
    assert(head =~= key.take(head.len() as int));
    assert(other_head =~= key.take(head.len() as int));
    assert(tail =~= key.skip(head.len() as int + 1));
    assert(other_tail =~= key.skip(head.len() as int + 1));
}

// ---------------------------------------------------------------------------
// Rows
// ---------------------------------------------------------------------------

/// A row of a message table.
#[derive(Debug)]
pub struct MessageRow {
    pub local_id: Cell,
    pub server_id: Cell,
    pub create_time: Cell,
    pub content: Cell,
    pub msg_type: Cell,
    pub talker: Cell,
    pub status: Cell,
    pub source: Cell,
}

/// A message as its table holds it.
#[derive(Debug)]
pub struct RawMsg {
    pub local_id: i64,
    pub server_id: i64,
    pub create_time: i64,
    pub content: String,
    pub msg_type: i64,
    pub talker: String,
    pub chat: String,
    pub status: i64,
    /// The XML of the message's metadata, which names who was mentioned.
    pub source: String,
}

/// What a [`RawMsg`] says.
pub struct RawView {
    pub local_id: i64,
    pub server_id: i64,
    pub create_time: i64,
    pub content: Seq<char>,
    pub msg_type: i64,
    pub talker: Seq<char>,
    pub chat: Seq<char>,
    pub status: i64,
    pub source: Seq<char>,
}

impl View for RawMsg {
    type V = RawView;

    open spec fn view(&self) -> RawView {
        RawView {
            local_id: self.local_id,
            server_id: self.server_id,
            create_time: self.create_time,
            content: self.content@,
            msg_type: self.msg_type,
            talker: self.talker@,
            chat: self.chat@,
            status: self.status,
            source: self.source@,
        }
    }
}

pub open spec fn raws_view(messages: Seq<RawMsg>) -> Seq<RawView> {
    messages.map_values(|m: RawMsg| m@)
}

/// The message in a row of the table of `chat`. A row is left out where its number is
/// missing or a number column holds something else. The sender's name is never
/// compressed in rows that are read as they come in; in the history it may be.
pub open spec fn row_message(row: MessageRow, chat: Seq<char>, history: bool) -> Option<RawView> {
    let server_id = crate::cell::integer_or_zero(row.server_id@);
    let create_time = crate::cell::integer_or_zero(row.create_time@);
    let msg_type = crate::cell::integer_or_zero(row.msg_type@);
    let status = crate::cell::integer_or_zero(row.status@);
    match row.local_id@ {
        crate::cell::CellView::Integer(local_id) => if server_id is Some && create_time is Some
            && msg_type is Some && status is Some {
            Some(
                RawView {
                    local_id,
                    server_id: server_id->0,
                    create_time: create_time->0,
                    content: crate::cell::stored_text(row.content@),
                    msg_type: msg_type->0,
                    talker: if history {
                        crate::cell::stored_text(row.talker@)
                    } else {
                        crate::cell::uncompressed_text(row.talker@)
                    },
                    chat,
                    status: status->0,
                    source: crate::cell::stored_text(row.source@),
                },
            )
        } else {
            None
        },
        _ => None,
    }
}

/// The messages in the rows of a table, in order.
pub open spec fn rows_messages(rows: Seq<MessageRow>, chat: Seq<char>, history: bool) -> Seq<RawView>
    decreases rows.len(),
{
    if rows.len() == 0 {
        seq![]
    } else {
        let before = rows_messages(rows.drop_last(), chat, history);
        match row_message(rows.last(), chat, history) {
            Some(message) => before.push(message),
            None => before,
        }
    }
}

/// The message in a row of the table of `chat`.
pub fn message_of_row(row: &MessageRow, chat: &str, history: bool) -> (message: Option<RawMsg>)
    ensures
        match message {
            Some(m) => row_message(*row, chat@, history) == Some(m@),
            None => row_message(*row, chat@, history) is None,
        },
{
    let local_id: i64 = match &row.local_id {
        Cell::Integer(n) => *n,
        _ => {
            return None;
        },
    };
    match (
        read_integer(&row.server_id),
        read_integer(&row.create_time),
        read_integer(&row.msg_type),
        read_integer(&row.status),
    ) {
        (Some(server_id), Some(create_time), Some(msg_type), Some(status)) => Some(
            RawMsg {
                local_id,
                server_id,
                create_time,
                content: wcdb_get_text(&row.content),
                msg_type,
                talker: if history {
                    wcdb_get_text(&row.talker)
                } else {
                    read_uncompressed(&row.talker)
                },
                chat: chat.to_owned(),
                status,
                source: wcdb_get_text(&row.source),
            },
        ),
        _ => None,
    }
}

/// The messages in the rows of a table, in order.
pub fn messages_of_rows(rows: &Vec<MessageRow>, chat: &str, history: bool) -> (messages: Vec<RawMsg>)
    ensures
        raws_view(messages@) == rows_messages(rows@, chat@, history),
{
    let mut messages: Vec<RawMsg> = Vec::new();
    let mut i: usize = 0;
    while i < rows.len()
        invariant
            i <= rows@.len(),
            raws_view(messages@) =~= rows_messages(rows@.take(i as int), chat@, history),
        decreases rows@.len() - i,
    {
        let ghost seen = raws_view(messages@);
        proof {
            assert(rows@.take(i + 1).drop_last() =~= rows@.take(i as int));
            assert(rows@.take(i + 1).last() == rows@[i as int]);
        }
        if let Some(message) = message_of_row(&rows[i], chat, history) {
            let ghost view = message@;
            messages.push(message);
            proof {
                assert(raws_view(messages@) =~= seen.push(view));
            }
        }
        i = i + 1;
    }
    proof {
        assert(rows@.take(rows@.len() as int) =~= rows@);
    }
    messages
}

// ---------------------------------------------------------------------------
// Messages for clients
// ---------------------------------------------------------------------------

/// A message as clients are told of it.
#[derive(Debug)]
pub struct DbMessage {
    /// The identifier across all interfaces.
    pub message_id: String,
    pub local_id: i64,
    pub server_id: i64,
    pub create_time: i64,
    pub content: String,
    /// The content, parsed by the type of the message.
    pub parsed: MsgContent,
    pub msg_type: i64,
    /// The user name of the sender.
    pub talker: String,
    pub talker_display_name: String,
    /// The user name of the conversation.
    pub chat: String,
    pub chat_display_name: String,
    /// Whether the account itself sent the message.
    pub is_self: bool,
    /// Whether the message mentions the account.
    pub is_at_me: bool,
    /// The user names that the message mentions.
    pub at_user_list: Vec<String>,
    /// The same as `chat`.
    pub conversation_id: String,
    /// The same as `chat_display_name`.
    pub conversation_name: String,
    /// The same as `talker`.
    pub sender_id: String,
    /// The same as `talker_display_name`.
    pub sender_name: String,
    /// `incoming`, `outgoing` or `system`.
    pub direction: String,
    pub is_group: bool,
    /// The metadata of a file; other messages have none.
    pub attachment: Option<AttachmentInfo>,
}

/// What a [`DbMessage`] says.
pub struct MessageView {
    pub message_id: Seq<char>,
    pub local_id: i64,
    pub server_id: i64,
    pub create_time: i64,
    pub content: Seq<char>,
    pub parsed: crate::content::ContentView,
    pub msg_type: i64,
    pub talker: Seq<char>,
    pub talker_display_name: Seq<char>,
    pub chat: Seq<char>,
    pub chat_display_name: Seq<char>,
    pub is_self: bool,
    pub is_at_me: bool,
    pub at_user_list: Seq<Seq<char>>,
    pub conversation_id: Seq<char>,
    pub conversation_name: Seq<char>,
    pub sender_id: Seq<char>,
    pub sender_name: Seq<char>,
    pub direction: Seq<char>,
    pub is_group: bool,
    pub attachment: Option<crate::attachment::AttachmentView>,
}

pub open spec fn attachment_view(attachment: Option<AttachmentInfo>) -> Option<
    crate::attachment::AttachmentView,
> {
    match attachment {
        Some(a) => Some(a@),
        None => None,
    }
}

impl View for DbMessage {
    type V = MessageView;

    open spec fn view(&self) -> MessageView {
        MessageView {
            message_id: self.message_id@,
            local_id: self.local_id,
            server_id: self.server_id,
            create_time: self.create_time,
            content: self.content@,
            parsed: self.parsed@,
            msg_type: self.msg_type,
            talker: self.talker@,
            talker_display_name: self.talker_display_name@,
            chat: self.chat@,
            chat_display_name: self.chat_display_name@,
            is_self: self.is_self,
            is_at_me: self.is_at_me,
            at_user_list: crate::text::texts_of(self.at_user_list@),
            conversation_id: self.conversation_id@,
            conversation_name: self.conversation_name@,
            sender_id: self.sender_id@,
            sender_name: self.sender_name@,
            direction: self.direction@,
            is_group: self.is_group,
            attachment: attachment_view(self.attachment),
        }
    }
}

impl Clone for DbMessage {
    fn clone(&self) -> (copy: Self)
        ensures
            copy@ == self@,
    {
        DbMessage {
            message_id: self.message_id.clone(),
            local_id: self.local_id,
            server_id: self.server_id,
            create_time: self.create_time,
            content: self.content.clone(),
            parsed: self.parsed.clone(),
            msg_type: self.msg_type,
            talker: self.talker.clone(),
            talker_display_name: self.talker_display_name.clone(),
            chat: self.chat.clone(),
            chat_display_name: self.chat_display_name.clone(),
            is_self: self.is_self,
            is_at_me: self.is_at_me,
            at_user_list: clone_texts(&self.at_user_list),
            conversation_id: self.conversation_id.clone(),
            conversation_name: self.conversation_name.clone(),
            sender_id: self.sender_id.clone(),
            sender_name: self.sender_name.clone(),
            direction: self.direction.clone(),
            is_group: self.is_group,
            attachment: match &self.attachment {
                Some(a) => Some(a.clone()),
                None => None,
            },
        }
    }
}

pub open spec fn messages_view(messages: Seq<DbMessage>) -> Seq<MessageView> {
    messages.map_values(|m: DbMessage| m@)
}

/// A chat of more than two.
pub open spec fn is_group_chat(chat: Seq<char>) -> bool {
    crate::text::contains_text(chat, "@chatroom"@)
}

/// Where the text ends before the first `:` that a line break follows.
pub open spec fn colon_line(text: Seq<char>) -> Option<int> {
    if crate::text::contains_text(text, ":\n"@) {
        Some(first_occurrence(text, ":\n"@))
    } else {
        None
    }
}

/// The first place at which `needle` stands in `text`, if it does.
pub open spec fn first_occurrence(text: Seq<char>, needle: Seq<char>) -> int
    decreases text.len(),
{
    if text.len() < needle.len() || crate::text::occurs_at(text, needle, 0) || text.len() == 0 {
        0
    } else {
        1 + first_occurrence(text.skip(1), needle)
    }
}

/// In a group chat the sender may stand before the text, on a line of its own: a name
/// that is not empty, has no space and takes fewer than fifty bytes. It is split off
/// where the row itself names no sender.
pub open spec fn sender_and_text(raw: RawView) -> (Seq<char>, Seq<char>) {
    if raw.talker.len() == 0 && is_group_chat(raw.chat) && colon_line(raw.content) is Some {
        let at = colon_line(raw.content)->0;
        let name = raw.content.take(at);
        if name.len() > 0 && !name.contains(' ') && crate::text::byte_len(name) < 50 {
            (name, raw.content.skip(at + 2))
        } else {
            (raw.talker, raw.content)
        }
    } else {
        (raw.talker, raw.content)
    }
}

/// Whether the account itself sent the message: the second bit of the status is clear,
/// and it is no system message.
pub open spec fn sent_by_self(raw: RawView) -> bool {
    let kind = crate::content::base_type(raw.msg_type);
    raw.status as int % 4 < 2 && kind != 10000 && kind != 10002
}

/// The sender of a message: the name that the row or the text gives, else the account
/// itself or, in a chat of two, the other side.
pub open spec fn sender_of(raw: RawView, self_wxid: Seq<char>) -> Seq<char> {
    let named = sender_and_text(raw).0;
    if named.len() > 0 {
        named
    } else if sent_by_self(raw) {
        self_wxid
    } else if !is_group_chat(raw.chat) {
        raw.chat
    } else {
        named
    }
}

/// The parts that are not empty once the white space around them is gone.
pub open spec fn trimmed_parts(parts: Seq<Seq<char>>) -> Seq<Seq<char>>
    decreases parts.len(),
{
    if parts.len() == 0 {
        seq![]
    } else {
        let before = trimmed_parts(parts.drop_last());
        let part = crate::text::trimmed(parts.last());
        if part.len() > 0 {
            before.push(part)
        } else {
            before
        }
    }
}

/// The user names in a list with commas.
pub open spec fn mentioned(list: Option<Seq<char>>) -> Seq<Seq<char>> {
    match list {
        Some(text) => trimmed_parts(crate::text::split_on(text, ',')),
        None => seq![],
    }
}

/// Whose message it is: the system's, one's own, or another's.
pub open spec fn direction_of(content: crate::content::ContentView, is_self: bool) -> Seq<char> {
    if content is System {
        "system"@
    } else if is_self {
        "outgoing"@
    } else {
        "incoming"@
    }
}

/// Who reads the messages: the account, the name it is shown by, and its contacts.
pub struct ReaderView {
    pub self_wxid: Seq<char>,
    pub self_name: Seq<char>,
    pub book: crate::contacts::BookView,
}

/// A message as clients are told of it, but for its attachment; `mentions` is the list
/// that its metadata holds.
pub open spec fn message_with(raw: RawView, reader: ReaderView, mentions: Seq<Seq<char>>) -> MessageView {
    let text = sender_and_text(raw).1;
    let talker = sender_of(raw, reader.self_wxid);
    let is_self = sent_by_self(raw);
    let talker_name = if is_self {
        reader.self_name
    } else {
        crate::contacts::name_in(reader.book, talker)
    };
    let chat_name = crate::contacts::name_in(reader.book, raw.chat);
    let parsed = crate::content::parsed_content(raw.msg_type, text);
    MessageView {
        message_id: message_id_of(raw.server_id, raw.chat, raw.local_id, raw.create_time),
        local_id: raw.local_id,
        server_id: raw.server_id,
        create_time: raw.create_time,
        content: text,
        parsed,
        msg_type: raw.msg_type,
        talker,
        talker_display_name: talker_name,
        chat: raw.chat,
        chat_display_name: chat_name,
        is_self,
        is_at_me: reader.self_wxid.len() > 0 && mentions.contains(reader.self_wxid),
        at_user_list: mentions,
        conversation_id: raw.chat,
        conversation_name: chat_name,
        sender_id: talker,
        sender_name: talker_name,
        direction: direction_of(parsed, is_self),
        is_group: is_group_chat(raw.chat),
        attachment: None,
    }
}

/// The user names that the metadata of a message mentions.
pub open spec fn mentions_of(raw: RawView) -> Seq<Seq<char>> {
    mentioned(
        crate::xml::text_in(
            crate::xml::document_events(raw.source),
            vstd::utf8::encode_utf8("atuserlist"@),
            false,
        ),
    )
}

/// A message as clients are told of it, but for its attachment.
pub open spec fn hydrated(raw: RawView, reader: ReaderView) -> MessageView {
    message_with(raw, reader, mentions_of(raw))
}

proof fn lemma_first_occurrence(text: Seq<char>, needle: Seq<char>, at: int)
    requires
        0 <= at,
        crate::text::occurs_at(text, needle, at),
        forall|k: int| 0 <= k < at ==> !#[trigger] crate::text::occurs_at(text, needle, k),
    ensures
        first_occurrence(text, needle) == at,
    decreases at,
{
    if at > 0 {
        assert(!crate::text::occurs_at(text, needle, 0));
        let rest = text.skip(1);
        assert(rest.subrange(at - 1, at - 1 + needle.len()) =~= text.subrange(
            at,
            at + needle.len(),
        ));
        assert forall|k: int| 0 <= k < at - 1 implies !#[trigger] crate::text::occurs_at(
            rest,
            needle,
            k,
        ) by {
            assert(!crate::text::occurs_at(text, needle, k + 1));
            if k + needle.len() <= rest.len() {
                assert(rest.subrange(k, k + needle.len()) =~= text.subrange(
                    k + 1,
                    k + 1 + needle.len(),
                ));
            }
        }
        lemma_first_occurrence(rest, needle, at - 1);
    }
}

/// Splits off the sender that stands before the text of a group message.
pub fn split_sender(raw: &RawMsg) -> (parts: (String, String))
    ensures
        (parts.0@, parts.1@) == sender_and_text(raw@),
{
    proof {
        reveal_strlit(":\n");
    }
    if raw.talker.as_str().is_empty() && text_contains(raw.chat.as_str(), "@chatroom") {
        let chars = to_chars(raw.content.as_str());
        let needle = to_chars(":\n");
        if let Some(at) = chars_find(&chars, &needle, 0) {
            proof {
                assert(crate::text::contains_text(raw.content@, ":\n"@));
                lemma_first_occurrence(raw.content@, ":\n"@, at as int);
            }
            let name = chars_to_text(&chars, 0, at);
            proof {
                assert(name@ =~= raw.content@.take(at as int));
            }
            if !name.as_str().is_empty() && !contains_char(name.as_str(), ' ') && text_len(
                name.as_str(),
            ) < 50 {
                let text = chars_to_text(&chars, at + 2, chars.len());
                proof {
                    assert(text@ =~= raw.content@.skip(at + 2));
                }
                return (name, text);
            }
        } else {
            proof {
                assert(!crate::text::contains_text(raw.content@, ":\n"@)) by {
                    assert forall|k: int| !crate::text::occurs_at(raw.content@, ":\n"@, k) by {
                        if 0 <= k {
                            assert(!crate::text::occurs_at(chars@, needle@, k));
                        }
                    }
                }
            }
        }
    }
    (raw.talker.clone(), raw.content.clone())
}

/// The parts of a list with commas that are not empty once the white space around them is
/// gone.
pub fn mention_list(list: &Option<String>) -> (names: Vec<String>)
    ensures
        crate::text::texts_of(names@) == mentioned(crate::text::text_of(*list)),
{
    let mut names: Vec<String> = Vec::new();
    match list {
        Some(text) => {
            let parts = split(text.as_str(), ',');
            let ghost all = crate::text::texts_of(parts@);
            let mut i: usize = 0;
            while i < parts.len()
                invariant
                    i <= parts@.len(),
                    all == crate::text::texts_of(parts@),
                    crate::text::texts_of(names@) =~= trimmed_parts(all.take(i as int)),
                decreases parts@.len() - i,
            {
                let ghost seen = crate::text::texts_of(names@);
                proof {
                    assert(all.take(i + 1).drop_last() =~= all.take(i as int));
                    assert(all.take(i + 1).last() == parts@[i as int]@);
                }
                let part = trim(parts[i].as_str());
                if !part.is_empty() {
                    names.push(part.to_owned());
                    proof {
                        assert(crate::text::texts_of(names@) =~= seen.push(part@));
                    }
                }
                i = i + 1;
            }
            proof {
                assert(all.take(all.len() as int) =~= all);
            }
        },
        None => {
            proof {
                assert(crate::text::texts_of(names@) =~= Seq::<Seq<char>>::empty());
            }
        },
    }
    names
}

/// A message as clients are told of it, but for its attachment; `mentions` is the list
/// that its metadata holds.
pub fn build_message(
    raw: &RawMsg,
    self_wxid: &str,
    self_name: &str,
    book: &TextMap<ContactInfo>,
    mentions: Vec<String>,
) -> (message: DbMessage)
    requires
        book.wf(),
    ensures
        message@ == message_with(
            raw@,
            (ReaderView { self_wxid: self_wxid@, self_name: self_name@, book: book@ }),
            crate::text::texts_of(mentions@),
        ),
{
    let (named, content) = split_sender(raw);
    let kind: i64 = raw.msg_type & 0xffff;
    let msg_type: i64 = raw.msg_type;
    let status: i64 = raw.status;
    proof {
        assert(kind == msg_type % 0x10000) by (bit_vector)
            requires
                kind == msg_type & 0xffff,
        ;
        assert(((status & 2) == 0) == (status % 4 < 2)) by (bit_vector);
    }
    let is_self: bool = (status & 2) == 0 && kind != 10000 && kind != 10002;
    let is_group = text_contains(raw.chat.as_str(), "@chatroom");
    let talker = if !named.as_str().is_empty() {
        named
    } else if is_self {
        self_wxid.to_owned()
    } else if !is_group {
        raw.chat.clone()
    } else {
        named
    };
    let talker_name = if is_self {
        self_name.to_owned()
    } else {
        resolve_name(book, talker.as_str())
    };
    let chat_name = resolve_name(book, raw.chat.as_str());
    let parsed = parse_msg_content(raw.msg_type, content.as_str());
    let is_at_me = !self_wxid.is_empty() && list_contains(&mentions, self_wxid);
    let direction = match &parsed {
        MsgContent::System { .. } => "system",
        _ => if is_self {
            "outgoing"
        } else {
            "incoming"
        },
    };
    DbMessage {
        message_id: stable_message_id(
            raw.server_id,
            raw.chat.as_str(),
            raw.local_id,
            raw.create_time,
        ),
        local_id: raw.local_id,
        server_id: raw.server_id,
        create_time: raw.create_time,
        content,
        parsed,
        msg_type: raw.msg_type,
        talker: talker.clone(),
        talker_display_name: talker_name.clone(),
        chat: raw.chat.clone(),
        chat_display_name: chat_name.clone(),
        is_self,
        is_at_me,
        at_user_list: mentions,
        conversation_id: raw.chat.clone(),
        conversation_name: chat_name,
        sender_id: talker,
        sender_name: talker_name,
        direction: direction.to_owned(),
        is_group,
        attachment: None,
    }
}

/// A message as clients are told of it, but for its attachment.
pub fn hydrate(
    raw: &RawMsg,
    self_wxid: &str,
    self_name: &str,
    book: &TextMap<ContactInfo>,
) -> (message: DbMessage)
    requires
        book.wf(),
    ensures
        message@ == hydrated(
            raw@,
            (ReaderView { self_wxid: self_wxid@, self_name: self_name@, book: book@ }),
        ),
{
    let mentions = mention_list(&extract_xml_text(raw.source.as_str(), "atuserlist"));
    build_message(raw, self_wxid, self_name, book, mentions)
}

/// The messages as clients are told of them, but for their attachments.
pub open spec fn all_hydrated(raws: Seq<RawView>, reader: ReaderView) -> Seq<MessageView> {
    raws.map_values(|raw: RawView| hydrated(raw, reader))
}

/// The messages as clients are told of them, but for their attachments.
pub fn hydrate_raw_messages(
    raws: &Vec<RawMsg>,
    self_wxid: &str,
    self_name: &str,
    book: &TextMap<ContactInfo>,
) -> (messages: Vec<DbMessage>)
    requires
        book.wf(),
    ensures
        messages_view(messages@) == all_hydrated(
            raws_view(raws@),
            (ReaderView { self_wxid: self_wxid@, self_name: self_name@, book: book@ }),
        ),
{
    let ghost reader = ReaderView { self_wxid: self_wxid@, self_name: self_name@, book: book@ };
    let mut messages: Vec<DbMessage> = Vec::new();
    let mut i: usize = 0;
    while i < raws.len()
        invariant
            i <= raws@.len(),
            book.wf(),
            reader == (ReaderView { self_wxid: self_wxid@, self_name: self_name@, book: book@ }),
            messages@.len() == i,
            forall|k: int| 0 <= k < i ==> (#[trigger] messages@[k])@ == hydrated(raws@[k]@, reader),
        decreases raws@.len() - i,
    {
        messages.push(hydrate(&raws[i], self_wxid, self_name, book));
        i = i + 1;
    }
    proof {
        assert(messages_view(messages@) =~= all_hydrated(raws_view(raws@), reader));
    }
    messages
}

/// The same message with another attachment.
pub open spec fn with_attachment(
    message: MessageView,
    attachment: Option<crate::attachment::AttachmentView>,
) -> MessageView {
    MessageView { attachment, ..message }
}

impl DbMessage {
    /// Fills in the metadata of a file message, `encoded` being how its locator is written
    /// down. Other messages get none.
    pub fn attach(&mut self, encoded: &[u8], available: bool)
        requires
            encoded@.len() <= usize::MAX / 4,
        ensures
            final(self)@ == with_attachment(
                old(self)@,
                crate::attachment::attachment_of(old(self)@.parsed, encoded@, available),
            ),
    {
        self.attachment = attachment_info(&self.parsed, encoded, available);
    }
}

/// The contents of the messages that the account itself sent, in order.
pub open spec fn own_contents(messages: Seq<MessageView>) -> Seq<Seq<char>>
    decreases messages.len(),
{
    if messages.len() == 0 {
        seq![]
    } else {
        let before = own_contents(messages.drop_last());
        if messages.last().is_self {
            before.push(messages.last().content)
        } else {
            before
        }
    }
}

/// The contents of the messages that the account itself sent, in order: those who wait
/// for a message to go out are told of them.
pub fn sent_contents(messages: &Vec<DbMessage>) -> (contents: Vec<String>)
    ensures
        crate::text::texts_of(contents@) == own_contents(messages_view(messages@)),
{
    let mut contents: Vec<String> = Vec::new();
    let ghost all = messages_view(messages@);
    let mut i: usize = 0;
    while i < messages.len()
        invariant
            i <= messages@.len(),
            all == messages_view(messages@),
            crate::text::texts_of(contents@) =~= own_contents(all.take(i as int)),
        decreases messages@.len() - i,
    {
        let ghost seen = crate::text::texts_of(contents@);
        proof {
            assert(all.take(i + 1).drop_last() =~= all.take(i as int));
            assert(all.take(i + 1).last() == messages@[i as int]@);
        }
        if messages[i].is_self {
            contents.push(messages[i].content.clone());
            proof {
                assert(crate::text::texts_of(contents@) =~= seen.push(messages@[i as int].content@));
            }
        }
        i = i + 1;
    }
    proof {
        assert(all.take(all.len() as int) =~= all);
    }
    contents
}

/// Whether a message that went out is the one that was to be sent: one of the two texts
/// contains the other, and the message is not blank.
pub open spec fn is_echo(sent: Seq<char>, text: Seq<char>) -> bool {
    let inner = crate::text::trimmed(sent);
    inner.len() > 0 && (crate::text::contains_text(inner, text) || crate::text::contains_text(
        text,
        inner,
    ))
}

/// Whether a message that went out is the one that was to be sent.
pub fn echoes(sent: &str, text: &str) -> (found: bool)
    ensures
        found == is_echo(sent@, text@),
{
    let inner = trim(sent);
    !inner.is_empty() && (text_contains(inner, text) || text_contains(text, inner))
}

// ---------------------------------------------------------------------------
// Laws of messages
// ---------------------------------------------------------------------------

/// What clients can rely on in every message: the longer names of a field say the same as
/// the shorter ones, there are three directions, of which `system` means a system message
/// and `outgoing` one's own, a message is a group's if and only if its conversation is,
/// and only a mention of the account itself counts as one.
pub proof fn message_fields_agree(raw: RawView, reader: ReaderView)
    ensures
        ({
            let m = hydrated(raw, reader);
            &&& m.conversation_id == m.chat
            &&& m.conversation_name == m.chat_display_name
            &&& m.sender_id == m.talker
            &&& m.sender_name == m.talker_display_name
            &&& m.direction == "system"@ || m.direction == "outgoing"@ || m.direction
                == "incoming"@
            &&& m.direction == "system"@ <==> m.parsed is System
            &&& m.direction == "outgoing"@ <==> m.is_self && m.parsed !is System
            &&& m.is_group <==> is_group_chat(m.chat)
            &&& m.is_at_me <==> m.at_user_list.contains(reader.self_wxid)
                && reader.self_wxid.len() > 0
            &&& m.is_self ==> m.sender_name == reader.self_name
        }),
{
    reveal_strlit("system");
    reveal_strlit("outgoing");
    reveal_strlit("incoming");
    let m = hydrated(raw, reader);
    assert("system"@.len() == 6);
    assert("outgoing"@.len() == 8);
    assert("incoming"@.len() == 8);
    assert("outgoing"@[0] == 'o');
    assert("incoming"@[0] == 'i');
}

/// A system message is never one's own, so that it is never mistaken for an echo.
pub proof fn system_messages_are_not_own(raw: RawView, reader: ReaderView)
    ensures
        hydrated(raw, reader).parsed is System ==> !hydrated(raw, reader).is_self,
{
}

/// Only a file message gets an attachment.
pub proof fn only_files_have_attachments(
    message: MessageView,
    encoded: Seq<u8>,
    available: bool,
)
    ensures
        crate::attachment::attachment_of(message.parsed, encoded, available) is Some
            ==> message.parsed is File,
{
}

/// The columns of a row as plain values.
pub struct RowValues {
    pub local_id: i64,
    pub server_id: i64,
    pub create_time: i64,
    pub content: Seq<char>,
    pub msg_type: i64,
    pub talker: Seq<char>,
    pub status: i64,
    pub source: Seq<char>,
}

/// Whether the cells of a row hold these values.
pub open spec fn holds_values(row: MessageRow, values: RowValues) -> bool {
    &&& row.local_id@ == crate::cell::CellView::Integer(values.local_id)
    &&& row.server_id@ == crate::cell::CellView::Integer(values.server_id)
    &&& row.create_time@ == crate::cell::CellView::Integer(values.create_time)
    &&& row.content@ == crate::cell::CellView::Text(vstd::utf8::encode_utf8(values.content))
    &&& row.msg_type@ == crate::cell::CellView::Integer(values.msg_type)
    &&& row.talker@ == crate::cell::CellView::Text(vstd::utf8::encode_utf8(values.talker))
    &&& row.status@ == crate::cell::CellView::Integer(values.status)
    &&& row.source@ == crate::cell::CellView::Text(vstd::utf8::encode_utf8(values.source))
}

/// A message made of a row carries each column's own value, and the chat of its table.
pub proof fn rows_keep_their_columns(
    row: MessageRow,
    values: RowValues,
    chat: Seq<char>,
    history: bool,
)
    requires
        holds_values(row, values),
    ensures
        ({
            let message = row_message(row, chat, history);
            &&& message is Some
            &&& message->0.local_id == values.local_id
            &&& message->0.server_id == values.server_id
            &&& message->0.create_time == values.create_time
            &&& message->0.content == values.content
            &&& message->0.msg_type == values.msg_type
            &&& message->0.talker == values.talker
            &&& message->0.status == values.status
            &&& message->0.source == values.source
            &&& message->0.chat == chat
        }),
{
    crate::cell::texts_are_stored_as_they_are(values.content);
    crate::cell::texts_are_stored_as_they_are(values.talker);
    crate::cell::texts_are_stored_as_they_are(values.source);
}

/// No column of a row speaks for another: where two rows agree in a cell, the messages made
/// of them agree in what it says, whatever their other cells hold, compressed or not.
pub proof fn columns_do_not_interfere(
    row: MessageRow,
    other: MessageRow,
    chat: Seq<char>,
    history: bool,
)
    requires
        row_message(row, chat, history) is Some,
        row_message(other, chat, history) is Some,
    ensures
        ({
            let m = row_message(row, chat, history)->0;
            let n = row_message(other, chat, history)->0;
            &&& row.local_id@ == other.local_id@ ==> m.local_id == n.local_id
            &&& row.server_id@ == other.server_id@ ==> m.server_id == n.server_id
            &&& row.create_time@ == other.create_time@ ==> m.create_time == n.create_time
            &&& row.content@ == other.content@ ==> m.content == n.content
            &&& row.msg_type@ == other.msg_type@ ==> m.msg_type == n.msg_type
            &&& row.talker@ == other.talker@ ==> m.talker == n.talker
            &&& row.status@ == other.status@ ==> m.status == n.status
            &&& row.source@ == other.source@ ==> m.source == n.source
        }),
{
}

/// A row is left out exactly where its number is missing or one of its numbers is a text
/// or a blob or no whole number; what its texts hold never matters. A number that is null
/// counts as zero.
pub proof fn rows_are_left_out_for_their_numbers(row: MessageRow, chat: Seq<char>, history: bool)
    ensures
        ({
            let message = row_message(row, chat, history);
            let number = |cell: crate::cell::CellView| cell is Null || cell is Integer;
            &&& message is Some <==> row.local_id@ is Integer && number(row.server_id@) && number(
                row.create_time@,
            ) && number(row.msg_type@) && number(row.status@)
            &&& message is Some && row.server_id@ is Null ==> message->0.server_id == 0
            &&& message is Some && row.create_time@ is Null ==> message->0.create_time == 0
            &&& message is Some && row.msg_type@ is Null ==> message->0.msg_type == 0
            &&& message is Some && row.status@ is Null ==> message->0.status == 0
            &&& message is Some && row.talker@ is Null ==> message->0.talker.len() == 0
            &&& message is Some && row.content@ is Null ==> message->0.content.len() == 0
            &&& message is Some && row.source@ is Null ==> message->0.source.len() == 0
        }),
{
}

/// Whom a message mentions follows from the source column alone: changing the content of a
/// row, or its sender, never changes who is mentioned, and changing the source changes
/// nothing else.
pub proof fn mentions_follow_from_the_source(
    row: MessageRow,
    other: MessageRow,
    chat: Seq<char>,
    history: bool,
    reader: ReaderView,
)
    requires
        row_message(row, chat, history) is Some,
        row_message(other, chat, history) is Some,
    ensures
        ({
            let m = hydrated(row_message(row, chat, history)->0, reader);
            let n = hydrated(row_message(other, chat, history)->0, reader);
            &&& row.source@ == other.source@ ==> m.at_user_list == n.at_user_list && m.is_at_me
                == n.is_at_me
            &&& other == (MessageRow { source: other.source, ..row }) ==> m.content == n.content
                && m.parsed == n.parsed && m.talker == n.talker && m.is_self == n.is_self
                && m.direction == n.direction && m.message_id == n.message_id && m.sender_name
                == n.sender_name
        }),
{
}

/// A message whose metadata lists one user name mentions that user and nobody else, and is
/// told to that account as one that mentions it.
pub proof fn listed_users_are_mentioned(raw: RawView, reader: ReaderView, id: Seq<char>)
    requires
        crate::xml::writes_text(crate::xml::document_events(raw.source), "atuserlist"@, id),
        id.len() > 0,
        !id.contains(','),
        !crate::text::white_space(id[0]),
        !crate::text::white_space(id.last()),
    ensures
        hydrated(raw, reader).at_user_list == seq![id],
        hydrated(raw, reader).is_at_me <==> reader.self_wxid == id,
{
    crate::xml::texts_are_read_as_written(
        crate::xml::document_events(raw.source),
        "atuserlist"@,
        id,
    );
    crate::text::lemma_first_at(id, ',');
    assert(crate::text::split_on(id, ',') =~= seq![id]);
    assert(crate::text::trim_front(id) == id);
    assert(crate::text::trim_back(id) == id);
    assert(seq![id].drop_last() =~= Seq::<Seq<char>>::empty());
    reveal_with_fuel(trimmed_parts, 2);
    assert(trimmed_parts(seq![id]) =~= seq![id]);
    assert(seq![id][0] == id);
}

/// A row whose source holds a list with one user name mentions that user, whatever its
/// content says: the message told to that account says so.
pub proof fn rows_mention_whom_their_source_lists(
    row: MessageRow,
    source: Seq<char>,
    chat: Seq<char>,
    history: bool,
    reader: ReaderView,
)
    requires
        row_message(row, chat, history) is Some,
        row.source@ == crate::cell::CellView::Text(vstd::utf8::encode_utf8(source)),
        crate::xml::writes_text(
            crate::xml::document_events(source),
            "atuserlist"@,
            reader.self_wxid,
        ),
        reader.self_wxid.len() > 0,
        !reader.self_wxid.contains(','),
        !crate::text::white_space(reader.self_wxid[0]),
        !crate::text::white_space(reader.self_wxid.last()),
    ensures
        hydrated(row_message(row, chat, history)->0, reader).is_at_me,
        hydrated(row_message(row, chat, history)->0, reader).at_user_list == seq![
            reader.self_wxid,
        ],
{
    crate::cell::texts_are_stored_as_they_are(source);
    listed_users_are_mentioned(row_message(row, chat, history)->0, reader, reader.self_wxid);
}

/// A message without such a list mentions nobody.
pub proof fn unlisted_users_are_not_mentioned(raw: RawView, reader: ReaderView)
    requires
        crate::xml::lacks_text(crate::xml::document_events(raw.source), "atuserlist"@),
    ensures
        hydrated(raw, reader).at_user_list.len() == 0,
        !hydrated(raw, reader).is_at_me,
{
    crate::xml::texts_are_read_as_written(
        crate::xml::document_events(raw.source),
        "atuserlist"@,
        seq![],
    );
}

proof fn lemma_trimmed_parts(parts: Seq<Seq<char>>, name: Seq<char>)
    ensures
        trimmed_parts(parts).contains(name) <==> name.len() > 0 && exists|k: int|
            0 <= k < parts.len() && crate::text::trimmed(#[trigger] parts[k]) == name,
    decreases parts.len(),
{
    if parts.len() > 0 {
        let rest = parts.drop_last();
        lemma_trimmed_parts(rest, name);
        let before = trimmed_parts(rest);
        let all = trimmed_parts(parts);
        let last = crate::text::trimmed(parts.last());
        if all.contains(name) {
            let k = choose|k: int| 0 <= k < all.len() && all[k] == name;
            if k < before.len() {
                assert(before[k] == name);
                let n = choose|n: int|
                    0 <= n < rest.len() && crate::text::trimmed(#[trigger] rest[n]) == name;
                assert(parts[n] == rest[n]);
            } else {
                assert(crate::text::trimmed(parts[parts.len() - 1]) == name);
            }
        }
        if name.len() > 0 && exists|k: int|
            0 <= k < parts.len() && crate::text::trimmed(#[trigger] parts[k]) == name {
            let k = choose|k: int|
                0 <= k < parts.len() && crate::text::trimmed(#[trigger] parts[k]) == name;
            if k < rest.len() {
                assert(rest[k] == parts[k]);
                let n = choose|n: int| 0 <= n < before.len() && before[n] == name;
                assert(all[n] == name);
            } else {
                assert(all[before.len() as int] == name);
            }
        }
    }
}

/// Exactly the parts of a list with commas are mentioned, without the white space around
/// them; an empty part mentions nobody.
pub proof fn parts_of_a_list_are_mentioned(text: Seq<char>, name: Seq<char>)
    ensures
        mentioned(Some(text)).contains(name) <==> name.len() > 0 && exists|k: int|
            0 <= k < crate::text::split_on(text, ',').len() && crate::text::trimmed(
                #[trigger] crate::text::split_on(text, ',')[k],
            ) == name,
{
    lemma_trimmed_parts(crate::text::split_on(text, ','), name);
}

/// The sender of a group message that its row does not name stands before the text, on a
/// line of its own; it is split off, and the rest is the text.
pub proof fn senders_are_split_off(raw: RawView, name: Seq<char>, text: Seq<char>)
    requires
        raw.talker.len() == 0,
        is_group_chat(raw.chat),
        raw.content == name + seq![':', '\n'] + text,
        name.len() > 0,
        !name.contains(' '),
        !name.contains(':'),
        crate::text::byte_len(name) < 50,
    ensures
        sender_and_text(raw) == (name, text),
{
    reveal_strlit(":\n");
    let needle = ":\n"@;
    assert(needle =~= seq![':', '\n']);
    let at = name.len() as int;
    assert(raw.content.subrange(at, at + 2) =~= needle);
    assert(crate::text::occurs_at(raw.content, needle, at));
    assert forall|k: int| 0 <= k < at implies !#[trigger] crate::text::occurs_at(
        raw.content,
        needle,
        k,
    ) by {
        if crate::text::occurs_at(raw.content, needle, k) {
            assert(raw.content.subrange(k, k + 2)[0] == ':');
            assert(name[k] == ':');
        }
    }
    lemma_first_occurrence(raw.content, needle, at);
    assert(raw.content.take(at) =~= name);
    assert(raw.content.skip(at + 2) =~= text);
}

proof fn lemma_first_is_there(text: Seq<char>, needle: Seq<char>, at: int)
    requires
        crate::text::occurs_at(text, needle, at),
    ensures
        crate::text::occurs_at(text, needle, first_occurrence(text, needle)),
    decreases at,
{
    if !crate::text::occurs_at(text, needle, 0) && text.len() > 0 {
        let rest = text.skip(1);
        assert(at > 0);
        assert(rest.subrange(at - 1, at - 1 + needle.len()) =~= text.subrange(
            at,
            at + needle.len(),
        ));
        lemma_first_is_there(rest, needle, at - 1);
        let n = first_occurrence(rest, needle);
        assert(rest.subrange(n, n + needle.len()) =~= text.subrange(
            n + 1,
            n + 1 + needle.len(),
        ));
    }
}

/// Nothing of a message is lost or made up by splitting off its sender: the row names the
/// sender, or the content is the sender, a colon, a line break and the text, or there is
/// nobody to split off. Only a group message whose row names nobody is split at all, and
/// what is split off has neither spaces nor fifty bytes.
pub proof fn splitting_keeps_the_text(raw: RawView)
    ensures
        ({
            let (name, text) = sender_and_text(raw);
            &&& raw.talker.len() > 0 ==> name == raw.talker && text == raw.content
            &&& !is_group_chat(raw.chat) ==> name == raw.talker && text == raw.content
            &&& (name == raw.talker && text == raw.content) || (raw.content == name + seq![
                ':',
                '\n',
            ] + text && name.len() > 0 && !name.contains(' ') && crate::text::byte_len(name)
                < 50)
        }),
{
    reveal_strlit(":\n");
    let needle = ":\n"@;
    assert(needle =~= seq![':', '\n']);
    let (name, text) = sender_and_text(raw);
    if crate::text::contains_text(raw.content, needle) {
        let k = choose|k: int| crate::text::occurs_at(raw.content, needle, k);
        lemma_first_is_there(raw.content, needle, k);
        let at = first_occurrence(raw.content, needle);
        assert(raw.content =~= raw.content.take(at) + raw.content.subrange(at, at + 2)
            + raw.content.skip(at + 2));
    }
}

/// Who sent a message: a name that the row or the text gives comes first; a message without
/// one is from the account itself where it is its own, else from the other side of a chat
/// of two; in a group it stays unknown. It is the account's own where the second bit of its
/// status is clear and it is no system message.
pub proof fn senders_are_told(raw: RawView, reader: ReaderView, quarter: int)
    ensures
        ({
            let m = hydrated(raw, reader);
            let kind = raw.msg_type as int % 65536;
            &&& raw.talker.len() > 0 ==> m.sender_id == raw.talker && m.content == raw.content
            &&& raw.status == 4 * quarter + 2 || raw.status == 4 * quarter + 3 ==> !m.is_self
            &&& kind == 10000 || kind == 10002 ==> !m.is_self
            &&& (raw.status == 4 * quarter || raw.status == 4 * quarter + 1) && kind != 10000
                && kind != 10002 ==> m.is_self
            &&& raw.talker.len() == 0 && m.is_self && !m.is_group ==> m.sender_id
                == reader.self_wxid
            &&& raw.talker.len() == 0 && !m.is_self && !m.is_group ==> m.sender_id == raw.chat
            &&& raw.talker.len() == 0 && m.is_group && m.content == raw.content ==> m.sender_id
                == if m.is_self {
                reader.self_wxid
            } else {
                seq![]
            }
            &&& m.is_self ==> m.sender_name == reader.self_name
            &&& !m.is_self ==> m.sender_name == crate::contacts::name_in(reader.book, m.sender_id)
            &&& m.conversation_name == crate::contacts::name_in(reader.book, raw.chat)
            &&& m.conversation_id == raw.chat
            &&& m.local_id == raw.local_id && m.server_id == raw.server_id && m.create_time
                == raw.create_time && m.msg_type == raw.msg_type
            &&& m.parsed == crate::content::parsed_content(raw.msg_type, m.content)
            &&& m.attachment is None
        }),
{
    splitting_keeps_the_text(raw);
    let m = hydrated(raw, reader);
    if raw.talker.len() == 0 && m.is_group && m.content == raw.content {
        let (name, text) = sender_and_text(raw);
        if name != raw.talker {
            assert(raw.content.len() == name.len() + 2 + text.len());
        }
        assert(raw.talker =~= Seq::<char>::empty());
    }
}

/// Exactly what the account itself sent is told to those who wait for a message to go out.
pub proof fn own_messages_are_told(messages: Seq<MessageView>, content: Seq<char>)
    ensures
        own_contents(messages).contains(content) <==> exists|k: int|
            0 <= k < messages.len() && (#[trigger] messages[k]).is_self && messages[k].content
                == content,
    decreases messages.len(),
{
    if messages.len() > 0 {
        let rest = messages.drop_last();
        own_messages_are_told(rest, content);
        let before = own_contents(rest);
        let all = own_contents(messages);
        let last = messages.len() - 1;
        if all.contains(content) {
            let k = choose|k: int| 0 <= k < all.len() && all[k] == content;
            if k < before.len() {
                assert(before[k] == content);
                let n = choose|n: int|
                    0 <= n < rest.len() && (#[trigger] rest[n]).is_self && rest[n].content
                        == content;
                assert(messages[n] == rest[n]);
            } else {
                assert(messages[last].is_self);
            }
        }
        if exists|k: int|
            0 <= k < messages.len() && (#[trigger] messages[k]).is_self && messages[k].content
                == content {
            let k = choose|k: int|
                0 <= k < messages.len() && (#[trigger] messages[k]).is_self && messages[k].content
                    == content;
            if k < rest.len() {
                assert(rest[k] == messages[k]);
                let n = choose|n: int| 0 <= n < before.len() && before[n] == content;
                assert(all[n] == content);
            } else {
                assert(all[before.len() as int] == content);
            }
        }
    }
}

/// A text that goes out as it was sent, with nothing but white space around it, is known
/// again; so is one of which a part went out, or that went out as a part of something
/// longer. What is blank is never taken for it, nor is a text that has nothing to do with it.
pub proof fn echoes_are_known_again(front: Seq<char>, text: Seq<char>, back: Seq<char>)
    requires
        text.len() > 0,
        !crate::text::white_space(text[0]),
        !crate::text::white_space(text.last()),
    ensures
        is_echo(text, text),
        is_echo(text, front + text + back),
        !crate::text::white_space((front + text + back)[0]) && !crate::text::white_space(
            (front + text + back).last(),
        ) ==> is_echo(front + text + back, text),
        !crate::text::contains_text(front, text) && !crate::text::contains_text(text, front)
            ==> !is_echo(text, front),
        crate::text::trimmed(back).len() == 0 ==> !is_echo(back, text),
{
    assert(crate::text::trim_front(text) == text);
    assert(crate::text::trim_back(text) == text);
    assert(text.subrange(0, text.len() as int) =~= text);
    assert(crate::text::occurs_at(text, text, 0));
    let longer = front + text + back;
    let at = front.len() as int;
    assert(longer.subrange(at, at + text.len()) =~= text);
    assert(crate::text::occurs_at(longer, text, at));
}

/// Each row gives its message, in the order of the rows, and none gives more than one.
pub proof fn rows_are_read_one_by_one(
    rows: Seq<MessageRow>,
    more: Seq<MessageRow>,
    chat: Seq<char>,
    history: bool,
)
    ensures
        rows_messages(rows + more, chat, history) == rows_messages(rows, chat, history)
            + rows_messages(more, chat, history),
        rows.len() == 1 && row_message(rows[0], chat, history) is Some ==> rows_messages(
            rows,
            chat,
            history,
        ) == seq![row_message(rows[0], chat, history)->0],
        rows.len() == 1 && row_message(rows[0], chat, history) is None ==> rows_messages(
            rows,
            chat,
            history,
        ).len() == 0,
    decreases more.len(),
{
    reveal_with_fuel(rows_messages, 2);
    if more.len() == 0 {
        assert(rows + more =~= rows);
        assert(rows_messages(rows, chat, history) + rows_messages(more, chat, history)
            =~= rows_messages(rows, chat, history));
    } else {
        rows_are_read_one_by_one(rows, more.drop_last(), chat, history);
        assert((rows + more).drop_last() =~= rows + more.drop_last());
        assert((rows + more).last() == more.last());
        assert(rows_messages(rows + more, chat, history) =~= rows_messages(rows, chat, history)
            + rows_messages(more, chat, history));
    }
    if rows.len() == 1 {
        assert(rows.drop_last() =~= Seq::<MessageRow>::empty());
        assert(rows_messages(rows.drop_last(), chat, history) =~= Seq::<RawView>::empty());
        if row_message(rows[0], chat, history) is Some {
            assert(rows_messages(rows, chat, history) =~= seq![
                row_message(rows[0], chat, history)->0,
            ]);
        }
    }
}

/// Metadata of a file change nothing else of a message, and are what is read of it
/// afterwards.
pub proof fn attachments_change_nothing_else(
    message: MessageView,
    attachment: Option<crate::attachment::AttachmentView>,
)
    ensures
        ({
            let after = with_attachment(message, attachment);
            &&& after.attachment == attachment
            &&& with_attachment(after, message.attachment) == message
            &&& after.content == message.content
            &&& after.parsed == message.parsed
            &&& after.is_self == message.is_self
        }),
{
}

} // verus!
