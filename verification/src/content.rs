//! Structured message content: what a message body says, by the type of the message.

use vstd::prelude::*;
use vstd::string::*;
use vstd::utf8::*;

use crate::number::{parse_i32, parse_u32, parse_u64, push_i64, push_u64};
use crate::text::{clone_text, cut_to_bytes, text_contains, text_len};
use crate::xml::{first_attribute, first_text, read_events, XmlEvent};

verus! {

/// Message content, parsed by message type.
#[derive(Debug)]
pub enum MsgContent {
    /// Plain text (type 1).
    Text { text: String },
    /// An image (type 3).
    Image {
        path: Option<String>,
        md5: Option<String>,
        length: Option<u64>,
        width: Option<u32>,
        height: Option<u32>,
    },
    /// A voice message (type 34).
    Voice { duration_ms: Option<u32>, voice_url: Option<String>, aeskey: Option<String> },
    /// A video (type 43).
    Video {
        thumb_path: Option<String>,
        cdn_video_url: Option<String>,
        aeskey: Option<String>,
        length: Option<u64>,
        play_length: Option<u32>,
        width: Option<u32>,
        height: Option<u32>,
    },
    /// A sticker (type 47).
    Emoji { url: Option<String> },
    /// A link or a mini program (type 49, not a file).
    App {
        title: Option<String>,
        desc: Option<String>,
        url: Option<String>,
        app_type: Option<i32>,
    },
    /// A file (type 49).
    File {
        title: Option<String>,
        file_size: Option<u64>,
        file_ext: Option<String>,
        md5: Option<String>,
    },
    /// A contact card (type 42).
    ContactCard {
        nickname: Option<String>,
        username: Option<String>,
        avatar_url: Option<String>,
    },
    /// A location (type 48). The coordinates are kept as the message writes them.
    Location {
        x: Option<String>,
        y: Option<String>,
        scale: Option<u32>,
        label: Option<String>,
        poiname: Option<String>,
    },
    /// A system message (types 10000 and 10002).
    System { text: String },
    /// Any other type.
    Unknown { raw: String, msg_type: i64 },
}

/// What a [`MsgContent`] says.
pub enum ContentView {
    Text { text: Seq<char> },
    Image {
        path: Option<Seq<char>>,
        md5: Option<Seq<char>>,
        length: Option<u64>,
        width: Option<u32>,
        height: Option<u32>,
    },
    Voice { duration_ms: Option<u32>, voice_url: Option<Seq<char>>, aeskey: Option<Seq<char>> },
    Video {
        thumb_path: Option<Seq<char>>,
        cdn_video_url: Option<Seq<char>>,
        aeskey: Option<Seq<char>>,
        length: Option<u64>,
        play_length: Option<u32>,
        width: Option<u32>,
        height: Option<u32>,
    },
    Emoji { url: Option<Seq<char>> },
    App {
        title: Option<Seq<char>>,
        desc: Option<Seq<char>>,
        url: Option<Seq<char>>,
        app_type: Option<i32>,
    },
    File {
        title: Option<Seq<char>>,
        file_size: Option<u64>,
        file_ext: Option<Seq<char>>,
        md5: Option<Seq<char>>,
    },
    ContactCard {
        nickname: Option<Seq<char>>,
        username: Option<Seq<char>>,
        avatar_url: Option<Seq<char>>,
    },
    Location {
        x: Option<Seq<char>>,
        y: Option<Seq<char>>,
        scale: Option<u32>,
        label: Option<Seq<char>>,
        poiname: Option<Seq<char>>,
    },
    System { text: Seq<char> },
    Unknown { raw: Seq<char>, msg_type: i64 },
}

impl View for MsgContent {
    type V = ContentView;

    open spec fn view(&self) -> ContentView {
        match self {
            MsgContent::Text { text } => ContentView::Text { text: text@ },
            MsgContent::Image { path, md5, length, width, height } => ContentView::Image {
                path: crate::text::text_of(*path),
                md5: crate::text::text_of(*md5),
                length: *length,
                width: *width,
                height: *height,
            },
            MsgContent::Voice { duration_ms, voice_url, aeskey } => ContentView::Voice {
                duration_ms: *duration_ms,
                voice_url: crate::text::text_of(*voice_url),
                aeskey: crate::text::text_of(*aeskey),
            },
            MsgContent::Video {
                thumb_path,
                cdn_video_url,
                aeskey,
                length,
                play_length,
                width,
                height,
            } => ContentView::Video {
                thumb_path: crate::text::text_of(*thumb_path),
                cdn_video_url: crate::text::text_of(*cdn_video_url),
                aeskey: crate::text::text_of(*aeskey),
                length: *length,
                play_length: *play_length,
                width: *width,
                height: *height,
            },
            MsgContent::Emoji { url } => ContentView::Emoji { url: crate::text::text_of(*url) },
            MsgContent::App { title, desc, url, app_type } => ContentView::App {
                title: crate::text::text_of(*title),
                desc: crate::text::text_of(*desc),
                url: crate::text::text_of(*url),
                app_type: *app_type,
            },
            MsgContent::File { title, file_size, file_ext, md5 } => ContentView::File {
                title: crate::text::text_of(*title),
                file_size: *file_size,
                file_ext: crate::text::text_of(*file_ext),
                md5: crate::text::text_of(*md5),
            },
            MsgContent::ContactCard { nickname, username, avatar_url } => ContentView::ContactCard {
                nickname: crate::text::text_of(*nickname),
                username: crate::text::text_of(*username),
                avatar_url: crate::text::text_of(*avatar_url),
            },
            MsgContent::Location { x, y, scale, label, poiname } => ContentView::Location {
                x: crate::text::text_of(*x),
                y: crate::text::text_of(*y),
                scale: *scale,
                label: crate::text::text_of(*label),
                poiname: crate::text::text_of(*poiname),
            },
            MsgContent::System { text } => ContentView::System { text: text@ },
            MsgContent::Unknown { raw, msg_type } => ContentView::Unknown {
                raw: raw@,
                msg_type: *msg_type,
            },
        }
    }
}

impl Clone for MsgContent {
    fn clone(&self) -> (copy: Self)
        ensures
            copy@ == self@,
    {
        match self {
            MsgContent::Text { text } => MsgContent::Text { text: text.clone() },
            MsgContent::Image { path, md5, length, width, height } => MsgContent::Image {
                path: clone_text(path),
                md5: clone_text(md5),
                length: *length,
                width: *width,
                height: *height,
            },
            MsgContent::Voice { duration_ms, voice_url, aeskey } => MsgContent::Voice {
                duration_ms: *duration_ms,
                voice_url: clone_text(voice_url),
                aeskey: clone_text(aeskey),
            },
            MsgContent::Video {
                thumb_path,
                cdn_video_url,
                aeskey,
                length,
                play_length,
                width,
                height,
            } => MsgContent::Video {
                thumb_path: clone_text(thumb_path),
                cdn_video_url: clone_text(cdn_video_url),
                aeskey: clone_text(aeskey),
                length: *length,
                play_length: *play_length,
                width: *width,
                height: *height,
            },
            MsgContent::Emoji { url } => MsgContent::Emoji { url: clone_text(url) },
            MsgContent::App { title, desc, url, app_type } => MsgContent::App {
                title: clone_text(title),
                desc: clone_text(desc),
                url: clone_text(url),
                app_type: *app_type,
            },
            MsgContent::File { title, file_size, file_ext, md5 } => MsgContent::File {
                title: clone_text(title),
                file_size: *file_size,
                file_ext: clone_text(file_ext),
                md5: clone_text(md5),
            },
            MsgContent::ContactCard { nickname, username, avatar_url } => MsgContent::ContactCard {
                nickname: clone_text(nickname),
                username: clone_text(username),
                avatar_url: clone_text(avatar_url),
            },
            MsgContent::Location { x, y, scale, label, poiname } => MsgContent::Location {
                x: clone_text(x),
                y: clone_text(y),
                scale: *scale,
                label: clone_text(label),
                poiname: clone_text(poiname),
            },
            MsgContent::System { text } => MsgContent::System { text: text.clone() },
            MsgContent::Unknown { raw, msg_type } => MsgContent::Unknown {
                raw: raw.clone(),
                msg_type: *msg_type,
            },
        }
    }
}

// ---------------------------------------------------------------------------
// Reading fields
// ---------------------------------------------------------------------------

/// The value of attribute `name` on the first `tag` that has it.
pub open spec fn attr(events: Seq<crate::xml::XmlEventView>, tag: Seq<char>, name: Seq<char>) -> Option<
    Seq<char>,
> {
    crate::xml::attribute_in(events, encode_utf8(tag), encode_utf8(name))
}

/// The first character data inside a `tag`.
pub open spec fn inner_text(events: Seq<crate::xml::XmlEventView>, tag: Seq<char>) -> Option<
    Seq<char>,
> {
    crate::xml::text_in(events, encode_utf8(tag), false)
}

pub open spec fn first_of(a: Option<Seq<char>>, b: Option<Seq<char>>) -> Option<Seq<char>> {
    if a is Some {
        a
    } else {
        b
    }
}

pub open spec fn as_u64(text: Option<Seq<char>>) -> Option<u64> {
    match text {
        Some(t) => match crate::number::parsed_unsigned(t, u64::MAX as int) {
            Some(n) => Some(n as u64),
            None => None,
        },
        None => None,
    }
}

pub open spec fn as_u32(text: Option<Seq<char>>) -> Option<u32> {
    match text {
        Some(t) => match crate::number::parsed_unsigned(t, u32::MAX as int) {
            Some(n) => Some(n as u32),
            None => None,
        },
        None => None,
    }
}

pub open spec fn as_i32(text: Option<Seq<char>>) -> Option<i32> {
    match text {
        Some(t) => match crate::number::parsed_signed(t, i32::MIN as int, i32::MAX as int) {
            Some(n) => Some(n as i32),
            None => None,
        },
        None => None,
    }
}

pub open spec fn positive(n: Option<u32>) -> Option<u32> {
    match n {
        Some(v) => if v > 0 {
            n
        } else {
            None
        },
        None => None,
    }
}

fn either(a: Option<String>, b: Option<String>) -> (first: Option<String>)
    ensures
        crate::text::text_of(first) == first_of(crate::text::text_of(a), crate::text::text_of(b)),
{
    match a {
        Some(t) => Some(t),
        None => b,
    }
}

fn to_u64(text: &Option<String>) -> (value: Option<u64>)
    ensures
        value == as_u64(crate::text::text_of(*text)),
{
    match text {
        Some(t) => parse_u64(t.as_str()),
        None => None,
    }
}

fn to_u32(text: &Option<String>) -> (value: Option<u32>)
    ensures
        value == as_u32(crate::text::text_of(*text)),
{
    match text {
        Some(t) => parse_u32(t.as_str()),
        None => None,
    }
}

fn to_i32(text: &Option<String>) -> (value: Option<i32>)
    ensures
        value == as_i32(crate::text::text_of(*text)),
{
    match text {
        Some(t) => parse_i32(t.as_str()),
        None => None,
    }
}

fn if_positive(n: Option<u32>) -> (kept: Option<u32>)
    ensures
        kept == positive(n),
{
    match n {
        Some(v) => if v > 0 {
            Some(v)
        } else {
            None
        },
        None => None,
    }
}

// ---------------------------------------------------------------------------
// Parsing by type
// ---------------------------------------------------------------------------

/// An image: where it can be had, and its measures; the middle size goes before the
/// thumbnail's, and a measure of zero is none.
pub open spec fn image_content(events: Seq<crate::xml::XmlEventView>) -> ContentView {
    let img = "img"@;
    ContentView::Image {
        path: first_of(attr(events, img, "cdnmidimgurl"@), attr(events, img, "cdnbigimgurl"@)),
        md5: attr(events, img, "md5"@),
        length: as_u64(attr(events, img, "length"@)),
        width: positive(
            as_u32(
                first_of(attr(events, img, "cdnmidwidth"@), attr(events, img, "cdnthumbwidth"@)),
            ),
        ),
        height: positive(
            as_u32(
                first_of(attr(events, img, "cdnmidheight"@), attr(events, img, "cdnthumbheight"@)),
            ),
        ),
    }
}

pub fn image_from(events: &Vec<XmlEvent>) -> (content: MsgContent)
    ensures
        content@ == image_content(crate::xml::events_view(events@)),
{
    MsgContent::Image {
        path: either(
            first_attribute(events, "img", "cdnmidimgurl"),
            first_attribute(events, "img", "cdnbigimgurl"),
        ),
        md5: first_attribute(events, "img", "md5"),
        length: to_u64(&first_attribute(events, "img", "length")),
        width: if_positive(
            to_u32(
                &either(
                    first_attribute(events, "img", "cdnmidwidth"),
                    first_attribute(events, "img", "cdnthumbwidth"),
                ),
            ),
        ),
        height: if_positive(
            to_u32(
                &either(
                    first_attribute(events, "img", "cdnmidheight"),
                    first_attribute(events, "img", "cdnthumbheight"),
                ),
            ),
        ),
    }
}

/// Parses an image message.
pub fn parse_image(content: &str) -> (parsed: MsgContent)
    ensures
        parsed@ == image_content(crate::xml::document_events(content@)),
{
    image_from(&read_events(content))
}

/// A voice message: its duration, under any of its three names, and where it can be had.
pub open spec fn voice_content(events: Seq<crate::xml::XmlEventView>) -> ContentView {
    let tag = "voicemsg"@;
    ContentView::Voice {
        duration_ms: as_u32(
            first_of(
                first_of(attr(events, tag, "voicelength"@), attr(events, tag, "voicelen"@)),
                attr(events, tag, "length"@),
            ),
        ),
        voice_url: attr(events, tag, "voiceurl"@),
        aeskey: attr(events, tag, "aeskey"@),
    }
}

pub fn voice_from(events: &Vec<XmlEvent>) -> (content: MsgContent)
    ensures
        content@ == voice_content(crate::xml::events_view(events@)),
{
    MsgContent::Voice {
        duration_ms: to_u32(
            &either(
                either(
                    first_attribute(events, "voicemsg", "voicelength"),
                    first_attribute(events, "voicemsg", "voicelen"),
                ),
                first_attribute(events, "voicemsg", "length"),
            ),
        ),
        voice_url: first_attribute(events, "voicemsg", "voiceurl"),
        aeskey: first_attribute(events, "voicemsg", "aeskey"),
    }
}

/// Parses a voice message.
pub fn parse_voice(content: &str) -> (parsed: MsgContent)
    ensures
        parsed@ == voice_content(crate::xml::document_events(content@)),
{
    voice_from(&read_events(content))
}

/// A contact card: whose it is.
pub open spec fn contact_card_content(events: Seq<crate::xml::XmlEventView>) -> ContentView {
    ContentView::ContactCard {
        nickname: attr(events, "msg"@, "nickname"@),
        username: attr(events, "msg"@, "username"@),
        avatar_url: attr(events, "msg"@, "smallheadimgurl"@),
    }
}

pub fn contact_card_from(events: &Vec<XmlEvent>) -> (content: MsgContent)
    ensures
        content@ == contact_card_content(crate::xml::events_view(events@)),
{
    MsgContent::ContactCard {
        nickname: first_attribute(events, "msg", "nickname"),
        username: first_attribute(events, "msg", "username"),
        avatar_url: first_attribute(events, "msg", "smallheadimgurl"),
    }
}

/// Parses a contact card.
pub fn parse_contact_card(content: &str) -> (parsed: MsgContent)
    ensures
        parsed@ == contact_card_content(crate::xml::document_events(content@)),
{
    contact_card_from(&read_events(content))
}

/// A video: where it can be had, and its measures; a width or height of zero is none.
pub open spec fn video_content(events: Seq<crate::xml::XmlEventView>) -> ContentView {
    let tag = "videomsg"@;
    ContentView::Video {
        thumb_path: attr(events, tag, "cdnthumburl"@),
        cdn_video_url: attr(events, tag, "cdnvideourl"@),
        aeskey: attr(events, tag, "aeskey"@),
        length: as_u64(attr(events, tag, "length"@)),
        play_length: as_u32(attr(events, tag, "playlength"@)),
        width: positive(as_u32(attr(events, tag, "cdnthumbwidth"@))),
        height: positive(as_u32(attr(events, tag, "cdnthumbheight"@))),
    }
}

pub fn video_from(events: &Vec<XmlEvent>) -> (content: MsgContent)
    ensures
        content@ == video_content(crate::xml::events_view(events@)),
{
    MsgContent::Video {
        thumb_path: first_attribute(events, "videomsg", "cdnthumburl"),
        cdn_video_url: first_attribute(events, "videomsg", "cdnvideourl"),
        aeskey: first_attribute(events, "videomsg", "aeskey"),
        length: to_u64(&first_attribute(events, "videomsg", "length")),
        play_length: to_u32(&first_attribute(events, "videomsg", "playlength")),
        width: if_positive(to_u32(&first_attribute(events, "videomsg", "cdnthumbwidth"))),
        height: if_positive(to_u32(&first_attribute(events, "videomsg", "cdnthumbheight"))),
    }
}

/// Parses a video message.
pub fn parse_video(content: &str) -> (parsed: MsgContent)
    ensures
        parsed@ == video_content(crate::xml::document_events(content@)),
{
    video_from(&read_events(content))
}

/// A sticker: where it can be had.
pub open spec fn emoji_content(events: Seq<crate::xml::XmlEventView>) -> ContentView {
    ContentView::Emoji { url: attr(events, "emoji"@, "cdnurl"@) }
}

/// Parses a sticker.
pub fn parse_emoji(content: &str) -> (parsed: MsgContent)
    ensures
        parsed@ == emoji_content(crate::xml::document_events(content@)),
{
    MsgContent::Emoji { url: first_attribute(&read_events(content), "emoji", "cdnurl") }
}

/// A location: its coordinates as written, its scale and its names.
pub open spec fn location_content(events: Seq<crate::xml::XmlEventView>) -> ContentView {
    let tag = "location"@;
    ContentView::Location {
        x: attr(events, tag, "x"@),
        y: attr(events, tag, "y"@),
        scale: as_u32(attr(events, tag, "scale"@)),
        label: attr(events, tag, "label"@),
        poiname: attr(events, tag, "poiname"@),
    }
}

pub fn location_from(events: &Vec<XmlEvent>) -> (content: MsgContent)
    ensures
        content@ == location_content(crate::xml::events_view(events@)),
{
    MsgContent::Location {
        x: first_attribute(events, "location", "x"),
        y: first_attribute(events, "location", "y"),
        scale: to_u32(&first_attribute(events, "location", "scale")),
        label: first_attribute(events, "location", "label"),
        poiname: first_attribute(events, "location", "poiname"),
    }
}

/// Parses a location. Which of the coordinate texts are numbers is left to whoever shows
/// them.
pub fn parse_location(content: &str) -> (parsed: MsgContent)
    ensures
        parsed@ == location_content(crate::xml::document_events(content@)),
{
    location_from(&read_events(content))
}

/// Whether an `appmsg` is a file: its subtype says so (6, or 74 for newer transfers), or
/// it has an attachment with an extension and a length above zero. The length matters:
/// articles put parts of their title into `fileext`, with a length of zero.
pub open spec fn is_file_message(content: Seq<char>, events: Seq<crate::xml::XmlEventView>) -> bool {
    let app_type = as_i32(inner_text(events, "type"@));
    ||| app_type == Some(6i32)
    ||| app_type == Some(74i32)
    ||| {
        &&& crate::text::contains_text(content, "<appattach>"@)
        &&& crate::text::contains_text(content, "<fileext>"@)
        &&& match as_u64(inner_text(events, "totallen"@)) {
            Some(n) => n > 0,
            None => false,
        }
    }
}

/// A link, a mini program or a file.
pub open spec fn app_content(content: Seq<char>, events: Seq<crate::xml::XmlEventView>) -> ContentView {
    if is_file_message(content, events) {
        ContentView::File {
            title: inner_text(events, "title"@),
            file_size: as_u64(
                first_of(inner_text(events, "totallen"@), inner_text(events, "filesize"@)),
            ),
            file_ext: inner_text(events, "fileext"@),
            md5: inner_text(events, "md5"@),
        }
    } else {
        ContentView::App {
            title: inner_text(events, "title"@),
            desc: inner_text(events, "des"@),
            url: inner_text(events, "url"@),
            app_type: as_i32(inner_text(events, "type"@)),
        }
    }
}

pub fn app_from(content: &str, events: &Vec<XmlEvent>) -> (parsed: MsgContent)
    ensures
        parsed@ == app_content(content@, crate::xml::events_view(events@)),
{
    let title = first_text(events, "title");
    let app_type: Option<i32> = to_i32(&first_text(events, "type"));
    let known: bool = match app_type {
        Some(t) => t == 6 || t == 74,
        None => false,
    };
    let is_file: bool = known || (text_contains(content, "<appattach>") && text_contains(
        content,
        "<fileext>",
    ) && match to_u64(&first_text(events, "totallen")) {
        Some(n) => n > 0,
        None => false,
    });
    if is_file {
        MsgContent::File {
            title,
            file_size: to_u64(
                &either(first_text(events, "totallen"), first_text(events, "filesize")),
            ),
            file_ext: first_text(events, "fileext"),
            md5: first_text(events, "md5"),
        }
    } else {
        MsgContent::App {
            title,
            desc: first_text(events, "des"),
            url: first_text(events, "url"),
            app_type,
        }
    }
}

/// Parses a link, a mini program or a file.
pub fn parse_app(content: &str) -> (parsed: MsgContent)
    ensures
        parsed@ == app_content(content@, crate::xml::document_events(content@)),
{
    app_from(content, &read_events(content))
}

/// The type proper: the low sixteen bits. The bits above them are flags.
pub open spec fn base_type(msg_type: i64) -> int {
    msg_type as int % 0x10000
}

/// The content of a message of that type.
pub open spec fn parsed_content(msg_type: i64, content: Seq<char>) -> ContentView {
    let events = crate::xml::document_events(content);
    let kind = base_type(msg_type);
    if kind == 1 {
        ContentView::Text { text: content }
    } else if kind == 3 {
        image_content(events)
    } else if kind == 34 {
        voice_content(events)
    } else if kind == 42 {
        contact_card_content(events)
    } else if kind == 43 {
        video_content(events)
    } else if kind == 47 {
        emoji_content(events)
    } else if kind == 48 {
        location_content(events)
    } else if kind == 49 {
        app_content(content, events)
    } else if kind == 10000 || kind == 10002 {
        ContentView::System { text: content }
    } else {
        ContentView::Unknown { raw: content, msg_type }
    }
}

/// Parses a message body by the type of the message.
pub fn parse_msg_content(msg_type: i64, content: &str) -> (parsed: MsgContent)
    ensures
        parsed@ == parsed_content(msg_type, content@),
{
    let kind: i64 = msg_type & 0xffff;
    proof {
        assert(kind == msg_type % 0x10000) by (bit_vector)
            requires
                kind == msg_type & 0xffff,
        ;
    }
    if kind == 1 {
        MsgContent::Text { text: content.to_owned() }
    } else if kind == 3 {
        parse_image(content)
    } else if kind == 34 {
        parse_voice(content)
    } else if kind == 42 {
        parse_contact_card(content)
    } else if kind == 43 {
        parse_video(content)
    } else if kind == 47 {
        parse_emoji(content)
    } else if kind == 48 {
        parse_location(content)
    } else if kind == 49 {
        parse_app(content)
    } else if kind == 10000 || kind == 10002 {
        MsgContent::System { text: content.to_owned() }
    } else {
        MsgContent::Unknown { raw: content.to_owned(), msg_type }
    }
}

// ---------------------------------------------------------------------------
// Sizes in log lines
// ---------------------------------------------------------------------------

/// `n / d` rounded to the nearest integer, to the even one where two are as near.
pub open spec fn round_half_even(n: nat, d: nat) -> nat {
    let quotient = n / d;
    let twice = 2 * (n % d);
    if twice > d || (twice == d && quotient % 2 == 1) {
        quotient + 1
    } else {
        quotient
    }
}

/// The distance between neighbouring double-precision numbers at `n`.
pub open spec fn double_spacing(n: nat) -> nat
    decreases n,
{
    if n < 0x20_0000_0000_0000 {
        1
    } else {
        2 * double_spacing(n / 2)
    }
}

/// `n` as the nearest double-precision number.
pub open spec fn nearest_double(n: nat) -> nat {
    round_half_even(n, double_spacing(n)) * double_spacing(n)
}

/// A number of tenths, with one decimal.
pub open spec fn one_decimal(tenths: nat) -> Seq<char> {
    crate::number::digits(tenths / 10) + "."@ + crate::number::digits(tenths % 10)
}

/// A file size in megabytes, kilobytes or bytes. Megabytes and kilobytes have one
/// decimal, rounded from the size as a double-precision number.
pub open spec fn size_text(size: u64) -> Seq<char> {
    let double = nearest_double(size as nat);
    if size >= 0x10_0000 {
        one_decimal(round_half_even(10 * double, 0x10_0000)) + "MB"@
    } else if size >= 0x400 {
        one_decimal(round_half_even(10 * double, 0x400)) + "KB"@
    } else {
        crate::number::digits(size as nat) + "B"@
    }
}

fn rounded(n: u128, d: u128) -> (q: u128)
    requires
        0 < d <= 0x10_0000,
        n <= 0xffff_ffff_ffff_ffff_ffff,
    ensures
        q == round_half_even(n as nat, d as nat),
        q <= n / d + 1,
{
    let quotient: u128 = n / d;
    let twice: u128 = 2 * (n % d);
    if twice > d || (twice == d && quotient % 2 == 1) {
        quotient + 1
    } else {
        quotient
    }
}

proof fn lemma_double_spacing(n: nat, unit: nat)
    requires
        unit == double_spacing(n),
        n < 0x1_0000_0000_0000_0000,
    ensures
        1 <= unit <= 0x800,
{
    reveal_with_fuel(double_spacing, 13);
    assert(n / 2 / 2 == n / 4);
    assert(n / 4 / 2 == n / 8);
    assert(n / 8 / 2 == n / 16);
    assert(n / 16 / 2 == n / 32);
    assert(n / 32 / 2 == n / 64);
    assert(n / 64 / 2 == n / 128);
    assert(n / 128 / 2 == n / 256);
    assert(n / 256 / 2 == n / 512);
    assert(n / 512 / 2 == n / 1024);
    assert(n / 1024 / 2 == n / 2048);
}

fn spacing(n: u64) -> (unit: u64)
    ensures
        unit == double_spacing(n as nat),
        1 <= unit <= 0x800,
    decreases n,
{
    proof {
        lemma_double_spacing(n as nat, double_spacing(n as nat));
    }
    if n < 0x20_0000_0000_0000 {
        1
    } else {
        let half: u64 = spacing(n / 2);
        2 * half
    }
}

fn push_one_decimal(text: &mut String, tenths: u64)
    ensures
        final(text)@ == old(text)@ + one_decimal(tenths as nat),
{
    let ghost before = text@;
    push_u64(text, tenths / 10);
    text.append(".");
    push_u64(text, tenths % 10);
    proof {
        assert(text@ =~= before + one_decimal(tenths as nat));
    }
}

fn push_size(text: &mut String, size: u64)
    ensures
        final(text)@ == old(text)@ + size_text(size),
{
    let ghost before = text@;
    if size < 0x400 {
        push_u64(text, size);
        text.append("B");
        proof {
            assert(text@ =~= before + size_text(size));
        }
        return ;
    }
    let unit: u128 = spacing(size) as u128;
    let steps: u128 = rounded(size as u128, unit);
    proof {
        assert(size as u128 / unit <= size) by (nonlinear_arith)
            requires
                unit >= 1,
        ;
        assert(steps * unit <= size + unit) by (nonlinear_arith)
            requires
                steps <= size as u128 / unit + 1,
                unit >= 1,
        ;
    }
    let double: u128 = steps * unit;
    if size >= 0x10_0000 {
        let tenths: u64 = rounded(10 * double, 0x10_0000) as u64;
        push_one_decimal(text, tenths);
        text.append("MB");
    } else {
        let tenths: u64 = rounded(10 * double, 0x400) as u64;
        push_one_decimal(text, tenths);
        text.append("KB");
    }
    proof {
        assert(text@ =~= before + size_text(size));
    }
}

// ---------------------------------------------------------------------------
// Log lines
// ---------------------------------------------------------------------------

/// The word for the kind of content.
pub open spec fn label(content: ContentView) -> Seq<char> {
    match content {
        ContentView::Text { .. } => "文本"@,
        ContentView::Image { .. } => "图片"@,
        ContentView::Voice { .. } => "语音"@,
        ContentView::Video { .. } => "视频"@,
        ContentView::Emoji { .. } => "表情"@,
        ContentView::App { .. } => "链接"@,
        ContentView::File { .. } => "文件"@,
        ContentView::ContactCard { .. } => "名片"@,
        ContentView::Location { .. } => "位置"@,
        ContentView::System { .. } => "系统"@,
        ContentView::Unknown { .. } => "未知"@,
    }
}

/// The word for a link by its subtype.
pub open spec fn app_label(app_type: Option<i32>) -> Seq<char> {
    match app_type {
        Some(3) => "音乐"@,
        Some(19) => "转发"@,
        Some(33) => "小程序"@,
        Some(36) => "小程序"@,
        Some(2000) => "转账"@,
        Some(2001) => "红包"@,
        _ => "链接"@,
    }
}

pub open spec fn or_text(text: Option<Seq<char>>, other: Seq<char>) -> Seq<char> {
    match text {
        Some(t) => t,
        None => other,
    }
}

/// The content in one line; `coordinates` is how the place of a location is shown.
pub open spec fn line(content: ContentView, coordinates: Option<Seq<char>>) -> Seq<char> {
    match content {
        ContentView::Text { text } => text,
        ContentView::Image { .. } => "[图片]"@,
        ContentView::Voice { duration_ms, .. } => match duration_ms {
            Some(ms) => if ms >= 1000 {
                "[语音 "@ + crate::number::digits((ms / 1000) as nat) + "s]"@
            } else if ms > 0 {
                "[语音 "@ + crate::number::digits(ms as nat) + "ms]"@
            } else {
                "[语音]"@
            },
            None => "[语音]"@,
        },
        ContentView::Video { .. } => "[视频]"@,
        ContentView::Emoji { url } => "[表情] "@ + or_text(url, ""@),
        ContentView::App { title, desc, app_type, .. } => {
            let head = "["@ + app_label(app_type) + "]"@;
            if or_text(title, ""@).len() > 0 {
                head + " "@ + or_text(title, ""@)
            } else if or_text(desc, ""@).len() > 0 {
                head + " "@ + or_text(desc, ""@)
            } else {
                head
            }
        },
        ContentView::File { title, file_size, .. } => {
            let head = "[文件] "@ + or_text(title, "未知文件"@);
            match file_size {
                Some(size) => head + " ("@ + size_text(size) + ")"@,
                None => head,
            }
        },
        ContentView::ContactCard { nickname, username, .. } => "[名片] "@ + or_text(
            first_of(nickname, username),
            "未知"@,
        ),
        ContentView::Location { poiname, label, .. } => {
            let head = "[位置] "@ + or_text(first_of(poiname, label), "未知位置"@);
            match coordinates {
                Some(c) => head + " ("@ + c + ")"@,
                None => head,
            }
        },
        ContentView::System { text } => "[系统] "@ + text,
        ContentView::Unknown { msg_type, .. } => "[type="@ + crate::number::decimal(msg_type as int)
            + "]"@,
    }
}

/// At most `max_len` bytes of `text`, with three dots where something was cut off.
pub open spec fn shortened(text: Seq<char>, max_len: nat) -> Seq<char> {
    if crate::text::byte_len(text) > max_len {
        crate::text::byte_prefix(text, max_len) + "..."@
    } else {
        text
    }
}

fn text_or<'a>(text: &'a Option<String>, other: &'a str) -> (value: &'a str)
    ensures
        value@ == or_text(crate::text::text_of(*text), other@),
{
    match text {
        Some(t) => t.as_str(),
        None => other,
    }
}

fn shorten(text: String, max_len: usize) -> (short: String)
    ensures
        short@ == shortened(text@, max_len as nat),
{
    if text_len(text.as_str()) > max_len {
        cut_to_bytes(text.as_str(), max_len).concat("...")
    } else {
        text
    }
}

fn app_word(app_type: Option<i32>) -> (word: &'static str)
    ensures
        word@ == app_label(app_type),
{
    match app_type {
        Some(t) => if t == 3 {
            "音乐"
        } else if t == 19 {
            "转发"
        } else if t == 33 || t == 36 {
            "小程序"
        } else if t == 2000 {
            "转账"
        } else if t == 2001 {
            "红包"
        } else {
            "链接"
        },
        None => "链接",
    }
}

impl MsgContent {
    /// A word for the kind of content, for log lines.
    pub fn type_label(&self) -> (word: &'static str)
        ensures
            word@ == label(self@),
    {
        match self {
            MsgContent::Text { .. } => "文本",
            MsgContent::Image { .. } => "图片",
            MsgContent::Voice { .. } => "语音",
            MsgContent::Video { .. } => "视频",
            MsgContent::Emoji { .. } => "表情",
            MsgContent::App { .. } => "链接",
            MsgContent::File { .. } => "文件",
            MsgContent::ContactCard { .. } => "名片",
            MsgContent::Location { .. } => "位置",
            MsgContent::System { .. } => "系统",
            MsgContent::Unknown { .. } => "未知",
        }
    }

    /// The content in one line, uncut.
    pub fn line_text(&self, coordinates: Option<&str>) -> (text: String)
        ensures
            text@ == line(
                self@,
                match coordinates {
                    Some(c) => Some(c@),
                    None => None,
                },
            ),
    {
        match self {
            MsgContent::Text { text } => text.clone(),
            MsgContent::Image { .. } => "[图片]".to_owned(),
            MsgContent::Voice { duration_ms, .. } => match duration_ms {
                Some(ms) => {
                    let ms: u32 = *ms;
                    if ms >= 1000 {
                        let mut text = "[语音 ".to_owned();
                        push_u64(&mut text, (ms / 1000) as u64);
                        text.concat("s]")
                    } else if ms > 0 {
                        let mut text = "[语音 ".to_owned();
                        push_u64(&mut text, ms as u64);
                        text.concat("ms]")
                    } else {
                        "[语音]".to_owned()
                    }
                },
                None => "[语音]".to_owned(),
            },
            MsgContent::Video { .. } => "[视频]".to_owned(),
            MsgContent::Emoji { url } => "[表情] ".to_owned().concat(text_or(url, "")),
            MsgContent::App { title, desc, app_type, .. } => {
                let head = "[".to_owned().concat(app_word(*app_type)).concat("]");
                let t = text_or(title, "");
                let d = text_or(desc, "");
                if !t.is_empty() {
                    head.concat(" ").concat(t)
                } else if !d.is_empty() {
                    head.concat(" ").concat(d)
                } else {
                    head
                }
            },
            MsgContent::File { title, file_size, .. } => {
                let head = "[文件] ".to_owned().concat(text_or(title, "未知文件"));
                match file_size {
                    Some(size) => {
                        let mut text = head.concat(" (");
                        push_size(&mut text, *size);
                        text.concat(")")
                    },
                    None => head,
                }
            },
            MsgContent::ContactCard { nickname, username, .. } => {
                let name = match nickname {
                    Some(n) => n.as_str(),
                    None => text_or(username, "未知"),
                };
                "[名片] ".to_owned().concat(name)
            },
            MsgContent::Location { poiname, label, .. } => {
                let name = match poiname {
                    Some(n) => n.as_str(),
                    None => text_or(label, "未知位置"),
                };
                let head = "[位置] ".to_owned().concat(name);
                match coordinates {
                    Some(c) => head.concat(" (").concat(c).concat(")"),
                    None => head,
                }
            },
            MsgContent::System { text } => "[系统] ".to_owned().concat(text.as_str()),
            MsgContent::Unknown { msg_type, .. } => {
                let mut text = "[type=".to_owned();
                push_i64(&mut text, *msg_type);
                text.concat("]")
            },
        }
    }

    /// The content in one line of at most `max_len` bytes, for logs. `coordinates` is how
    /// the place of a location is shown, where both its coordinates are numbers.
    pub fn preview(&self, max_len: usize, coordinates: Option<&str>) -> (text: String)
        ensures
            text@ == shortened(
                line(
                    self@,
                    match coordinates {
                        Some(c) => Some(c@),
                        None => None,
                    },
                ),
                max_len as nat,
            ),
    {
        shorten(self.line_text(coordinates), max_len)
    }
}

/// A preview takes at most `max_len` bytes and three dots, and nothing is cut from a line
/// that fits.
pub proof fn preview_is_bounded(text: Seq<char>, max_len: nat)
    ensures
        crate::text::byte_len(shortened(text, max_len)) <= max_len + 3,
        crate::text::byte_len(text) <= max_len ==> shortened(text, max_len) == text,
{
    crate::text::lemma_byte_prefix_fits(text, max_len);
    if crate::text::byte_len(text) > max_len {
        let cut = crate::text::byte_prefix(text, max_len);
        crate::text::lemma_encode_concat(cut, "..."@);
        reveal_strlit("...");
        crate::text::lemma_byte_len_push(seq![], '.');
        crate::text::lemma_byte_len_push(seq!['.'], '.');
        crate::text::lemma_byte_len_push(seq!['.', '.'], '.');
        assert("..."@ =~= seq!['.', '.', '.']);
        assert(seq!['.', '.'].push('.') =~= seq!['.', '.', '.']);
        assert(seq!['.'].push('.') =~= seq!['.', '.']);
        assert(Seq::<char>::empty().push('.') =~= seq!['.']);
    }
}

// ---------------------------------------------------------------------------
// What is read out of a message
// ---------------------------------------------------------------------------

proof fn lemma_digits_fit(n: nat, max: int)
    requires
        n <= max,
    ensures
        crate::number::parsed_unsigned(crate::number::digits(n), max) == Some(n as int),
        max == i32::MAX ==> crate::number::parsed_signed(
            crate::number::digits(n),
            i32::MIN as int,
            i32::MAX as int,
        ) == Some(n as int),
{
    crate::number::digits_read_back(n);
    crate::number::decimal_reads_back(n as int);
}

/// The duration of a voice message is what `voicelength` says, whatever its other attributes
/// are; `voicelen` counts only where there is no `voicelength`, and `length` only where
/// there is neither. What is no number is no duration. The address and the key are each
/// read from their own attribute.
pub proof fn voice_messages_are_read(events: Seq<crate::xml::XmlEventView>, text: Seq<char>, n: u32)
    ensures
        ({
            let c = voice_content(events);
            &&& c is Voice
            &&& crate::xml::writes(
                    events,
                    "voicemsg"@,
                    "voicelength"@,
                    crate::number::digits(n as nat),
                )
                ==> c->Voice_duration_ms == Some(n)
            &&& crate::xml::writes(events, "voicemsg"@, "voicelength"@, text)
                && crate::number::unsigned_value(text) is None ==> c->Voice_duration_ms is None
            &&& crate::xml::lacks(events, "voicemsg"@, "voicelength"@)
                && crate::xml::writes(
                    events,
                    "voicemsg"@,
                    "voicelen"@,
                    crate::number::digits(n as nat),
                )
                ==> c->Voice_duration_ms == Some(n)
            &&& crate::xml::lacks(events, "voicemsg"@, "voicelength"@)
                && crate::xml::writes(events, "voicemsg"@, "voicelen"@, text)
                && crate::number::unsigned_value(text) is None ==> c->Voice_duration_ms is None
            &&& crate::xml::lacks(events, "voicemsg"@, "voicelength"@)
                && crate::xml::lacks(events, "voicemsg"@, "voicelen"@)
                && crate::xml::writes(
                    events,
                    "voicemsg"@,
                    "length"@,
                    crate::number::digits(n as nat),
                )
                ==> c->Voice_duration_ms == Some(n)
            &&& crate::xml::lacks(events, "voicemsg"@, "voicelength"@)
                && crate::xml::lacks(events, "voicemsg"@, "voicelen"@)
                && crate::xml::writes(events, "voicemsg"@, "length"@, text)
                && crate::number::unsigned_value(text) is None ==> c->Voice_duration_ms is None
            &&& crate::xml::lacks(events, "voicemsg"@, "voicelength"@)
                && crate::xml::lacks(events, "voicemsg"@, "voicelen"@)
                && crate::xml::lacks(events, "voicemsg"@, "length"@)
                ==> c->Voice_duration_ms is None
            &&& crate::xml::writes(events, "voicemsg"@, "voiceurl"@, text)
                ==> c->Voice_voice_url == Some(text)
            &&& crate::xml::lacks(events, "voicemsg"@, "voiceurl"@) ==> c->Voice_voice_url is None
            &&& crate::xml::writes(events, "voicemsg"@, "aeskey"@, text)
                ==> c->Voice_aeskey == Some(text)
            &&& crate::xml::lacks(events, "voicemsg"@, "aeskey"@) ==> c->Voice_aeskey is None
        }),
{
    lemma_digits_fit(n as nat, u32::MAX as int);
    crate::xml::attributes_are_read_as_written(
        events,
        "voicemsg"@,
        "voicelength"@,
        crate::number::digits(n as nat),
    );
    crate::xml::attributes_are_read_as_written(events, "voicemsg"@, "voicelength"@, text);
    crate::xml::attributes_are_read_as_written(
        events,
        "voicemsg"@,
        "voicelen"@,
        crate::number::digits(n as nat),
    );
    crate::xml::attributes_are_read_as_written(events, "voicemsg"@, "voicelen"@, text);
    crate::xml::attributes_are_read_as_written(
        events,
        "voicemsg"@,
        "length"@,
        crate::number::digits(n as nat),
    );
    crate::xml::attributes_are_read_as_written(events, "voicemsg"@, "length"@, text);
    crate::xml::attributes_are_read_as_written(events, "voicemsg"@, "voiceurl"@, text);
    crate::xml::attributes_are_read_as_written(events, "voicemsg"@, "aeskey"@, text);
}

/// The address of an image is that of the middle size, and that of the big one only where
/// there is none; its width and its height are those of the middle size, and those of the
/// thumbnail only where there are none, and zero is none. Its digest and its length are each
/// read from their own attribute.
pub proof fn images_are_read(
    events: Seq<crate::xml::XmlEventView>,
    text: Seq<char>,
    n: u32,
    length: u64,
)
    ensures
        ({
            let c = image_content(events);
            &&& c is Image
            &&& crate::xml::writes(events, "img"@, "cdnmidimgurl"@, text)
                ==> c->Image_path == Some(text)
            &&& crate::xml::lacks(events, "img"@, "cdnmidimgurl"@)
                && crate::xml::writes(events, "img"@, "cdnbigimgurl"@, text)
                ==> c->Image_path == Some(text)
            &&& crate::xml::lacks(events, "img"@, "cdnmidimgurl"@)
                && crate::xml::lacks(events, "img"@, "cdnbigimgurl"@) ==> c->Image_path is None
            &&& crate::xml::writes(events, "img"@, "md5"@, text) ==> c->Image_md5 == Some(text)
            &&& crate::xml::lacks(events, "img"@, "md5"@) ==> c->Image_md5 is None
            &&& crate::xml::writes(events, "img"@, "cdnmidwidth"@, crate::number::digits(n as nat))
                ==> c->Image_width == (if n > 0 { Some(n) } else { None })
            &&& crate::xml::writes(events, "img"@, "cdnmidwidth"@, text)
                && crate::number::unsigned_value(text) is None ==> c->Image_width is None
            &&& crate::xml::lacks(events, "img"@, "cdnmidwidth"@)
                && crate::xml::writes(
                    events,
                    "img"@,
                    "cdnthumbwidth"@,
                    crate::number::digits(n as nat),
                )
                ==> c->Image_width == (if n > 0 { Some(n) } else { None })
            &&& crate::xml::lacks(events, "img"@, "cdnmidwidth"@)
                && crate::xml::writes(events, "img"@, "cdnthumbwidth"@, text)
                && crate::number::unsigned_value(text) is None ==> c->Image_width is None
            &&& crate::xml::lacks(events, "img"@, "cdnmidwidth"@)
                && crate::xml::lacks(events, "img"@, "cdnthumbwidth"@) ==> c->Image_width is None
            &&& crate::xml::writes(events, "img"@, "cdnmidheight"@, crate::number::digits(n as nat))
                ==> c->Image_height == (if n > 0 { Some(n) } else { None })
            &&& crate::xml::writes(events, "img"@, "cdnmidheight"@, text)
                && crate::number::unsigned_value(text) is None ==> c->Image_height is None
            &&& crate::xml::lacks(events, "img"@, "cdnmidheight"@)
                && crate::xml::writes(
                    events,
                    "img"@,
                    "cdnthumbheight"@,
                    crate::number::digits(n as nat),
                )
                ==> c->Image_height == (if n > 0 { Some(n) } else { None })
            &&& crate::xml::lacks(events, "img"@, "cdnmidheight"@)
                && crate::xml::writes(events, "img"@, "cdnthumbheight"@, text)
                && crate::number::unsigned_value(text) is None ==> c->Image_height is None
            &&& crate::xml::lacks(events, "img"@, "cdnmidheight"@)
                && crate::xml::lacks(events, "img"@, "cdnthumbheight"@) ==> c->Image_height is None
            &&& crate::xml::writes(events, "img"@, "length"@, crate::number::digits(length as nat))
                ==> c->Image_length == Some(length)
            &&& crate::xml::writes(events, "img"@, "length"@, text)
                && crate::number::unsigned_value(text) is None ==> c->Image_length is None
            &&& crate::xml::lacks(events, "img"@, "length"@) ==> c->Image_length is None
        }),
{
    lemma_digits_fit(n as nat, u32::MAX as int);
    lemma_digits_fit(length as nat, u64::MAX as int);
    crate::xml::attributes_are_read_as_written(events, "img"@, "cdnmidimgurl"@, text);
    crate::xml::attributes_are_read_as_written(events, "img"@, "cdnbigimgurl"@, text);
    crate::xml::attributes_are_read_as_written(events, "img"@, "md5"@, text);
    crate::xml::attributes_are_read_as_written(
        events,
        "img"@,
        "cdnmidwidth"@,
        crate::number::digits(n as nat),
    );
    crate::xml::attributes_are_read_as_written(events, "img"@, "cdnmidwidth"@, text);
    crate::xml::attributes_are_read_as_written(
        events,
        "img"@,
        "cdnthumbwidth"@,
        crate::number::digits(n as nat),
    );
    crate::xml::attributes_are_read_as_written(events, "img"@, "cdnthumbwidth"@, text);
    crate::xml::attributes_are_read_as_written(
        events,
        "img"@,
        "cdnmidheight"@,
        crate::number::digits(n as nat),
    );
    crate::xml::attributes_are_read_as_written(events, "img"@, "cdnmidheight"@, text);
    crate::xml::attributes_are_read_as_written(
        events,
        "img"@,
        "cdnthumbheight"@,
        crate::number::digits(n as nat),
    );
    crate::xml::attributes_are_read_as_written(events, "img"@, "cdnthumbheight"@, text);
    crate::xml::attributes_are_read_as_written(
        events,
        "img"@,
        "length"@,
        crate::number::digits(length as nat),
    );
    crate::xml::attributes_are_read_as_written(events, "img"@, "length"@, text);
}

/// Each field of a video is read from its own attribute; a width or a height of zero is
/// none.
pub proof fn videos_are_read(
    events: Seq<crate::xml::XmlEventView>,
    text: Seq<char>,
    n: u32,
    length: u64,
)
    ensures
        ({
            let c = video_content(events);
            &&& c is Video
            &&& crate::xml::writes(events, "videomsg"@, "cdnthumburl"@, text)
                ==> c->Video_thumb_path == Some(text)
            &&& crate::xml::lacks(events, "videomsg"@, "cdnthumburl"@)
                ==> c->Video_thumb_path is None
            &&& crate::xml::writes(events, "videomsg"@, "cdnvideourl"@, text)
                ==> c->Video_cdn_video_url == Some(text)
            &&& crate::xml::lacks(events, "videomsg"@, "cdnvideourl"@)
                ==> c->Video_cdn_video_url is None
            &&& crate::xml::writes(events, "videomsg"@, "aeskey"@, text)
                ==> c->Video_aeskey == Some(text)
            &&& crate::xml::lacks(events, "videomsg"@, "aeskey"@) ==> c->Video_aeskey is None
            &&& crate::xml::writes(
                    events,
                    "videomsg"@,
                    "playlength"@,
                    crate::number::digits(n as nat),
                )
                ==> c->Video_play_length == Some(n)
            &&& crate::xml::writes(events, "videomsg"@, "playlength"@, text)
                && crate::number::unsigned_value(text) is None ==> c->Video_play_length is None
            &&& crate::xml::lacks(events, "videomsg"@, "playlength"@)
                ==> c->Video_play_length is None
            &&& crate::xml::writes(
                    events,
                    "videomsg"@,
                    "cdnthumbwidth"@,
                    crate::number::digits(n as nat),
                )
                ==> c->Video_width == (if n > 0 { Some(n) } else { None })
            &&& crate::xml::writes(events, "videomsg"@, "cdnthumbwidth"@, text)
                && crate::number::unsigned_value(text) is None ==> c->Video_width is None
            &&& crate::xml::lacks(events, "videomsg"@, "cdnthumbwidth"@) ==> c->Video_width is None
            &&& crate::xml::writes(
                    events,
                    "videomsg"@,
                    "cdnthumbheight"@,
                    crate::number::digits(n as nat),
                )
                ==> c->Video_height == (if n > 0 { Some(n) } else { None })
            &&& crate::xml::writes(events, "videomsg"@, "cdnthumbheight"@, text)
                && crate::number::unsigned_value(text) is None ==> c->Video_height is None
            &&& crate::xml::lacks(events, "videomsg"@, "cdnthumbheight"@)
                ==> c->Video_height is None
            &&& crate::xml::writes(
                    events,
                    "videomsg"@,
                    "length"@,
                    crate::number::digits(length as nat),
                )
                ==> c->Video_length == Some(length)
            &&& crate::xml::writes(events, "videomsg"@, "length"@, text)
                && crate::number::unsigned_value(text) is None ==> c->Video_length is None
            &&& crate::xml::lacks(events, "videomsg"@, "length"@) ==> c->Video_length is None
        }),
{
    lemma_digits_fit(n as nat, u32::MAX as int);
    lemma_digits_fit(length as nat, u64::MAX as int);
    crate::xml::attributes_are_read_as_written(events, "videomsg"@, "cdnthumburl"@, text);
    crate::xml::attributes_are_read_as_written(events, "videomsg"@, "cdnvideourl"@, text);
    crate::xml::attributes_are_read_as_written(events, "videomsg"@, "aeskey"@, text);
    crate::xml::attributes_are_read_as_written(
        events,
        "videomsg"@,
        "playlength"@,
        crate::number::digits(n as nat),
    );
    crate::xml::attributes_are_read_as_written(events, "videomsg"@, "playlength"@, text);
    crate::xml::attributes_are_read_as_written(
        events,
        "videomsg"@,
        "cdnthumbwidth"@,
        crate::number::digits(n as nat),
    );
    crate::xml::attributes_are_read_as_written(events, "videomsg"@, "cdnthumbwidth"@, text);
    crate::xml::attributes_are_read_as_written(
        events,
        "videomsg"@,
        "cdnthumbheight"@,
        crate::number::digits(n as nat),
    );
    crate::xml::attributes_are_read_as_written(events, "videomsg"@, "cdnthumbheight"@, text);
    crate::xml::attributes_are_read_as_written(
        events,
        "videomsg"@,
        "length"@,
        crate::number::digits(length as nat),
    );
    crate::xml::attributes_are_read_as_written(events, "videomsg"@, "length"@, text);
}

/// Each field of a contact card is read from its own attribute.
pub proof fn contact_cards_are_read(events: Seq<crate::xml::XmlEventView>, text: Seq<char>)
    ensures
        ({
            let c = contact_card_content(events);
            &&& c is ContactCard
            &&& crate::xml::writes(events, "msg"@, "nickname"@, text)
                ==> c->ContactCard_nickname == Some(text)
            &&& crate::xml::lacks(events, "msg"@, "nickname"@) ==> c->ContactCard_nickname is None
            &&& crate::xml::writes(events, "msg"@, "username"@, text)
                ==> c->ContactCard_username == Some(text)
            &&& crate::xml::lacks(events, "msg"@, "username"@) ==> c->ContactCard_username is None
            &&& crate::xml::writes(events, "msg"@, "smallheadimgurl"@, text)
                ==> c->ContactCard_avatar_url == Some(text)
            &&& crate::xml::lacks(events, "msg"@, "smallheadimgurl"@)
                ==> c->ContactCard_avatar_url is None
        }),
{
    crate::xml::attributes_are_read_as_written(events, "msg"@, "nickname"@, text);
    crate::xml::attributes_are_read_as_written(events, "msg"@, "username"@, text);
    crate::xml::attributes_are_read_as_written(events, "msg"@, "smallheadimgurl"@, text);
}

/// The address of a sticker is read from its attribute.
pub proof fn stickers_are_read(events: Seq<crate::xml::XmlEventView>, text: Seq<char>)
    ensures
        ({
            let c = emoji_content(events);
            &&& c is Emoji
            &&& crate::xml::writes(events, "emoji"@, "cdnurl"@, text) ==> c->Emoji_url == Some(text)
            &&& crate::xml::lacks(events, "emoji"@, "cdnurl"@) ==> c->Emoji_url is None
        }),
{
    crate::xml::attributes_are_read_as_written(events, "emoji"@, "cdnurl"@, text);
}

/// Each field of a location is read from its own attribute.
pub proof fn locations_are_read(events: Seq<crate::xml::XmlEventView>, text: Seq<char>, n: u32)
    ensures
        ({
            let c = location_content(events);
            &&& c is Location
            &&& crate::xml::writes(events, "location"@, "x"@, text) ==> c->Location_x == Some(text)
            &&& crate::xml::lacks(events, "location"@, "x"@) ==> c->Location_x is None
            &&& crate::xml::writes(events, "location"@, "y"@, text) ==> c->Location_y == Some(text)
            &&& crate::xml::lacks(events, "location"@, "y"@) ==> c->Location_y is None
            &&& crate::xml::writes(events, "location"@, "scale"@, crate::number::digits(n as nat))
                ==> c->Location_scale == Some(n)
            &&& crate::xml::writes(events, "location"@, "scale"@, text)
                && crate::number::unsigned_value(text) is None ==> c->Location_scale is None
            &&& crate::xml::lacks(events, "location"@, "scale"@) ==> c->Location_scale is None
            &&& crate::xml::writes(events, "location"@, "label"@, text)
                ==> c->Location_label == Some(text)
            &&& crate::xml::lacks(events, "location"@, "label"@) ==> c->Location_label is None
            &&& crate::xml::writes(events, "location"@, "poiname"@, text)
                ==> c->Location_poiname == Some(text)
            &&& crate::xml::lacks(events, "location"@, "poiname"@) ==> c->Location_poiname is None
        }),
{
    lemma_digits_fit(n as nat, u32::MAX as int);
    crate::xml::attributes_are_read_as_written(events, "location"@, "x"@, text);
    crate::xml::attributes_are_read_as_written(events, "location"@, "y"@, text);
    crate::xml::attributes_are_read_as_written(
        events,
        "location"@,
        "scale"@,
        crate::number::digits(n as nat),
    );
    crate::xml::attributes_are_read_as_written(events, "location"@, "scale"@, text);
    crate::xml::attributes_are_read_as_written(events, "location"@, "label"@, text);
    crate::xml::attributes_are_read_as_written(events, "location"@, "poiname"@, text);
}

/// An `appmsg` is a file where its subtype is one of the two for files, or where it has an
/// attachment with an extension and a length above zero; a link or a mini program where its
/// subtype is another and it has no such attachment. The size of a file is its total length,
/// and `filesize` counts only where there is none. Its name, its extension and its digest,
/// and the title, the description and the address of a link, are each read from their own
/// tag.
pub proof fn links_and_files_are_read(
    content: Seq<char>,
    events: Seq<crate::xml::XmlEventView>,
    text: Seq<char>,
    n: u64,
    kind: u16,
)
    ensures
        ({
            let c = app_content(content, events);
            &&& c is File || c is App
            &&& crate::xml::writes_text(events, "type"@, crate::number::digits(6))
                || crate::xml::writes_text(events, "type"@, crate::number::digits(74))
                ==> c is File
            &&& crate::text::contains_text(content, "<appattach>"@)
                && crate::text::contains_text(content, "<fileext>"@)
                && crate::xml::writes_text(events, "totallen"@, crate::number::digits(n as nat))
                && n > 0 ==> c is File
            &&& crate::xml::writes_text(events, "type"@, crate::number::digits(kind as nat))
                && kind != 6 && kind != 74
                && (crate::xml::lacks_text(events, "totallen"@)
                    || crate::xml::writes_text(events, "totallen"@, crate::number::digits(0))
                    || !crate::text::contains_text(content, "<appattach>"@)
                    || !crate::text::contains_text(content, "<fileext>"@))
                ==> c is App && c->App_app_type == Some(kind as i32)
            &&& crate::xml::lacks_text(events, "type"@)
                && (crate::xml::lacks_text(events, "totallen"@)
                    || crate::xml::writes_text(events, "totallen"@, crate::number::digits(0))
                    || !crate::text::contains_text(content, "<appattach>"@)
                    || !crate::text::contains_text(content, "<fileext>"@))
                ==> c is App && c->App_app_type is None
            &&& c is File
                && crate::xml::writes_text(events, "totallen"@, crate::number::digits(n as nat))
                ==> c->File_file_size == Some(n)
            &&& c is File && crate::xml::lacks_text(events, "totallen"@)
                && crate::xml::writes_text(events, "filesize"@, crate::number::digits(n as nat))
                ==> c->File_file_size == Some(n)
            &&& c is File && crate::xml::lacks_text(events, "totallen"@)
                && crate::xml::lacks_text(events, "filesize"@) ==> c->File_file_size is None
            &&& c is File && crate::xml::writes_text(events, "title"@, text)
                ==> c->File_title == Some(text)
            &&& c is File && crate::xml::lacks_text(events, "title"@) ==> c->File_title is None
            &&& c is File && crate::xml::writes_text(events, "fileext"@, text)
                ==> c->File_file_ext == Some(text)
            &&& c is File && crate::xml::lacks_text(events, "fileext"@) ==> c->File_file_ext is None
            &&& c is File && crate::xml::writes_text(events, "md5"@, text)
                ==> c->File_md5 == Some(text)
            &&& c is File && crate::xml::lacks_text(events, "md5"@) ==> c->File_md5 is None
            &&& c is App && crate::xml::writes_text(events, "title"@, text)
                ==> c->App_title == Some(text)
            &&& c is App && crate::xml::lacks_text(events, "title"@) ==> c->App_title is None
            &&& c is App && crate::xml::writes_text(events, "des"@, text)
                ==> c->App_desc == Some(text)
            &&& c is App && crate::xml::lacks_text(events, "des"@) ==> c->App_desc is None
            &&& c is App && crate::xml::writes_text(events, "url"@, text)
                ==> c->App_url == Some(text)
            &&& c is App && crate::xml::lacks_text(events, "url"@) ==> c->App_url is None
        }),
{
    lemma_digits_fit(6, i32::MAX as int);
    lemma_digits_fit(74, i32::MAX as int);
    lemma_digits_fit(kind as nat, i32::MAX as int);
    lemma_digits_fit(n as nat, u64::MAX as int);
    lemma_digits_fit(0, u64::MAX as int);
    crate::xml::texts_are_read_as_written(events, "type"@, crate::number::digits(6));
    crate::xml::texts_are_read_as_written(events, "type"@, crate::number::digits(74));
    crate::xml::texts_are_read_as_written(events, "type"@, crate::number::digits(kind as nat));
    crate::xml::texts_are_read_as_written(events, "totallen"@, crate::number::digits(n as nat));
    crate::xml::texts_are_read_as_written(events, "totallen"@, crate::number::digits(0));
    crate::xml::texts_are_read_as_written(events, "filesize"@, crate::number::digits(n as nat));
    crate::xml::texts_are_read_as_written(events, "title"@, text);
    crate::xml::texts_are_read_as_written(events, "fileext"@, text);
    crate::xml::texts_are_read_as_written(events, "md5"@, text);
    crate::xml::texts_are_read_as_written(events, "des"@, text);
    crate::xml::texts_are_read_as_written(events, "url"@, text);
}

/// By which type a body is read: the low sixteen bits of the type decide, and the flags
/// above them do not matter, but for what is told of an unknown type.
#[verifier::spinoff_prover]
#[verifier::rlimit(80)]
pub proof fn types_decide(msg_type: i64, flags: i64, content: Seq<char>)
    requires
        0 <= msg_type < 0x10000,
        0 <= flags < 0x7fff_ffff_ffff,
    ensures
        ({
            let c = parsed_content((msg_type + flags * 0x10000) as i64, content);
            let events = crate::xml::document_events(content);
            &&& msg_type == 1 <==> c == (ContentView::Text { text: content })
            &&& msg_type == 3 <==> c is Image
            &&& msg_type == 34 <==> c is Voice
            &&& msg_type == 42 <==> c is ContactCard
            &&& msg_type == 43 <==> c is Video
            &&& msg_type == 47 <==> c is Emoji
            &&& msg_type == 48 <==> c is Location
            &&& msg_type == 49 <==> c is App || c is File
            &&& msg_type == 10000 || msg_type == 10002 <==> c == (ContentView::System {
                text: content,
            })
            &&& c is Unknown ==> c == (ContentView::Unknown {
                raw: content,
                msg_type: (msg_type + flags * 0x10000) as i64,
            })
            &&& msg_type == 3 ==> c == image_content(events)
            &&& msg_type == 34 ==> c == voice_content(events)
            &&& msg_type == 42 ==> c == contact_card_content(events)
            &&& msg_type == 43 ==> c == video_content(events)
            &&& msg_type == 47 ==> c == emoji_content(events)
            &&& msg_type == 48 ==> c == location_content(events)
            &&& msg_type == 49 ==> c == app_content(content, events)
        }),
{
    let t = (msg_type + flags * 0x10000) as i64;
    assert(base_type(t) == msg_type);
}

/// A preview is the line itself, or a beginning of it with three dots; the beginning is as
/// long as it can be.
pub proof fn previews_begin_like_the_line(text: Seq<char>, max_len: nat)
    ensures
        crate::text::byte_len(text) > max_len ==> exists|k: int|
            0 <= k < text.len() && shortened(text, max_len) == #[trigger] text.take(k) + "..."@
                && crate::text::byte_len(text.take(k)) <= max_len && crate::text::byte_len(
                text.take(k + 1),
            ) > max_len,
{
    if crate::text::byte_len(text) > max_len {
        let k = lemma_cut(text, max_len);
        assert(shortened(text, max_len) == text.take(k) + "..."@);
    }
}

proof fn lemma_cut(text: Seq<char>, max_len: nat) -> (k: int)
    requires
        crate::text::byte_len(text) > max_len,
    ensures
        0 <= k < text.len(),
        crate::text::byte_prefix(text, max_len) == text.take(k),
        crate::text::byte_len(text.take(k)) <= max_len,
        crate::text::byte_len(text.take(k + 1)) > max_len,
    decreases text.len(),
{
    if text.len() == 0 {
        assert(crate::text::byte_len(text) == 0);
        0
    } else {
        let rest = text.drop_last();
        if crate::text::byte_len(rest) <= max_len {
            assert(crate::text::byte_prefix(rest, max_len) == rest);
            assert(text.take(text.len() - 1) =~= rest);
            assert(text.take(text.len() as int) =~= text);
            text.len() - 1
        } else {
            let k = lemma_cut(rest, max_len);
            assert(rest.take(k) =~= text.take(k));
            assert(rest.take(k + 1) =~= text.take(k + 1));
            k
        }
    }
}

/// What a log line shows of a message, by its kind: the text itself, the duration in whole
/// seconds where it is one at least, the title before the description, the name before the
/// identifier, and the place before its label.
pub proof fn lines_show_what_is_known(
    text: Seq<char>,
    other: Seq<char>,
    ms: u32,
    url: Option<Seq<char>>,
    app_type: Option<i32>,
    size: u64,
    ext: Option<Seq<char>>,
    coordinates: Option<Seq<char>>,
)
    ensures
        line((ContentView::Text { text }), coordinates) == text,
        line((ContentView::System { text }), coordinates) == "[系统] "@ + text,
        line((ContentView::Emoji { url: Some(text) }), coordinates) == "[表情] "@ + text,
        ms >= 1000 ==> line(
            (ContentView::Voice { duration_ms: Some(ms), voice_url: url, aeskey: ext }),
            coordinates,
        ) == "[语音 "@ + crate::number::digits(ms as nat / 1000) + "s]"@,
        0 < ms < 1000 ==> line(
            (ContentView::Voice { duration_ms: Some(ms), voice_url: url, aeskey: ext }),
            coordinates,
        ) == "[语音 "@ + crate::number::digits(ms as nat) + "ms]"@,
        text.len() > 0 ==> line(
            (ContentView::App { title: Some(text), desc: Some(other), url, app_type }),
            coordinates,
        ) == "["@ + app_label(app_type) + "]"@ + " "@ + text,
        other.len() > 0 ==> line(
            (ContentView::App { title: None, desc: Some(other), url, app_type }),
            coordinates,
        ) == "["@ + app_label(app_type) + "]"@ + " "@ + other,
        line(
            (ContentView::File {
                title: Some(text),
                file_size: Some(size),
                file_ext: ext,
                md5: url,
            }),
            coordinates,
        ) == "[文件] "@ + text + " ("@ + size_text(size) + ")"@,
        line(
            (ContentView::File { title: Some(text), file_size: None, file_ext: ext, md5: url }),
            coordinates,
        ) == "[文件] "@ + text,
        line(
            (ContentView::ContactCard {
                nickname: Some(text),
                username: Some(other),
                avatar_url: url,
            }),
            coordinates,
        ) == "[名片] "@ + text,
        line(
            (ContentView::ContactCard { nickname: None, username: Some(other), avatar_url: url }),
            coordinates,
        ) == "[名片] "@ + other,
        line(
            (ContentView::Location {
                x: url,
                y: ext,
                scale: Some(ms),
                label: Some(other),
                poiname: Some(text),
            }),
            None,
        ) == "[位置] "@ + text,
        line(
            (ContentView::Location {
                x: url,
                y: ext,
                scale: Some(ms),
                label: Some(other),
                poiname: None,
            }),
            Some(text),
        ) == "[位置] "@ + other + " ("@ + text + ")"@,
{
    reveal_strlit("");
}

/// Below a kilobyte a size is given to the byte. The tenths that are shown of a larger one
/// lie as near to the size as tenths can, as long as the size is a number that a
/// double-precision number holds exactly.
pub proof fn sizes_are_near(size: u64)
    ensures
        size < 0x400 ==> size_text(size) == crate::number::digits(size as nat) + "B"@,
        0x400 <= size < 0x10_0000 ==> exists|tenths: nat|
            size_text(size) == #[trigger] one_decimal(tenths) + "KB"@ && 2 * (10 * size - tenths
                * 0x400) <= 0x400 && 2 * (tenths * 0x400 - 10 * size) <= 0x400,
        0x10_0000 <= size < 0x20_0000_0000_0000 ==> exists|tenths: nat|
            size_text(size) == #[trigger] one_decimal(tenths) + "MB"@ && 2 * (10 * size - tenths
                * 0x10_0000) <= 0x10_0000 && 2 * (tenths * 0x10_0000 - 10 * size) <= 0x10_0000,
{
    if size < 0x20_0000_0000_0000 {
        assert(double_spacing(size as nat) == 1);
        assert(nearest_double(size as nat) == size);
        if 0x400 <= size < 0x10_0000 {
            let tenths = round_half_even(10 * size as nat, 0x400);
            assert(size_text(size) == one_decimal(tenths) + "KB"@);
        } else if 0x10_0000 <= size {
            let tenths = round_half_even(10 * size as nat, 0x10_0000);
            assert(size_text(size) == one_decimal(tenths) + "MB"@);
        }
    }
}

} // verus!
