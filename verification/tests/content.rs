//! What messages hold: XML, previews, column values.

use mimicwx::cell::{
    decompress_wcdb_content, read_integer, read_text, read_uncompressed, text_of_blob,
    wcdb_get_text, Cell,
};
use mimicwx::content::{
    app_from, contact_card_from, image_from, location_from, parse_app, parse_contact_card,
    parse_emoji, parse_image, parse_location, parse_msg_content, parse_video, parse_voice,
    video_from, voice_from, MsgContent,
};
use mimicwx::xml::{extract_xml_attr, extract_xml_text, first_attribute, first_text, read_events, XmlEvent};

fn tag(name: &str, attributes: &[(&str, &str)]) -> XmlEvent {
    XmlEvent::Empty {
        name: name.as_bytes().to_vec(),
        attributes: attributes
            .iter()
            .map(|(k, v)| Some((k.as_bytes().to_vec(), v.as_bytes().to_vec())))
            .collect(),
    }
}

fn element(name: &str, text: &str) -> Vec<XmlEvent> {
    vec![
        XmlEvent::Start {
            name: name.as_bytes().to_vec(),
            attributes: Vec::new(),
        },
        XmlEvent::Text {
            text: Some(text.to_string()),
        },
        XmlEvent::End {
            name: name.as_bytes().to_vec(),
        },
    ]
}

fn file(size: Option<u64>) -> MsgContent {
    MsgContent::File {
        title: Some("a.zip".to_string()),
        file_size: size,
        file_ext: None,
        md5: None,
    }
}

fn line(content: &MsgContent) -> String {
    content.preview(1000, None)
}

#[test]
fn attributes_are_read_from_xml() {
    let xml = "<msg><img a=\"1\" cdnmidimgurl='u&amp;v' /><img b=\"2\"/></msg>";
    assert_eq!(extract_xml_attr(xml, "img", "a").unwrap(), "1");
    assert_eq!(extract_xml_attr(xml, "img", "cdnmidimgurl").unwrap(), "u&amp;v");
    assert_eq!(extract_xml_attr(xml, "img", "b").unwrap(), "2");
    assert!(extract_xml_attr(xml, "img", "c").is_none());
    assert!(extract_xml_attr(xml, "video", "a").is_none());
    assert_eq!(extract_xml_attr("<msg x=\"y\">", "msg", "x").unwrap(), "y");
    assert!(extract_xml_attr("no xml at all", "msg", "x").is_none());
    assert_eq!(extract_xml_attr("<i a=b c=\"d\"/>", "i", "c").unwrap(), "d");
    assert!(extract_xml_attr("<i a=b c=\"d\"/>", "i", "a").is_none());
}

#[test]
fn texts_are_read_from_xml() {
    let xml = "<m><title>a &lt; b</title><des><![CDATA[x & y]]></des><url/></m>";
    assert_eq!(extract_xml_text(xml, "title").unwrap(), "a < b");
    assert_eq!(extract_xml_text(xml, "des").unwrap(), "x & y");
    assert!(extract_xml_text(xml, "url").is_none());
    assert!(extract_xml_text("<t>&nothing;</t>", "t").is_none());
    assert_eq!(extract_xml_text("<t></t><t>b</t>", "t").unwrap(), "b");
    assert_eq!(extract_xml_text("<t><u>inner</u></t>", "t").unwrap(), "inner");
    assert!(extract_xml_text("<a></b><t>x</t>", "t").is_none());
}

#[test]
fn events_come_in_order() {
    let events = read_events("<?xml version=\"1.0\"?><a k=\"v\"><b/>t<![CDATA[c]]></a>");
    assert_eq!(events.len(), 6);
    assert!(matches!(&events[0], XmlEvent::Other));
    assert!(matches!(&events[1], XmlEvent::Start { name, attributes }
        if name == b"a" && attributes[0] == Some((b"k".to_vec(), b"v".to_vec()))));
    assert!(matches!(&events[2], XmlEvent::Empty { name, attributes } if name == b"b" && attributes.is_empty()));
    assert!(matches!(&events[3], XmlEvent::Text { text: Some(t) } if t == "t"));
    assert!(matches!(&events[4], XmlEvent::CData { data } if data == b"c"));
    assert!(matches!(&events[5], XmlEvent::End { name } if name == b"a"));
    assert!(read_events("<a><b></a>").len() <= 2);
}

#[test]
fn given_events_are_searched() {
    let events = vec![tag("img", &[("a", "1")]), tag("img", &[("b", "2")])];
    assert_eq!(first_attribute(&events, "img", "b").unwrap(), "2");
    assert!(first_attribute(&events, "im", "b").is_none());
    let broken = vec![XmlEvent::Empty {
        name: b"i".to_vec(),
        attributes: vec![None, Some((b"k".to_vec(), vec![0xff]))],
    }];
    assert!(first_attribute(&broken, "i", "k").is_none());
    assert_eq!(first_text(&element("t", "x"), "t").unwrap(), "x");
    assert!(first_text(&element("t", "x"), "u").is_none());
    let bytes = vec![
        XmlEvent::Start {
            name: b"t".to_vec(),
            attributes: Vec::new(),
        },
        XmlEvent::CData { data: vec![0xff] },
    ];
    assert!(first_text(&bytes, "t").is_none());
}

#[test]
fn images_are_read() {
    let xml = "<msg><img cdnbigimgurl=\"big\" md5=\"m\" length=\"12\" cdnmidwidth=\"0\" cdnthumbwidth=\"7\" cdnthumbheight=\"8\"/></msg>";
    assert!(matches!(
        parse_image(xml),
        MsgContent::Image { path: Some(p), md5: Some(m), length: Some(12), width: None, height: Some(8) }
            if p == "big" && m == "m"
    ));
    let events = vec![tag("img", &[("cdnmidimgurl", "mid"), ("cdnbigimgurl", "big"), ("length", "x"), ("cdnthumbwidth", "+5")])];
    assert!(matches!(
        image_from(&events),
        MsgContent::Image { path: Some(p), md5: None, length: None, width: Some(5), height: None } if p == "mid"
    ));
}

#[test]
fn voices_and_videos_are_read() {
    assert!(matches!(
        parse_voice("<msg><voicemsg voicelength=\"2500\" voiceurl=\"u\" aeskey=\"k\"/></msg>"),
        MsgContent::Voice { duration_ms: Some(2500), voice_url: Some(u), aeskey: Some(k) } if u == "u" && k == "k"
    ));
    assert!(matches!(
        voice_from(&vec![tag("voicemsg", &[("length", "9"), ("voicelen", "8")])]),
        MsgContent::Voice { duration_ms: Some(8), voice_url: None, aeskey: None }
    ));
    assert!(matches!(
        parse_video("<msg><videomsg cdnthumburl=\"t\" cdnvideourl=\"v\" aeskey=\"k\" length=\"5\" playlength=\"6\" cdnthumbwidth=\"3\" cdnthumbheight=\"0\"/></msg>"),
        MsgContent::Video { thumb_path: Some(_), cdn_video_url: Some(_), aeskey: Some(_), length: Some(5), play_length: Some(6), width: Some(3), height: None }
    ));
    assert!(matches!(
        video_from(&Vec::new()),
        MsgContent::Video { thumb_path: None, cdn_video_url: None, aeskey: None, length: None, play_length: None, width: None, height: None }
    ));
}

#[test]
fn cards_places_and_stickers_are_read() {
    assert!(matches!(
        parse_contact_card("<msg nickname=\"N\" username=\"U\" smallheadimgurl=\"S\"/>"),
        MsgContent::ContactCard { nickname: Some(n), username: Some(u), avatar_url: Some(a) } if n == "N" && u == "U" && a == "S"
    ));
    assert!(matches!(
        contact_card_from(&vec![tag("msg", &[])]),
        MsgContent::ContactCard { nickname: None, username: None, avatar_url: None }
    ));
    assert!(matches!(
        parse_location("<msg><location x=\"1.5\" y=\"2\" scale=\"16\" label=\"L\" poiname=\"P\"/></msg>"),
        MsgContent::Location { x: Some(x), y: Some(y), scale: Some(16), label: Some(l), poiname: Some(p) }
            if x == "1.5" && y == "2" && l == "L" && p == "P"
    ));
    assert!(matches!(
        location_from(&vec![tag("location", &[("scale", "-1")])]),
        MsgContent::Location { x: None, y: None, scale: None, label: None, poiname: None }
    ));
    assert!(matches!(
        parse_emoji("<msg><emoji cdnurl=\"u\"/></msg>"),
        MsgContent::Emoji { url: Some(u) } if u == "u"
    ));
}

#[test]
fn links_and_files_are_told_apart() {
    let link = "<msg><appmsg><title>T</title><des>D</des><type>5</type><url>U</url></appmsg></msg>";
    assert!(matches!(
        parse_app(link),
        MsgContent::App { title: Some(t), desc: Some(d), url: Some(u), app_type: Some(5) } if t == "T" && d == "D" && u == "U"
    ));
    let file = "<msg><appmsg><title>a.pdf</title><type>6</type><appattach><totallen>10</totallen><fileext>pdf</fileext></appattach><md5>m</md5></appmsg></msg>";
    assert!(matches!(
        parse_app(file),
        MsgContent::File { title: Some(t), file_size: Some(10), file_ext: Some(e), md5: Some(m) } if t == "a.pdf" && e == "pdf" && m == "m"
    ));
    let other = "<msg><title>x</title><type>99</type><appattach><totallen>3</totallen><fileext>z</fileext></appattach></msg>";
    assert!(matches!(parse_app(other), MsgContent::File { file_size: Some(3), .. }));
    let article = "<msg><title>x</title><type>5</type><appattach><totallen>0</totallen><fileext>z</fileext></appattach></msg>";
    assert!(matches!(parse_app(article), MsgContent::App { app_type: Some(5), .. }));
    assert!(matches!(app_from("", &element("type", "74")), MsgContent::File { file_size: None, .. }));
    let mut sized = element("type", "6");
    sized.extend(element("filesize", "4"));
    assert!(matches!(app_from("", &sized), MsgContent::File { file_size: Some(4), .. }));
}

#[test]
fn the_low_half_of_a_type_decides() {
    assert!(matches!(parse_msg_content(1, "a"), MsgContent::Text { text } if text == "a"));
    assert!(matches!(parse_msg_content(0x6_0000_0001, "a"), MsgContent::Text { .. }));
    assert!(matches!(parse_msg_content(3, ""), MsgContent::Image { .. }));
    assert!(matches!(parse_msg_content(34, ""), MsgContent::Voice { .. }));
    assert!(matches!(parse_msg_content(42, ""), MsgContent::ContactCard { .. }));
    assert!(matches!(parse_msg_content(43, ""), MsgContent::Video { .. }));
    assert!(matches!(parse_msg_content(47, ""), MsgContent::Emoji { .. }));
    assert!(matches!(parse_msg_content(48, ""), MsgContent::Location { .. }));
    assert!(matches!(parse_msg_content(49, ""), MsgContent::App { .. }));
    assert!(matches!(parse_msg_content(10000, "s"), MsgContent::System { text } if text == "s"));
    assert!(matches!(parse_msg_content(10002, "s"), MsgContent::System { .. }));
    assert!(matches!(parse_msg_content(-1, "r"), MsgContent::Unknown { raw, msg_type: -1 } if raw == "r"));
}

#[test]
fn every_content_has_a_label() {
    let label = |t: i64| parse_msg_content(t, "").type_label();
    assert_eq!(label(1), "文本");
    assert_eq!(label(3), "图片");
    assert_eq!(label(34), "语音");
    assert_eq!(label(43), "视频");
    assert_eq!(label(47), "表情");
    assert_eq!(label(49), "链接");
    assert_eq!(label(42), "名片");
    assert_eq!(label(48), "位置");
    assert_eq!(label(10000), "系统");
    assert_eq!(label(7), "未知");
    assert_eq!(file(None).type_label(), "文件");
}

#[test]
fn previews_tell_what_a_message_holds() {
    let voice = |ms| MsgContent::Voice {
        duration_ms: ms,
        voice_url: None,
        aeskey: None,
    };
    assert_eq!(line(&voice(Some(2500))), "[语音 2s]");
    assert_eq!(line(&voice(Some(999))), "[语音 999ms]");
    assert_eq!(line(&voice(Some(0))), "[语音]");
    assert_eq!(line(&voice(None)), "[语音]");
    let app = |title: &str, desc: &str, app_type| MsgContent::App {
        title: Some(title.to_string()),
        desc: Some(desc.to_string()),
        url: None,
        app_type,
    };
    assert_eq!(line(&app("T", "D", Some(3))), "[音乐] T");
    assert_eq!(line(&app("", "D", Some(19))), "[转发] D");
    assert_eq!(line(&app("", "", Some(33))), "[小程序]");
    assert_eq!(line(&app("T", "", Some(36))), "[小程序] T");
    assert_eq!(line(&app("T", "", Some(2000))), "[转账] T");
    assert_eq!(line(&app("T", "", Some(2001))), "[红包] T");
    assert_eq!(line(&app("T", "", None)), "[链接] T");
    let card = |nickname: Option<&str>, username: Option<&str>| MsgContent::ContactCard {
        nickname: nickname.map(|s| s.to_string()),
        username: username.map(|s| s.to_string()),
        avatar_url: None,
    };
    assert_eq!(line(&card(Some("N"), Some("U"))), "[名片] N");
    assert_eq!(line(&card(None, Some("U"))), "[名片] U");
    assert_eq!(line(&card(None, None)), "[名片] 未知");
    let place = MsgContent::Location {
        x: Some("1".to_string()),
        y: Some("2".to_string()),
        scale: None,
        label: Some("L".to_string()),
        poiname: None,
    };
    assert_eq!(place.preview(100, Some("1.0000,2.0000")), "[位置] L (1.0000,2.0000)");
    assert_eq!(place.preview(100, None), "[位置] L");
    assert_eq!(line(&parse_msg_content(10000, "x")), "[系统] x");
    assert_eq!(line(&parse_msg_content(77, "x")), "[type=77]");
    assert_eq!(line(&parse_msg_content(3, "")), "[图片]");
    assert_eq!(line(&parse_msg_content(43, "")), "[视频]");
    assert_eq!(line(&parse_msg_content(47, "<emoji cdnurl=\"u\"/>")), "[表情] u");
}

#[test]
fn previews_are_cut_at_characters() {
    let text = MsgContent::Text {
        text: "你好吗".to_string(),
    };
    assert_eq!(text.preview(9, None), "你好吗");
    assert_eq!(text.preview(8, None), "你好...");
    assert_eq!(text.preview(2, None), "...");
    assert_eq!(text.preview(3, None), "你...");
}

#[test]
fn sizes_are_written_like_floating_point_numbers() {
    let written = |s: u64| {
        if s >= 1024 * 1024 {
            format!("[文件] a.zip ({:.1}MB)", s as f64 / 1024.0 / 1024.0)
        } else if s >= 1024 {
            format!("[文件] a.zip ({:.1}KB)", s as f64 / 1024.0)
        } else {
            format!("[文件] a.zip ({}B)", s)
        }
    };
    assert_eq!(line(&file(None)), "[文件] a.zip");
    assert_eq!(line(&file(Some(1536))), "[文件] a.zip (1.5KB)");
    let mut sizes: Vec<u64> = (0..4000).collect();
    let mut s: u64 = 1;
    while s < u64::MAX / 3 {
        for d in 0..6 {
            sizes.push(s.wrapping_add(d));
            sizes.push(s.wrapping_sub(d));
        }
        s = s * 3 / 2 + 1;
    }
    for n in 0..2000 {
        sizes.push(1024 * 1024 + n * 52429 + n / 2);
        sizes.push(1024 + n * 51 + n / 4);
    }
    for shift in 50..64 {
        for d in 0..40 {
            sizes.push((1u64 << shift) + d * 97);
            sizes.push((1u64 << shift).wrapping_sub(d * 31 + 1));
        }
    }
    sizes.push(u64::MAX);
    for size in sizes {
        assert_eq!(line(&file(Some(size))), written(size), "{size}");
    }
}

#[test]
fn compressed_columns_are_read() {
    let packed = zstd::encode_all("压缩".as_bytes(), 3).unwrap();
    assert_eq!(decompress_wcdb_content(&packed), "压缩");
    assert_eq!(decompress_wcdb_content("plain".as_bytes()), "plain");
    assert_eq!(decompress_wcdb_content(&[0x28, 0xb5, 0x2f, 0xfd]), "(\u{fffd}/\u{fffd}");
    assert_eq!(decompress_wcdb_content(&[0x61, 0xff]), "a\u{fffd}");
    assert_eq!(text_of_blob(&[0x28, 0xb5, 0x2f, 0xfd], Some("x".as_bytes().to_vec())), "x");
    assert_eq!(text_of_blob(&[0x61], None), "a");
    assert_eq!(wcdb_get_text(&Cell::Blob(packed)), "压缩");
    assert_eq!(wcdb_get_text(&Cell::Text("a".as_bytes().to_vec())), "a");
    assert_eq!(wcdb_get_text(&Cell::Text(vec![0xff])), "");
    assert_eq!(wcdb_get_text(&Cell::Null), "");
    assert_eq!(wcdb_get_text(&Cell::Integer(5)), "");
    assert_eq!(wcdb_get_text(&Cell::Real), "");
}

#[test]
fn plain_columns_are_read() {
    assert_eq!(read_text(&Cell::Text("a".as_bytes().to_vec())).unwrap(), "a");
    assert_eq!(read_text(&Cell::Null).unwrap(), "");
    assert!(read_text(&Cell::Blob(vec![0x61])).is_none());
    assert!(read_text(&Cell::Text(vec![0xff])).is_none());
    assert_eq!(read_uncompressed(&Cell::Blob(vec![0x61, 0xff])), "a\u{fffd}");
    assert_eq!(read_uncompressed(&Cell::Integer(1)), "");
    assert_eq!(read_integer(&Cell::Integer(-3)), Some(-3));
    assert_eq!(read_integer(&Cell::Null), Some(0));
    assert!(read_integer(&Cell::Text(vec![0x31])).is_none());
    assert!(read_integer(&Cell::Real).is_none());
}
