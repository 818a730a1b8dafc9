//! Requests: tokens, ranges, downloads.

use mimicwx::http::{
    authorized, header_to_text, parse_range_header, percent_decode, plan_download, tree_depth,
    ApiError, BAD_REQUEST, INTERNAL_SERVER_ERROR, NOT_FOUND, OK, PARTIAL_CONTENT,
    RANGE_NOT_SATISFIABLE, SERVICE_UNAVAILABLE, UNAUTHORIZED,
};

#[test]
fn parses_http_byte_ranges() {
    let explicit = "bytes=10-19".as_bytes();
    assert_eq!(
        parse_range_header(Some(explicit), 100).unwrap(),
        Some((10, 19))
    );
    let suffix = "bytes=-10".as_bytes();
    assert_eq!(
        parse_range_header(Some(suffix), 100).unwrap(),
        Some((90, 99))
    );
    let invalid = "bytes=100-101".as_bytes();
    assert!(parse_range_header(Some(invalid), 100).is_err());
}

fn refusal(header: &str, total: u64) -> String {
    let error = parse_range_header(Some(header.as_bytes()), total).unwrap_err();
    assert_eq!(error.status, RANGE_NOT_SATISFIABLE);
    error.message
}

#[test]
fn ranges_are_refused_with_a_reason() {
    assert_eq!(parse_range_header(None, 100).unwrap(), None);
    assert_eq!(
        parse_range_header(Some("bytes=5-".as_bytes()), 100).unwrap(),
        Some((5, 99))
    );
    assert_eq!(
        parse_range_header(Some("bytes=-500".as_bytes()), 100).unwrap(),
        Some((0, 99))
    );
    assert_eq!(
        parse_range_header(Some("bytes=5-500".as_bytes()), 100).unwrap(),
        Some((5, 99))
    );
    assert_eq!(refusal("items=1-2", 100), "仅支持 bytes Range");
    assert_eq!(refusal("bytes=1-2,3-4", 100), "仅支持单段 Range");
    assert_eq!(refusal("bytes=1-2", 0), "仅支持单段 Range");
    assert_eq!(refusal("bytes=12", 100), "Range 格式无效");
    assert_eq!(refusal("bytes=-x", 100), "Range 格式无效");
    assert_eq!(refusal("bytes=-0", 100), "Range 长度必须大于 0");
    assert_eq!(refusal("bytes=x-2", 100), "Range 起点无效");
    assert_eq!(refusal("bytes=1-x", 100), "Range 终点无效");
    assert_eq!(refusal("bytes=9-3", 100), "Range 超出文件范围");
    assert_eq!(refusal("bytes=100-", 100), "Range 超出文件范围");
    let error = parse_range_header(Some(&[0xe4, 0xb8]), 100).unwrap_err();
    assert_eq!(error.message, "Range 格式无效");
}

#[test]
fn percent_signs_are_decoded() {
    assert_eq!(percent_decode("a%20b%23"), "a b#");
    assert_eq!(percent_decode("%E4%BD%A0"), "你");
    assert_eq!(percent_decode("%e4%bd%a0"), "你");
    assert_eq!(percent_decode("%zz!"), "%!");
    assert_eq!(percent_decode("%"), "%");
    assert_eq!(percent_decode("%ff"), "%ff");
}

#[test]
fn header_values_are_visible_text() {
    assert_eq!(header_to_text("Bearer x".as_bytes()).unwrap(), "Bearer x");
    assert_eq!(header_to_text("a\tb".as_bytes()).unwrap(), "a\tb");
    assert!(header_to_text(&[0x7f]).is_none());
    assert!(header_to_text("你".as_bytes()).is_none());
}

#[test]
fn tokens_come_in_a_header_or_in_the_query() {
    assert!(authorized(None, None, None));
    assert!(!authorized(Some("t"), None, None));
    assert!(authorized(Some("t"), Some("Bearer t".as_bytes()), None));
    assert!(authorized(Some("t"), Some("Bearer  t ".as_bytes()), None));
    assert!(!authorized(Some("t"), Some("bearer t".as_bytes()), None));
    assert!(authorized(Some("a b"), None, Some("x=1&token=a%20b")));
    assert!(!authorized(Some("a b"), None, Some("x=token=a%20b")));
    assert!(authorized(Some("t"), Some("Bearer u".as_bytes()), Some("token=t")));
    assert!(authorized(Some("t"), None, Some("token=u&token=t")));
}

#[test]
fn downloads_are_planned() {
    let whole = plan_download("报告 1.pdf", 10, Some("abc"), "id", None).unwrap();
    assert_eq!(whole.status, OK);
    assert_eq!((whole.start, whole.length), (0, 10));
    assert_eq!(
        whole.disposition,
        "attachment; filename=\"attachment.bin\"; filename*=UTF-8''%E6%8A%A5%E5%91%8A%201%2Epdf"
    );
    assert_eq!(whole.etag, "\"abc\"");
    assert!(whole.content_range.is_none());
    let part = plan_download("a", 10, None, "id", Some("bytes=2-4".as_bytes())).unwrap();
    assert_eq!(part.status, PARTIAL_CONTENT);
    assert_eq!((part.start, part.length), (2, 3));
    assert_eq!(part.etag, "\"id\"");
    assert_eq!(part.content_range.unwrap(), "bytes 2-4/10");
    let empty = plan_download("a", 0, None, "id", None).unwrap();
    assert_eq!((empty.status, empty.start, empty.length), (OK, 0, 0));
    assert!(plan_download("a", 10, None, "id", Some("x".as_bytes())).is_err());
}

#[test]
fn every_error_has_its_status() {
    assert_eq!(ApiError::unavailable("a").status, SERVICE_UNAVAILABLE);
    assert_eq!(ApiError::internal("a").status, INTERNAL_SERVER_ERROR);
    assert_eq!(ApiError::bad_request("a").status, BAD_REQUEST);
    assert_eq!(ApiError::not_found("a").status, NOT_FOUND);
    assert_eq!(ApiError::range_not_satisfiable("a").status, RANGE_NOT_SATISFIABLE);
    assert_eq!(ApiError::internal("a").message, "a");
    assert_eq!(
        (BAD_REQUEST, UNAUTHORIZED, NOT_FOUND, RANGE_NOT_SATISFIABLE),
        (400, 401, 404, 416)
    );
    assert_eq!((INTERNAL_SERVER_ERROR, SERVICE_UNAVAILABLE), (500, 503));
    assert_eq!((OK, PARTIAL_CONTENT), (200, 206));
}

#[test]
fn trees_have_a_depth() {
    assert_eq!(tree_depth(None), 5);
    assert_eq!(tree_depth(Some("3")), 3);
    assert_eq!(tree_depth(Some("99")), 15);
    assert_eq!(tree_depth(Some("-1")), 5);
    assert_eq!(tree_depth(Some("x")), 5);
}

#[test]
fn requests_without_a_database_are_refused() {
    let error = ApiError::no_database();
    assert_eq!(error.status, SERVICE_UNAVAILABLE);
    assert_eq!(error.message, "数据库不可用");
}

#[test]
fn every_percent_encoding_is_decoded() {
    assert_eq!(percent_decode("a%20b%e4%B8%ad中%25"), "a b中中%");
    assert_eq!(percent_decode("plain 中"), "plain 中");
    assert_eq!(percent_decode("%61%62"), "ab");
}

#[test]
fn clients_without_the_token_are_told() {
    let error = ApiError::unauthorized();
    assert_eq!((error.status, error.message.as_str()), (UNAUTHORIZED, "unauthorized"));
}
