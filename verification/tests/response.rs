use feeds2::collapse::collapse_whitespace;
use feeds2::patterns::decode_hex_escape;
use feeds2::response::{
    extract_between, extract_h5_feeds_html, has_more_feeds, process_feed_response,
    process_old_html, unescape_feed_text,
};

#[test]
fn extracts_html_from_jsonp_payload() {
    let raw = r#"html:'<li class="f-single f-s-s"><span class="state">赞了我的说说</span></li>',is_public_pav"#;
    let html = extract_h5_feeds_html(raw).unwrap();
    assert!(html.contains("f-single"));
}

#[test]
fn extracts_the_html_of_every_feed() {
    assert_eq!(
        extract_h5_feeds_html("x html:'<a>',opuin:1 html:'<b>',is_public_pav y").as_deref(),
        Some("<a><b>")
    );
    assert_eq!(
        extract_h5_feeds_html("html:'<a>',opuin',is_public_pav").as_deref(),
        Some("<a>")
    );
    assert_eq!(extract_h5_feeds_html("html:'',opuin").as_deref(), Some(""));
}

#[test]
fn extracts_nothing_without_marks() {
    assert_eq!(extract_h5_feeds_html("nothing here"), None);
    assert_eq!(extract_h5_feeds_html("html:'<a>"), None);
    assert_eq!(extract_h5_feeds_html("html:'<a>',opuin html:'<b>"), None);
}

#[test]
fn cuts_between_marks() {
    assert_eq!(extract_between("说[啊]x]", "[", "]").as_deref(), Some("啊"));
    assert_eq!(extract_between("a[b", "[", "]"), None);
    assert_eq!(extract_between("ab]", "[", "]"), None);
    assert_eq!(extract_between("]a[b]", "[", "]").as_deref(), Some("b"));
    assert_eq!(extract_between("[]", "[", "]").as_deref(), Some(""));
}

#[test]
fn undoes_escapes() {
    assert_eq!(unescape_feed_text(r#"\x41\/b\'c\"d"#), r#"A/b'c"d"#);
    assert_eq!(unescape_feed_text(r"\xe4\x3C"), "\u{e4}<");
    assert_eq!(unescape_feed_text(r"\x4 \xg1 \y"), r"\x4 \xg1 \y");
    assert_eq!(unescape_feed_text(r"\x5cx41"), r"\x41");
    assert_eq!(unescape_feed_text("没有转义"), "没有转义");
}

#[test]
fn decodes_single_escapes() {
    assert_eq!(decode_hex_escape(r"\x3c"), "<");
    assert_eq!(decode_hex_escape(r"\xFF"), "\u{ff}");
    assert_eq!(decode_hex_escape("plain"), "plain");
}

#[test]
fn collapses_white_space() {
    assert_eq!(collapse_whitespace("  a \t\n b\u{a0}\u{3000}c  "), "a b c");
    assert_eq!(collapse_whitespace("\u{2003} "), "");
    assert_eq!(collapse_whitespace("a b"), "a b");
    assert_eq!(collapse_whitespace(&collapse_whitespace(" a  b ")), "a b");
}

#[test]
fn reads_old_messages_in_all_quotings() {
    assert_eq!(process_old_html("x html:'<a>  1',opuin"), "<a> 1");
    assert_eq!(process_old_html("html:\"<b>\",opuin"), "<b>");
    assert_eq!(process_old_html("{\"html\":\"<c>\",\"opuin\":1}"), "<c>");
    assert_eq!(process_old_html(r" no \d marks "), "no d marks");
}

#[test]
fn processes_responses() {
    assert_eq!(process_feed_response("see waf.tencent.com html:'<a>',opuin"), "");
    assert_eq!(
        process_feed_response(r"_Callback({data:[{html:'\x3Ca\x3E  1',opuin}]})"),
        "<a> 1"
    );
    assert_eq!(
        process_feed_response("data:[{html:'<a>',is_public_pav},{html:'<b>',opuin}]"),
        "<a><b>"
    );
    assert_eq!(process_feed_response("html:'<a>',is_public_pav,opuin"), "html:'<a>',is_public_pav,opuin");
    assert_eq!(process_feed_response(r"_Callback(\\x3C)"), "_Callback(<)");
}

#[test]
fn knows_whether_there_is_more() {
    assert!(has_more_feeds("{hasMoreFeeds:true}"));
    assert!(!has_more_feeds("{hasMoreFeeds:false}"));
    assert!(!has_more_feeds(""));
}

#[test]
fn a_plain_callback_gives_its_feeds() {
    assert_eq!(
        process_feed_response("_Callback({data:[{html:'<li>  1</li>',opuin:1},{html:' <li>2</li>',is_public_pav:0}]})"),
        "<li> 1</li> <li>2</li>"
    );
}
