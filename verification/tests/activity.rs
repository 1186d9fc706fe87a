use feeds2::activity::{
    activity_to_feed_value, classify_activity, fnv1a_hash, synthetic_cell_id, ActivityKind,
    ParsedActivity,
};
use feeds2::value::FeedValue;
use serde_json::Value;

fn json(value: &FeedValue) -> Value {
    match value {
        FeedValue::Null => Value::Null,
        FeedValue::Number(n) => Value::from(*n),
        FeedValue::Text(text) => Value::from(text.as_str()),
        FeedValue::List(values) => Value::Array(values.iter().map(json).collect()),
        FeedValue::Object(entries) => {
            let mut map = serde_json::Map::new();
            for (key, value) in entries {
                assert!(map.insert(key.clone(), json(value)).is_none());
            }
            Value::Object(map)
        }
    }
}

fn activity(kind: ActivityKind) -> ParsedActivity {
    ParsedActivity {
        sender_uin: "123".into(),
        sender_name: "Alice".into(),
        content: "今天很好".into(),
        time_text: "昨天 12:30".into(),
        event_time: 1_700_000_000,
        image_urls: vec![],
        kind,
    }
}

fn text(feed: &Value, path: &str) -> String {
    feed.pointer(path).and_then(Value::as_str).unwrap().to_owned()
}

#[test]
fn maps_like_activity_to_feed_shape() {
    let activity = ParsedActivity {
        sender_uin: "123".into(),
        sender_name: "Alice".into(),
        content: "今天很好".into(),
        time_text: "昨天 12:30".into(),
        event_time: 1_700_000_000,
        image_urls: vec![],
        kind: ActivityKind::Like,
    };
    let feed = json(&activity_to_feed_value(&activity, "999"));
    assert_eq!(
        feed.pointer("/comm/subid").and_then(Value::as_i64),
        Some(217)
    );
    assert!(feed
        .pointer("/original/cell_id/cellid")
        .and_then(Value::as_str)
        .unwrap_or("")
        .starts_with("feeds2:"));
}

#[test]
fn writes_the_whole_record_of_a_like() {
    let feed = json(&activity_to_feed_value(&activity(ActivityKind::Like), "999"));
    let expected = r#"{
        "comm": {
            "feedskey": "feeds2:217:feeds2:e69fff3db364fad5:1700000000:123",
            "subid": 217,
            "time": 1700000000
        },
        "original": {
            "cell_id": { "cellid": "feeds2:e69fff3db364fad5" },
            "cell_summary": { "summary": "今天很好" },
            "cell_userinfo": { "user": { "uin": "123", "nickname": "Alice" } },
            "cell_comm": {
                "time": 1700000000,
                "appid": 311,
                "feedskey": "feeds2:217:feeds2:e69fff3db364fad5:1700000000:123"
            },
            "cell_pic": null,
            "cell_comment": null
        },
        "title": { "title": "赞了我" },
        "summary": null,
        "userinfo": { "user": { "uin": "123", "nickname": "Alice" } },
        "meta": { "source": "feeds2", "timeText": "昨天 12:30" }
    }"#;
    let expected: Value = serde_json::from_str(expected).unwrap();
    assert_eq!(feed, expected);
}

#[test]
fn writes_comments_and_pictures() {
    let mut comment = activity(ActivityKind::Comment);
    comment.image_urls = vec!["http://a".to_owned(), "http://b".to_owned()];
    let feed = json(&activity_to_feed_value(&comment, "999"));
    assert_eq!(text(&feed, "/original/cell_comment/main_comment/content"), "今天很好");
    assert_eq!(
        feed.pointer("/original/cell_comment/main_comment/date").and_then(Value::as_i64),
        Some(1_700_000_000)
    );
    assert_eq!(text(&feed, "/original/cell_comment/main_comment/user/uin"), "123");
    assert_eq!(text(&feed, "/original/cell_pic/picdata/pic/0/photourl/0/url"), "http://a");
    assert_eq!(text(&feed, "/original/cell_pic/picdata/pic/1/photourl/0/url"), "http://b");
    assert!(feed.pointer("/original/cell_pic/picdata/pic/2").is_none());
    assert_eq!(text(&feed, "/original/cell_userinfo/user/uin"), "999");
    assert_eq!(text(&feed, "/original/cell_userinfo/user/nickname"), "");
    assert_eq!(text(&feed, "/summary/summary"), "今天很好");
    assert!(feed.pointer("/title").unwrap().is_null());
}

#[test]
fn numbers_and_titles_every_kind() {
    let table = [
        (ActivityKind::Moment, 202, 311, None, false, "123"),
        (ActivityKind::Forward, 312, 311, Some("转发了"), false, "123"),
        (ActivityKind::Like, 217, 311, Some("赞了我"), false, "123"),
        (ActivityKind::Comment, 2, 311, None, true, "999"),
        (ActivityKind::BoardMessage, 334, 334, Some("留言"), true, "123"),
        (ActivityKind::BoardReply, 334, 334, Some("留言"), true, "123"),
        (ActivityKind::View, 218, 311, Some("查看了我的说说"), false, "999"),
        (ActivityKind::Other, 0, 311, None, false, "999"),
    ];
    for (kind, number, appid, title, summary, author) in table {
        let feed = json(&activity_to_feed_value(&activity(kind), "999"));
        assert_eq!(feed.pointer("/comm/subid").and_then(Value::as_i64), Some(number));
        assert_eq!(
            feed.pointer("/original/cell_comm/appid").and_then(Value::as_i64),
            Some(appid)
        );
        assert_eq!(feed.pointer("/title/title").and_then(Value::as_str), title);
        assert_eq!(feed.pointer("/summary/summary").is_some(), summary);
        assert_eq!(text(&feed, "/original/cell_userinfo/user/uin"), author);
        assert_eq!(
            text(&feed, "/comm/feedskey"),
            text(&feed, "/original/cell_comm/feedskey")
        );
        assert_eq!(
            feed.pointer("/original/cell_comment").unwrap().is_null(),
            kind != ActivityKind::Comment
        );
    }
}

#[test]
fn hashes_cell_ids() {
    assert_eq!(fnv1a_hash(b""), 0xcbf29ce484222325);
    assert_eq!(fnv1a_hash(b"a"), 0xaf63dc4c8601ec8c);
    assert_eq!(
        synthetic_cell_id("999", "今天很好", "123", 1_700_000_000),
        "feeds2:e69fff3db364fad5"
    );
    assert_eq!(synthetic_cell_id("", "", "", 0), "feeds2:34b2b4315c2e2431");
    assert_eq!(synthetic_cell_id("1", "2", "3", -1).len(), 23);
}

#[test]
fn classifies_by_state_text() {
    let table = [
        ("回复了你的留言", ActivityKind::BoardReply),
        ("给你留言", ActivityKind::BoardMessage),
        ("赞了我的说说", ActivityKind::Like),
        ("查看了我的说说", ActivityKind::View),
        ("访问了我的主页", ActivityKind::View),
        ("评论了说说", ActivityKind::Comment),
        ("回复", ActivityKind::Comment),
        ("发表了说说", ActivityKind::Moment),
        ("发表说说", ActivityKind::Moment),
        ("其他", ActivityKind::Other),
        ("", ActivityKind::Other),
    ];
    for (state, kind) in table {
        assert_eq!(classify_activity(state, "1", "2", false), kind, "{}", state);
    }
    assert_eq!(classify_activity("说说", "2", "2", false), ActivityKind::Moment);
    assert_eq!(classify_activity("说说", "1", "2", false), ActivityKind::Other);
    assert_eq!(classify_activity("说说", "1", "2", true), ActivityKind::Forward);
    assert_eq!(classify_activity("", "1", "1", true), ActivityKind::Forward);
    assert_eq!(classify_activity("赞了我的说说", "1", "2", true), ActivityKind::Like);
}
