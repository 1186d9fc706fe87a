use feeds2::activity::ActivityKind;
use feeds2::items::{
    activity_from_item, is_readable_page, parse_activities_from_html, FeedItem, HtmlNode,
};
use feeds2::page::{finished_page, page_of_activities, supplement_page};
use feeds2::value::FeedValue;

const PAGE: &str = r#"
<ul>
  <li class="f-single f-s-s">
    <a class="f-name q_namecard" link="nameCard_123"> Alice  <b>B</b> </a>
    <span class="state"> 赞了我的说说 </span><span class="state">!</span>
    <div class="info-detail"> 2023-11-05
      08:30 </div>
    <p class="txt-box-title ellipsis-one">今天&nbsp;很好</p>
    <a class="img-item"><img src="http://a"><img></a>
    <a class="img-item"><img src="http://b"></a>
  </li>
  <li class="f-single"><span class="state">评论</span></li>
  <li class="f-s-s f-single x">
    <div class="f-reprint"><div class="f-info"> 原文 </div><div class="f-info">2</div></div>
    <p class="txt-box-title ellipsis-one">自己</p>
  </li>
</ul>
"#;

fn node(text: &str, attribute: Option<&str>) -> HtmlNode {
    HtmlNode {
        text: text.to_owned(),
        attribute: attribute.map(str::to_owned),
    }
}

#[test]
fn finds_activities_on_a_page() {
    let activities = parse_activities_from_html(PAGE, "999").unwrap();
    assert_eq!(activities.len(), 2);
    let like = &activities[0];
    assert_eq!(like.sender_uin, "123");
    assert_eq!(like.sender_name, "Alice B");
    assert_eq!(like.content, "今天 很好");
    assert_eq!(like.time_text, "2023-11-05 08:30");
    assert_eq!(like.event_time, 1_699_173_000);
    assert_eq!(like.image_urls, ["http://a", "http://b"]);
    assert_eq!(like.kind, ActivityKind::Like);
    let forward = &activities[1];
    assert_eq!(forward.sender_uin, "");
    assert_eq!(forward.sender_name, "");
    assert_eq!(forward.content, "原文");
    assert_eq!(forward.time_text, "");
    assert_eq!(forward.event_time, 0);
    assert!(forward.image_urls.is_empty());
    assert_eq!(forward.kind, ActivityKind::Forward);
}

#[test]
fn finds_nothing_on_blank_pages() {
    for page in ["", " \n\t", "<p>nothing</p>", "<li class='f-single'>x</li>"] {
        assert!(parse_activities_from_html(page, "999").unwrap().is_empty());
    }
}

#[test]
fn reads_an_activity_off_an_item() {
    let none: Vec<HtmlNode> = vec![];
    let names = vec![node(" Bob ", Some("nameCard_nameCard_7")), node("Eve", None)];
    let times = vec![node("昨天 12:30", None)];
    let contents = vec![node("a\u{a0}\u{a0}b", None)];
    let images = vec![node("", None), node("", Some("u"))];
    let states = vec![node(" 说说", None), node("x ", None)];
    let item = FeedItem {
        names: &names,
        times: &times,
        contents: &contents,
        images: &images,
        states: &states,
        reprints: &none,
    };
    let activity = activity_from_item(&item, "7", Some(1_700_000_000));
    assert_eq!(activity.sender_uin, "7");
    assert_eq!(activity.sender_name, "Bob");
    assert_eq!(activity.content, "a b");
    assert_eq!(activity.event_time, 1_699_878_600);
    assert_eq!(activity.image_urls, ["u"]);
    assert_eq!(activity.kind, ActivityKind::Moment);
    assert_eq!(activity_from_item(&item, "7", None).event_time, 0);
    assert_eq!(activity_from_item(&item, "8", None).kind, ActivityKind::Other);
}

#[test]
fn ends_scans_that_are_over() {
    for (offset, max_offset) in [(0, 0), (5, -1), (11, 10)] {
        let page = finished_page(offset, max_offset).unwrap();
        assert!(page.feeds.is_empty());
        assert_eq!(page.next_offset, offset);
        assert!(!page.has_more);
    }
    assert!(finished_page(10, 10).is_none());
    assert!(finished_page(-1, 10).is_none());
}

#[test]
fn makes_a_page_of_records() {
    let page = supplement_page("hasMoreFeeds:true", PAGE, "999", 100, 1_500).unwrap();
    assert_eq!(page.feeds.len(), 2);
    assert_eq!(page.next_offset, 102);
    assert!(page.has_more);
    match &page.feeds[0] {
        FeedValue::Object(entries) => assert_eq!(entries[0].0, "comm"),
        other => panic!("{:?}", other),
    }
}

#[test]
fn stops_at_the_depth_the_last_page_and_empty_pages() {
    assert!(!supplement_page("hasMoreFeeds:true", PAGE, "999", 100, 101).unwrap().has_more);
    assert!(supplement_page("hasMoreFeeds:true", PAGE, "999", 100, 102).unwrap().has_more);
    assert!(!supplement_page("hasMoreFeeds:false", PAGE, "999", 100, 1_500).unwrap().has_more);
    let empty = supplement_page("hasMoreFeeds:true", "", "999", 100, 1_500).unwrap();
    assert!(empty.feeds.is_empty());
    assert_eq!(empty.next_offset, 130);
    assert!(!empty.has_more);
}

#[test]
fn offsets_saturate() {
    let page = page_of_activities(&vec![], "", "999", i64::MAX - 1, i64::MAX);
    assert_eq!(page.next_offset, i64::MAX);
    let activities = parse_activities_from_html(PAGE, "999").unwrap();
    let page = page_of_activities(&activities, "hasMoreFeeds:true", "999", i64::MAX, i64::MAX);
    assert_eq!(page.next_offset, i64::MAX);
    assert!(page.has_more);
}

#[test]
fn keeps_items_whose_time_cannot_be_read() {
    let html = "<li class='f-single f-s-s'><div class='info-detail'>刚刚</div></li>\
        <li class='f-single f-s-s'></li>\
        <li class='f-single f-s-s'><div class='info-detail'>2023-11-05 99999999999</div></li>\
        <li class='f-single f-s-s'><div class='info-detail'>2023-11-05 08:30</div>";
    let activities = parse_activities_from_html(html, "999").unwrap();
    let times: Vec<(&str, i64)> =
        activities.iter().map(|activity| (activity.time_text.as_str(), activity.event_time)).collect();
    assert_eq!(
        times,
        [("刚刚", 0), ("", 0), ("2023-11-05 99999999999", 0), ("2023-11-05 08:30", 1_699_173_000)]
    );
}

#[test]
fn reads_pages_that_fit_in_the_parser() {
    for page in ["", "li", PAGE, "<li x=\"\0\0\0\">&nLt;"] {
        assert!(is_readable_page(page));
    }
}

#[test]
fn references_and_zero_bytes_grow_in_the_parser() {
    let html = "<li class='f-single f-s-s'><a class='f-name q_namecard' link='\0\0&nLt;'></a></li>";
    let activities = parse_activities_from_html(html, "999").unwrap();
    assert_eq!(activities[0].sender_uin, "\u{fffd}\u{fffd}\u{226a}\u{20d2}");
    assert_eq!(activities[0].sender_uin.len(), 12);
}
