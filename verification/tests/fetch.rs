use feeds2::fetch::{
    feeds2_headers, feeds2_query, feeds2_referer, next_step, FetchEvent, FetchState, FetchStep,
    FEEDS2_LEGACY_URL, FEEDS2_URL,
};

fn failed(error: &str) -> FetchEvent {
    FetchEvent::Failed { error: error.to_owned() }
}

fn answered(code: u16, status: &str, body: &str) -> FetchEvent {
    FetchEvent::Answered {
        code,
        status: status.to_owned(),
        body: Ok(body.to_owned()),
    }
}

fn retry(step: FetchStep) -> (FetchState, u64) {
    match step {
        FetchStep::Retry { state, wait_seconds } => (state, wait_seconds),
        FetchStep::Finished { outcome } => panic!("{:?}", outcome),
    }
}

fn finished(step: FetchStep) -> Result<(String, String), String> {
    match step {
        FetchStep::Finished { outcome } => outcome,
        FetchStep::Retry { state, .. } => panic!("{:?}", state),
    }
}

#[test]
fn asks_six_times_and_reports_the_last_failure() {
    let mut state = FetchState::start();
    let mut asked = vec![];
    let mut waited = vec![];
    for k in 1..6 {
        asked.push(state.url());
        let (next, seconds) = retry(next_step(state, failed(&format!("{}", k))));
        waited.push(seconds);
        state = next;
    }
    asked.push(state.url());
    let outcome = finished(next_step(state, failed("6")));
    assert_eq!(outcome, Err("feeds2 请求失败：6".to_owned()));
    assert_eq!(
        asked,
        [
            FEEDS2_URL,
            FEEDS2_LEGACY_URL,
            FEEDS2_URL,
            FEEDS2_LEGACY_URL,
            FEEDS2_URL,
            FEEDS2_LEGACY_URL
        ]
    );
    assert_eq!(waited, [0, 2, 0, 4, 0]);
}

#[test]
fn reports_what_the_last_answer_was() {
    let last = FetchState { attempt: 3, legacy: true };
    assert_eq!(
        finished(next_step(last, answered(404, "404 Not Found", "x"))),
        Err("feeds2 补充源 HTTP 404 Not Found".to_owned())
    );
    assert_eq!(
        finished(next_step(last, answered(200, "200 OK", "waf.tencent.com need login"))),
        Err("feeds2 请求被腾讯 WAF 拦截".to_owned())
    );
    assert_eq!(
        finished(next_step(last, answered(300, "300 Multiple Choices", "need login"))),
        Err("feeds2 补充源 HTTP 300 Multiple Choices".to_owned())
    );
}

#[test]
fn stops_where_a_login_is_needed() {
    assert_eq!(
        finished(next_step(FetchState::start(), answered(200, "200 OK", "need login"))),
        Err("feeds2 补充源需要重新登录 QQ 空间".to_owned())
    );
}

#[test]
fn hands_on_a_usable_body() {
    let body = "html:'<a>  1',opuin";
    assert_eq!(
        finished(next_step(FetchState::start(), answered(299, "299", body))),
        Ok((body.to_owned(), "<a> 1".to_owned()))
    );
}

#[test]
fn takes_the_error_of_a_lost_body_for_its_text() {
    let event = FetchEvent::Answered {
        code: 200,
        status: "200 OK".to_owned(),
        body: Err("reset".to_owned()),
    };
    let text = "读取 feeds2 响应失败：reset".to_owned();
    assert_eq!(
        finished(next_step(FetchState::start(), event)),
        Ok((text.clone(), text))
    );
}

#[test]
fn writes_the_query() {
    let query = feeds2_query("123", -5, 60);
    let text: Vec<String> = query.iter().map(|(k, v)| format!("{}={}", k, v)).collect();
    assert_eq!(
        text.join("&"),
        "uin=123&begin_time=0&end_time=0&getappnotification=1&getnotifi=1&has_get_key=0&offset=60\
         &set=0&count=30&useutf8=1&outputhtmlfeed=1&scope=1&format=jsonp&g_tk=-5"
    );
    assert_eq!(feeds2_referer("123"), "https://user.qzone.qq.com/123/main");
}

#[test]
fn writes_the_headers() {
    let headers = feeds2_headers("p_skey=1", "https://r");
    assert_eq!(headers.len(), 8);
    assert_eq!(headers[0], ("accept".to_owned(), "*/*".to_owned()));
    assert_eq!(headers[2], ("cookie".to_owned(), "p_skey=1".to_owned()));
    assert_eq!(headers[3], ("referer".to_owned(), "https://r".to_owned()));
    assert!(headers[4].1.starts_with("Mozilla/5.0 (Windows NT 10.0; Win64; x64)"));
    assert_eq!(headers[7], ("sec-fetch-site".to_owned(), "same-origin".to_owned()));
}
