//! Asking for a page: the request, and what to do with each answer.

use vstd::prelude::*;

use crate::numbers::{decimal, decimal_string};
use crate::page::FEEDS2_PAGE_SIZE;
use crate::response::{process_feed_response, processed, WAF_HOST};
use crate::text::{contains, law_mentioned_part_splits_text, mentions};

verus! {

/// The address that is asked first.
pub const FEEDS2_URL: &'static str =
    "https://h5.qzone.qq.com/proxy/domain/ic2.qzone.qq.com/cgi-bin/feeds/feeds2_html_pav_all";

/// The address that is asked where the first gives nothing.
pub const FEEDS2_LEGACY_URL: &'static str =
    "https://user.qzone.qq.com/proxy/domain/ic2.qzone.qq.com/cgi-bin/feeds/feeds2_html_pav_all";

/// The browser that requests name.
pub const FEEDS2_DESKTOP_UA: &'static str =
    "Mozilla/5.0 (Windows NT 10.0; Win64; x64) AppleWebKit/537.36 (KHTML, like Gecko) Chrome/128.0.0.0 Safari/537.36";

/// How often both addresses are asked.
pub const FEEDS2_ATTEMPTS: u32 = 3;

/// A body that says this belongs to a session that has ended.
pub const NEED_LOGIN: &'static str = "need login";

/// The characters of pairs of strings.
pub open spec fn pairs_model(pairs: Seq<(String, String)>) -> Seq<(Seq<char>, Seq<char>)> {
    pairs.map_values(|pair: (String, String)| (pair.0@, pair.1@))
}

/// The parameters of a request.
pub open spec fn query_of(uin: Seq<char>, g_tk: int, offset: int) -> Seq<(Seq<char>, Seq<char>)> {
    seq![
        ("uin"@, uin),
        ("begin_time"@, "0"@),
        ("end_time"@, "0"@),
        ("getappnotification"@, "1"@),
        ("getnotifi"@, "1"@),
        ("has_get_key"@, "0"@),
        ("offset"@, decimal(offset)),
        ("set"@, "0"@),
        ("count"@, decimal(FEEDS2_PAGE_SIZE as int)),
        ("useutf8"@, "1"@),
        ("outputhtmlfeed"@, "1"@),
        ("scope"@, "1"@),
        ("format"@, "jsonp"@),
        ("g_tk"@, decimal(g_tk)),
    ]
}

/// The page that a request says it comes from.
pub open spec fn referer_of(uin: Seq<char>) -> Seq<char> {
    "https://user.qzone.qq.com/"@ + uin + "/main"@
}

/// The headers of a request.
pub open spec fn headers_of(cookie_header: Seq<char>, referer: Seq<char>) -> Seq<
    (Seq<char>, Seq<char>),
> {
    seq![
        ("accept"@, "*/*"@),
        ("accept-language"@, "zh-CN,zh;q=0.9,en;q=0.8"@),
        ("cookie"@, cookie_header),
        ("referer"@, referer),
        ("user-agent"@, FEEDS2_DESKTOP_UA@),
        ("sec-fetch-dest"@, "empty"@),
        ("sec-fetch-mode"@, "cors"@),
        ("sec-fetch-site"@, "same-origin"@),
    ]
}

fn pair(key: &str, value: &str) -> (r: (String, String))
    ensures
        r.0@ == key@,
        r.1@ == value@,
{
    (key.to_owned(), value.to_owned())
}

/// The parameters of a request for the feeds from `offset` on.
pub fn feeds2_query(uin: &str, g_tk: i64, offset: i64) -> (r: Vec<(String, String)>)
    ensures
        pairs_model(r@) == query_of(uin@, g_tk as int, offset as int),
{
    let mut query: Vec<(String, String)> = Vec::new();
    query.push(pair("uin", uin));
    query.push(pair("begin_time", "0"));
    query.push(pair("end_time", "0"));
    query.push(pair("getappnotification", "1"));
    query.push(pair("getnotifi", "1"));
    query.push(pair("has_get_key", "0"));
    query.push(pair("offset", decimal_string(offset).as_str()));
    query.push(pair("set", "0"));
    query.push(pair("count", decimal_string(FEEDS2_PAGE_SIZE).as_str()));
    query.push(pair("useutf8", "1"));
    query.push(pair("outputhtmlfeed", "1"));
    query.push(pair("scope", "1"));
    query.push(pair("format", "jsonp"));
    query.push(pair("g_tk", decimal_string(g_tk).as_str()));
    assert(pairs_model(query@) =~= query_of(uin@, g_tk as int, offset as int));
    query
}

/// The page that a request says it comes from.
pub fn feeds2_referer(uin: &str) -> (r: String)
    ensures
        r@ == referer_of(uin@),
{
    let mut referer = "https://user.qzone.qq.com/".to_owned();
    referer.append(uin);
    referer.append("/main");
    referer
}

/// The headers of a request of the session with the given cookies.
pub fn feeds2_headers(cookie_header: &str, referer: &str) -> (r: Vec<(String, String)>)
    ensures
        pairs_model(r@) == headers_of(cookie_header@, referer@),
{
    let mut headers: Vec<(String, String)> = Vec::new();
    headers.push(pair("accept", "*/*"));
    headers.push(pair("accept-language", "zh-CN,zh;q=0.9,en;q=0.8"));
    headers.push(pair("cookie", cookie_header));
    headers.push(pair("referer", referer));
    headers.push(pair("user-agent", FEEDS2_DESKTOP_UA));
    headers.push(pair("sec-fetch-dest", "empty"));
    headers.push(pair("sec-fetch-mode", "cors"));
    headers.push(pair("sec-fetch-site", "same-origin"));
    assert(pairs_model(headers@) =~= headers_of(cookie_header@, referer@));
    headers
}

/// Where a fetch stands: which attempt it is, and which of the two addresses is asked next.
#[derive(Debug, Clone, Copy, PartialEq, Eq, Structural)]
pub struct FetchState {
    pub attempt: u32,
    pub legacy: bool,
}

/// What became of a request: it failed, or it was answered with a status and a body. The body
/// itself may have failed to arrive.
pub enum FetchEvent {
    Failed { error: String },
    Answered { code: u16, status: String, body: Result<String, String> },
}

/// What to do next: ask again after waiting, or stop with the body and the HTML made of it, or
/// with an error.
pub enum FetchStep {
    Retry { state: FetchState, wait_seconds: u64 },
    Finished { outcome: Result<(String, String), String> },
}

/// What became of a request, as plain values.
pub ghost enum EventModel {
    Failed { error: Seq<char> },
    Answered { code: int, status: Seq<char>, body: Result<Seq<char>, Seq<char>> },
}

/// What to do next, as plain values.
pub ghost enum StepModel {
    Retry { state: FetchState, wait_seconds: int },
    Finished { outcome: Result<(Seq<char>, Seq<char>), Seq<char>> },
}

impl View for FetchEvent {
    type V = EventModel;

    open spec fn view(&self) -> EventModel {
        match *self {
            FetchEvent::Failed { error } => EventModel::Failed { error: error@ },
            FetchEvent::Answered { code, status, body } => EventModel::Answered {
                code: code as int,
                status: status@,
                body: match body {
                    Ok(text) => Ok(text@),
                    Err(error) => Err(error@),
                },
            },
        }
    }
}

impl View for FetchStep {
    type V = StepModel;

    open spec fn view(&self) -> StepModel {
        match *self {
            FetchStep::Retry { state, wait_seconds } => StepModel::Retry {
                state,
                wait_seconds: wait_seconds as int,
            },
            FetchStep::Finished { outcome } => StepModel::Finished {
                outcome: match outcome {
                    Ok((raw, html)) => Ok((raw@, html@)),
                    Err(error) => Err(error@),
                },
            },
        }
    }
}

impl FetchState {
    /// Whether there is such a state.
    pub open spec fn wf(self) -> bool {
        1 <= self.attempt <= FEEDS2_ATTEMPTS
    }

    /// Requests still allowed, the next one included.
    pub open spec fn requests_left(self) -> int {
        2 * (FEEDS2_ATTEMPTS - self.attempt) + if self.legacy {
            1int
        } else {
            2int
        }
    }

    /// The state before the first request.
    pub open spec fn first() -> FetchState {
        FetchState { attempt: 1, legacy: false }
    }

    /// The state before the first request.
    pub fn start() -> (r: FetchState)
        ensures
            r == FetchState::first(),
            r.wf(),
    {
        FetchState { attempt: 1, legacy: false }
    }

    /// The address to ask.
    pub fn url(&self) -> (r: &'static str)
        ensures
            r@ == if self.legacy {
                FEEDS2_LEGACY_URL@
            } else {
                FEEDS2_URL@
            },
    {
        if self.legacy {
            FEEDS2_LEGACY_URL
        } else {
            FEEDS2_URL
        }
    }
}

/// The text of a body; one that failed to arrive has the text of its error instead.
pub open spec fn body_text(body: Result<Seq<char>, Seq<char>>) -> Seq<char> {
    match body {
        Ok(text) => text,
        Err(error) => "读取 feeds2 响应失败："@ + error,
    }
}

/// Whether a status code means success.
pub open spec fn is_success(code: int) -> bool {
    200 <= code < 300
}

/// What an event decides at once: a body that can be used, or the end of the session. Nothing
/// is decided by a failure, a status without success, or a page of the firewall.
pub open spec fn decision(event: EventModel) -> Option<Result<(Seq<char>, Seq<char>), Seq<char>>> {
    match event {
        EventModel::Failed { error } => None,
        EventModel::Answered { code, status, body } => {
            let text = body_text(body);
            if !is_success(code) || mentions(text, WAF_HOST@) {
                None
            } else if mentions(text, NEED_LOGIN@) {
                Some(Err("feeds2 补充源需要重新登录 QQ 空间"@))
            } else {
                Some(Ok((text, processed(text))))
            }
        },
    }
}

/// What is reported of an event that decides nothing, if it is the last one.
pub open spec fn complaint(event: EventModel) -> Seq<char> {
    match event {
        EventModel::Failed { error } => "feeds2 请求失败："@ + error,
        EventModel::Answered { code, status, body } => if is_success(code) {
            "feeds2 请求被腾讯 WAF 拦截"@
        } else {
            "feeds2 补充源 HTTP "@ + status
        },
    }
}

/// What to do after an event: stop where it decides; otherwise ask the other address, or begin
/// the next attempt after twice as many seconds as there were attempts, or give up after the
/// last.
pub open spec fn step_after(state: FetchState, event: EventModel) -> StepModel {
    match decision(event) {
        Some(outcome) => StepModel::Finished { outcome },
        None => if !state.legacy {
            StepModel::Retry {
                state: FetchState { attempt: state.attempt, legacy: true },
                wait_seconds: 0,
            }
        } else if state.attempt < FEEDS2_ATTEMPTS {
            StepModel::Retry {
                state: FetchState { attempt: (state.attempt + 1) as u32, legacy: false },
                wait_seconds: state.attempt * 2,
            }
        } else {
            StepModel::Finished { outcome: Err(complaint(event)) }
        },
    }
}

/// What comes of a fetch with the given events, one for each request: its outcome, or nothing
/// while it goes on.
pub open spec fn outcome_of(state: FetchState, events: Seq<EventModel>) -> Option<
    Result<(Seq<char>, Seq<char>), Seq<char>>,
>
    decreases events.len(),
{
    if events.len() == 0 {
        None
    } else {
        match step_after(state, events[0]) {
            StepModel::Finished { outcome } => Some(outcome),
            StepModel::Retry { state, wait_seconds } => outcome_of(state, events.skip(1)),
        }
    }
}

fn after_failure(state: FetchState, last_error: String) -> (r: FetchStep)
    requires
        state.wf(),
    ensures
        r@ == if !state.legacy {
            StepModel::Retry {
                state: FetchState { attempt: state.attempt, legacy: true },
                wait_seconds: 0,
            }
        } else if state.attempt < FEEDS2_ATTEMPTS {
            StepModel::Retry {
                state: FetchState { attempt: (state.attempt + 1) as u32, legacy: false },
                wait_seconds: state.attempt * 2,
            }
        } else {
            StepModel::Finished { outcome: Err(last_error@) }
        },
{
    if !state.legacy {
        FetchStep::Retry {
            state: FetchState { attempt: state.attempt, legacy: true },
            wait_seconds: 0,
        }
    } else if state.attempt < FEEDS2_ATTEMPTS {
        FetchStep::Retry {
            state: FetchState { attempt: state.attempt + 1, legacy: false },
            wait_seconds: state.attempt as u64 * 2,
        }
    } else {
        FetchStep::Finished { outcome: Err(last_error) }
    }
}

fn prefixed(prefix: &str, text: &str) -> (r: String)
    ensures
        r@ == prefix@ + text@,
{
    let mut out = prefix.to_owned();
    out.append(text);
    out
}

/// What to do after an event.
pub fn next_step(state: FetchState, event: FetchEvent) -> (r: FetchStep)
    requires
        state.wf(),
    ensures
        r@ == step_after(state, event@),
        r matches FetchStep::Retry { state: next, wait_seconds } ==> next.wf(),
{
    match event {
        FetchEvent::Failed { error } => after_failure(
            state,
            prefixed("feeds2 请求失败：", error.as_str()),
        ),
        FetchEvent::Answered { code, status, body } => {
            let text = match body {
                Ok(text) => text,
                Err(error) => prefixed("读取 feeds2 响应失败：", error.as_str()),
            };
            if code < 200 || code >= 300 {
                after_failure(state, prefixed("feeds2 补充源 HTTP ", status.as_str()))
            } else if contains(text.as_str(), WAF_HOST) {
                after_failure(state, "feeds2 请求被腾讯 WAF 拦截".to_owned())
            } else if contains(text.as_str(), NEED_LOGIN) {
                FetchStep::Finished {
                    outcome: Err("feeds2 补充源需要重新登录 QQ 空间".to_owned()),
                }
            } else {
                let html = process_feed_response(text.as_str());
                FetchStep::Finished { outcome: Ok((text, html)) }
            }
        },
    }
}

/// Every request that does not end the fetch leaves one request fewer.
pub proof fn law_requests_run_out(state: FetchState, event: EventModel)
    requires
        state.wf(),
    ensures
        step_after(state, event) matches StepModel::Retry { state: next, wait_seconds } ==> {
            &&& next.wf()
            &&& next.requests_left() == state.requests_left() - 1
            &&& 0 <= wait_seconds <= 2 * (FEEDS2_ATTEMPTS - 1)
        },
{
}

/// As many events as there are requests left always bring an outcome.
pub proof fn law_fetch_ends(state: FetchState, events: Seq<EventModel>)
    requires
        state.wf(),
        events.len() >= state.requests_left(),
    ensures
        outcome_of(state, events) is Some,
    decreases events.len(),
{
    match step_after(state, events[0]) {
        StepModel::Finished { outcome } => {},
        StepModel::Retry { state: next, wait_seconds } => {
            law_requests_run_out(state, events[0]);
            law_fetch_ends(next, events.skip(1));
        },
    }
}

/// The first event that decides brings the outcome, provided that it comes within the requests
/// left.
pub proof fn law_first_decision_counts(state: FetchState, events: Seq<EventModel>, k: int)
    requires
        state.wf(),
        0 <= k < events.len(),
        k < state.requests_left(),
        forall|i: int| 0 <= i < k ==> decision(#[trigger] events[i]) is None,
        decision(events[k]) is Some,
    ensures
        outcome_of(state, events) == decision(events[k]),
    decreases k,
{
    if k > 0 {
        assert(decision(events[0]) is None);
        let next = match step_after(state, events[0]) {
            StepModel::Retry { state: next, wait_seconds } => next,
            _ => state,
        };
        law_requests_run_out(state, events[0]);
        assert forall|i: int| 0 <= i < k - 1 implies decision(
            #[trigger] events.skip(1)[i],
        ) is None by {
            assert(events.skip(1)[i] == events[i + 1]);
        }
        law_first_decision_counts(next, events.skip(1), k - 1);
    }
}

/// Where no request decides anything, the fetch ends with what the last one is reported as.
pub proof fn law_last_failure_is_reported(state: FetchState, events: Seq<EventModel>)
    requires
        state.wf(),
        events.len() >= state.requests_left(),
        forall|i: int| 0 <= i < state.requests_left() ==> decision(#[trigger] events[i]) is None,
    ensures
        outcome_of(state, events) == Some(
            Err::<(Seq<char>, Seq<char>), Seq<char>>(complaint(events[state.requests_left() - 1])),
        ),
    decreases state.requests_left(),
{
    assert(decision(events[0]) is None);
    match step_after(state, events[0]) {
        StepModel::Finished { outcome } => {},
        StepModel::Retry { state: next, wait_seconds } => {
            law_requests_run_out(state, events[0]);
            assert forall|i: int| 0 <= i < next.requests_left() implies decision(
                #[trigger] events.skip(1)[i],
            ) is None by {
                assert(events.skip(1)[i] == events[i + 1]);
            }
            law_last_failure_is_reported(next, events.skip(1));
        },
    }
}

/// A fetch asks six times at most.
pub proof fn law_six_requests_at_most(events: Seq<EventModel>)
    requires
        events.len() >= 6,
    ensures
        outcome_of(FetchState::first(), events) is Some,
{
    law_fetch_ends(FetchState::first(), events);
}

/// A body that is handed on is no page of the firewall and does not ask for a login, and the
/// HTML is the one that it holds.
pub proof fn law_usable_body_is_clean(state: FetchState, event: EventModel)
    ensures
        step_after(state, event) matches StepModel::Finished { outcome: Ok((raw, html)) } ==> {
            &&& !mentions(raw, WAF_HOST@)
            &&& !mentions(raw, NEED_LOGIN@)
            &&& html == processed(raw)
        },
{
}

/// Seconds that a fetch waits between its requests.
pub open spec fn seconds_waited(state: FetchState, events: Seq<EventModel>) -> int
    decreases events.len(),
{
    if events.len() == 0 {
        0
    } else {
        match step_after(state, events[0]) {
            StepModel::Finished { outcome } => 0,
            StepModel::Retry { state, wait_seconds } => wait_seconds + seconds_waited(
                state,
                events.skip(1),
            ),
        }
    }
}

/// A fetch waits six seconds at most, whatever comes back: two after the first attempt and four
/// after the second.
pub proof fn law_waits_six_seconds_at_most(events: Seq<EventModel>)
    ensures
        0 <= seconds_waited(FetchState::first(), events) <= 6,
{
    lemma_seconds_left(FetchState::first(), events);
}

proof fn lemma_seconds_left(state: FetchState, events: Seq<EventModel>)
    requires
        state.wf(),
    ensures
        0 <= seconds_waited(state, events) <= if state.attempt == 1 {
            6int
        } else if state.attempt == 2 {
            4int
        } else {
            0int
        },
    decreases events.len(),
{
    if events.len() > 0 {
        match step_after(state, events[0]) {
            StepModel::Finished { outcome } => {},
            StepModel::Retry { state: next, wait_seconds } => {
                lemma_seconds_left(next, events.skip(1));
            },
        }
    }
}

/// Events and steps are viewed field by field.
pub proof fn law_view_of_events(event: FetchEvent, step: FetchStep)
    ensures
        match event {
            FetchEvent::Failed { error } => event@ == (EventModel::Failed { error: error@ }),
            FetchEvent::Answered { code, status, body: Ok(text) } => event@
                == (EventModel::Answered { code: code as int, status: status@, body: Ok(text@) }),
            FetchEvent::Answered { code, status, body: Err(error) } => event@
                == (EventModel::Answered { code: code as int, status: status@, body: Err(error@) }),
        },
        match step {
            FetchStep::Retry { state, wait_seconds } => step@ == (StepModel::Retry {
                state,
                wait_seconds: wait_seconds as int,
            }),
            FetchStep::Finished { outcome: Ok((raw, html)) } => step@ == (StepModel::Finished {
                outcome: Ok((raw@, html@)),
            }),
            FetchStep::Finished { outcome: Err(error) } => step@ == (StepModel::Finished {
                outcome: Err(error@),
            }),
        },
{
}

/// Whether a step goes on as a fetch does behind a request that decided nothing: the other
/// address is asked at once, then both again after two seconds and after four, and then the fetch
/// ends with the given error.
pub open spec fn goes_on_from(step: StepModel, state: FetchState, error: Seq<char>) -> bool {
    &&& !state.legacy ==> step == (StepModel::Retry {
        state: FetchState { attempt: state.attempt, legacy: true },
        wait_seconds: 0,
    })
    &&& state.legacy && state.attempt == 1 ==> step == (StepModel::Retry {
        state: FetchState { attempt: 2, legacy: false },
        wait_seconds: 2,
    })
    &&& state.legacy && state.attempt == 2 ==> step == (StepModel::Retry {
        state: FetchState { attempt: 3, legacy: false },
        wait_seconds: 4,
    })
    &&& state.legacy && state.attempt == 3 ==> step == (StepModel::Finished {
        outcome: Err(error),
    })
}

/// A request that failed decides nothing: the fetch goes on, and its error is reported if it was
/// the last.
pub proof fn law_failure_is_tried_again(state: FetchState, error: Seq<char>)
    requires
        1 <= state.attempt <= 3,
    ensures
        goes_on_from(
            step_after(state, EventModel::Failed { error }),
            state,
            "feeds2 请求失败："@ + error,
        ),
{
}

/// An answer with a status code outside 200 to 299 decides nothing, whatever its body: the fetch
/// goes on, and the status is reported if it was the last.
pub proof fn law_refused_request_is_tried_again(
    state: FetchState,
    code: int,
    status: Seq<char>,
    body: Result<Seq<char>, Seq<char>>,
)
    requires
        1 <= state.attempt <= 3,
        code < 200 || code >= 300,
    ensures
        goes_on_from(
            step_after(state, EventModel::Answered { code, status, body }),
            state,
            "feeds2 补充源 HTTP "@ + status,
        ),
        state.attempt < 3 || !state.legacy ==> step_after(
            state,
            EventModel::Answered { code, status, body },
        ) is Retry,
{
}

/// A page of the firewall decides nothing, although its code is one of success: the fetch goes
/// on, and the block is reported if it was the last.
pub proof fn law_blocked_request_is_tried_again(
    state: FetchState,
    code: int,
    status: Seq<char>,
    before: Seq<char>,
    after: Seq<char>,
)
    requires
        1 <= state.attempt <= 3,
        200 <= code < 300,
    ensures
        goes_on_from(
            step_after(
                state,
                EventModel::Answered {
                    code,
                    status,
                    body: Ok(before + "waf.tencent.com"@ + after),
                },
            ),
            state,
            "feeds2 请求被腾讯 WAF 拦截"@,
        ),
{
    law_mentioned_part_splits_text(before, "waf.tencent.com"@);
}

/// A body that the firewall let through ends the fetch in every state: with an error if it asks
/// for a login, and otherwise with the body as it came and what it gives as HTML.
pub proof fn law_usable_answer_ends_the_fetch(
    state: FetchState,
    code: int,
    status: Seq<char>,
    text: Seq<char>,
)
    requires
        200 <= code < 300,
        !mentions(text, "waf.tencent.com"@),
    ensures
        ({
            let step = step_after(state, EventModel::Answered { code, status, body: Ok(text) });
            &&& mentions(text, "need login"@) ==> step == (StepModel::Finished {
                outcome: Err("feeds2 补充源需要重新登录 QQ 空间"@),
            })
            &&& !mentions(text, "need login"@) ==> step == (StepModel::Finished {
                outcome: Ok((text, processed(text))),
            })
        }),
{
}

/// A body that failed to arrive counts as one that says so, with the error behind it.
pub proof fn law_lost_body_has_the_text_of_its_error(
    state: FetchState,
    code: int,
    status: Seq<char>,
    error: Seq<char>,
)
    ensures
        step_after(state, EventModel::Answered { code, status, body: Err(error) }) == step_after(
            state,
            EventModel::Answered { code, status, body: Ok("读取 feeds2 响应失败："@ + error) },
        ),
{
}

/// A fetch starts with its first attempt at the first address, and asks six times while nothing
/// is decided: both addresses in turn, three times.
pub proof fn law_addresses_are_asked_in_turn(events: Seq<EventModel>)
    requires
        events.len() == 5,
        forall|i: int| 0 <= i < 5 ==> (#[trigger] events[i]) is Failed,
    ensures
        FetchState::first() == (FetchState { attempt: 1, legacy: false }),
        outcome_of(FetchState::first(), events) is None,
        seconds_waited(FetchState::first(), events) == 6,
        FEEDS2_URL@
            == "https://h5.qzone.qq.com/proxy/domain/ic2.qzone.qq.com/cgi-bin/feeds/feeds2_html_pav_all"@,
        FEEDS2_LEGACY_URL@
            == "https://user.qzone.qq.com/proxy/domain/ic2.qzone.qq.com/cgi-bin/feeds/feeds2_html_pav_all"@,
{
    reveal_with_fuel(outcome_of, 6);
    reveal_with_fuel(seconds_waited, 6);
    assert(events[0] is Failed && events[1] is Failed && events[2] is Failed && events[3] is Failed
        && events[4] is Failed);
    assert(events.skip(1)[0] == events[1]);
    assert(events.skip(1).skip(1)[0] == events[2]);
    assert(events.skip(1).skip(1).skip(1)[0] == events[3]);
    assert(events.skip(1).skip(1).skip(1).skip(1)[0] == events[4]);
}

/// A request names the account, the offset, the page's size and the session's token; the other
/// parameters are fixed, and there are fourteen in all.
pub proof fn law_query_names_the_page(uin: Seq<char>, g_tk: int, offset: int)
    ensures
        ({
            let query = query_of(uin, g_tk, offset);
            &&& query.len() == 14
            &&& query.contains(("uin"@, uin))
            &&& query.contains(("begin_time"@, "0"@))
            &&& query.contains(("end_time"@, "0"@))
            &&& query.contains(("getappnotification"@, "1"@))
            &&& query.contains(("getnotifi"@, "1"@))
            &&& query.contains(("has_get_key"@, "0"@))
            &&& query.contains(("offset"@, decimal(offset)))
            &&& query.contains(("set"@, "0"@))
            &&& query.contains(("count"@, decimal(30)))
            &&& query.contains(("useutf8"@, "1"@))
            &&& query.contains(("outputhtmlfeed"@, "1"@))
            &&& query.contains(("scope"@, "1"@))
            &&& query.contains(("format"@, "jsonp"@))
            &&& query.contains(("g_tk"@, decimal(g_tk)))
        }),
{
    let query = query_of(uin, g_tk, offset);
    assert(query[0] == ("uin"@, uin));
    assert(query[1] == ("begin_time"@, "0"@));
    assert(query[2] == ("end_time"@, "0"@));
    assert(query[3] == ("getappnotification"@, "1"@));
    assert(query[4] == ("getnotifi"@, "1"@));
    assert(query[5] == ("has_get_key"@, "0"@));
    assert(query[6] == ("offset"@, decimal(offset)));
    assert(query[7] == ("set"@, "0"@));
    assert(query[8] == ("count"@, decimal(30)));
    assert(query[9] == ("useutf8"@, "1"@));
    assert(query[10] == ("outputhtmlfeed"@, "1"@));
    assert(query[11] == ("scope"@, "1"@));
    assert(query[12] == ("format"@, "jsonp"@));
    assert(query[13] == ("g_tk"@, decimal(g_tk)));
}

/// A request carries the session's cookies and the page it says it comes from, which is the
/// account's own; the other headers are fixed, and there are eight in all.
pub proof fn law_headers_carry_the_session(
    cookie_header: Seq<char>,
    referer: Seq<char>,
    uin: Seq<char>,
)
    ensures
        ({
            let headers = headers_of(cookie_header, referer);
            &&& headers.len() == 8
            &&& headers.contains(("accept"@, "*/*"@))
            &&& headers.contains(("accept-language"@, "zh-CN,zh;q=0.9,en;q=0.8"@))
            &&& headers.contains(("cookie"@, cookie_header))
            &&& headers.contains(("referer"@, referer))
            &&& headers.contains(
                (
                    "user-agent"@,
                    "Mozilla/5.0 (Windows NT 10.0; Win64; x64) AppleWebKit/537.36 (KHTML, like Gecko) Chrome/128.0.0.0 Safari/537.36"@,
                ),
            )
            &&& headers.contains(("sec-fetch-dest"@, "empty"@))
            &&& headers.contains(("sec-fetch-mode"@, "cors"@))
            &&& headers.contains(("sec-fetch-site"@, "same-origin"@))
        }),
        referer_of(uin) == "https://user.qzone.qq.com/"@ + uin + "/main"@,
{
    let headers = headers_of(cookie_header, referer);
    assert(headers[0] == ("accept"@, "*/*"@));
    assert(headers[1] == ("accept-language"@, "zh-CN,zh;q=0.9,en;q=0.8"@));
    assert(headers[2] == ("cookie"@, cookie_header));
    assert(headers[3] == ("referer"@, referer));
    assert(headers[4] == ("user-agent"@, FEEDS2_DESKTOP_UA@));
    assert(headers[5] == ("sec-fetch-dest"@, "empty"@));
    assert(headers[6] == ("sec-fetch-mode"@, "cors"@));
    assert(headers[7] == ("sec-fetch-site"@, "same-origin"@));
}

} // verus!
