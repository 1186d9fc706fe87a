//! Activities found on a feed page, and the feed records made of them.

use vstd::prelude::*;
use vstd::utf8::encode_utf8;

use crate::numbers::{decimal, decimal_string, hex_digits, is_digit, law_hex_shape, push_hex};
use crate::text::{contains, mentions, same_text, texts};
use crate::value::{law_entry_is_first, list_model, Entries, FeedValue, ValueModel};

verus! {

/// What someone did.
#[derive(Debug, Clone, Copy, PartialEq, Eq, Structural)]
pub enum ActivityKind {
    Moment,
    Forward,
    Like,
    Comment,
    BoardMessage,
    BoardReply,
    View,
    Other,
}

/// One activity of a feed page.
#[derive(Debug, Clone)]
pub struct ParsedActivity {
    pub sender_uin: String,
    pub sender_name: String,
    pub content: String,
    pub time_text: String,
    pub event_time: i64,
    pub image_urls: Vec<String>,
    pub kind: ActivityKind,
}

/// What an activity holds.
pub ghost struct ActivityModel {
    pub sender_uin: Seq<char>,
    pub sender_name: Seq<char>,
    pub content: Seq<char>,
    pub time_text: Seq<char>,
    pub event_time: int,
    pub image_urls: Seq<Seq<char>>,
    pub kind: ActivityKind,
}

impl View for ParsedActivity {
    type V = ActivityModel;

    open spec fn view(&self) -> ActivityModel {
        ActivityModel {
            sender_uin: self.sender_uin@,
            sender_name: self.sender_name@,
            content: self.content@,
            time_text: self.time_text@,
            event_time: self.event_time as int,
            image_urls: texts(self.image_urls@),
            kind: self.kind,
        }
    }
}

/// The kind of an activity: the first rule that fits its state text, and where none does,
/// whether it reprints something.
pub open spec fn kind_of(
    state_text: Seq<char>,
    sender_uin: Seq<char>,
    owner_uin: Seq<char>,
    has_reprint: bool,
) -> ActivityKind {
    if mentions(state_text, "留言"@) && mentions(state_text, "回复"@) {
        ActivityKind::BoardReply
    } else if mentions(state_text, "留言"@) {
        ActivityKind::BoardMessage
    } else if mentions(state_text, "赞了我的说说"@) {
        ActivityKind::Like
    } else if mentions(state_text, "查看了我的说说"@) || mentions(state_text, "访问了我的主页"@) {
        ActivityKind::View
    } else if mentions(state_text, "评论"@) || mentions(state_text, "回复"@) {
        ActivityKind::Comment
    } else if mentions(state_text, "发表了说说"@) || mentions(state_text, "发表说说"@) {
        ActivityKind::Moment
    } else if mentions(state_text, "说说"@) && sender_uin == owner_uin {
        ActivityKind::Moment
    } else if has_reprint {
        ActivityKind::Forward
    } else {
        ActivityKind::Other
    }
}

/// The number by which a feed record names its kind.
pub open spec fn event_type(kind: ActivityKind) -> int {
    match kind {
        ActivityKind::Like => 217,
        ActivityKind::Comment => 2,
        ActivityKind::BoardMessage => 334,
        ActivityKind::BoardReply => 334,
        ActivityKind::View => 218,
        ActivityKind::Forward => 312,
        ActivityKind::Moment => 202,
        ActivityKind::Other => 0,
    }
}

/// The application that a record belongs to: the message board has its own.
pub open spec fn app_id(kind: ActivityKind) -> int {
    match kind {
        ActivityKind::BoardMessage => 334,
        ActivityKind::BoardReply => 334,
        _ => 311,
    }
}

/// The title of a record.
pub open spec fn title_of(kind: ActivityKind) -> Option<Seq<char>> {
    match kind {
        ActivityKind::Like => Some("赞了我"@),
        ActivityKind::BoardMessage => Some("留言"@),
        ActivityKind::BoardReply => Some("留言"@),
        ActivityKind::View => Some("查看了我的说说"@),
        ActivityKind::Forward => Some("转发了"@),
        _ => None,
    }
}

/// Whether a record repeats the content as its summary.
pub open spec fn has_summary(kind: ActivityKind) -> bool {
    kind == ActivityKind::Comment || kind == ActivityKind::BoardMessage || kind
        == ActivityKind::BoardReply
}

/// Whether the owner of the feed wrote what the activity is about, and not its sender.
pub open spec fn is_about_owner(kind: ActivityKind) -> bool {
    kind == ActivityKind::Comment || kind == ActivityKind::View || kind == ActivityKind::Other
}

/// Who wrote what the activity is about.
pub open spec fn author_uin(activity: ActivityModel, owner_uin: Seq<char>) -> Seq<char> {
    if is_about_owner(activity.kind) {
        owner_uin
    } else {
        activity.sender_uin
    }
}

/// The name of who wrote what the activity is about; the owner's is left empty.
pub open spec fn author_name(activity: ActivityModel) -> Seq<char> {
    if is_about_owner(activity.kind) {
        Seq::empty()
    } else {
        activity.sender_name
    }
}

/// The start value of the FNV-1a hash.
pub const FNV_OFFSET: u64 = 0xcbf29ce484222325;

/// The factor of the FNV-1a hash.
pub const FNV_PRIME: u64 = 0x100000001b3;

/// The 64-bit FNV-1a hash: from the start value on, every byte is mixed in by exclusive or and
/// the result multiplied by the factor, modulo two to the 64.
pub open spec fn fnv1a(bytes: Seq<u8>) -> u64
    decreases bytes.len(),
{
    if bytes.len() == 0 {
        FNV_OFFSET
    } else {
        (fnv1a(bytes.drop_last()) ^ (bytes.last() as u64)).wrapping_mul(FNV_PRIME)
    }
}

/// What a record's cell id is a hash of.
pub open spec fn cell_seed(
    owner_uin: Seq<char>,
    content: Seq<char>,
    author: Seq<char>,
    published_at: int,
) -> Seq<char> {
    owner_uin + "|"@ + content + "|"@ + author + "|"@ + decimal(published_at)
}

/// The cell id of a record: a prefix and sixteen hexadecimal digits.
pub open spec fn cell_id_of(
    owner_uin: Seq<char>,
    content: Seq<char>,
    author: Seq<char>,
    published_at: int,
) -> Seq<char> {
    "feeds2:"@ + hex_digits(
        fnv1a(encode_utf8(cell_seed(owner_uin, content, author, published_at))) as int,
        16,
    )
}

/// The cell id of an activity's record.
pub open spec fn activity_cell_id(activity: ActivityModel, owner_uin: Seq<char>) -> Seq<char> {
    cell_id_of(
        owner_uin,
        activity.content,
        author_uin(activity, owner_uin),
        activity.event_time,
    )
}

/// The key of an activity's record.
pub open spec fn feed_key_of(activity: ActivityModel, owner_uin: Seq<char>) -> Seq<char> {
    "feeds2:"@ + decimal(event_type(activity.kind)) + ":"@ + activity_cell_id(activity, owner_uin)
        + ":"@ + decimal(activity.event_time) + ":"@ + activity.sender_uin
}

/// One person of a record.
pub open spec fn user_value(uin: Seq<char>, name: Seq<char>) -> ValueModel {
    ValueModel::Object(
        seq![("uin"@, ValueModel::Text(uin)), ("nickname"@, ValueModel::Text(name))],
    )
}

/// An object with one entry.
pub open spec fn single_value(key: Seq<char>, value: ValueModel) -> ValueModel {
    ValueModel::Object(seq![(key, value)])
}

/// One picture of a record.
pub open spec fn picture_value(url: Seq<char>) -> ValueModel {
    single_value(
        "photourl"@,
        ValueModel::List(seq![single_value("url"@, ValueModel::Text(url))]),
    )
}

/// The pictures of a record; null where there are none.
pub open spec fn pictures_value(urls: Seq<Seq<char>>) -> ValueModel {
    if urls.len() == 0 {
        ValueModel::Null
    } else {
        single_value(
            "picdata"@,
            single_value(
                "pic"@,
                ValueModel::List(urls.map_values(|url: Seq<char>| picture_value(url))),
            ),
        )
    }
}

/// The comment of a record; null for all kinds but comments.
pub open spec fn comment_value(activity: ActivityModel) -> ValueModel {
    if activity.kind == ActivityKind::Comment {
        single_value(
            "main_comment"@,
            ValueModel::Object(
                seq![
                    ("content"@, ValueModel::Text(activity.content)),
                    ("date"@, ValueModel::Number(activity.event_time)),
                    ("user"@, user_value(activity.sender_uin, activity.sender_name)),
                ],
            ),
        )
    } else {
        ValueModel::Null
    }
}

/// An object with one text, or null where there is no text.
pub open spec fn optional_text(key: Seq<char>, text: Option<Seq<char>>) -> ValueModel {
    match text {
        Some(text) => single_value(key, ValueModel::Text(text)),
        None => ValueModel::Null,
    }
}

/// The part of a record that all sources share.
pub open spec fn comm_value(activity: ActivityModel, owner_uin: Seq<char>) -> ValueModel {
    ValueModel::Object(
        seq![
            ("feedskey"@, ValueModel::Text(feed_key_of(activity, owner_uin))),
            ("subid"@, ValueModel::Number(event_type(activity.kind))),
            ("time"@, ValueModel::Number(activity.event_time)),
        ],
    )
}

/// The part of a record that says what the activity is about.
pub open spec fn original_value(activity: ActivityModel, owner_uin: Seq<char>) -> ValueModel {
    ValueModel::Object(
        seq![
            (
                "cell_id"@,
                single_value("cellid"@, ValueModel::Text(activity_cell_id(activity, owner_uin))),
            ),
            ("cell_summary"@, single_value("summary"@, ValueModel::Text(activity.content))),
            (
                "cell_userinfo"@,
                single_value(
                    "user"@,
                    user_value(author_uin(activity, owner_uin), author_name(activity)),
                ),
            ),
            (
                "cell_comm"@,
                ValueModel::Object(
                    seq![
                        ("time"@, ValueModel::Number(activity.event_time)),
                        ("appid"@, ValueModel::Number(app_id(activity.kind))),
                        ("feedskey"@, ValueModel::Text(feed_key_of(activity, owner_uin))),
                    ],
                ),
            ),
            ("cell_pic"@, pictures_value(activity.image_urls)),
            ("cell_comment"@, comment_value(activity)),
        ],
    )
}

/// The feed record of an activity.
pub open spec fn feed_value(activity: ActivityModel, owner_uin: Seq<char>) -> ValueModel {
    ValueModel::Object(
        seq![
            ("comm"@, comm_value(activity, owner_uin)),
            ("original"@, original_value(activity, owner_uin)),
            ("title"@, optional_text("title"@, title_of(activity.kind))),
            (
                "summary"@,
                optional_text(
                    "summary"@,
                    if has_summary(activity.kind) {
                        Some(activity.content)
                    } else {
                        None
                    },
                ),
            ),
            (
                "userinfo"@,
                single_value("user"@, user_value(activity.sender_uin, activity.sender_name)),
            ),
            (
                "meta"@,
                ValueModel::Object(
                    seq![
                        ("source"@, ValueModel::Text("feeds2"@)),
                        ("timeText"@, ValueModel::Text(activity.time_text)),
                    ],
                ),
            ),
        ],
    )
}

/// The kind of an activity, by its state text, who sent it and whether it reprints something.
pub fn classify_activity(
    state_text: &str,
    sender_uin: &str,
    owner_uin: &str,
    has_reprint: bool,
) -> (kind: ActivityKind)
    ensures
        kind == kind_of(state_text@, sender_uin@, owner_uin@, has_reprint),
{
    if contains(state_text, "留言") && contains(state_text, "回复") {
        ActivityKind::BoardReply
    } else if contains(state_text, "留言") {
        ActivityKind::BoardMessage
    } else if contains(state_text, "赞了我的说说") {
        ActivityKind::Like
    } else if contains(state_text, "查看了我的说说") || contains(
        state_text,
        "访问了我的主页",
    ) {
        ActivityKind::View
    } else if contains(state_text, "评论") || contains(state_text, "回复") {
        ActivityKind::Comment
    } else if contains(state_text, "发表了说说") || contains(state_text, "发表说说") {
        ActivityKind::Moment
    } else if contains(state_text, "说说") && same_text(sender_uin, owner_uin) {
        ActivityKind::Moment
    } else if has_reprint {
        ActivityKind::Forward
    } else {
        ActivityKind::Other
    }
}

/// The 64-bit FNV-1a hash of the bytes.
pub fn fnv1a_hash(bytes: &[u8]) -> (hash: u64)
    ensures
        hash == fnv1a(bytes@),
{
    let mut hash: u64 = FNV_OFFSET;
    let mut i: usize = 0;
    while i < bytes.len()
        invariant
            i <= bytes@.len(),
            hash == fnv1a(bytes@.take(i as int)),
        decreases bytes@.len() - i,
    {
        hash = (hash ^ (bytes[i] as u64)).wrapping_mul(FNV_PRIME);
        i = i + 1;
        assert(bytes@.take(i as int).drop_last() =~= bytes@.take(i - 1));
    }
    assert(bytes@.take(i as int) =~= bytes@);
    hash
}

/// The cell id of a record.
pub fn synthetic_cell_id(
    owner_uin: &str,
    content: &str,
    author_uin: &str,
    published_at: i64,
) -> (id: String)
    ensures
        id@ == cell_id_of(owner_uin@, content@, author_uin@, published_at as int),
{
    let mut seed = owner_uin.to_owned();
    seed.append("|");
    seed.append(content);
    seed.append("|");
    seed.append(author_uin);
    seed.append("|");
    seed.append(decimal_string(published_at).as_str());
    let hash: u64 = fnv1a_hash(seed.as_str().as_bytes());
    let mut id = "feeds2:".to_owned();
    push_hex(&mut id, hash, 16);
    id
}

fn user(uin: &str, name: &str) -> (r: FeedValue)
    ensures
        r.model() == user_value(uin@, name@),
{
    let mut entries = Entries::new();
    entries.add("uin", FeedValue::text(uin));
    entries.add("nickname", FeedValue::text(name));
    assert(entries.model() =~= user_value(uin@, name@)->Object_0);
    entries.finish()
}

fn pictures(urls: &Vec<String>) -> (r: FeedValue)
    ensures
        r.model() == pictures_value(texts(urls@)),
{
    if urls.len() == 0 {
        return FeedValue::Null;
    }
    let mut list: Vec<FeedValue> = Vec::new();
    let ghost model = texts(urls@).map_values(|url: Seq<char>| picture_value(url));
    let mut i: usize = 0;
    while i < urls.len()
        invariant
            i <= urls@.len(),
            model == texts(urls@).map_values(|url: Seq<char>| picture_value(url)),
            list@.len() == i,
            list_model(list@) == model.take(i as int),
        decreases urls@.len() - i,
    {
        let ghost before = list@;
        let mut photos: Vec<FeedValue> = Vec::new();
        photos.push(FeedValue::single("url", FeedValue::text(urls[i].as_str())));
        proof {
            reveal_with_fuel(list_model, 2);
            assert(photos@.drop_last() =~= Seq::empty());
            assert(list_model(photos@) =~= seq![
                single_value("url"@, ValueModel::Text(urls@[i as int]@)),
            ]);
        }
        list.push(FeedValue::single("photourl", FeedValue::List(photos)));
        i = i + 1;
        assert(list@.drop_last() =~= before);
        assert(model.take(i as int) =~= model.take(i - 1).push(model[i - 1]));
    }
    assert(model.take(i as int) =~= model);
    FeedValue::single("picdata", FeedValue::single("pic", FeedValue::List(list)))
}

fn comment(activity: &ParsedActivity) -> (r: FeedValue)
    ensures
        r.model() == comment_value(activity@),
{
    if activity.kind != ActivityKind::Comment {
        return FeedValue::Null;
    }
    let mut entries = Entries::new();
    entries.add("content", FeedValue::text(activity.content.as_str()));
    entries.add("date", FeedValue::number(activity.event_time));
    entries.add("user", user(activity.sender_uin.as_str(), activity.sender_name.as_str()));
    assert(entries.model() =~= comment_value(activity@)->Object_0[0].1->Object_0);
    FeedValue::single("main_comment", entries.finish())
}

/// The feed record of an activity on the page of `owner_uin`.
pub fn activity_to_feed_value(activity: &ParsedActivity, owner_uin: &str) -> (r: FeedValue)
    ensures
        r.model() == feed_value(activity@, owner_uin@),
{
    proof {
        reveal_strlit("");
        assert(""@ =~= Seq::<char>::empty());
    }
    let sender_uin = activity.sender_uin.as_str();
    let sender_name = activity.sender_name.as_str();
    let (event_type, title, has_summary, original_author_uin, original_author_name, appid): (
        i64,
        Option<&str>,
        bool,
        &str,
        &str,
        i64,
    ) = match activity.kind {
        ActivityKind::Like => (217, Some("赞了我"), false, sender_uin, sender_name, 311),
        ActivityKind::Comment => (2, None, true, owner_uin, "", 311),
        ActivityKind::BoardMessage | ActivityKind::BoardReply => (
            334,
            Some("留言"),
            true,
            sender_uin,
            sender_name,
            334,
        ),
        ActivityKind::View => (218, Some("查看了我的说说"), false, owner_uin, "", 311),
        ActivityKind::Forward => (312, Some("转发了"), false, sender_uin, sender_name, 311),
        ActivityKind::Moment => (202, None, false, sender_uin, sender_name, 311),
        ActivityKind::Other => (0, None, false, owner_uin, "", 311),
    };
    let published_at: i64 = activity.event_time;
    let cell_id = synthetic_cell_id(
        owner_uin,
        activity.content.as_str(),
        original_author_uin,
        published_at,
    );
    let mut feed_key = "feeds2:".to_owned();
    feed_key.append(decimal_string(event_type).as_str());
    feed_key.append(":");
    feed_key.append(cell_id.as_str());
    feed_key.append(":");
    feed_key.append(decimal_string(published_at).as_str());
    feed_key.append(":");
    feed_key.append(sender_uin);

    let mut comm = Entries::new();
    comm.add("feedskey", FeedValue::text(feed_key.as_str()));
    comm.add("subid", FeedValue::number(event_type));
    comm.add("time", FeedValue::number(activity.event_time));
    assert(comm.model() =~= comm_value(activity@, owner_uin@)->Object_0);

    let mut cell_comm = Entries::new();
    cell_comm.add("time", FeedValue::number(published_at));
    cell_comm.add("appid", FeedValue::number(appid));
    cell_comm.add("feedskey", FeedValue::text(feed_key.as_str()));
    assert(cell_comm.model() =~= original_value(activity@, owner_uin@)->Object_0[3].1->Object_0);

    let mut original = Entries::new();
    original.add("cell_id", FeedValue::single("cellid", FeedValue::text(cell_id.as_str())));
    original.add(
        "cell_summary",
        FeedValue::single("summary", FeedValue::text(activity.content.as_str())),
    );
    original.add(
        "cell_userinfo",
        FeedValue::single("user", user(original_author_uin, original_author_name)),
    );
    original.add("cell_comm", cell_comm.finish());
    original.add("cell_pic", pictures(&activity.image_urls));
    original.add("cell_comment", comment(activity));
    assert(original.model() =~= original_value(activity@, owner_uin@)->Object_0);

    let mut meta = Entries::new();
    meta.add("source", FeedValue::text("feeds2"));
    meta.add("timeText", FeedValue::text(activity.time_text.as_str()));
    assert(meta.model() =~= feed_value(activity@, owner_uin@)->Object_0[5].1->Object_0);

    let mut feed = Entries::new();
    feed.add("comm", comm.finish());
    feed.add("original", original.finish());
    feed.add(
        "title",
        match title {
            Some(text) => FeedValue::single("title", FeedValue::text(text)),
            None => FeedValue::Null,
        },
    );
    feed.add(
        "summary",
        if has_summary {
            FeedValue::single("summary", FeedValue::text(activity.content.as_str()))
        } else {
            FeedValue::Null
        },
    );
    feed.add("userinfo", FeedValue::single("user", user(sender_uin, sender_name)));
    feed.add("meta", meta.finish());
    assert(feed.model() =~= feed_value(activity@, owner_uin@)->Object_0);
    feed.finish()
}

/// A cell id is the prefix and sixteen lower-case hexadecimal digits.
pub proof fn law_cell_id_shape(
    owner_uin: Seq<char>,
    content: Seq<char>,
    author: Seq<char>,
    published_at: int,
)
    ensures
        ({
            let id = cell_id_of(owner_uin, content, author, published_at);
            &&& id.len() == 23
            &&& "feeds2:"@.is_prefix_of(id)
            &&& forall|i: int|
                7 <= i < 23 ==> is_digit(#[trigger] id[i]) || 'a' <= id[i] <= 'f'
        }),
{
    reveal_strlit("feeds2:");
    let hash = fnv1a(encode_utf8(cell_seed(owner_uin, content, author, published_at))) as int;
    law_hex_shape(hash, 16);
    let id = cell_id_of(owner_uin, content, author, published_at);
    assert forall|i: int| 7 <= i < 23 implies is_digit(#[trigger] id[i]) || 'a' <= id[i]
        <= 'f' by {
        assert(id[i] == hex_digits(hash, 16)[i - 7]);
    }
}

/// What a record says of the message board comes before everything else in the state text.
pub proof fn law_board_words_win(
    state_text: Seq<char>,
    sender_uin: Seq<char>,
    owner_uin: Seq<char>,
    has_reprint: bool,
)
    requires
        mentions(state_text, "留言"@),
    ensures
        kind_of(state_text, sender_uin, owner_uin, has_reprint) == if mentions(
            state_text,
            "回复"@,
        ) {
            ActivityKind::BoardReply
        } else {
            ActivityKind::BoardMessage
        },
{
}

/// An item without a state text is a forward if it reprints something, and nothing in
/// particular otherwise.
pub proof fn law_silent_item(sender_uin: Seq<char>, owner_uin: Seq<char>, has_reprint: bool)
    ensures
        kind_of(Seq::empty(), sender_uin, owner_uin, has_reprint) == if has_reprint {
            ActivityKind::Forward
        } else {
            ActivityKind::Other
        },
{
    reveal_strlit("留言");
    reveal_strlit("赞了我的说说");
    reveal_strlit("查看了我的说说");
    reveal_strlit("访问了我的主页");
    reveal_strlit("评论");
    reveal_strlit("回复");
    reveal_strlit("发表了说说");
    reveal_strlit("发表说说");
    reveal_strlit("说说");
}

/// A record names its key, its kind and its time where readers look for them, and the same ones
/// in each place.
pub proof fn law_record_key_and_time(activity: ActivityModel, owner_uin: Seq<char>)
    ensures
        ({
            let record = feed_value(activity, owner_uin);
            let key = ValueModel::Text(feed_key_of(activity, owner_uin));
            let time = ValueModel::Number(activity.event_time);
            &&& record.at(seq!["comm"@, "feedskey"@]) == Some(key)
            &&& record.at(seq!["comm"@, "subid"@]) == Some(
                ValueModel::Number(event_type(activity.kind)),
            )
            &&& record.at(seq!["comm"@, "time"@]) == Some(time)
            &&& record.at(seq!["original"@, "cell_comm"@, "time"@]) == Some(time)
            &&& record.at(seq!["original"@, "cell_comm"@, "feedskey"@]) == Some(key)
            &&& record.at(seq!["original"@, "cell_id"@, "cellid"@]) == Some(
                ValueModel::Text(activity_cell_id(activity, owner_uin)),
            )
        }),
{
    reveal_strlit("comm");
    reveal_strlit("feedskey");
    reveal_strlit("subid");
    reveal_strlit("time");
    reveal_strlit("original");
    reveal_strlit("cell_id");
    reveal_strlit("cellid");
    reveal_strlit("cell_summary");
    reveal_strlit("cell_userinfo");
    reveal_strlit("cell_comm");
    reveal_strlit("appid");
    assert("comm"@.len() == 4 && "original"@.len() == 8);
    assert("feedskey"@.len() == 8 && "subid"@.len() == 5 && "time"@.len() == 4);
    assert("cell_id"@.len() == 7 && "cell_summary"@.len() == 12);
    assert("cell_userinfo"@.len() == 13 && "cell_comm"@.len() == 9 && "appid"@.len() == 5);
    let record = feed_value(activity, owner_uin);
    let comm = comm_value(activity, owner_uin);
    let original = original_value(activity, owner_uin);
    let cell_comm = original->Object_0[3].1;
    let cell_id = original->Object_0[0].1;
    law_entry_is_first(record->Object_0, "comm"@, 0);
    law_entry_is_first(record->Object_0, "original"@, 1);
    law_entry_is_first(comm->Object_0, "feedskey"@, 0);
    law_entry_is_first(comm->Object_0, "subid"@, 1);
    law_entry_is_first(comm->Object_0, "time"@, 2);
    law_entry_is_first(original->Object_0, "cell_id"@, 0);
    law_entry_is_first(original->Object_0, "cell_comm"@, 3);
    law_entry_is_first(cell_comm->Object_0, "time"@, 0);
    law_entry_is_first(cell_comm->Object_0, "feedskey"@, 2);
    law_entry_is_first(cell_id->Object_0, "cellid"@, 0);
    lemma_path_of_two(record, "comm"@, "feedskey"@);
    lemma_path_of_two(record, "comm"@, "subid"@);
    lemma_path_of_two(record, "comm"@, "time"@);
    lemma_path_of_three(record, "original"@, "cell_comm"@, "time"@);
    lemma_path_of_three(record, "original"@, "cell_comm"@, "feedskey"@);
    lemma_path_of_three(record, "original"@, "cell_id"@, "cellid"@);
}

proof fn lemma_path_of_two(value: ValueModel, a: Seq<char>, b: Seq<char>)
    ensures
        value.at(seq![a, b]) == match value.entry(a) {
            Some(inner) => inner.entry(b),
            None => None,
        },
{
    reveal_with_fuel(ValueModel::at, 3);
    assert(seq![a, b].skip(1) =~= seq![b]);
    assert(seq![b].skip(1) =~= Seq::empty());
}

proof fn lemma_path_of_three(value: ValueModel, a: Seq<char>, b: Seq<char>, c: Seq<char>)
    ensures
        value.at(seq![a, b, c]) == match value.entry(a) {
            Some(inner) => match inner.entry(b) {
                Some(innermost) => innermost.entry(c),
                None => None,
            },
            None => None,
        },
{
    assert(seq![a, b, c].skip(1) =~= seq![b, c]);
    match value.entry(a) {
        Some(inner) => {
            lemma_path_of_two(inner, b, c);
        },
        None => {},
    }
}

/// An activity is viewed field by field.
pub proof fn law_view_of_activity(activity: ParsedActivity)
    ensures
        activity@.sender_uin == activity.sender_uin@,
        activity@.sender_name == activity.sender_name@,
        activity@.content == activity.content@,
        activity@.time_text == activity.time_text@,
        activity@.event_time == activity.event_time,
        activity@.kind == activity.kind,
        activity@.image_urls.len() == activity.image_urls@.len(),
        forall|i: int|
            0 <= i < activity.image_urls@.len() ==> #[trigger] activity@.image_urls[i]
                == activity.image_urls@[i]@,
{
}

/// Which words make an activity of each kind, whatever else its state text says.
pub proof fn law_words_of_every_kind(
    state: Seq<char>,
    sender_uin: Seq<char>,
    owner_uin: Seq<char>,
    has_reprint: bool,
)
    ensures
        ({
            let kind = kind_of(state, sender_uin, owner_uin, has_reprint);
            let board = mentions(state, "留言"@);
            let reply = mentions(state, "回复"@);
            let like = mentions(state, "赞了我的说说"@);
            let view = mentions(state, "查看了我的说说"@) || mentions(state, "访问了我的主页"@);
            let comment = mentions(state, "评论"@) || reply;
            let moment = mentions(state, "发表了说说"@) || mentions(state, "发表说说"@) || (
            sender_uin == owner_uin && mentions(state, "说说"@));
            &&& kind == ActivityKind::BoardReply <==> board && reply
            &&& kind == ActivityKind::BoardMessage <==> board && !reply
            &&& kind == ActivityKind::Like <==> like && !board
            &&& kind == ActivityKind::View <==> view && !board && !like
            &&& kind == ActivityKind::Comment <==> comment && !board && !like && !view
            &&& kind == ActivityKind::Moment <==> moment && !board && !like && !view && !comment
            &&& kind == ActivityKind::Forward <==> has_reprint && !board && !like && !view
                && !comment && !moment
            &&& kind == ActivityKind::Other <==> !has_reprint && !board && !like && !view
                && !comment && !moment
        }),
{
}

/// The hash of no bytes is the start value, and every further byte is mixed in behind the others
/// by exclusive or and a multiplication modulo two to the 64.
pub proof fn law_hash_mixes_byte_by_byte(bytes: Seq<u8>, byte: u8)
    ensures
        fnv1a(Seq::empty()) == 0xcbf29ce484222325u64,
        fnv1a(bytes.push(byte)) as int == ((fnv1a(bytes) ^ (byte as u64)) as int * 0x100000001b3)
            % 0x1_0000_0000_0000_0000,
{
    assert(bytes.push(byte).drop_last() =~= bytes);
}

/// A cell id is the hash of the owner, the content, the author and the time, with bars between
/// them, in sixteen hexadecimal digits.
pub proof fn law_cell_id_is_a_hash(
    owner_uin: Seq<char>,
    content: Seq<char>,
    author: Seq<char>,
    published_at: int,
)
    ensures
        cell_id_of(owner_uin, content, author, published_at) == "feeds2:"@ + hex_digits(
            fnv1a(
                encode_utf8(
                    owner_uin + "|"@ + content + "|"@ + author + "|"@ + decimal(published_at),
                ),
            ) as int,
            16,
        ),
{
}

proof fn lemma_record_keys()
    ensures
        "comm"@ != "original"@ && "comm"@ != "title"@ && "comm"@ != "summary"@ && "comm"@
            != "userinfo"@ && "comm"@ != "meta"@,
        "original"@ != "title"@ && "original"@ != "summary"@ && "original"@ != "userinfo"@
            && "original"@ != "meta"@,
        "title"@ != "summary"@ && "title"@ != "userinfo"@ && "title"@ != "meta"@,
        "summary"@ != "userinfo"@ && "summary"@ != "meta"@ && "userinfo"@ != "meta"@,
        "cell_id"@ != "cell_summary"@ && "cell_id"@ != "cell_userinfo"@ && "cell_id"@
            != "cell_comm"@ && "cell_id"@ != "cell_pic"@ && "cell_id"@ != "cell_comment"@,
        "cell_summary"@ != "cell_userinfo"@ && "cell_summary"@ != "cell_comm"@ && "cell_summary"@
            != "cell_pic"@ && "cell_summary"@ != "cell_comment"@,
        "cell_userinfo"@ != "cell_comm"@ && "cell_userinfo"@ != "cell_pic"@ && "cell_userinfo"@
            != "cell_comment"@,
        "cell_comm"@ != "cell_pic"@ && "cell_comm"@ != "cell_comment"@ && "cell_pic"@
            != "cell_comment"@,
        "feedskey"@ != "subid"@ && "feedskey"@ != "time"@ && "subid"@ != "time"@ && "time"@
            != "appid"@ && "appid"@ != "feedskey"@,
        "uin"@ != "nickname"@ && "source"@ != "timeText"@,
        "content"@ != "date"@ && "content"@ != "user"@ && "date"@ != "user"@,
{
    reveal_strlit("comm");
    reveal_strlit("original");
    reveal_strlit("title");
    reveal_strlit("summary");
    reveal_strlit("userinfo");
    reveal_strlit("meta");
    reveal_strlit("cell_id");
    reveal_strlit("cell_summary");
    reveal_strlit("cell_userinfo");
    reveal_strlit("cell_comm");
    reveal_strlit("cell_pic");
    reveal_strlit("cell_comment");
    reveal_strlit("feedskey");
    reveal_strlit("subid");
    reveal_strlit("time");
    reveal_strlit("appid");
    reveal_strlit("uin");
    reveal_strlit("nickname");
    reveal_strlit("source");
    reveal_strlit("timeText");
    reveal_strlit("content");
    reveal_strlit("date");
    reveal_strlit("user");
    assert("comm"@.len() == 4 && "original"@.len() == 8 && "title"@.len() == 5 && "summary"@.len()
        == 7 && "userinfo"@.len() == 8 && "meta"@.len() == 4);
    assert("comm"@[0] != "meta"@[0] && "original"@[0] != "userinfo"@[0]);
    assert("cell_id"@.len() == 7 && "cell_summary"@.len() == 12 && "cell_userinfo"@.len() == 13
        && "cell_comm"@.len() == 9 && "cell_pic"@.len() == 8 && "cell_comment"@.len() == 12);
    assert("cell_summary"@[5] != "cell_comment"@[5]);
    assert("feedskey"@.len() == 8 && "subid"@.len() == 5 && "time"@.len() == 4 && "appid"@.len()
        == 5);
    assert("uin"@.len() == 3 && "nickname"@.len() == 8 && "source"@.len() == 6 && "timeText"@.len()
        == 8);
    assert("content"@.len() == 7 && "date"@.len() == 4 && "user"@.len() == 4);
    assert("date"@[0] != "user"@[0]);
}

proof fn lemma_record_entries(activity: ActivityModel, owner_uin: Seq<char>)
    ensures
        ({
            let record = feed_value(activity, owner_uin);
            let entries = record->Object_0;
            &&& record is Object
            &&& record.entry("comm"@) == Some(entries[0].1)
            &&& record.entry("original"@) == Some(entries[1].1)
            &&& record.entry("title"@) == Some(entries[2].1)
            &&& record.entry("summary"@) == Some(entries[3].1)
            &&& record.entry("userinfo"@) == Some(entries[4].1)
            &&& record.entry("meta"@) == Some(entries[5].1)
        }),
        ({
            let original = original_value(activity, owner_uin);
            let entries = original->Object_0;
            &&& original is Object
            &&& original.entry("cell_id"@) == Some(entries[0].1)
            &&& original.entry("cell_summary"@) == Some(entries[1].1)
            &&& original.entry("cell_userinfo"@) == Some(entries[2].1)
            &&& original.entry("cell_comm"@) == Some(entries[3].1)
            &&& original.entry("cell_pic"@) == Some(entries[4].1)
            &&& original.entry("cell_comment"@) == Some(entries[5].1)
        }),
{
    lemma_record_keys();
    let record = feed_value(activity, owner_uin)->Object_0;
    law_entry_is_first(record, "comm"@, 0);
    law_entry_is_first(record, "original"@, 1);
    law_entry_is_first(record, "title"@, 2);
    law_entry_is_first(record, "summary"@, 3);
    law_entry_is_first(record, "userinfo"@, 4);
    law_entry_is_first(record, "meta"@, 5);
    let original = original_value(activity, owner_uin)->Object_0;
    law_entry_is_first(original, "cell_id"@, 0);
    law_entry_is_first(original, "cell_summary"@, 1);
    law_entry_is_first(original, "cell_userinfo"@, 2);
    law_entry_is_first(original, "cell_comm"@, 3);
    law_entry_is_first(original, "cell_pic"@, 4);
    law_entry_is_first(original, "cell_comment"@, 5);
}

proof fn lemma_user_entries(uin: Seq<char>, name: Seq<char>)
    ensures
        user_value(uin, name).entry("uin"@) == Some(ValueModel::Text(uin)),
        user_value(uin, name).entry("nickname"@) == Some(ValueModel::Text(name)),
{
    lemma_record_keys();
    law_entry_is_first(user_value(uin, name)->Object_0, "uin"@, 0);
    law_entry_is_first(user_value(uin, name)->Object_0, "nickname"@, 1);
}

proof fn lemma_single_entry(key: Seq<char>, value: ValueModel)
    ensures
        single_value(key, value).entry(key) == Some(value),
{
    law_entry_is_first(single_value(key, value)->Object_0, key, 0);
}

proof fn lemma_path_of_one(value: ValueModel, a: Seq<char>)
    ensures
        value.at(seq![a]) == value.entry(a),
{
    reveal_with_fuel(ValueModel::at, 2);
    assert(seq![a].skip(1) =~= Seq::empty());
}

/// Whatever the kind, a record names the sender of the activity as the one who acted.
pub proof fn law_record_names_the_sender(activity: ActivityModel, owner_uin: Seq<char>)
    ensures
        ({
            let record = feed_value(activity, owner_uin);
            &&& record.at(seq!["userinfo"@, "user"@, "uin"@]) == Some(
                ValueModel::Text(activity.sender_uin),
            )
            &&& record.at(seq!["userinfo"@, "user"@, "nickname"@]) == Some(
                ValueModel::Text(activity.sender_name),
            )
        }),
{
    let record = feed_value(activity, owner_uin);
    lemma_record_entries(activity, owner_uin);
    lemma_user_entries(activity.sender_uin, activity.sender_name);
    lemma_single_entry("user"@, user_value(activity.sender_uin, activity.sender_name));
    lemma_path_of_three(record, "userinfo"@, "user"@, "uin"@);
    lemma_path_of_three(record, "userinfo"@, "user"@, "nickname"@);
}

/// Of a comment, a view and anything else without a name, the owner of the page wrote what it is
/// about, and is not named; of all others the sender did.
pub proof fn law_record_names_the_author(activity: ActivityModel, owner_uin: Seq<char>)
    ensures
        ({
            let record = feed_value(activity, owner_uin);
            let author = record.at(seq!["original"@, "cell_userinfo"@, "user"@]);
            let by_owner = activity.kind == ActivityKind::Comment || activity.kind
                == ActivityKind::View || activity.kind == ActivityKind::Other;
            &&& author is Some
            &&& by_owner ==> {
                &&& author.unwrap().at(seq!["uin"@]) == Some(ValueModel::Text(owner_uin))
                &&& author.unwrap().at(seq!["nickname"@]) == Some(ValueModel::Text(Seq::empty()))
            }
            &&& !by_owner ==> {
                &&& author.unwrap().at(seq!["uin"@]) == Some(ValueModel::Text(activity.sender_uin))
                &&& author.unwrap().at(seq!["nickname"@]) == Some(
                    ValueModel::Text(activity.sender_name),
                )
            }
        }),
{
    let record = feed_value(activity, owner_uin);
    let author = user_value(author_uin(activity, owner_uin), author_name(activity));
    lemma_record_entries(activity, owner_uin);
    lemma_user_entries(author_uin(activity, owner_uin), author_name(activity));
    lemma_single_entry("user"@, author);
    lemma_path_of_three(record, "original"@, "cell_userinfo"@, "user"@);
    lemma_path_of_one(author, "uin"@);
    lemma_path_of_one(author, "nickname"@);
}

/// The numbers by which a record names its kind and its application.
pub proof fn law_record_numbers(activity: ActivityModel, owner_uin: Seq<char>)
    ensures
        ({
            let record = feed_value(activity, owner_uin);
            let kind = activity.kind;
            let subid = record.at(seq!["comm"@, "subid"@]);
            let appid = record.at(seq!["original"@, "cell_comm"@, "appid"@]);
            let board = kind == ActivityKind::BoardMessage || kind == ActivityKind::BoardReply;
            &&& kind == ActivityKind::Like ==> subid == Some(ValueModel::Number(217))
            &&& kind == ActivityKind::Comment ==> subid == Some(ValueModel::Number(2))
            &&& board ==> subid == Some(ValueModel::Number(334))
            &&& kind == ActivityKind::View ==> subid == Some(ValueModel::Number(218))
            &&& kind == ActivityKind::Forward ==> subid == Some(ValueModel::Number(312))
            &&& kind == ActivityKind::Moment ==> subid == Some(ValueModel::Number(202))
            &&& kind == ActivityKind::Other ==> subid == Some(ValueModel::Number(0))
            &&& board ==> appid == Some(ValueModel::Number(334))
            &&& !board ==> appid == Some(ValueModel::Number(311))
        }),
{
    let record = feed_value(activity, owner_uin);
    law_record_key_and_time(activity, owner_uin);
    lemma_record_keys();
    lemma_record_entries(activity, owner_uin);
    let cell_comm = original_value(activity, owner_uin)->Object_0[3].1;
    law_entry_is_first(cell_comm->Object_0, "appid"@, 1);
    lemma_path_of_three(record, "original"@, "cell_comm"@, "appid"@);
}

/// The titles: likes, the message board, views and forwards have one, all others none.
pub proof fn law_record_title(activity: ActivityModel, owner_uin: Seq<char>)
    ensures
        ({
            let record = feed_value(activity, owner_uin);
            let kind = activity.kind;
            let title = record.at(seq!["title"@, "title"@]);
            &&& kind == ActivityKind::Like ==> title == Some(ValueModel::Text("赞了我"@))
            &&& kind == ActivityKind::BoardMessage || kind == ActivityKind::BoardReply ==> title
                == Some(ValueModel::Text("留言"@))
            &&& kind == ActivityKind::View ==> title == Some(ValueModel::Text("查看了我的说说"@))
            &&& kind == ActivityKind::Forward ==> title == Some(ValueModel::Text("转发了"@))
            &&& kind == ActivityKind::Comment || kind == ActivityKind::Moment || kind
                == ActivityKind::Other ==> record.at(seq!["title"@]) == Some(ValueModel::Null)
        }),
{
    let record = feed_value(activity, owner_uin);
    lemma_record_entries(activity, owner_uin);
    if let Some(text) = title_of(activity.kind) {
        lemma_single_entry("title"@, ValueModel::Text(text));
    }
    lemma_path_of_one(record, "title"@);
    lemma_path_of_two(record, "title"@, "title"@);
}

/// A record holds the content of its activity, once more as a summary for comments and the
/// message board, and for comments once more with its sender and time.
pub proof fn law_record_content(activity: ActivityModel, owner_uin: Seq<char>)
    ensures
        ({
            let record = feed_value(activity, owner_uin);
            let kind = activity.kind;
            let content = ValueModel::Text(activity.content);
            let summarised = kind == ActivityKind::Comment || kind == ActivityKind::BoardMessage
                || kind == ActivityKind::BoardReply;
            let comment = record.at(seq!["original"@, "cell_comment"@, "main_comment"@]);
            &&& record.at(seq!["original"@, "cell_summary"@, "summary"@]) == Some(content)
            &&& summarised ==> record.at(seq!["summary"@, "summary"@]) == Some(content)
            &&& !summarised ==> record.at(seq!["summary"@]) == Some(ValueModel::Null)
            &&& kind == ActivityKind::Comment ==> {
                &&& comment is Some
                &&& comment.unwrap().at(seq!["content"@]) == Some(content)
                &&& comment.unwrap().at(seq!["date"@]) == Some(
                    ValueModel::Number(activity.event_time),
                )
                &&& comment.unwrap().at(seq!["user"@, "uin"@]) == Some(
                    ValueModel::Text(activity.sender_uin),
                )
                &&& comment.unwrap().at(seq!["user"@, "nickname"@]) == Some(
                    ValueModel::Text(activity.sender_name),
                )
            }
            &&& kind != ActivityKind::Comment ==> record.at(seq!["original"@, "cell_comment"@])
                == Some(ValueModel::Null)
        }),
{
    let record = feed_value(activity, owner_uin);
    let content = ValueModel::Text(activity.content);
    lemma_record_keys();
    lemma_record_entries(activity, owner_uin);
    lemma_single_entry("summary"@, content);
    lemma_path_of_three(record, "original"@, "cell_summary"@, "summary"@);
    lemma_path_of_one(record, "summary"@);
    lemma_path_of_two(record, "summary"@, "summary"@);
    lemma_path_of_two(record, "original"@, "cell_comment"@);
    lemma_path_of_three(record, "original"@, "cell_comment"@, "main_comment"@);
    if activity.kind == ActivityKind::Comment {
        let comment = comment_value(activity)->Object_0[0].1;
        lemma_single_entry("main_comment"@, comment);
        law_entry_is_first(comment->Object_0, "content"@, 0);
        law_entry_is_first(comment->Object_0, "date"@, 1);
        law_entry_is_first(comment->Object_0, "user"@, 2);
        lemma_user_entries(activity.sender_uin, activity.sender_name);
        lemma_path_of_one(comment, "content"@);
        lemma_path_of_one(comment, "date"@);
        lemma_path_of_two(comment, "user"@, "uin"@);
        lemma_path_of_two(comment, "user"@, "nickname"@);
    }
}

/// A record holds one picture for every address, in order, and null where there are none.
pub proof fn law_record_pictures(activity: ActivityModel, owner_uin: Seq<char>)
    ensures
        ({
            let record = feed_value(activity, owner_uin);
            let urls = activity.image_urls;
            let pictures = record.at(seq!["original"@, "cell_pic"@, "picdata"@]);
            &&& urls.len() == 0 ==> record.at(seq!["original"@, "cell_pic"@]) == Some(
                ValueModel::Null,
            )
            &&& urls.len() > 0 ==> {
                &&& pictures is Some
                &&& pictures.unwrap().at(seq!["pic"@]) matches Some(ValueModel::List(list)) && {
                    &&& list.len() == urls.len()
                    &&& forall|i: int|
                        0 <= i < urls.len() ==> is_picture_of(#[trigger] list[i], urls[i])
                }
            }
        }),
{
    let record = feed_value(activity, owner_uin);
    let urls = activity.image_urls;
    lemma_record_entries(activity, owner_uin);
    lemma_path_of_two(record, "original"@, "cell_pic"@);
    lemma_path_of_three(record, "original"@, "cell_pic"@, "picdata"@);
    if urls.len() > 0 {
        let list = urls.map_values(|url: Seq<char>| picture_value(url));
        let pictures = single_value("pic"@, ValueModel::List(list));
        lemma_single_entry("picdata"@, pictures);
        lemma_single_entry("pic"@, ValueModel::List(list));
        lemma_path_of_one(pictures, "pic"@);
        assert forall|i: int| 0 <= i < urls.len() implies is_picture_of(
            #[trigger] list[i],
            urls[i],
        ) by {
            let photo = single_value("url"@, ValueModel::Text(urls[i]));
            lemma_single_entry("photourl"@, ValueModel::List(seq![photo]));
            lemma_single_entry("url"@, ValueModel::Text(urls[i]));
            lemma_path_of_one(list[i], "photourl"@);
            lemma_path_of_one(photo, "url"@);
        }
    }
}

/// Whether a value is the picture with one address.
pub open spec fn is_picture_of(value: ValueModel, url: Seq<char>) -> bool {
    value.at(seq!["photourl"@]) matches Some(ValueModel::List(photos)) && {
        &&& photos.len() == 1
        &&& photos[0].at(seq!["url"@]) == Some(ValueModel::Text(url))
    }
}

/// A record says where it comes from and how the page wrote its time, and holds nothing beyond
/// its six parts.
pub proof fn law_record_source(activity: ActivityModel, owner_uin: Seq<char>)
    ensures
        ({
            let record = feed_value(activity, owner_uin);
            &&& record.at(seq!["meta"@, "source"@]) == Some(ValueModel::Text("feeds2"@))
            &&& record.at(seq!["meta"@, "timeText"@]) == Some(ValueModel::Text(activity.time_text))
            &&& record is Object
            &&& record->Object_0.len() == 6
        }),
{
    let record = feed_value(activity, owner_uin);
    lemma_record_keys();
    lemma_record_entries(activity, owner_uin);
    let meta = record->Object_0[5].1;
    law_entry_is_first(meta->Object_0, "source"@, 0);
    law_entry_is_first(meta->Object_0, "timeText"@, 1);
    lemma_path_of_two(record, "meta"@, "source"@);
    lemma_path_of_two(record, "meta"@, "timeText"@);
}

/// The key of a record is made of what the record itself holds: the number of its kind, its cell
/// id, its time and its sender. The cell id is the hash of the owner, the content, the author
/// that the record names and the time.
pub proof fn law_record_key_names_its_parts(activity: ActivityModel, owner_uin: Seq<char>)
    ensures
        ({
            let record = feed_value(activity, owner_uin);
            let key = record.at(seq!["comm"@, "feedskey"@]);
            let subid = record.at(seq!["comm"@, "subid"@]);
            let id = record.at(seq!["original"@, "cell_id"@, "cellid"@]);
            let author = record.at(seq!["original"@, "cell_userinfo"@, "user"@]).unwrap().at(
                seq!["uin"@],
            );
            &&& subid matches Some(ValueModel::Number(number)) && id matches Some(
                ValueModel::Text(cell_id),
            ) && author matches Some(ValueModel::Text(author_uin)) && {
                &&& key == Some(
                    ValueModel::Text(
                        "feeds2:"@ + decimal(number) + ":"@ + cell_id + ":"@ + decimal(
                            activity.event_time,
                        ) + ":"@ + activity.sender_uin,
                    ),
                )
                &&& cell_id == cell_id_of(
                    owner_uin,
                    activity.content,
                    author_uin,
                    activity.event_time,
                )
            }
        }),
{
    law_record_key_and_time(activity, owner_uin);
    law_record_names_the_author(activity, owner_uin);
}

/// The parts of a record hold as many entries as are named elsewhere, and no others.
pub proof fn law_record_parts_hold_nothing_else(activity: ActivityModel, owner_uin: Seq<char>)
    ensures
        ({
            let record = feed_value(activity, owner_uin);
            &&& record.at(seq!["comm"@]) matches Some(ValueModel::Object(entries)) && entries.len()
                == 3
            &&& record.at(seq!["original"@]) matches Some(ValueModel::Object(entries))
                && entries.len() == 6
            &&& record.at(seq!["original"@, "cell_comm"@]) matches Some(
                ValueModel::Object(entries),
            ) && entries.len() == 3
            &&& record.at(seq!["original"@, "cell_userinfo"@, "user"@]) matches Some(
                ValueModel::Object(entries),
            ) && entries.len() == 2
            &&& record.at(seq!["userinfo"@, "user"@]) matches Some(ValueModel::Object(entries))
                && entries.len() == 2
            &&& record.at(seq!["meta"@]) matches Some(ValueModel::Object(entries)) && entries.len()
                == 2
        }),
{
    let record = feed_value(activity, owner_uin);
    lemma_record_entries(activity, owner_uin);
    lemma_single_entry("user"@, user_value(activity.sender_uin, activity.sender_name));
    lemma_single_entry(
        "user"@,
        user_value(author_uin(activity, owner_uin), author_name(activity)),
    );
    lemma_path_of_one(record, "comm"@);
    lemma_path_of_one(record, "original"@);
    lemma_path_of_one(record, "meta"@);
    lemma_path_of_two(record, "original"@, "cell_comm"@);
    lemma_path_of_two(record, "userinfo"@, "user"@);
    lemma_path_of_three(record, "original"@, "cell_userinfo"@, "user"@);
}

} // verus!
