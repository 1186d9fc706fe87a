//! Structured values as feed records hold them: null, numbers, text, lists and objects.

use vstd::prelude::*;

verus! {

/// A structured value. The entries of an object stand in the order in which they were added.
#[derive(Debug, PartialEq, Eq)]
pub enum FeedValue {
    Null,
    Number(i64),
    Text(String),
    List(Vec<FeedValue>),
    Object(Vec<(String, FeedValue)>),
}

/// What a structured value holds.
pub ghost enum ValueModel {
    Null,
    Number(int),
    Text(Seq<char>),
    List(Seq<ValueModel>),
    Object(Seq<(Seq<char>, ValueModel)>),
}

impl ValueModel {
    /// The value of the first entry with the given key.
    pub open spec fn entry(self, key: Seq<char>) -> Option<ValueModel> {
        match self {
            ValueModel::Object(entries) => entry_of(entries, key),
            _ => None,
        }
    }

    /// The value at the end of a path of keys.
    pub open spec fn at(self, path: Seq<Seq<char>>) -> Option<ValueModel>
        decreases path.len(),
    {
        if path.len() == 0 {
            Some(self)
        } else {
            match self.entry(path[0]) {
                Some(value) => value.at(path.skip(1)),
                None => None,
            }
        }
    }
}

/// The value of the first entry with the given key.
pub open spec fn entry_of(entries: Seq<(Seq<char>, ValueModel)>, key: Seq<char>) -> Option<
    ValueModel,
>
    decreases entries.len(),
{
    if entries.len() == 0 {
        None
    } else if entries[0].0 == key {
        Some(entries[0].1)
    } else {
        entry_of(entries.skip(1), key)
    }
}

/// What the values of a list hold.
pub open spec fn list_model(values: Seq<FeedValue>) -> Seq<ValueModel>
    decreases values,
{
    if values.len() == 0 {
        Seq::empty()
    } else {
        list_model(values.drop_last()).push(values.last().model())
    }
}

/// What the entries of an object hold.
pub open spec fn entries_model(entries: Seq<(String, FeedValue)>) -> Seq<(Seq<char>, ValueModel)>
    decreases entries,
{
    if entries.len() == 0 {
        Seq::empty()
    } else {
        entries_model(entries.drop_last()).push((entries.last().0@, entries.last().1.model()))
    }
}

impl FeedValue {
    /// What the value holds.
    pub open spec fn model(self) -> ValueModel
        decreases self,
    {
        match self {
            FeedValue::Null => ValueModel::Null,
            FeedValue::Number(n) => ValueModel::Number(n as int),
            FeedValue::Text(text) => ValueModel::Text(text@),
            FeedValue::List(values) => ValueModel::List(list_model(values@)),
            FeedValue::Object(entries) => ValueModel::Object(entries_model(entries@)),
        }
    }

    /// A text value.
    pub fn text(text: &str) -> (r: FeedValue)
        ensures
            r.model() == ValueModel::Text(text@),
    {
        FeedValue::Text(text.to_owned())
    }

    /// A number.
    pub fn number(n: i64) -> (r: FeedValue)
        ensures
            r.model() == ValueModel::Number(n as int),
    {
        FeedValue::Number(n)
    }

    /// An object with one entry.
    pub fn single(key: &str, value: FeedValue) -> (r: FeedValue)
        ensures
            r.model() == ValueModel::Object(seq![(key@, value.model())]),
    {
        let mut entries = Entries::new();
        entries.add(key, value);
        entries.finish()
    }
}

/// An object under construction.
pub struct Entries {
    list: Vec<(String, FeedValue)>,
}

impl Entries {
    /// What the entries so far hold.
    pub closed spec fn model(self) -> Seq<(Seq<char>, ValueModel)> {
        entries_model(self.list@)
    }

    /// No entries.
    pub fn new() -> (r: Entries)
        ensures
            r.model() == Seq::<(Seq<char>, ValueModel)>::empty(),
    {
        Entries { list: Vec::new() }
    }

    /// Adds an entry behind the others.
    pub fn add(&mut self, key: &str, value: FeedValue)
        ensures
            final(self).model() == old(self).model().push((key@, value.model())),
    {
        self.list.push((key.to_owned(), value));
        assert(self.list@.drop_last() =~= old(self).list@);
    }

    /// The object of the entries.
    pub fn finish(self) -> (r: FeedValue)
        ensures
            r.model() == ValueModel::Object(self.model()),
    {
        FeedValue::Object(self.list)
    }
}

/// A list has as many values as it was made of, each holding what it held.
pub proof fn law_list_model(values: Seq<FeedValue>)
    ensures
        list_model(values).len() == values.len(),
        forall|i: int|
            0 <= i < values.len() ==> #[trigger] list_model(values)[i] == values[i].model(),
    decreases values.len(),
{
    if values.len() > 0 {
        law_list_model(values.drop_last());
    }
}

/// The entry found for a key is the first with that key.
pub proof fn law_entry_is_first(entries: Seq<(Seq<char>, ValueModel)>, key: Seq<char>, k: int)
    requires
        0 <= k < entries.len(),
        entries[k].0 == key,
        forall|i: int| 0 <= i < k ==> (#[trigger] entries[i]).0 != key,
    ensures
        entry_of(entries, key) == Some(entries[k].1),
    decreases k,
{
    if k > 0 {
        assert(entries[0].0 != key);
        assert forall|i: int| 0 <= i < k - 1 implies (#[trigger] entries.skip(1)[i]).0 != key by {
            assert(entries.skip(1)[i] == entries[i + 1]);
        }
        law_entry_is_first(entries.skip(1), key, k - 1);
    }
}

/// What each form of value holds.
pub proof fn law_what_values_hold(
    n: i64,
    text: String,
    values: Vec<FeedValue>,
    entries: Vec<(String, FeedValue)>,
)
    ensures
        FeedValue::Null.model() == ValueModel::Null,
        FeedValue::Number(n).model() == ValueModel::Number(n as int),
        FeedValue::Text(text).model() == ValueModel::Text(text@),
        FeedValue::List(values).model() matches ValueModel::List(list) && {
            &&& list.len() == values@.len()
            &&& forall|i: int| 0 <= i < list.len() ==> #[trigger] list[i] == values@[i].model()
        },
        FeedValue::Object(entries).model() matches ValueModel::Object(list) && {
            &&& list.len() == entries@.len()
            &&& forall|i: int|
                0 <= i < list.len() ==> #[trigger] list[i] == (
                    entries@[i].0@,
                    entries@[i].1.model(),
                )
        },
{
    law_list_model(values@);
    lemma_entries_model(entries@);
}

proof fn lemma_entries_model(entries: Seq<(String, FeedValue)>)
    ensures
        entries_model(entries).len() == entries.len(),
        forall|i: int|
            0 <= i < entries.len() ==> #[trigger] entries_model(entries)[i] == (
                entries[i].0@,
                entries[i].1.model(),
            ),
    decreases entries.len(),
{
    if entries.len() > 0 {
        lemma_entries_model(entries.drop_last());
    }
}

/// A path is followed key by key: the empty one stays where it is, and one that names no entry
/// leads nowhere. Only objects have entries.
pub proof fn law_paths_are_followed(value: ValueModel, key: Seq<char>, path: Seq<Seq<char>>)
    ensures
        value.at(Seq::empty()) == Some(value),
        value.at(seq![key] + path) == match value.entry(key) {
            Some(inner) => inner.at(path),
            None => None,
        },
        value matches ValueModel::Object(entries) ==> {
            &&& value.entry(key) == entry_of(entries, key)
            &&& value.entry(key) is None <==> forall|i: int|
                0 <= i < entries.len() ==> (#[trigger] entries[i]).0 != key
        },
        value !is Object ==> value.entry(key) is None,
{
    assert((seq![key] + path)[0] == key);
    assert((seq![key] + path).skip(1) =~= path);
    if let ValueModel::Object(entries) = value {
        lemma_absent_entry(entries, key);
    }
}

proof fn lemma_absent_entry(entries: Seq<(Seq<char>, ValueModel)>, key: Seq<char>)
    ensures
        entry_of(entries, key) is None <==> forall|i: int|
            0 <= i < entries.len() ==> (#[trigger] entries[i]).0 != key,
    decreases entries.len(),
{
    if entries.len() > 0 {
        let rest = entries.skip(1);
        lemma_absent_entry(rest, key);
        assert(forall|i: int| 0 <= i < rest.len() ==> #[trigger] rest[i] == entries[i + 1]);
        if entries[0].0 != key {
            if entry_of(rest, key) is None {
                assert forall|i: int| 0 <= i < entries.len() implies (
                #[trigger] entries[i]).0 != key by {
                    if i > 0 {
                        assert(rest[i - 1] == entries[i]);
                    }
                }
            } else {
                let k = choose|k: int| 0 <= k < rest.len() && (#[trigger] rest[k]).0 == key;
                assert(entries[k + 1].0 == key);
            }
        }
    }
}

} // verus!
