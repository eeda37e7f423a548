//! What a request carries for the crawler's own use.
use vstd::prelude::*;

use crate::slots::{held, SlotTable};

verus! {

/// A value of a request's metadata.
#[derive(Debug)]
pub enum MetaValue {
    /// A text.
    Text(String),
    /// Anything else, written in JSON.
    Json(String),
}

/// A value of a request's metadata, taken by its text.
pub enum MetaValueView {
    /// A text.
    Text(Seq<char>),
    /// Anything else, written in JSON.
    Json(Seq<char>),
}

impl View for MetaValue {
    type V = MetaValueView;

    open spec fn view(&self) -> MetaValueView {
        match self {
            MetaValue::Text(s) => MetaValueView::Text(s@),
            MetaValue::Json(s) => MetaValueView::Json(s@),
        }
    }
}

impl MetaValue {
    /// The same value again.
    pub fn copy(&self) -> (r: MetaValue)
        ensures
            r == *self,
    {
        match self {
            MetaValue::Text(s) => MetaValue::Text(s.clone()),
            MetaValue::Json(s) => MetaValue::Json(s.clone()),
        }
    }
}

/// Named values, and how often the request was tried again.
#[derive(Debug)]
pub struct Meta {
    entries: SlotTable<MetaValue>,
    retry_attempts: u32,
}

/// Named values, and how often the request was tried again.
#[verifier::ext_equal]
pub struct MetaView {
    /// The values by their names.
    pub values: Map<Seq<char>, MetaValueView>,
    /// How often the request was tried again.
    pub retry_attempts: u32,
}

/// Values, taken by their texts.
pub open spec fn meta_texts(values: Map<Seq<char>, MetaValue>) -> Map<Seq<char>, MetaValueView> {
    values.map_values(|v: MetaValue| v@)
}

impl View for Meta {
    type V = MetaView;

    closed spec fn view(&self) -> MetaView {
        MetaView { values: meta_texts(self.entries@), retry_attempts: self.retry_attempts }
    }
}

impl Meta {
    /// No values, and a request not tried yet.
    pub fn new() -> (r: Meta)
        ensures
            r@ == (MetaView { values: Map::empty(), retry_attempts: 0 }),
    {
        let r = Meta { entries: SlotTable::new(), retry_attempts: 0 };
        assert(r@.values =~= Map::empty());
        r
    }

    /// The value of a name.
    pub fn get(&self, name: &str) -> (r: Option<&MetaValue>)
        ensures
            r is Some == self@.values.contains_key(name@),
            r matches Some(v) ==> v@ == self@.values[name@],
    {
        self.entries.get(name)
    }

    /// The value of a name where it is a text.
    pub fn get_text(&self, name: &str) -> (r: Option<String>)
        ensures
            r is Some == is_text(self@, name@),
            r matches Some(s) ==> self@.values[name@] == MetaValueView::Text(s@),
    {
        match self.get(name) {
            Some(MetaValue::Text(s)) => Some(s.clone()),
            _ => None,
        }
    }

    /// The metadata with one value set.
    pub fn with(self, name: &str, value: MetaValue) -> (r: Meta)
        ensures
            r@.values == self@.values.insert(name@, value@),
            r@.retry_attempts == self@.retry_attempts,
    {
        let r = Meta {
            entries: self.entries.with(name, value),
            retry_attempts: self.retry_attempts,
        };
        assert(r@.values =~= self@.values.insert(name@, value@));
        r
    }

    /// How often the request was tried again.
    pub fn retry_attempts(&self) -> (r: u32)
        ensures
            r == self@.retry_attempts,
    {
        self.retry_attempts
    }

    /// The metadata with another number of attempts.
    pub fn with_retry_attempts(self, retry_attempts: u32) -> (r: Meta)
        ensures
            r@ == (MetaView { retry_attempts, ..self@ }),
    {
        Meta { entries: self.entries, retry_attempts }
    }

    /// The same metadata again.
    pub fn copy(&self) -> (r: Meta)
        ensures
            r@ == self@,
    {
        let all = self.entries.entries();
        let mut entries: SlotTable<MetaValue> = SlotTable::new();
        let mut i: usize = 0;
        assert(all@.take(0) =~= Seq::empty());
        while i < all.len()
            invariant
                i <= all.len(),
                entries@ == held(all@.take(i as int)),
            decreases all.len() - i,
        {
            assert(all@.take(i + 1).drop_last() =~= all@.take(i as int));
            entries = entries.with(all[i].0.as_str(), all[i].1.copy());
            i += 1;
        }
        assert(all@.take(i as int) =~= all@);
        Meta { entries, retry_attempts: self.retry_attempts }
    }
}

/// Whether a name has a text as its value.
pub open spec fn is_text(meta: MetaView, name: Seq<char>) -> bool {
    meta.values.contains_key(name) && meta.values[name] is Text
}

/// A value that was set for a name is found under it, as a text where it is one and not
/// otherwise; other names keep what they have, and the count of attempts stays.
pub proof fn set_values_are_found(
    meta: Meta,
    name: &str,
    value: MetaValue,
    other: &str,
    set: Meta,
    text: Option<String>,
    text_before: Option<String>,
)
    requires
        call_ensures(Meta::with, (meta, name, value), set),
        call_ensures(Meta::get_text, (&set, other), text),
        call_ensures(Meta::get_text, (&meta, other), text_before),
    ensures
        other@ == name@ ==> match value {
            MetaValue::Text(t) => text matches Some(s) && s@ == t@,
            MetaValue::Json(_) => text is None,
        },
        other@ != name@ ==> text is Some == text_before is Some,
        other@ != name@ && text is Some ==> text->0@ == text_before->0@,
        set@.retry_attempts == meta@.retry_attempts,
{
}

/// Setting the count of attempts sets it and leaves the values.
pub proof fn set_attempts_are_told(meta: Meta, attempts: u32, set: Meta, told: u32)
    requires
        call_ensures(Meta::with_retry_attempts, (meta, attempts), set),
        call_ensures(Meta::retry_attempts, (&set,), told),
    ensures
        told == attempts,
        set@.values == meta@.values,
{
}

/// New metadata holds no value and no attempt.
pub proof fn new_metadata_is_empty(meta: Meta, name: &str, text: Option<String>, told: u32)
    requires
        call_ensures(Meta::new, (), meta),
        call_ensures(Meta::get_text, (&meta, name), text),
        call_ensures(Meta::retry_attempts, (&meta,), told),
    ensures
        text is None,
        told == 0,
{
}

/// A copy of metadata has its values and its count.
pub proof fn copied_metadata_is_the_same(meta: Meta, copy: Meta)
    requires
        call_ensures(Meta::copy, (&meta,), copy),
    ensures
        copy@.values == meta@.values,
        copy@.retry_attempts == meta@.retry_attempts,
{
}

/// What is told of a value is what it holds.
pub proof fn values_are_told_apart(a: MetaValue, b: MetaValue)
    ensures
        a matches MetaValue::Text(s) ==> a@ == MetaValueView::Text(s@),
        a matches MetaValue::Json(s) ==> a@ == MetaValueView::Json(s@),
        a is Text && b is Json ==> a@ != b@,
{
}

} // verus!
