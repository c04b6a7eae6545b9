//! Tool arguments: the JSON object of a tool call, held as plain values.
use vstd::prelude::*;
use crate::text::str_eq;

verus! {

/// One argument value, as much of it as the tools read.
pub enum ArgValue {
    Null,
    Bool(bool),
    /// A number, with its value when it is an integer that fits in `u64`
    /// (what `Value::as_u64` gives).
    Number(Option<u64>),
    Text(String),
    /// An array, with each element's text where the element is a string.
    Array(Vec<Option<String>>),
    Object,
}

/// The named arguments of a tool call, in the order they were given.
pub struct ToolArgs {
    pub entries: Vec<(String, ArgValue)>,
}

/// The value stored under `key`: the first entry with that name.
pub open spec fn lookup(entries: Seq<(String, ArgValue)>, key: Seq<char>) -> Option<ArgValue>
    decreases entries.len(),
{
    if entries.len() == 0 {
        None
    } else if entries[0].0@ == key {
        Some(entries[0].1)
    } else {
        lookup(entries.drop_first(), key)
    }
}

impl ToolArgs {
    pub open spec fn get(self, key: Seq<char>) -> Option<ArgValue> {
        lookup(self.entries@, key)
    }

    /// The argument under `key` if it is a string.
    pub open spec fn text(self, key: Seq<char>) -> Option<Seq<char>> {
        match self.get(key) {
            Some(ArgValue::Text(s)) => Some(s@),
            _ => None,
        }
    }

    /// The argument under `key` if it is a boolean, else `false`.
    pub open spec fn flag(self, key: Seq<char>) -> bool {
        match self.get(key) {
            Some(ArgValue::Bool(b)) => b,
            _ => false,
        }
    }

    /// The argument under `key` if it is a number that fits in `u64`.
    pub open spec fn count(self, key: Seq<char>) -> Option<u64> {
        match self.get(key) {
            Some(ArgValue::Number(n)) => n,
            _ => None,
        }
    }

    /// The string elements of the array under `key`, in order, if it is an array.
    pub open spec fn text_list(self, key: Seq<char>) -> Option<Seq<Seq<char>>> {
        match self.get(key) {
            Some(ArgValue::Array(items)) => Some(present_texts(items@)),
            _ => None,
        }
    }

    /// No arguments.
    pub fn empty() -> (r: ToolArgs)
        ensures
            r.entries@.len() == 0,
    {
        ToolArgs { entries: Vec::new() }
    }

    /// Adds an argument at the end.
    pub fn push(&mut self, key: String, value: ArgValue)
        ensures
            final(self).entries@ == old(self).entries@.push((key, value)),
    {
        self.entries.push((key, value));
    }

    fn find(&self, key: &str) -> (r: Option<&ArgValue>)
        ensures
            match r {
                Some(v) => self.get(key@) == Some(*v),
                None => self.get(key@).is_none(),
            },
    {
        let mut i: usize = 0;
        assert(self.entries@.skip(0) =~= self.entries@);
        while i < self.entries.len()
            invariant
                i <= self.entries@.len(),
                self.get(key@) == lookup(self.entries@.skip(i as int), key@),
            decreases self.entries@.len() - i,
        {
            assert(self.entries@.skip(i as int).drop_first() =~= self.entries@.skip(i + 1));
            if str_eq(self.entries[i].0.as_str(), key) {
                return Some(&self.entries[i].1);
            }
            i = i + 1;
        }
        None
    }

    /// `args.get(key).and_then(|v| v.as_str())`.
    pub fn text_arg(&self, key: &str) -> (r: Option<String>)
        ensures
            match r {
                Some(s) => self.text(key@) == Some(s@),
                None => self.text(key@).is_none(),
            },
    {
        match self.find(key) {
            Some(ArgValue::Text(s)) => Some(s.clone()),
            _ => None,
        }
    }

    /// `args.get(key).and_then(|v| v.as_bool()).unwrap_or(false)`.
    pub fn flag_arg(&self, key: &str) -> (r: bool)
        ensures
            r == self.flag(key@),
    {
        match self.find(key) {
            Some(ArgValue::Bool(b)) => *b,
            _ => false,
        }
    }

    /// `args.get(key).and_then(|v| v.as_u64())`.
    pub fn count_arg(&self, key: &str) -> (r: Option<u64>)
        ensures
            r == self.count(key@),
    {
        match self.find(key) {
            Some(ArgValue::Number(n)) => *n,
            _ => None,
        }
    }

    /// The string elements of an array argument (`as_array` then `as_str` on
    /// each element, others skipped).
    pub fn text_list_arg(&self, key: &str) -> (r: Option<Vec<String>>)
        ensures
            match r {
                Some(v) => self.text_list(key@) == Some(crate::text::string_views(v@)),
                None => self.text_list(key@).is_none(),
            },
    {
        match self.find(key) {
            Some(ArgValue::Array(items)) => Some(present_texts_of(items)),
            _ => None,
        }
    }
}

/// The texts of the elements that are present, in order.
pub open spec fn present_texts(items: Seq<Option<String>>) -> Seq<Seq<char>>
    decreases items.len(),
{
    if items.len() == 0 {
        Seq::empty()
    } else {
        let prev = present_texts(items.drop_last());
        match items.last() {
            Some(s) => prev.push(s@),
            None => prev,
        }
    }
}

fn present_texts_of(items: &Vec<Option<String>>) -> (r: Vec<String>)
    ensures
        crate::text::string_views(r@) == present_texts(items@),
{
    let mut r: Vec<String> = Vec::new();
    for i in 0..items.len()
        invariant
            crate::text::string_views(r@) == present_texts(items@.take(i as int)),
    {
        assert(items@.take(i + 1).drop_last() =~= items@.take(i as int));
        match &items[i] {
            Some(s) => {
                r.push(s.clone());
                assert(crate::text::string_views(r@) =~= present_texts(items@.take(i + 1)));
            },
            None => {},
        }
    }
    assert(items@.take(items.len() as int) =~= items@);
    r
}

} // verus!
