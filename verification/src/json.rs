//! JSON values as the library holds them, and the parse of a request body
//! by serde_json.
use vstd::prelude::*;
use crate::args::{ArgValue, ToolArgs};
use crate::passwd::opt_view;
use crate::text::{all_digits, digits_value, is_digit, str_eq, to_chars};

verus! {

/// A JSON value. A number keeps the text serde_json writes for it, so that
/// no float is needed; an object keeps its members in serde_json's order.
pub enum JsonValue {
    Null,
    Bool(bool),
    Number(String),
    Text(String),
    Array(Vec<JsonValue>),
    Object(Vec<(String, JsonValue)>),
}

/// A JSON value in specifications.
pub enum JsonView {
    Null,
    Bool(bool),
    Number(Seq<char>),
    Text(Seq<char>),
    Array(Seq<JsonView>),
    Object(Seq<(Seq<char>, JsonView)>),
}

pub open spec fn json_view(v: JsonValue) -> JsonView
    decreases v, 1nat,
{
    match v {
        JsonValue::Null => JsonView::Null,
        JsonValue::Bool(b) => JsonView::Bool(b),
        JsonValue::Number(n) => JsonView::Number(n@),
        JsonValue::Text(s) => JsonView::Text(s@),
        JsonValue::Array(items) => {
            proof {
                assert(decreases_to!(items => items@));
            }
            JsonView::Array(items_view(items@))
        },
        JsonValue::Object(members) => {
            proof {
                assert(decreases_to!(members => members@));
            }
            JsonView::Object(members_view(members@))
        },
    }
}

pub open spec fn items_view(s: Seq<JsonValue>) -> Seq<JsonView>
    decreases s, 0nat,
{
    if s.len() == 0 {
        Seq::empty()
    } else {
        proof {
            assert(decreases_to!(s => s[s.len() - 1]));
            assert(decreases_to!(s => s.subrange(0, s.len() - 1)));
        }
        items_view(s.subrange(0, s.len() - 1)).push(json_view(s[s.len() - 1]))
    }
}

pub open spec fn members_view(s: Seq<(String, JsonValue)>) -> Seq<(Seq<char>, JsonView)>
    decreases s, 0nat,
{
    if s.len() == 0 {
        Seq::empty()
    } else {
        let last = s[s.len() - 1];
        proof {
            assert(decreases_to!(s => s[s.len() - 1]));
            assert(decreases_to!(s[s.len() - 1] => s[s.len() - 1].1));
            assert(decreases_to!(s => s.subrange(0, s.len() - 1)));
        }
        members_view(s.subrange(0, s.len() - 1)).push((last.0@, json_view(last.1)))
    }
}

impl View for JsonValue {
    type V = JsonView;

    open spec fn view(&self) -> JsonView {
        json_view(*self)
    }
}

/// Turns `from_slice`'s result into the library's values.
pub open spec fn json_result_view(r: Result<JsonValue, String>) -> Result<JsonView, Seq<char>> {
    match r {
        Ok(v) => Ok(v@),
        Err(e) => Err(e@),
    }
}

/// What serde_json's `from_slice::<Value>` gives for a body: the value, or
/// the text of its error. Numbers are held by the text serde_json writes for
/// them (`Number`'s `Display`).
pub uninterp spec fn json_parse(body: Seq<u8>) -> Result<JsonView, Seq<char>>;

#[verifier::external_type_specification]
#[verifier::external_body]
pub struct ExSerdeJsonValue(serde_json::Value);

/// Carries serde_json's value over into the library's, node for node: each
/// variant to its like, a number to its text, an object's members in the
/// map's order. It is the second half of `parse_json`, whose contract covers
/// both.
#[verifier::external_body]
fn from_serde(v: serde_json::Value) -> JsonValue {
    match v {
        serde_json::Value::Null => JsonValue::Null,
        serde_json::Value::Bool(b) => JsonValue::Bool(b),
        serde_json::Value::Number(n) => JsonValue::Number(n.to_string()),
        serde_json::Value::String(s) => JsonValue::Text(s),
        serde_json::Value::Array(a) => JsonValue::Array(a.into_iter().map(from_serde).collect()),
        serde_json::Value::Object(m) => JsonValue::Object(m.into_iter().map(|(k, x)| (k, from_serde(x))).collect()),
    }
}

/// serde_json's `from_slice::<Value>` on a request body, the error given by
/// its `Display` text. The contract names the result.
#[verifier::external_body]
pub fn parse_json(body: &[u8]) -> (r: Result<JsonValue, String>)
    ensures
        json_result_view(r) == json_parse(body@),
{
    match serde_json::from_slice::<serde_json::Value>(body) {
        Ok(v) => Ok(from_serde(v)),
        Err(e) => Err(e.to_string()),
    }
}

/// What serde_json's `to_string_pretty` gives for a value: its text, two
/// spaces of indent per level, or the error it reports.
pub uninterp spec fn json_pretty_text(v: JsonView) -> Result<Seq<char>, Seq<char>>;

pub open spec fn text_result_view(r: Result<String, String>) -> Result<Seq<char>, Seq<char>> {
    match r {
        Ok(s) => Ok(s@),
        Err(e) => Err(e@),
    }
}

/// Carries the library's value over into serde_json's, node for node: each
/// variant to its like, a number from its text, an object's members into a
/// map. It is the first half of `pretty_json`, whose contract covers both.
#[verifier::external_body]
fn into_serde(v: &JsonValue) -> serde_json::Value {
    match v {
        JsonValue::Null => serde_json::Value::Null,
        JsonValue::Bool(b) => serde_json::Value::Bool(*b),
        JsonValue::Number(t) => t.parse::<serde_json::Number>().map(serde_json::Value::Number).unwrap_or(serde_json::Value::Null),
        JsonValue::Text(s) => serde_json::Value::String(s.clone()),
        JsonValue::Array(items) => serde_json::Value::Array(items.iter().map(into_serde).collect()),
        JsonValue::Object(ms) => serde_json::Value::Object(ms.iter().map(|(k, x)| (k.clone(), into_serde(x))).collect()),
    }
}

/// serde_json's `to_string_pretty` on a value, the error given by its
/// `Display` text. The contract names the result.
#[verifier::external_body]
pub fn pretty_json(v: &JsonValue) -> (r: Result<String, String>)
    ensures
        text_result_view(r) == json_pretty_text(v@),
{
    serde_json::to_string_pretty(&into_serde(v)).map_err(|e| e.to_string())
}

/// The member `key` of an object (`Value::get`): the first member of that
/// name; `None` for a value that is not an object or has no such member.
pub open spec fn member(v: JsonView, key: Seq<char>) -> Option<JsonView> {
    match v {
        JsonView::Object(ms) => member_in(ms, key),
        _ => None,
    }
}

pub open spec fn member_in(ms: Seq<(Seq<char>, JsonView)>, key: Seq<char>) -> Option<JsonView>
    decreases ms.len(),
{
    if ms.len() == 0 {
        None
    } else if ms[0].0 == key {
        Some(ms[0].1)
    } else {
        member_in(ms.drop_first(), key)
    }
}

/// The text of a string value (`Value::as_str`).
pub open spec fn as_text(v: Option<JsonView>) -> Option<Seq<char>> {
    match v {
        Some(JsonView::Text(s)) => Some(s),
        _ => None,
    }
}

/// The value of a number that is a non-negative integer (`Number::as_u64`):
/// serde_json writes such a number as plain digits, and every other number
/// with a sign, a point or an exponent.
pub open spec fn number_u64(t: Seq<char>) -> Option<u64> {
    if t.len() > 0 && all_digits(t) && digits_value(t) <= u64::MAX {
        Some(digits_value(t) as u64)
    } else {
        None
    }
}

/// The member `key` of an object value.
pub fn get_member<'a>(v: &'a JsonValue, key: &str) -> (r: Option<&'a JsonValue>)
    ensures
        match r {
            Some(x) => member(v@, key@) == Some(x@),
            None => member(v@, key@).is_none(),
        },
{
    match v {
        JsonValue::Object(ms) => {
            let ghost mv = members_view(ms@);
            assert(v@ == JsonView::Object(mv));
            proof {
                lemma_members_view_len(ms@);
                assert(mv.skip(0) =~= mv);
            }
            let mut i: usize = 0;
            while i < ms.len()
                invariant
                    i <= ms@.len(),
                    mv == members_view(ms@),
                    v@ == JsonView::Object(mv),
                    mv.len() == ms@.len(),
                    member_in(mv, key@) == member_in(mv.skip(i as int), key@),
                decreases ms.len() - i,
            {
                proof {
                    lemma_members_view_index(ms@, i as int);
                    assert(members_view(ms@).skip(i as int).drop_first() =~= members_view(ms@).skip(i + 1));
                }
                assert(mv.skip(i as int)[0] == mv[i as int]);
                if str_eq(ms[i].0.as_str(), key) {
                    return Some(&ms[i].1);
                }
                i = i + 1;
            }
            assert(mv.skip(i as int) =~= Seq::<(Seq<char>, JsonView)>::empty());
            None
        },
        _ => None,
    }
}

pub proof fn lemma_members_view_index(s: Seq<(String, JsonValue)>, i: int)
    requires
        0 <= i < s.len(),
    ensures
        members_view(s).len() == s.len(),
        members_view(s)[i] == (s[i].0@, s[i].1@),
    decreases s.len(),
{
    let t = s.subrange(0, s.len() - 1);
    lemma_members_view_len(t);
    if i < s.len() - 1 {
        lemma_members_view_index(t, i);
    }
}

pub proof fn lemma_members_view_len(s: Seq<(String, JsonValue)>)
    ensures
        members_view(s).len() == s.len(),
    decreases s.len(),
{
    if s.len() > 0 {
        lemma_members_view_len(s.subrange(0, s.len() - 1));
    }
}

pub proof fn lemma_items_view_index(s: Seq<JsonValue>, i: int)
    requires
        0 <= i < s.len(),
    ensures
        items_view(s).len() == s.len(),
        items_view(s)[i] == s[i]@,
    decreases s.len(),
{
    let t = s.subrange(0, s.len() - 1);
    lemma_items_view_len(t);
    if i < s.len() - 1 {
        lemma_items_view_index(t, i);
    }
}

pub proof fn lemma_items_view_len(s: Seq<JsonValue>)
    ensures
        items_view(s).len() == s.len(),
    decreases s.len(),
{
    if s.len() > 0 {
        lemma_items_view_len(s.subrange(0, s.len() - 1));
    }
}

/// The text of a string value.
pub fn text_of(v: Option<&JsonValue>) -> (r: Option<String>)
    ensures
        match r {
            Some(s) => v.is_some() && as_text(Some(v.unwrap()@)) == Some(s@),
            None => v.is_none() || as_text(Some(v.unwrap()@)).is_none(),
        },
{
    match v {
        Some(JsonValue::Text(s)) => Some(s.clone()),
        _ => None,
    }
}

proof fn lemma_digits_value_grows(s: Seq<char>, k: int)
    requires
        0 <= k <= s.len(),
    ensures
        digits_value(s.take(k)) <= digits_value(s),
    decreases s.len(),
{
    if k < s.len() {
        lemma_digits_value_grows(s.drop_last(), k);
        assert(s.drop_last().take(k) =~= s.take(k));
    } else {
        assert(s.take(k) =~= s);
    }
}

/// The value of a number that is a non-negative integer.
pub fn number_value(t: &str) -> (r: Option<u64>)
    ensures
        r == number_u64(t@),
{
    let cs = to_chars(t);
    if cs.len() == 0 {
        return None;
    }
    let mut n: u64 = 0;
    let mut i: usize = 0;
    assert(cs@.take(0) =~= Seq::<char>::empty());
    while i < cs.len()
        invariant
            cs@ == t@,
            i <= cs@.len(),
            all_digits(cs@.take(i as int)),
            n == digits_value(cs@.take(i as int)),
        decreases cs.len() - i,
    {
        let c = cs[i];
        assert(cs@.take(i + 1).drop_last() =~= cs@.take(i as int));
        if !('0' <= c && c <= '9') {
            assert(!is_digit(cs@[i as int]));
            return None;
        }
        let d: u64 = ((c as u32) - ('0' as u32)) as u64;
        if n > (u64::MAX - d) / 10 {
            proof {
                lemma_digits_value_grows(cs@, i + 1);
                assert(digits_value(cs@.take(i + 1)) == n * 10 + d);
                assert(n * 10 + d > u64::MAX) by (nonlinear_arith)
                    requires
                        n > (u64::MAX - d) / 10,
                        d <= 9,
                ;
            }
            return None;
        }
        assert(n * 10 + d <= u64::MAX) by (nonlinear_arith)
            requires
                n <= (u64::MAX - d) / 10,
                d <= 9,
        ;
        n = n * 10 + d;
        i = i + 1;
    }
    assert(cs@.take(i as int) =~= cs@);
    Some(n)
}

/// Whether `a` is what a tool reads of the JSON value `j` (see `ArgValue`).
pub open spec fn arg_matches(a: ArgValue, j: JsonView) -> bool {
    match (a, j) {
        (ArgValue::Null, JsonView::Null) => true,
        (ArgValue::Bool(x), JsonView::Bool(y)) => x == y,
        (ArgValue::Number(n), JsonView::Number(t)) => n == number_u64(t),
        (ArgValue::Text(s), JsonView::Text(t)) => s@ == t,
        (ArgValue::Array(items), JsonView::Array(js)) => {
            &&& items@.len() == js.len()
            &&& forall|i: int| 0 <= i < js.len() ==> opt_view(#[trigger] items@[i]) == as_text(Some(js[i]))
        },
        (ArgValue::Object, JsonView::Object(_)) => true,
        _ => false,
    }
}

/// Whether `args` holds the members of `arguments`, in order, where that is
/// an object; no arguments otherwise.
pub open spec fn args_match(args: ToolArgs, arguments: Option<JsonView>) -> bool {
    let ms = match arguments {
        Some(JsonView::Object(ms)) => ms,
        _ => Seq::empty(),
    };
    &&& args.entries@.len() == ms.len()
    &&& forall|i: int| 0 <= i < ms.len() ==> (#[trigger] args.entries@[i]).0@ == ms[i].0 && arg_matches(args.entries@[i].1, ms[i].1)
}

/// What a tool reads of one argument.
pub fn arg_value(j: &JsonValue) -> (a: ArgValue)
    ensures
        arg_matches(a, j@),
{
    match j {
        JsonValue::Null => ArgValue::Null,
        JsonValue::Bool(b) => ArgValue::Bool(*b),
        JsonValue::Number(t) => ArgValue::Number(number_value(t.as_str())),
        JsonValue::Text(s) => ArgValue::Text(s.clone()),
        JsonValue::Array(items) => {
            let ghost iv = items_view(items@);
            assert(j@ == JsonView::Array(iv));
            proof {
                lemma_items_view_len(items@);
            }
            let mut out: Vec<Option<String>> = Vec::new();
            for k in 0..items.len()
                invariant
                    iv == items_view(items@),
                    iv.len() == items@.len(),
                    out@.len() == k,
                    forall|i: int| 0 <= i < k ==> opt_view(#[trigger] out@[i]) == as_text(Some(iv[i])),
            {
                proof {
                    lemma_items_view_index(items@, k as int);
                }
                let t = text_of(Some(&items[k]));
                out.push(t);
            }
            ArgValue::Array(out)
        },
        JsonValue::Object(_) => ArgValue::Object,
    }
}

/// The arguments of a tool call, from its `arguments` member.
pub fn tool_args(arguments: Option<&JsonValue>) -> (r: ToolArgs)
    ensures
        args_match(r, match arguments {
            Some(a) => Some(a@),
            None => None,
        }),
{
    let mut r = ToolArgs::empty();
    match arguments {
        Some(JsonValue::Object(ms)) => {
            let ghost mv = members_view(ms@);
            proof {
                lemma_members_view_len(ms@);
            }
            for k in 0..ms.len()
                invariant
                    mv == members_view(ms@),
                    mv.len() == ms@.len(),
                    r.entries@.len() == k,
                    forall|i: int| 0 <= i < k ==> (#[trigger] r.entries@[i]).0@ == mv[i].0 && arg_matches(r.entries@[i].1, mv[i].1),
            {
                proof {
                    lemma_members_view_index(ms@, k as int);
                }
                let a = arg_value(&ms[k].1);
                r.push(ms[k].0.clone(), a);
            }
        },
        _ => {},
    }
    r
}

} // verus!
