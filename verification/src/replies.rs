//! The JSON the server answers with: tool input schemas, the results of the
//! methods, and the JSON-RPC envelope around them.
use vstd::prelude::*;
use crate::json::{items_view, json_view, member, members_view, JsonValue, JsonView};
use crate::http::{answers, protocol_version, ActionView, RpcReply, RpcResult};
use crate::server::instructions;
use crate::exec::ExecReport;
use crate::json::{json_pretty_text, pretty_json, text_result_view};
use crate::record::{record_view, records_view, Field, FieldValue, RecordView, ValueView};
use crate::text::{decimal, i64_text, signed_decimal, string_views, u64_text};
use crate::tools::{param_views, ParamKind, ParamKindView, ParamSpec, ParamView, ToolSpec, ToolView};

verus! {

// ---------------------------------------------------------------------------
// Building values
// ---------------------------------------------------------------------------

pub proof fn lemma_members_push(s: Seq<(String, JsonValue)>, x: (String, JsonValue))
    ensures
        members_view(s.push(x)) == members_view(s).push((x.0@, x.1@)),
{
    assert(s.push(x).subrange(0, s.len() as int) =~= s);
}

pub proof fn lemma_items_push(s: Seq<JsonValue>, x: JsonValue)
    ensures
        items_view(s.push(x)) == items_view(s).push(x@),
{
    assert(s.push(x).subrange(0, s.len() as int) =~= s);
}

/// Adds a member at the end of an object's members.
pub fn put(ms: &mut Vec<(String, JsonValue)>, key: &str, v: JsonValue)
    ensures
        members_view(final(ms)@) == members_view(old(ms)@).push((key@, v@)),
{
    let k = key.to_owned();
    let ghost x = (k, v);
    ms.push((k, v));
    proof {
        lemma_members_push(old(ms)@, x);
    }
}

/// Adds an element at the end of an array's elements.
pub fn append(items: &mut Vec<JsonValue>, v: JsonValue)
    ensures
        items_view(final(items)@) == items_view(old(items)@).push(v@),
{
    let ghost x = v;
    items.push(v);
    proof {
        lemma_items_push(old(items)@, x);
    }
}

pub fn text_json(s: &str) -> (r: JsonValue)
    ensures
        r@ == JsonView::Text(s@),
{
    JsonValue::Text(s.to_owned())
}

/// An array of strings.
pub open spec fn texts_json(v: Seq<Seq<char>>) -> JsonView {
    JsonView::Array(Seq::new(v.len(), |i: int| JsonView::Text(v[i])))
}

pub fn texts_value(v: &Vec<String>) -> (r: JsonValue)
    ensures
        r@ == texts_json(string_views(v@)),
{
    let mut items: Vec<JsonValue> = Vec::new();
    for k in 0..v.len()
        invariant
            items_view(items@) =~= Seq::new(k as nat, |i: int| JsonView::Text(v@[i]@)),
    {
        append(&mut items, JsonValue::Text(v[k].clone()));
    }
    let r = JsonValue::Array(items);
    assert(r@ == JsonView::Array(items_view(items@)));
    let ghost sv = string_views(v@);
    assert(items_view(items@) =~= Seq::new(sv.len(), |i: int| JsonView::Text(sv[i])));
    r
}

// ---------------------------------------------------------------------------
// Input schemas
// ---------------------------------------------------------------------------

/// The schema of one parameter: its JSON type, the allowed values of a
/// choice, and its description.
pub open spec fn param_json(p: ParamView) -> JsonView {
    let desc = ("description"@, JsonView::Text(p.description));
    match p.kind {
        ParamKindView::Text => JsonView::Object(seq![("type"@, JsonView::Text("string"@)), desc]),
        ParamKindView::Boolean => JsonView::Object(seq![("type"@, JsonView::Text("boolean"@)), desc]),
        ParamKindView::Integer => JsonView::Object(seq![("type"@, JsonView::Text("integer"@)), desc]),
        ParamKindView::TextList => JsonView::Object(
            seq![
                ("type"@, JsonView::Text("array"@)),
                ("items"@, JsonView::Object(seq![("type"@, JsonView::Text("string"@))])),
                desc,
            ],
        ),
        ParamKindView::Choice(o) => JsonView::Object(
            seq![("type"@, JsonView::Text("string"@)), ("enum"@, texts_json(o)), desc],
        ),
        ParamKindView::ChoiceList(o) => JsonView::Object(
            seq![
                ("type"@, JsonView::Text("array"@)),
                ("items"@, JsonView::Object(seq![("type"@, JsonView::Text("string"@)), ("enum"@, texts_json(o))])),
                desc,
            ],
        ),
    }
}

/// A tool's input schema: an object whose properties are the parameters,
/// with `required` only where the tool requires a parameter.
pub open spec fn schema_json(t: ToolView) -> JsonView {
    let props = JsonView::Object(Seq::new(t.params.len(), |i: int| (t.params[i].name, param_json(t.params[i]))));
    if t.required.len() > 0 {
        JsonView::Object(
            seq![("type"@, JsonView::Text("object"@)), ("properties"@, props), ("required"@, texts_json(t.required))],
        )
    } else {
        JsonView::Object(seq![("type"@, JsonView::Text("object"@)), ("properties"@, props)])
    }
}

fn type_member(ms: &mut Vec<(String, JsonValue)>, ty: &str)
    ensures
        members_view(final(ms)@) == members_view(old(ms)@).push(("type"@, JsonView::Text(ty@))),
{
    put(ms, "type", text_json(ty));
}

/// The schema of one parameter.
pub fn param_schema(p: &ParamSpec) -> (r: JsonValue)
    ensures
        r@ == param_json(p@),
{
    let mut ms: Vec<(String, JsonValue)> = Vec::new();
    assert(members_view(ms@) =~= Seq::<(Seq<char>, JsonView)>::empty());
    match &p.kind {
        ParamKind::Text => type_member(&mut ms, "string"),
        ParamKind::Boolean => type_member(&mut ms, "boolean"),
        ParamKind::Integer => type_member(&mut ms, "integer"),
        ParamKind::TextList => {
            type_member(&mut ms, "array");
            let mut item: Vec<(String, JsonValue)> = Vec::new();
            assert(members_view(item@) =~= Seq::<(Seq<char>, JsonView)>::empty());
            type_member(&mut item, "string");
            assert(members_view(item@) =~= seq![("type"@, JsonView::Text("string"@))]);
            put(&mut ms, "items", JsonValue::Object(item));
        },
        ParamKind::Choice(o) => {
            type_member(&mut ms, "string");
            put(&mut ms, "enum", texts_value(o));
        },
        ParamKind::ChoiceList(o) => {
            type_member(&mut ms, "array");
            let mut item: Vec<(String, JsonValue)> = Vec::new();
            assert(members_view(item@) =~= Seq::<(Seq<char>, JsonView)>::empty());
            type_member(&mut item, "string");
            put(&mut item, "enum", texts_value(o));
            assert(members_view(item@) =~= seq![("type"@, JsonView::Text("string"@)), ("enum"@, texts_json(p.kind@->ChoiceList_0))]);
            put(&mut ms, "items", JsonValue::Object(item));
        },
    }
    put(&mut ms, "description", JsonValue::Text(p.description.clone()));
    let r = JsonValue::Object(ms);
    assert(members_view(ms@) =~= match param_json(p@) {
        JsonView::Object(m) => m,
        _ => Seq::empty(),
    });
    r
}

/// The input schema of a tool.
pub fn input_schema(t: &ToolSpec) -> (r: JsonValue)
    ensures
        r@ == schema_json(t@),
{
    let ghost pv = param_views(t.params@);
    let mut props: Vec<(String, JsonValue)> = Vec::new();
    for k in 0..t.params.len()
        invariant
            pv == param_views(t.params@),
            members_view(props@) =~= Seq::new(k as nat, |i: int| (pv[i].name, param_json(pv[i]))),
    {
        let s = param_schema(&t.params[k]);
        let name = t.params[k].name.clone();
        let ghost before = props@;
        let ghost x = (name, s);
        assert(x.0@ == pv[k as int].name && x.1@ == param_json(pv[k as int]));
        props.push((name, s));
        proof {
            lemma_members_push(before, x);
        }
    }
    let mut ms: Vec<(String, JsonValue)> = Vec::new();
    assert(members_view(ms@) =~= Seq::<(Seq<char>, JsonView)>::empty());
    type_member(&mut ms, "object");
    put(&mut ms, "properties", JsonValue::Object(props));
    if t.required.len() > 0 {
        put(&mut ms, "required", texts_value(&t.required));
    }
    let r = JsonValue::Object(ms);
    assert(members_view(ms@) =~= match schema_json(t@) {
        JsonView::Object(m) => m,
        _ => Seq::empty(),
    });
    r
}

// ---------------------------------------------------------------------------
// Results and envelopes
// ---------------------------------------------------------------------------

/// The server's version, announced in `initialize` (the package version).
pub open spec fn server_version() -> Seq<char> {
    "0.1.0"@
}

/// The answer to `initialize`: the protocol version, the tools capability,
/// the server's name and version, and its instructions.
pub open spec fn initialize_view() -> JsonView {
    JsonView::Object(
        seq![
            ("protocolVersion"@, JsonView::Text(protocol_version())),
            ("capabilities"@, JsonView::Object(seq![("tools"@, JsonView::Object(Seq::empty()))])),
            ("serverInfo"@, JsonView::Object(seq![("name"@, JsonView::Text("mcp-wsl"@)), ("version"@, JsonView::Text(server_version()))])),
            ("instructions"@, JsonView::Text(instructions())),
        ],
    )
}

/// One entry of the tool listing.
pub open spec fn tool_json(t: ToolView) -> JsonView {
    JsonView::Object(
        seq![("name"@, JsonView::Text(t.name)), ("description"@, JsonView::Text(t.description)), ("inputSchema"@, schema_json(t))],
    )
}

/// The `result` of a successful answer.
pub open spec fn result_json(r: RpcResult) -> JsonView {
    match r {
        RpcResult::Initialize => initialize_view(),
        RpcResult::Empty => JsonView::Object(Seq::empty()),
        RpcResult::Null => JsonView::Null,
        RpcResult::Tools(list) => JsonView::Object(
            seq![("tools"@, JsonView::Array(Seq::new(list@.len(), |i: int| tool_json(list@[i]@))))],
        ),
        RpcResult::ToolCall(c) => JsonView::Object(
            seq![
                ("content"@, JsonView::Array(seq![JsonView::Object(seq![("type"@, JsonView::Text("text"@)), ("text"@, JsonView::Text(c.text@))])])),
                ("isError"@, JsonView::Bool(c.is_error)),
            ],
        ),
    }
}

/// A JSON-RPC answer carrying `id`: the result, or the error's code and
/// message.
pub open spec fn reply_json(id: JsonView, r: RpcReply) -> JsonView {
    match r {
        RpcReply::Success(res) => JsonView::Object(
            seq![("jsonrpc"@, JsonView::Text("2.0"@)), ("id"@, id), ("result"@, result_json(res))],
        ),
        RpcReply::Failure { code, message } => JsonView::Object(
            seq![
                ("jsonrpc"@, JsonView::Text("2.0"@)),
                ("id"@, id),
                ("error"@, JsonView::Object(seq![("code"@, JsonView::Number(signed_decimal(code as int))), ("message"@, JsonView::Text(message@))])),
            ],
        ),
    }
}

fn empty_object() -> (r: Vec<(String, JsonValue)>)
    ensures
        members_view(r@) == Seq::<(Seq<char>, JsonView)>::empty(),
{
    let r: Vec<(String, JsonValue)> = Vec::new();
    assert(members_view(r@) =~= Seq::<(Seq<char>, JsonView)>::empty());
    r
}

/// The answer to `initialize`.
pub fn initialize_json() -> (r: JsonValue)
    ensures
        r@ == initialize_view(),
{
    let mut caps = empty_object();
    put(&mut caps, "tools", JsonValue::Object(empty_object()));
    let mut info = empty_object();
    put(&mut info, "name", text_json("mcp-wsl"));
    put(&mut info, "version", text_json("0.1.0"));
    let mut ms = empty_object();
    put(&mut ms, "protocolVersion", text_json("2025-03-26"));
    put(&mut ms, "capabilities", JsonValue::Object(caps));
    put(&mut ms, "serverInfo", JsonValue::Object(info));
    put(&mut ms, "instructions", text_json("MCP server providing WSL system information and command execution"));
    assert(members_view(caps@) =~= seq![("tools"@, JsonView::Object(Seq::empty()))]);
    assert(members_view(info@) =~= seq![("name"@, JsonView::Text("mcp-wsl"@)), ("version"@, JsonView::Text(server_version()))]);
    let r = JsonValue::Object(ms);
    assert(members_view(ms@) =~= match initialize_view() {
        JsonView::Object(m) => m,
        _ => Seq::empty(),
    });
    r
}

/// One entry of the tool listing.
pub fn tool_entry(t: &ToolSpec) -> (r: JsonValue)
    ensures
        r@ == tool_json(t@),
{
    let mut ms = empty_object();
    put(&mut ms, "name", JsonValue::Text(t.name.clone()));
    put(&mut ms, "description", JsonValue::Text(t.description.clone()));
    put(&mut ms, "inputSchema", input_schema(t));
    let r = JsonValue::Object(ms);
    assert(members_view(ms@) =~= match tool_json(t@) {
        JsonView::Object(m) => m,
        _ => Seq::empty(),
    });
    r
}

/// The `result` of a successful answer.
pub fn result_value(res: &RpcResult) -> (r: JsonValue)
    ensures
        r@ == result_json(*res),
{
    match res {
        RpcResult::Initialize => initialize_json(),
        RpcResult::Empty => JsonValue::Object(empty_object()),
        RpcResult::Null => JsonValue::Null,
        RpcResult::Tools(list) => {
            let mut items: Vec<JsonValue> = Vec::new();
            assert(items_view(items@) =~= Seq::<JsonView>::empty());
            for k in 0..list.len()
                invariant
                    items_view(items@) =~= Seq::new(k as nat, |i: int| tool_json(list@[i]@)),
            {
                append(&mut items, tool_entry(&list[k]));
            }
            let mut ms = empty_object();
            put(&mut ms, "tools", JsonValue::Array(items));
            let r = JsonValue::Object(ms);
            assert(members_view(ms@) =~= match result_json(*res) {
                JsonView::Object(m) => m,
                _ => Seq::empty(),
            });
            r
        },
        RpcResult::ToolCall(c) => {
            let mut part = empty_object();
            put(&mut part, "type", text_json("text"));
            put(&mut part, "text", JsonValue::Text(c.text.clone()));
            let mut content: Vec<JsonValue> = Vec::new();
            assert(items_view(content@) =~= Seq::<JsonView>::empty());
            append(&mut content, JsonValue::Object(part));
            let mut ms = empty_object();
            put(&mut ms, "content", JsonValue::Array(content));
            put(&mut ms, "isError", JsonValue::Bool(c.is_error));
            let r = JsonValue::Object(ms);
            assert(members_view(part@) =~= seq![("type"@, JsonView::Text("text"@)), ("text"@, JsonView::Text(c.text@))]);
            assert(items_view(content@) =~= seq![JsonView::Object(members_view(part@))]);
            assert(members_view(ms@) =~= match result_json(*res) {
                JsonView::Object(m) => m,
                _ => Seq::empty(),
            });
            r
        },
    }
}

/// A JSON-RPC answer carrying `id`.
pub fn reply_value(id: JsonValue, reply: &RpcReply) -> (r: JsonValue)
    ensures
        r@ == reply_json(id@, *reply),
{
    let mut ms = empty_object();
    put(&mut ms, "jsonrpc", text_json("2.0"));
    put(&mut ms, "id", id);
    match reply {
        RpcReply::Success(res) => {
            put(&mut ms, "result", result_value(res));
        },
        RpcReply::Failure { code, message } => {
            let mut err = empty_object();
            put(&mut err, "code", JsonValue::Number(i64_text(*code)));
            put(&mut err, "message", JsonValue::Text(message.clone()));
            assert(members_view(err@) =~= seq![("code"@, JsonView::Number(signed_decimal(*code as int))), ("message"@, JsonView::Text(message@))]);
            put(&mut ms, "error", JsonValue::Object(err));
        },
    }
    let r = JsonValue::Object(ms);
    assert(members_view(ms@) =~= match reply_json(id@, *reply) {
        JsonView::Object(m) => m,
        _ => Seq::empty(),
    });
    r
}

/// The answer to a tool call says on the wire whether the tool failed: it
/// echoes the id, its result has `isError` true exactly when the tool gave
/// an error, and its content is one text part holding the tool's output or
/// error.
pub proof fn law_tool_call_on_the_wire(name: Seq<char>, tool: Result<Seq<char>, Seq<char>>, r: RpcReply, id: JsonView)
    requires
        answers(ActionView::CallTool(name), Some(tool), r),
    ensures
        ({
            let answer = reply_json(id, r);
            let res = member(answer, "result"@);
            let text = match tool {
                Ok(t) => t,
                Err(e) => e,
            };
            &&& member(answer, "id"@) == Some(id)
            &&& res is Some
            &&& member(res->0, "isError"@) == Some(JsonView::Bool(tool is Err))
            &&& member(res->0, "content"@) == Some(
                JsonView::Array(seq![JsonView::Object(seq![("type"@, JsonView::Text("text"@)), ("text"@, JsonView::Text(text))])]),
            )
        }),
{
    reveal_strlit("jsonrpc");
    reveal_strlit("id");
    reveal_strlit("result");
    reveal_strlit("content");
    reveal_strlit("isError");
    assert("jsonrpc"@[0] == 'j' && "id"@[0] == 'i' && "result"@[0] == 'r' && "content"@[0] == 'c' && "isError"@[0] == 'i');
    let answer = reply_json(id, r);
    match r {
        RpcReply::Success(RpcResult::ToolCall(c)) => {
            let ms = seq![("jsonrpc"@, JsonView::Text("2.0"@)), ("id"@, id), ("result"@, result_json(RpcResult::ToolCall(c)))];
            assert(answer == JsonView::Object(ms));
            assert("jsonrpc"@ != "id"@ && "jsonrpc"@ != "result"@ && "id"@ != "result"@);
            assert(ms.drop_first()[0].0 == "id"@);
            assert(ms.drop_first().drop_first()[0].0 == "result"@);
            assert(crate::json::member_in(ms.drop_first(), "id"@) == Some(id));
            assert(crate::json::member_in(ms, "id"@) == Some(id));
            assert(crate::json::member_in(ms.drop_first().drop_first(), "result"@) == Some(result_json(RpcResult::ToolCall(c))));
            assert(crate::json::member_in(ms.drop_first(), "result"@) == Some(result_json(RpcResult::ToolCall(c))));
            assert(crate::json::member_in(ms, "result"@) == Some(result_json(RpcResult::ToolCall(c))));
            let part = JsonView::Object(seq![("type"@, JsonView::Text("text"@)), ("text"@, JsonView::Text(c.text@))]);
            let flag = JsonView::Bool(c.is_error);
            let rs = seq![("content"@, JsonView::Array(seq![part])), ("isError"@, flag)];
            assert(result_json(RpcResult::ToolCall(c)) == JsonView::Object(rs));
            assert("content"@ != "isError"@);
            assert(rs.drop_first()[0].0 == "isError"@);
            assert(crate::json::member_in(rs.drop_first(), "isError"@) == Some(JsonView::Bool(c.is_error)));
            assert(crate::json::member_in(rs, "isError"@) == Some(JsonView::Bool(c.is_error)));
            assert(crate::json::member_in(rs, "content"@) == Some(rs[0].1));
        },
        _ => {},
    }
}

// ---------------------------------------------------------------------------
// Tool output
// ---------------------------------------------------------------------------

/// A field's value: text as a string, a count as a number.
pub open spec fn field_json(v: ValueView) -> JsonView {
    match v {
        ValueView::Text(s) => JsonView::Text(s),
        ValueView::Count(n) => JsonView::Number(decimal(n as nat)),
    }
}

/// A record as a JSON object, its fields in order.
pub open spec fn record_json(r: RecordView) -> JsonView {
    JsonView::Object(Seq::new(r.len(), |i: int| (r[i].0, field_json(r[i].1))))
}

/// A listing as a JSON array of its records.
pub open spec fn records_json(rs: Seq<RecordView>) -> JsonView {
    JsonView::Array(Seq::new(rs.len(), |i: int| record_json(rs[i])))
}

/// What a command run reports: its exit status and its two outputs.
pub open spec fn report_json(status: i32, stdout: Seq<char>, stderr: Seq<char>) -> JsonView {
    JsonView::Object(
        seq![
            ("status"@, JsonView::Number(signed_decimal(status as int))),
            ("stdout"@, JsonView::Text(stdout)),
            ("stderr"@, JsonView::Text(stderr)),
        ],
    )
}

fn record_value(r: &Vec<Field>) -> (v: JsonValue)
    ensures
        v@ == record_json(record_view(r@)),
{
    let ghost rv = record_view(r@);
    let mut ms = empty_object();
    for k in 0..r.len()
        invariant
            rv == record_view(r@),
            members_view(ms@) =~= Seq::new(k as nat, |i: int| (rv[i].0, field_json(rv[i].1))),
    {
        let v = match &r[k].value {
            FieldValue::Text(s) => JsonValue::Text(s.clone()),
            FieldValue::Count(n) => JsonValue::Number(u64_text(*n)),
        };
        put(&mut ms, r[k].key.as_str(), v);
    }
    JsonValue::Object(ms)
}

/// A listing as a JSON array.
pub fn records_value(rs: &Vec<Vec<Field>>) -> (v: JsonValue)
    ensures
        v@ == records_json(records_view(rs@)),
{
    let ghost rv = records_view(rs@);
    let mut items: Vec<JsonValue> = Vec::new();
    assert(items_view(items@) =~= Seq::<JsonView>::empty());
    for k in 0..rs.len()
        invariant
            rv == records_view(rs@),
            items_view(items@) =~= Seq::new(k as nat, |i: int| record_json(rv[i])),
    {
        append(&mut items, record_value(&rs[k]));
    }
    JsonValue::Array(items)
}

/// The text a listing tool answers with: its records as pretty-printed JSON.
pub fn records_text(rs: &Vec<Vec<Field>>) -> (r: Result<String, String>)
    ensures
        text_result_view(r) == json_pretty_text(records_json(records_view(rs@))),
{
    pretty_json(&records_value(rs))
}

/// The text a command tool answers with: its report as pretty-printed JSON.
pub fn report_text(r: &ExecReport) -> (t: Result<String, String>)
    ensures
        text_result_view(t) == json_pretty_text(report_json(r.status, r.stdout@, r.stderr@)),
{
    let mut ms = empty_object();
    put(&mut ms, "status", JsonValue::Number(i64_text(r.status as i64)));
    put(&mut ms, "stdout", JsonValue::Text(r.stdout.clone()));
    put(&mut ms, "stderr", JsonValue::Text(r.stderr.clone()));
    let v = JsonValue::Object(ms);
    assert(members_view(ms@) =~= match report_json(r.status, r.stdout@, r.stderr@) {
        JsonView::Object(m) => m,
        _ => Seq::empty(),
    });
    pretty_json(&v)
}

} // verus!
