//! JSON-RPC over HTTP: which messages get which answer. The transport parses
//! and writes the JSON and runs the tools; what to answer is decided here.
use vstd::prelude::*;
use crate::args::ToolArgs;
use crate::passwd::opt_view;
use crate::system::result_view;
use crate::text::{push_str, str_eq};
use crate::server::{instructions, tool_call_content, ToolCallContent};
use crate::tools::{catalog_order, tool_list, tool_view, ToolSpec};
use crate::json::{
    args_match, as_text, get_member, items_view, json_result_view, lemma_items_view_index, lemma_items_view_len,
    lemma_members_view_index, lemma_members_view_len, member, member_in, members_view, text_of, tool_args,
    JsonValue, JsonView,
};
use crate::replies::{reply_json, reply_value};

verus! {

/// JSON-RPC error code for a body that is not JSON.
pub open spec fn parse_error_code() -> i64 { -32700i64 }

/// JSON-RPC error code for every failure of a method.
pub open spec fn internal_error_code() -> i64 { -32603i64 }

/// The protocol version the HTTP transport announces.
pub open spec fn protocol_version() -> Seq<char> {
    "2025-03-26"@
}

/// A JSON-RPC message, as much of it as the server reads.
pub struct RpcRequest {
    /// Whether it has an `id` (a notification has none).
    pub has_id: bool,
    /// Its `method`, where that is a string.
    pub method: Option<String>,
    /// `params.name`, where that is a string.
    pub tool_name: Option<String>,
    /// `params.arguments`, where that is an object; empty otherwise.
    pub arguments: ToolArgs,
}

/// What a method asks the server to do.
pub enum MethodAction {
    /// Answer with the server's identity and capabilities.
    Initialize,
    /// Answer with an empty object.
    Ping,
    /// Answer with `null`.
    Acknowledge,
    /// Answer with the tool listing.
    ListTools,
    /// Run the named tool and answer with its content.
    CallTool(String),
    /// Answer with an internal error carrying this message.
    Fail(String),
}

pub enum ActionView {
    Initialize,
    Ping,
    Acknowledge,
    ListTools,
    CallTool(Seq<char>),
    Fail(Seq<char>),
}

impl View for MethodAction {
    type V = ActionView;

    open spec fn view(&self) -> ActionView {
        match self {
            MethodAction::Initialize => ActionView::Initialize,
            MethodAction::Ping => ActionView::Ping,
            MethodAction::Acknowledge => ActionView::Acknowledge,
            MethodAction::ListTools => ActionView::ListTools,
            MethodAction::CallTool(n) => ActionView::CallTool(n@),
            MethodAction::Fail(m) => ActionView::Fail(m@),
        }
    }
}

/// What each method asks for.
pub open spec fn method_action(method: Seq<char>, tool_name: Option<Seq<char>>) -> ActionView {
    if method == "initialize"@ {
        ActionView::Initialize
    } else if method == "ping"@ {
        ActionView::Ping
    } else if method == "notifications/initialized"@ || method == "notifications/cancelled"@ {
        ActionView::Acknowledge
    } else if method == "tools/list"@ {
        ActionView::ListTools
    } else if method == "tools/call"@ {
        match tool_name {
            Some(n) => ActionView::CallTool(n),
            None => ActionView::Fail("Missing tool name"@),
        }
    } else {
        ActionView::Fail("Method not found: "@ + method)
    }
}

/// Decides what a method asks for.
pub fn handle_method(method: &str, tool_name: &Option<String>) -> (r: MethodAction)
    ensures
        r@ == method_action(method@, opt_view(*tool_name)),
{
    if str_eq(method, "initialize") {
        MethodAction::Initialize
    } else if str_eq(method, "ping") {
        MethodAction::Ping
    } else if str_eq(method, "notifications/initialized") || str_eq(method, "notifications/cancelled") {
        MethodAction::Acknowledge
    } else if str_eq(method, "tools/list") {
        MethodAction::ListTools
    } else if str_eq(method, "tools/call") {
        match tool_name {
            Some(n) => MethodAction::CallTool(n.clone()),
            None => MethodAction::Fail("Missing tool name".to_owned()),
        }
    } else {
        let mut m = String::new();
        push_str(&mut m, "Method not found: ");
        push_str(&mut m, method);
        MethodAction::Fail(m)
    }
}

/// What to do with one message.
pub enum RequestPlan {
    /// Nothing: it has no string `method`.
    Ignore,
    /// Carry out the action, and answer if `reply` (the message has an `id`).
    Handle { action: MethodAction, reply: bool },
}

/// Plans the handling of one message.
pub fn dispatch_request(req: &RpcRequest) -> (r: RequestPlan)
    ensures
        match r {
            RequestPlan::Ignore => req.method.is_none(),
            RequestPlan::Handle { action, reply } => {
                &&& req.method.is_some()
                &&& action@ == method_action(req.method.unwrap()@, opt_view(req.tool_name))
                &&& reply == req.has_id
            },
        },
{
    match &req.method {
        None => RequestPlan::Ignore,
        Some(m) => RequestPlan::Handle { action: handle_method(m.as_str(), &req.tool_name), reply: req.has_id },
    }
}

/// The `result` of a successful answer.
pub enum RpcResult {
    /// The server's identity and capabilities.
    Initialize,
    /// `{}`.
    Empty,
    /// `null`.
    Null,
    /// `{"tools": [..]}`.
    Tools(Vec<ToolSpec>),
    /// The content of a tool call.
    ToolCall(ToolCallContent),
}

/// An answer to a message.
pub enum RpcReply {
    Success(RpcResult),
    Failure { code: i64, message: String },
}

/// Whether `r` is the answer that `action` calls for, `tool` being what the
/// tool gave where the action runs one.
pub open spec fn answers(action: ActionView, tool: Option<Result<Seq<char>, Seq<char>>>, r: RpcReply) -> bool {
    match action {
        ActionView::Initialize => r matches RpcReply::Success(RpcResult::Initialize),
        ActionView::Ping => r matches RpcReply::Success(RpcResult::Empty),
        ActionView::Acknowledge => r matches RpcReply::Success(RpcResult::Null),
        ActionView::ListTools => match r {
            RpcReply::Success(RpcResult::Tools(t)) => {
                &&& t@.len() == catalog_order().len()
                &&& forall|i: int| 0 <= i < t@.len() ==> #[trigger] t@[i]@ == tool_view(catalog_order()[i])
            },
            _ => false,
        },
        ActionView::CallTool(_) => match r {
            RpcReply::Success(RpcResult::ToolCall(c)) => match tool {
                Some(Ok(t)) => c.text@ == t && !c.is_error,
                Some(Err(e)) => c.text@ == e && c.is_error,
                None => false,
            },
            _ => false,
        },
        ActionView::Fail(m) => match r {
            RpcReply::Failure { code, message } => code == internal_error_code() && message@ == m,
            _ => false,
        },
    }
}

pub open spec fn tool_view_opt(t: Option<Result<String, String>>) -> Option<Result<Seq<char>, Seq<char>>> {
    match t {
        Some(r) => Some(result_view(r)),
        None => None,
    }
}

/// The answer to a message once its action is carried out; `tool` is what
/// the tool gave, for a tool call. A notification, or a tool call whose
/// tool did not run, gets no answer.
pub fn finish_request(plan: RequestPlan, tool: Option<Result<String, String>>) -> (r: Option<RpcReply>)
    ensures
        match plan {
            RequestPlan::Ignore => r.is_none(),
            RequestPlan::Handle { action, reply } => if !reply {
                r.is_none()
            } else if (action matches MethodAction::CallTool(_)) && tool.is_none() {
                r.is_none()
            } else {
                r is Some && answers(action@, tool_view_opt(tool), r.unwrap())
            },
        },
{
    match plan {
        RequestPlan::Ignore => None,
        RequestPlan::Handle { action, reply } => {
            if !reply {
                return None;
            }
            match action {
                MethodAction::Initialize => Some(RpcReply::Success(RpcResult::Initialize)),
                MethodAction::Ping => Some(RpcReply::Success(RpcResult::Empty)),
                MethodAction::Acknowledge => Some(RpcReply::Success(RpcResult::Null)),
                MethodAction::ListTools => Some(RpcReply::Success(RpcResult::Tools(tool_list()))),
                MethodAction::CallTool(_) => match tool {
                    Some(t) => Some(RpcReply::Success(RpcResult::ToolCall(tool_call_content(t)))),
                    None => None,
                },
                MethodAction::Fail(m) => Some(RpcReply::Failure { code: -32603, message: m }),
            }
        },
    }
}

/// The answer to a body that is not JSON (sent with a `null` id).
pub fn parse_failure(err: &str) -> (r: RpcReply)
    ensures
        match r {
            RpcReply::Failure { code, message } => code == parse_error_code() && message@ == "Parse error: "@ + err@,
            _ => false,
        },
{
    let mut m = String::new();
    push_str(&mut m, "Parse error: ");
    push_str(&mut m, err);
    RpcReply::Failure { code: -32700, message: m }
}

/// The answers present, in order.
pub open spec fn present<T>(rs: Seq<Option<T>>) -> Seq<T>
    decreases rs.len(),
{
    if rs.len() == 0 {
        Seq::empty()
    } else {
        let prev = present(rs.drop_last());
        match rs.last() {
            Some(x) => prev.push(x),
            None => prev,
        }
    }
}

/// The answer to a batch: the answers of its messages that have one, in
/// order.
pub fn batch_replies<T>(rs: Vec<Option<T>>) -> (out: Vec<T>)
    ensures
        out@ == present(rs@),
{
    let ghost all = rs@;
    let n = rs.len();
    let mut rest = rs;
    let mut out: Vec<T> = Vec::new();
    let mut k: usize = 0;
    assert(all.take(0) =~= Seq::<Option<T>>::empty());
    assert(rest@ =~= all.skip(0));
    while rest.len() > 0
        invariant
            all.len() == n,
            k <= n,
            rest@.len() + k == n,
            rest@ == all.skip(k as int),
            out@ == present(all.take(k as int)),
        decreases rest.len(),
    {
        let x = rest.remove(0);
        assert(rest@ =~= all.skip(k + 1));
        assert(all.take(k + 1).drop_last() =~= all.take(k as int));
        if let Some(reply) = x {
            out.push(reply);
        }
        k = k + 1;
    }
    assert(all.take(k as int) =~= all);
    out
}

/// The HTTP status of the answer to a single message: 200 with an answer,
/// 204 without.
pub fn http_status<T>(reply: &Option<T>) -> (s: u16)
    ensures
        s == if reply.is_some() { 200u16 } else { 204u16 },
{
    if reply.is_some() { 200 } else { 204 }
}

// ---------------------------------------------------------------------------
// Messages and posts
// ---------------------------------------------------------------------------

/// A message of a post: its `id`, where it has one, and what the server
/// reads of it.
pub struct RpcMessage {
    pub id: Option<JsonValue>,
    pub request: RpcRequest,
}

pub open spec fn opt_json(o: Option<JsonValue>) -> Option<JsonView> {
    match o {
        Some(v) => Some(v@),
        None => None,
    }
}

/// The member `key` of the `params` of a message, where it has them.
pub open spec fn param(params: Option<JsonView>, key: Seq<char>) -> Option<JsonView> {
    match params {
        Some(p) => member(p, key),
        None => None,
    }
}

/// Whether `m` is what the server reads of the message `v`: its `id`; its
/// `method` where that is a string; `params.name` where that is a string;
/// the members of `params.arguments` where that is an object.
pub open spec fn reads_message(m: RpcMessage, v: JsonView) -> bool {
    let params = member(v, "params"@);
    &&& opt_json(m.id) == member(v, "id"@)
    &&& m.request.has_id == member(v, "id"@).is_some()
    &&& opt_view(m.request.method) == as_text(member(v, "method"@))
    &&& opt_view(m.request.tool_name) == as_text(param(params, "name"@))
    &&& args_match(m.request.arguments, param(params, "arguments"@))
}

/// Takes the member `key` out of an object value.
fn take_member(v: JsonValue, key: &str) -> (r: Option<JsonValue>)
    ensures
        opt_json(r) == member(v@, key@),
{
    match v {
        JsonValue::Object(ms) => {
            let ghost mv = members_view(ms@);
            assert(v@ == JsonView::Object(mv));
            proof {
                lemma_members_view_len(ms@);
                assert(mv.skip(0) =~= mv);
            }
            let mut i: usize = 0;
            while i < ms.len()
                invariant
                    i <= ms@.len(),
                    mv == members_view(ms@),
                    v@ == JsonView::Object(mv),
                    mv.len() == ms@.len(),
                    member_in(mv, key@) == member_in(mv.skip(i as int), key@),
                decreases ms.len() - i,
            {
                proof {
                    lemma_members_view_index(ms@, i as int);
                    assert(mv.skip(i as int).drop_first() =~= mv.skip(i + 1));
                }
                assert(mv.skip(i as int)[0] == mv[i as int]);
                if str_eq(ms[i].0.as_str(), key) {
                    let ghost before = ms@;
                    let mut ms = ms;
                    let pair = ms.remove(i);
                    assert(pair == before[i as int]);
                    assert(mv[i as int] == (pair.0@, pair.1@));
                    assert(member_in(mv.skip(i as int), key@) == Some(pair.1@));
                    return Some(pair.1);
                }
                i = i + 1;
            }
            assert(mv.skip(i as int) =~= Seq::<(Seq<char>, JsonView)>::empty());
            None
        },
        _ => None,
    }
}

/// What the server reads of one message.
pub fn read_message(v: JsonValue) -> (m: RpcMessage)
    ensures
        reads_message(m, v@),
{
    let method = text_of(get_member(&v, "method"));
    let params = get_member(&v, "params");
    let (tool_name, arguments) = match params {
        Some(p) => (text_of(get_member(p, "name")), tool_args(get_member(p, "arguments"))),
        None => (None, tool_args(None)),
    };
    let id = take_member(v, "id");
    RpcMessage { request: RpcRequest { has_id: id.is_some(), method, tool_name, arguments }, id }
}

/// What to do with a post.
pub enum PostPlan {
    /// The body is not JSON; serde_json said this.
    NotJson(String),
    /// One message.
    Single(RpcMessage),
    /// A batch (a JSON array): its messages, in order.
    Batch(Vec<RpcMessage>),
}

/// Whether `p` is the plan for a body that parsed as `parsed`: the parse
/// error; a batch of every element of an array, in order; or the one
/// message.
pub open spec fn plans_post(p: PostPlan, parsed: Result<JsonView, Seq<char>>) -> bool {
    match parsed {
        Err(e) => p matches PostPlan::NotJson(m) && m@ == e,
        Ok(JsonView::Array(items)) => match p {
            PostPlan::Batch(ms) => {
                &&& ms@.len() == items.len()
                &&& forall|i: int| 0 <= i < items.len() ==> reads_message(#[trigger] ms@[i], items[i])
            },
            _ => false,
        },
        Ok(v) => match p {
            PostPlan::Single(m) => reads_message(m, v),
            _ => false,
        },
    }
}

/// Plans the handling of a post from what serde_json made of its body.
pub fn plan_post(parsed: Result<JsonValue, String>) -> (p: PostPlan)
    ensures
        plans_post(p, json_result_view(parsed)),
{
    match parsed {
        Err(e) => PostPlan::NotJson(e),
        Ok(JsonValue::Array(items)) => {
            let ghost all = items@;
            let ghost iv = items_view(all);
            proof {
                lemma_items_view_len(all);
            }
            let n = items.len();
            let mut rest = items;
            let mut out: Vec<RpcMessage> = Vec::new();
            let mut k: usize = 0;
            assert(rest@ =~= all.skip(0));
            while rest.len() > 0
                invariant
                    all.len() == n,
                    iv == items_view(all),
                    iv.len() == n,
                    k <= n,
                    rest@.len() + k == n,
                    rest@ == all.skip(k as int),
                    out@.len() == k,
                    forall|i: int| 0 <= i < k ==> reads_message(#[trigger] out@[i], iv[i]),
                decreases rest.len(),
            {
                proof {
                    lemma_items_view_index(all, k as int);
                }
                let x = rest.remove(0);
                assert(rest@ =~= all.skip(k + 1));
                let m = read_message(x);
                out.push(m);
                k = k + 1;
            }
            PostPlan::Batch(out)
        },
        Ok(v) => PostPlan::Single(read_message(v)),
    }
}

/// The answer to a post: its HTTP status and body.
pub struct PostAnswer {
    pub status: u16,
    pub body: Option<JsonValue>,
}

/// The answer to a body that is not JSON: status 200 and an error with a
/// `null` id, code -32700 and `Parse error: ` before serde_json's message.
pub open spec fn not_json_answer(err: Seq<char>) -> JsonView {
    JsonView::Object(
        seq![
            ("jsonrpc"@, JsonView::Text("2.0"@)),
            ("id"@, JsonView::Null),
            ("error"@, JsonView::Object(seq![("code"@, JsonView::Number("-32700"@)), ("message"@, JsonView::Text("Parse error: "@ + err))])),
        ],
    )
}

/// The JSON answer to one message given its reply (none for no answer):
/// the reply with the message's `id`, `null` where it has none.
pub open spec fn message_json(m: RpcMessage, reply: Option<RpcReply>) -> Option<JsonView> {
    match reply {
        Some(r) => Some(reply_json(
            match m.id {
                Some(id) => id@,
                None => JsonView::Null,
            },
            r,
        )),
        None => None,
    }
}

/// Answers a body that is not JSON.
pub fn answer_not_json(err: &str) -> (a: PostAnswer)
    ensures
        a.status == 200,
        a.body is Some && a.body.unwrap()@ == not_json_answer(err@),
{
    let reply = parse_failure(err);
    let body = reply_value(JsonValue::Null, &reply);
    proof {
        reveal_strlit("-32700");
        assert(crate::text::signed_decimal(-32700) =~= "-32700"@) by {
            reveal_with_fuel(crate::text::decimal, 6);
        }
    }
    PostAnswer { status: 200, body: Some(body) }
}

/// The JSON answer to one message.
pub fn message_answer(m: RpcMessage, reply: Option<RpcReply>) -> (r: Option<JsonValue>)
    ensures
        opt_json(r) == message_json(m, reply),
{
    match reply {
        Some(rep) => {
            let id = match m.id {
                Some(id) => id,
                None => JsonValue::Null,
            };
            Some(reply_value(id, &rep))
        },
        None => None,
    }
}

/// Answers a post of one message: 200 with its answer, 204 without.
pub fn answer_single(m: RpcMessage, reply: Option<RpcReply>) -> (a: PostAnswer)
    ensures
        opt_json(a.body) == message_json(m, reply),
        a.status == if reply.is_some() { 200u16 } else { 204u16 },
{
    let status = http_status(&reply);
    PostAnswer { status, body: message_answer(m, reply) }
}

/// Answers a batch: 200 and the array of the answers its messages have, in
/// order.
pub fn answer_batch(answers: Vec<Option<JsonValue>>) -> (a: PostAnswer)
    ensures
        a.status == 200,
        a.body is Some && a.body.unwrap()@ == JsonView::Array(
            Seq::new(present(answers@).len(), |i: int| present(answers@)[i]@),
        ),
{
    let out = batch_replies(answers);
    let ghost ov = out@;
    let body = JsonValue::Array(out);
    proof {
        lemma_items_view_len(ov);
        assert forall|i: int| 0 <= i < ov.len() implies #[trigger] items_view(ov)[i] == ov[i]@ by {
            lemma_items_view_index(ov, i);
        }
        assert(items_view(ov) =~= Seq::new(present(answers@).len(), |i: int| present(answers@)[i]@));
    }
    PostAnswer { status: 200, body: Some(body) }
}

} // verus!
