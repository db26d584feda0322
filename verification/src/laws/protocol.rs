//! The protocol of the interface: who may call, what is passed on, and how calls are
//! answered and understood.

use vstd::prelude::*;

use crate::digits;
use crate::json::{self, Json, JsonView, Number};
use crate::laws::answers;
use crate::ledger::Ledger;
use crate::rpc::{self, ClientError, ItemPlan, RequestPlan, RpcBackend, RpcError, RpcRequest};

verus! {

/// Whether the parameters begin with the token for the secret.
pub open spec fn carries(params: Vec<Json>, secret: Seq<char>) -> bool {
    params@.len() > 0 && (params@[0] matches Json::Text(t) && t@ == "token:"@ + secret)
}

/// Whether a caller may call: nobody needs a token where there is no secret.
pub open spec fn admitted(params: Vec<Json>, secret: Seq<char>) -> bool {
    secret.len() == 0 || carries(params, secret)
}

/// What is left of the parameters without the token.
pub open spec fn passed_on(params: Vec<Json>, secret: Seq<char>) -> Seq<JsonView> {
    if secret.len() == 0 {
        params.deep_view()
    } else {
        params.deep_view().skip(1)
    }
}

proof fn lemma_token(params: Vec<Json>, secret: Seq<char>)
    ensures
        admitted(params, secret) ==> rpc::stripped(params.deep_view(), secret) == Some(
            passed_on(params, secret),
        ),
        !admitted(params, secret) ==> rpc::stripped(params.deep_view(), secret) is None,
{
    let view = params.deep_view();
    assert(view.len() == params@.len());
    if params@.len() > 0 {
        assert(view[0] == params@[0]@);
    }
}

/// Without a secret everyone may call, and with one only whoever has it; the token is
/// taken off, and nothing else.
pub proof fn law_the_token_admits(
    params: &Vec<Json>,
    secret: &str,
    r: (bool, Vec<Json>),
)
    requires
        call_ensures(rpc::extract_params, (params, secret), r),
    ensures
        r.0 <==> secret@.len() == 0 || carries(*params, secret@),
        secret@.len() == 0 ==> r.1.deep_view() == params.deep_view(),
        secret@.len() > 0 && carries(*params, secret@) ==> r.1.deep_view()
            == params.deep_view().skip(1),
        !r.0 ==> r.1@.len() == 0,
{
    lemma_token(*params, secret@);
}

/// Whether `j` is the answer to a call with this mark that failed with this code.
pub open spec fn fails_with(j: JsonView, id: Option<Json>, code: i64, message: Seq<char>) -> bool {
    exists|e: JsonView|
        #[trigger] answers::tells(j, "error"@, e) && answers::tells(
            e,
            "code"@,
            JsonView::Number(
                if code >= 0 {
                    Number::Unsigned(code as u64)
                } else {
                    Number::Negative(code)
                },
            ),
        ) && answers::tells(e, "message"@, JsonView::Text(message)) && marked(j, id)
}

/// Whether an answer is of this version of the protocol and marked as the request was.
pub open spec fn marked(j: JsonView, id: Option<Json>) -> bool {
    &&& j->Object_0.len() == 3
    &&& answers::tells(j, "jsonrpc"@, JsonView::Text("2.0"@))
    &&& answers::tells(
        j,
        "id"@,
        match id {
            Some(id) => id@,
            None => JsonView::Null,
        },
    )
}

proof fn lemma_failure(id: Option<Json>, e: rpc::RpcErrorView)
    ensures
        fails_with(rpc::answer(id.deep_view(), Err(e)), id, e.code(), e.text()),
{
    let j = rpc::answer(id.deep_view(), Err(e));
    let o = e.object();
    assert(o->Object_0[0].0 == "code"@);
    assert(o->Object_0[0] == ("code"@, JsonView::Number(json::number_of(e.code()))));
    assert(o->Object_0[1] == ("message"@, JsonView::Text(e.text())));
    lemma_marked(id, "error"@, o);
    assert(answers::tells(j, "error"@, o));
}

proof fn lemma_marked(id: Option<Json>, key: Seq<char>, value: JsonView)
    ensures
        marked(rpc::response(id.deep_view(), key, value), id),
        answers::tells(rpc::response(id.deep_view(), key, value), key, value),
{
    let fields = rpc::response(id.deep_view(), key, value)->Object_0;
    assert(fields[0] == ("jsonrpc"@, JsonView::Text("2.0"@)));
    assert(fields[1].0 == "id"@);
    assert(fields[1] == ("id"@, fields[1].1));
    assert(fields[2] == (key, value));
}

/// An answer is marked as the request was; it holds the result of the call, or the code
/// and the message of its error.
pub proof fn law_calls_are_answered(
    id: &Option<Json>,
    outcome: Result<Json, RpcError>,
    r: Json,
    message: String,
    broken: Json,
)
    requires
        call_ensures(rpc::respond_to, (id, outcome), r),
        call_ensures(rpc::respond_unreadable, (message,), broken),
    ensures
        marked(r@, *id),
        outcome matches Ok(value) ==> answers::tells(r@, "result"@, value@),
        outcome matches Err(RpcError::AuthorizationFailed) ==> fails_with(
            r@,
            *id,
            1,
            "Authorization failed"@,
        ),
        outcome matches Err(RpcError::Parse(m)) ==> fails_with(r@, *id, (-32700) as i64, m@),
        outcome matches Err(RpcError::InvalidRequest(m)) ==> fails_with(r@, *id, (-32600) as i64, m@),
        outcome matches Err(RpcError::MethodNotFound(m)) ==> fails_with(r@, *id, (-32601) as i64, m@),
        outcome matches Err(RpcError::InvalidParams(m)) ==> fails_with(r@, *id, (-32602) as i64, m@),
        outcome matches Err(RpcError::Internal(m)) ==> fails_with(r@, *id, (-32000) as i64, m@),
        outcome matches Err(RpcError::Other { code, message }) ==> fails_with(
            r@,
            *id,
            code,
            message@,
        ),
        fails_with(broken@, None, (-32700) as i64, message@),
{
    match outcome {
        Ok(value) => {
            lemma_marked(*id, "result"@, value@);
        },
        Err(e) => {
            lemma_failure(*id, e@);
            lemma_marked(*id, "error"@, e@.object());
        },
    }
    lemma_failure(None, rpc::RpcErrorView::Parse(message@));
    assert(None::<Json>.deep_view() == None::<JsonView>);
}

/// An error by itself is its code and its message, as in an answer, and so it stands in
/// the answer to a batch.
pub proof fn law_errors_are_told(e: &RpcError, r: Json, outcome: Result<Json, RpcError>, s: Json)
    requires
        call_ensures(RpcError::to_jsonrpc, (e,), r),
        call_ensures(rpc::respond_in_batch, (outcome,), s),
    ensures
        r@->Object_0.len() == 2,
        *e is AuthorizationFailed ==> answers::tells(
            r@,
            "code"@,
            JsonView::Number(Number::Unsigned(1)),
        ) && answers::tells(r@, "message"@, JsonView::Text("Authorization failed"@)),
        *e matches RpcError::InvalidParams(m) ==> answers::tells(
            r@,
            "code"@,
            JsonView::Number(Number::Negative((-32602) as i64)),
        ) && answers::tells(r@, "message"@, JsonView::Text(m@)),
        outcome matches Ok(value) ==> s@ == value@,
        (outcome matches Err(f) && f == *e) ==> s@ == r@,
{
    assert(r@->Object_0[0] == ("code"@, JsonView::Number(json::number_of(e@.code()))));
    assert(r@->Object_0[1] == ("message"@, JsonView::Text(e@.text())));
}

/// What errors say in words.
pub proof fn law_errors_in_words(e: &RpcError, r: String, c: &ClientError, s: String)
    requires
        call_ensures(RpcError::message, (e,), r),
        call_ensures(ClientError::message, (c,), s),
    ensures
        *e is AuthorizationFailed ==> r@ == "Authorization failed"@,
        *e matches RpcError::Parse(m) ==> r@ == "Parse error: "@ + m@,
        *e matches RpcError::InvalidRequest(m) ==> r@ == "Invalid request: "@ + m@,
        *e matches RpcError::MethodNotFound(m) ==> r@ == "Method not found: "@ + m@,
        *e matches RpcError::InvalidParams(m) ==> r@ == "Invalid params: "@ + m@,
        *e matches RpcError::Internal(m) ==> r@ == "Internal error: "@ + m@,
        *e matches RpcError::Other { message, .. } ==> r@ == message@,
        *c matches ClientError::Connection(m) ==> s@ == "无法连接到 RPC 服务: "@ + m@,
        *c matches ClientError::InvalidResponse(m) ==> s@ == "RPC 响应解析失败: "@ + m@,
        *c matches ClientError::ServerError { message, .. } ==> s@ == message@,
        *c matches ClientError::HttpStatus(code) ==> s@ == "RPC 服务返回 HTTP 状态码 "@
            + digits::dec(code as nat),
{
}

/// Whether a request speaks this version of the protocol.
pub open spec fn speaks(req: RpcRequest) -> bool {
    req.jsonrpc is None || req.jsonrpc->0@ == "2.0"@
}

/// Whether a method is answered without the backend.
pub open spec fn of_the_system(method: Seq<char>) -> bool {
    method == "system.multicall"@ || method == "system.listMethods"@ || method
        == "system.listNotifications"@
}

/// A request of another version of the protocol or without the token is refused; every
/// other one that is not the system's own is passed on as it is, without the token.
pub proof fn law_requests_are_passed_on(req: &RpcRequest, secret: &str, r: RequestPlan)
    requires
        call_ensures(rpc::plan_request, (req, secret), r),
    ensures
        !speaks(*req) ==> (r matches RequestPlan::Answer(j) && fails_with(
            j@,
            req.id,
            (-32600) as i64,
            "不支持的 jsonrpc 版本: "@ + req.jsonrpc->0@,
        )),
        speaks(*req) && !admitted(req.params, secret@) ==> (r matches RequestPlan::Answer(j)
            && fails_with(j@, req.id, 1, "Authorization failed"@)),
        speaks(*req) && admitted(req.params, secret@) && !of_the_system(req.method@) ==> (
        r matches RequestPlan::Call { method, params } && method@ == req.method@
            && params.deep_view() == passed_on(req.params, secret@)),
{
    lemma_token(req.params, secret@);
    if !speaks(*req) {
        lemma_failure(
            req.id,
            rpc::RpcErrorView::InvalidRequest("不支持的 jsonrpc 版本: "@ + req.jsonrpc->0@),
        );
    } else if !admitted(req.params, secret@) {
        lemma_failure(req.id, rpc::RpcErrorView::AuthorizationFailed);
    }
}

/// The system names its methods and notifications itself, each list in its order.
pub proof fn law_the_system_names_its_methods(
    req: &RpcRequest,
    secret: &str,
    r: RequestPlan,
    i: int,
)
    requires
        call_ensures(rpc::plan_request, (req, secret), r),
        speaks(*req) && admitted(req.params, secret@),
    ensures
        req.method@ == "system.listMethods"@ && 0 <= i < rpc::LIST_METHODS@.len() ==> (
        r matches RequestPlan::Answer(j) && marked(j@, req.id) && exists|list: Seq<JsonView>|
            #[trigger] answers::tells(j@, "result"@, JsonView::Array(list)) && list.len()
                == rpc::LIST_METHODS@.len() && list[i] == JsonView::Text(rpc::LIST_METHODS@[i]@)),
        req.method@ == "system.listNotifications"@ && 0 <= i < rpc::LIST_NOTIFICATIONS@.len() ==> (
        r matches RequestPlan::Answer(j) && marked(j@, req.id) && exists|list: Seq<JsonView>|
            #[trigger] answers::tells(j@, "result"@, JsonView::Array(list)) && list.len()
                == rpc::LIST_NOTIFICATIONS@.len() && list[i] == JsonView::Text(
                rpc::LIST_NOTIFICATIONS@[i]@,
            )),
{
    reveal_strlit("system.multicall");
    reveal_strlit("system.listMethods");
    reveal_strlit("system.listNotifications");
    assert("system.multicall"@.len() == 16);
    assert("system.listMethods"@.len() == 18);
    assert("system.listNotifications"@.len() == 24);
    lemma_token(req.params, secret@);
    let methods = rpc::names_view(rpc::LIST_METHODS@);
    let notifications = rpc::names_view(rpc::LIST_NOTIFICATIONS@);
    lemma_marked(req.id, "result"@, methods);
    lemma_marked(req.id, "result"@, notifications);
    if req.method@ == "system.listMethods"@ {
        let j = r->Answer_0;
        assert(answers::tells(j@, "result"@, JsonView::Array(methods->Array_0)));
    }
    if req.method@ == "system.listNotifications"@ {
        let j = r->Answer_0;
        assert(answers::tells(j@, "result"@, JsonView::Array(notifications->Array_0)));
    }
}

/// Each call of a batch is planned by itself: it is passed on with its own parameters
/// where it carries its own token, and refused in its place where it does not.
pub proof fn law_calls_of_a_batch_are_planned_one_by_one(
    req: &RpcRequest,
    secret: &str,
    r: RequestPlan,
    calls: Vec<Json>,
    i: int,
    parts: Vec<Json>,
    given: Vec<Json>,
    name: String,
)
    requires
        call_ensures(rpc::plan_request, (req, secret), r),
        speaks(*req),
        req.method@ == "system.multicall"@,
        secret@.len() == 0 ==> req.params@.len() > 0 && req.params@[0] == Json::Array(calls),
        secret@.len() > 0 ==> carries(req.params, secret@) && req.params@.len() > 1
            && req.params@[1] == Json::Array(calls),
        0 <= i < calls@.len(),
        calls@[i] == Json::Array(parts),
        parts@.len() == 2,
        parts@[0] == Json::Text(name),
        parts@[1] == Json::Array(given),
    ensures
        r matches RequestPlan::Batch(items) && items@.len() == calls@.len() && {
            &&& admitted(given, secret@) ==> (items@[i] matches ItemPlan::Call { method, params }
                && method@ == name@ && params.deep_view() == passed_on(given, secret@))
            &&& !admitted(given, secret@) ==> (items@[i] matches ItemPlan::Done(j)
                && answers::tells(j@, "code"@, JsonView::Number(Number::Unsigned(1))))
        },
{
    lemma_token(req.params, secret@);
    lemma_token(given, secret@);
    let left = passed_on(req.params, secret@);
    let view = req.params.deep_view();
    json::lemma_array_view(calls);
    json::lemma_array_view(parts);
    json::lemma_array_view(given);
    if secret@.len() == 0 {
        assert(view[0] == req.params@[0]@);
    } else {
        assert(view[1] == req.params@[1]@);
        assert(left[0] == view[1]);
    }
    assert(left[0] == JsonView::Array(calls.deep_view()));
    assert(rpc::first_array(left) == Some(calls.deep_view()));
    let items = r->Batch_0;
    assert(items.deep_view().len() == items@.len());
    assert(items.deep_view()[i] == items@[i].deep_view());
    assert(calls.deep_view()[i] == calls@[i]@);
    assert(parts.deep_view()[0] == parts@[0]@);
    assert(parts.deep_view()[1] == parts@[1]@);
    let refused = rpc::RpcErrorView::AuthorizationFailed.object();
    assert(refused->Object_0[0] == ("code"@, JsonView::Number(Number::Unsigned(1))));
}

/// A request that is refused reaches nobody. One that is passed on reaches the backend
/// once, with its method and its parameters, and what comes back is the answer.
pub proof fn law_a_call_reaches_the_backend_once<'a, B: RpcBackend>(
    req: &RpcRequest,
    backend: &mut Ledger<'a, B>,
    secret: &str,
    r: Json,
)
    requires
        call_ensures(rpc::handle_request::<B>, (req, backend, secret), r),
    ensures
        !speaks(*req) || !admitted(req.params, secret@) ==> final(backend).log() == old(backend).log(),
        speaks(*req) && admitted(req.params, secret@) && !of_the_system(req.method@) ==> {
            &&& final(backend).log().len() == old(backend).log().len() + 1
            &&& final(backend).log().drop_last() == old(backend).log()
            &&& final(backend).log().last().method == req.method@
            &&& final(backend).log().last().params == passed_on(req.params, secret@)
            &&& marked(r@, req.id)
            &&& final(backend).log().last().outcome matches Ok(value) ==> answers::tells(
                r@,
                "result"@,
                value,
            )
            &&& final(backend).log().last().outcome matches Err(e) ==> fails_with(
                r@,
                req.id,
                e.code(),
                e.text(),
            )
        },
{
    lemma_token(req.params, secret@);
    let before = old(backend).log();
    let after = final(backend).log();
    let n = before.len() as int;
    let made = after.skip(n);
    assert(rpc::asked(made).len() == made.len());
    if !speaks(*req) || !admitted(req.params, secret@) {
        assert(made.len() == 0);
        assert(after =~= after.take(n));
    } else if !of_the_system(req.method@) {
        assert(made.len() == 1);
        assert(rpc::asked(made)[0] == (req.method@, passed_on(req.params, secret@)));
        assert(made[0] == after.last());
        assert(after.drop_last() =~= after.take(n));
        match made[0].outcome {
            Ok(value) => {
                lemma_marked(req.id, "result"@, value);
            },
            Err(e) => {
                lemma_failure(req.id, e);
                lemma_marked(req.id, "error"@, e.object());
            },
        }
    }
}

/// A notification carries its method and its parameters, and no mark.
pub proof fn law_notifications_carry_their_parameters(method: &str, params: Vec<Json>, r: Json)
    requires
        call_ensures(rpc::build_notification, (method, params), r),
    ensures
        r@->Object_0.len() == 3,
        answers::tells(r@, "jsonrpc"@, JsonView::Text("2.0"@)),
        answers::tells(r@, "method"@, JsonView::Text(method@)),
        answers::tells(r@, "params"@, JsonView::Array(params.deep_view())),
{
    let f = r@->Object_0;
    assert(f[0] == ("jsonrpc"@, JsonView::Text("2.0"@)));
    assert(f[1] == ("method"@, JsonView::Text(method@)));
    assert(f[2] == ("params"@, JsonView::Array(params.deep_view())));
}

/// A client's request carries the method, and the parameters behind the token; what the
/// server takes off is exactly the token.
pub proof fn law_a_client_is_let_in(
    method: &str,
    params: Vec<Json>,
    secret: &str,
    r: Json,
    sent: &Vec<Json>,
    taken: (bool, Vec<Json>),
)
    requires
        call_ensures(rpc::client_request, (method, params, secret), r),
        answers::tells(r@, "params"@, JsonView::Array(sent.deep_view())),
        call_ensures(rpc::extract_params, (sent, secret), taken),
    ensures
        r@->Object_0.len() == 4,
        answers::tells(r@, "jsonrpc"@, JsonView::Text("2.0"@)),
        answers::tells(r@, "method"@, JsonView::Text(method@)),
        taken.0,
        taken.1.deep_view() == params.deep_view(),
{
    reveal_strlit("jsonrpc");
    reveal_strlit("id");
    reveal_strlit("method");
    reveal_strlit("params");
    assert("jsonrpc"@.len() == 7 && "id"@.len() == 2);
    assert("method"@[0] == 'm' && "params"@[0] == 'p');
    assert("method"@.len() == 6 && "params"@.len() == 6);
    let f = r@->Object_0;
    assert(f[0] == ("jsonrpc"@, JsonView::Text("2.0"@)));
    assert(f[2] == ("method"@, JsonView::Text(method@)));
    let entry = ("params"@, JsonView::Array(sent.deep_view()));
    let k = choose|k: int| 0 <= k < f.len() && f[k] == entry;
    assert(f[k] == entry);
    assert(k == 3);
    rpc::law_client_is_understood(params.deep_view(), secret@);
}

/// A client reads out of an answer what the server put into it.
pub proof fn law_a_client_reads_the_answer(
    id: &Option<Json>,
    outcome: Result<Json, RpcError>,
    j: Json,
    value: &Json,
    r: Result<Json, ClientError>,
)
    requires
        call_ensures(rpc::respond_to, (id, outcome), j),
        value@ == j@,
        call_ensures(rpc::read_answer, (value,), r),
    ensures
        outcome matches Ok(v) ==> (r matches Ok(w) && w@ == v@),
        outcome matches Err(RpcError::AuthorizationFailed) ==> (r matches Err(
            ClientError::ServerError { code, message },
        ) && code == 1 && message@ == "Authorization failed"@),
        outcome matches Err(RpcError::Other { code: c, message: m }) ==> (r matches Err(
            ClientError::ServerError { code, message },
        ) && code == c && message@ == m@),
        outcome matches Err(RpcError::MethodNotFound(m)) ==> (r matches Err(
            ClientError::ServerError { code, message },
        ) && code == -32601 && message@ == m@),
{
    rpc::law_answer_is_understood(id.deep_view(), rpc::outcome_view(outcome));
}

/// An answer that holds neither a result nor an error is none.
pub proof fn law_an_empty_answer_is_none(value: &Json, r: Result<Json, ClientError>)
    requires
        call_ensures(rpc::read_answer, (value,), r),
        !(*value is Object),
    ensures
        r matches Err(ClientError::MissingResult),
{
}

/// A call of a batch without parameters is passed on without any, where there is no
/// secret; what is no call is refused in its place.
pub proof fn law_short_calls_of_a_batch(
    req: &RpcRequest,
    secret: &str,
    r: RequestPlan,
    calls: Vec<Json>,
    i: int,
    parts: Vec<Json>,
    name: String,
)
    requires
        call_ensures(rpc::plan_request, (req, secret), r),
        speaks(*req),
        req.method@ == "system.multicall"@,
        secret@.len() == 0,
        req.params@.len() > 0 && req.params@[0] == Json::Array(calls),
        0 <= i < calls@.len(),
    ensures
        r matches RequestPlan::Batch(items) && items@.len() == calls@.len() && {
            &&& calls@[i] == Json::Array(parts) && parts@.len() == 1 && parts@[0] == Json::Text(
                name,
            ) ==> (items@[i] matches ItemPlan::Call { method, params } && method@ == name@
                && params@.len() == 0)
            &&& calls@[i] == Json::Array(parts) && parts@.len() == 0 ==> (
            items@[i] matches ItemPlan::Done(j) && answers::tells(
                j@,
                "code"@,
                JsonView::Number(Number::Negative((-32602) as i64)),
            ))
            &&& !(calls@[i] is Array) ==> (items@[i] matches ItemPlan::Done(j) && answers::tells(
                j@,
                "code"@,
                JsonView::Number(Number::Negative((-32602) as i64)),
            ))
        },
{
    lemma_token(req.params, secret@);
    let view = req.params.deep_view();
    json::lemma_array_view(calls);
    json::lemma_array_view(parts);
    assert(view[0] == req.params@[0]@);
    assert(rpc::first_array(view) == Some(calls.deep_view()));
    let items = r->Batch_0;
    assert(items.deep_view().len() == items@.len());
    assert(items.deep_view()[i] == items@[i].deep_view());
    assert(calls.deep_view()[i] == calls@[i]@);
    assert(parts.deep_view().len() == parts@.len());
    if parts@.len() > 0 {
        assert(parts.deep_view()[0] == parts@[0]@);
    }
    assert(parts.deep_view().skip(1).len() == parts@.len() - 1 || parts@.len() == 0);
    let malformed = rpc::RpcErrorView::InvalidParams(
        "multicall 元素需为 [method, params...] 数组"@,
    ).object();
    assert(malformed->Object_0[0] == (
        "code"@,
        JsonView::Number(Number::Negative((-32602) as i64)),
    ));
    if calls@[i] == Json::Array(parts) && parts@.len() == 1 && parts@[0] == Json::Text(name) {
        let given = items@[i]->params;
        assert(given.deep_view().len() == given@.len());
    }
}

/// A batch without a list of calls is refused.
pub proof fn law_a_batch_needs_its_calls(req: &RpcRequest, secret: &str, r: RequestPlan)
    requires
        call_ensures(rpc::plan_request, (req, secret), r),
        speaks(*req),
        req.method@ == "system.multicall"@,
        secret@.len() == 0,
        req.params@.len() == 0,
    ensures
        r matches RequestPlan::Answer(j) && fails_with(
            j@,
            req.id,
            (-32602) as i64,
            "system.multicall 需要一个 [method, params] 数组作为参数"@,
        ),
{
    lemma_token(req.params, secret@);
    lemma_failure(
        req.id,
        rpc::RpcErrorView::InvalidParams(
            "system.multicall 需要一个 [method, params] 数组作为参数"@,
        ),
    );
}

/// A client numbers its request with 1.
pub proof fn law_a_client_numbers_its_request(
    method: &str,
    params: Vec<Json>,
    secret: &str,
    r: Json,
)
    requires
        call_ensures(rpc::client_request, (method, params, secret), r),
    ensures
        r@->Object_0[1] == ("id"@, JsonView::Number(json::number_of(1))),
{
}

/// An error without a code is read as 0, and one without a message as an unknown error; an
/// error is read even where a result stands beside it.
pub proof fn law_a_bare_error_is_read(value: &Json, e: JsonView, r: Result<Json, ClientError>)
    requires
        call_ensures(rpc::read_answer, (value,), r),
        value@.field("error"@) == Some(e),
    ensures
        r matches Err(ClientError::ServerError { code, message }) && (e.field("code"@) is None
            || e.field("code"@) == Some(JsonView::Null) ==> code == 0) && (e.field("message"@)
            is None || e.field("message"@) == Some(JsonView::Null) ==> message@ == "未知错误"@)
            && (forall|s: Seq<char>|
            e.field("message"@) == Some(JsonView::Text(s)) ==> message@ == s),
{
}

/// An answer with neither an error nor a result is read as one that lacks its result.
pub proof fn law_an_empty_answer_is_read(value: &Json, r: Result<Json, ClientError>)
    requires
        call_ensures(rpc::read_answer, (value,), r),
        value@.field("error"@) is None,
        value@.field("result"@) is None,
    ensures
        r == Err::<Json, ClientError>(ClientError::MissingResult),
{
}

} // verus!
