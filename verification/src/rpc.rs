//! The JSON-RPC protocol: requests and their authentication, answers and errors,
//! batches of calls, notifications, and the client's side of all this.

use vstd::prelude::*;

use crate::assoc;
use crate::digits;
use crate::json::{self, Json, JsonView};
use crate::ledger::{self, Exchange, Ledger};
use crate::text::{join2, same};

verus! {

/// Why a request was refused.
#[derive(Debug, PartialEq, Eq)]
pub enum RpcError {
    AuthorizationFailed,
    Parse(String),
    InvalidRequest(String),
    MethodNotFound(String),
    InvalidParams(String),
    Internal(String),
    /// An error of the engine, with its own code.
    Other { code: i64, message: String },
}

/// What an `RpcError` stands for.
pub enum RpcErrorView {
    AuthorizationFailed,
    Parse(Seq<char>),
    InvalidRequest(Seq<char>),
    MethodNotFound(Seq<char>),
    InvalidParams(Seq<char>),
    Internal(Seq<char>),
    Other { code: i64, message: Seq<char> },
}

impl View for RpcError {
    type V = RpcErrorView;

    open spec fn view(&self) -> RpcErrorView {
        match *self {
            RpcError::AuthorizationFailed => RpcErrorView::AuthorizationFailed,
            RpcError::Parse(m) => RpcErrorView::Parse(m@),
            RpcError::InvalidRequest(m) => RpcErrorView::InvalidRequest(m@),
            RpcError::MethodNotFound(m) => RpcErrorView::MethodNotFound(m@),
            RpcError::InvalidParams(m) => RpcErrorView::InvalidParams(m@),
            RpcError::Internal(m) => RpcErrorView::Internal(m@),
            RpcError::Other { code, message } => RpcErrorView::Other { code, message: message@ },
        }
    }
}

impl RpcErrorView {
    /// The code in an answer.
    pub open spec fn code(self) -> i64 {
        match self {
            RpcErrorView::AuthorizationFailed => 1,
            RpcErrorView::Parse(_) => (-32700) as i64,
            RpcErrorView::InvalidRequest(_) => (-32600) as i64,
            RpcErrorView::MethodNotFound(_) => (-32601) as i64,
            RpcErrorView::InvalidParams(_) => (-32602) as i64,
            RpcErrorView::Internal(_) => (-32000) as i64,
            RpcErrorView::Other { code, .. } => code,
        }
    }

    /// The message in an answer.
    pub open spec fn text(self) -> Seq<char> {
        match self {
            RpcErrorView::AuthorizationFailed => "Authorization failed"@,
            RpcErrorView::Parse(m) => m,
            RpcErrorView::InvalidRequest(m) => m,
            RpcErrorView::MethodNotFound(m) => m,
            RpcErrorView::InvalidParams(m) => m,
            RpcErrorView::Internal(m) => m,
            RpcErrorView::Other { message, .. } => message,
        }
    }

    /// The error in words.
    pub open spec fn words(self) -> Seq<char> {
        match self {
            RpcErrorView::AuthorizationFailed => "Authorization failed"@,
            RpcErrorView::Parse(m) => "Parse error: "@ + m,
            RpcErrorView::InvalidRequest(m) => "Invalid request: "@ + m,
            RpcErrorView::MethodNotFound(m) => "Method not found: "@ + m,
            RpcErrorView::InvalidParams(m) => "Invalid params: "@ + m,
            RpcErrorView::Internal(m) => "Internal error: "@ + m,
            RpcErrorView::Other { message, .. } => message,
        }
    }

    /// The error as it stands in an answer.
    pub open spec fn object(self) -> JsonView {
        JsonView::Object(
            seq![
                ("code"@, JsonView::Number(json::number_of(self.code()))),
                ("message"@, JsonView::Text(self.text())),
            ],
        )
    }
}

impl RpcError {
    /// The error as it stands in an answer: its code and its message.
    pub fn to_jsonrpc(&self) -> (r: Json)
        ensures
            r@ == self@.object(),
    {
        let (code, message) = match self {
            RpcError::AuthorizationFailed => (1i64, "Authorization failed".to_owned()),
            RpcError::Parse(m) => (-32700i64, m.clone()),
            RpcError::InvalidRequest(m) => (-32600i64, m.clone()),
            RpcError::MethodNotFound(m) => (-32601i64, m.clone()),
            RpcError::InvalidParams(m) => (-32602i64, m.clone()),
            RpcError::Internal(m) => (-32000i64, m.clone()),
            RpcError::Other { code, message } => (*code, message.clone()),
        };
        let mut out: Vec<(String, Json)> = Vec::new();
        assoc::put(&mut out, "code", json::integer(code));
        assoc::put(&mut out, "message", Json::Text(message));
        proof {
            json::lemma_object_view(out);
            assert(out.deep_view() =~= self@.object()->Object_0);
        }
        Json::Object(out)
    }

    /// The error in words.
    pub fn message(&self) -> (r: String)
        ensures
            r@ == self@.words(),
    {
        match self {
            RpcError::AuthorizationFailed => "Authorization failed".to_owned(),
            RpcError::Parse(m) => join2("Parse error: ", m.as_str()),
            RpcError::InvalidRequest(m) => join2("Invalid request: ", m.as_str()),
            RpcError::MethodNotFound(m) => join2("Method not found: ", m.as_str()),
            RpcError::InvalidParams(m) => join2("Invalid params: ", m.as_str()),
            RpcError::Internal(m) => join2("Internal error: ", m.as_str()),
            RpcError::Other { message, .. } => message.clone(),
        }
    }
}

/// What carries out the calls that the protocol does not answer itself.
pub trait RpcBackend {
    /// Carries out a call, whose parameters are without the token. Nothing is
    /// promised of what it comes to.
    fn call(&self, method: &str, params: &Vec<Json>) -> Result<Json, RpcError>;
}

/// What a call comes to.
pub open spec fn outcome_view(outcome: Result<Json, RpcError>) -> Result<
    JsonView,
    RpcErrorView,
> {
    match outcome {
        Ok(value) => Ok(value@),
        Err(e) => Err(e@),
    }
}

/// A request.
#[derive(Debug, PartialEq, Eq)]
pub struct RpcRequest {
    /// Version of the protocol.
    pub jsonrpc: Option<String>,
    /// What the answer is marked with.
    pub id: Option<Json>,
    pub method: String,
    pub params: Vec<Json>,
}

/// What an `RpcRequest` stands for.
pub struct RequestView {
    pub jsonrpc: Option<Seq<char>>,
    pub id: Option<JsonView>,
    pub method: Seq<char>,
    pub params: Seq<JsonView>,
}

impl View for RpcRequest {
    type V = RequestView;

    open spec fn view(&self) -> RequestView {
        RequestView {
            jsonrpc: self.jsonrpc.deep_view(),
            id: self.id.deep_view(),
            method: self.method@,
            params: self.params.deep_view(),
        }
    }
}

/// The methods, as `system.listMethods` lists them.
pub const LIST_METHODS: [&'static str; 30] = [
    "aria2.addUri",
    "aria2.addTorrent",
    "aria2.addMetalink",
    "aria2.tellStatus",
    "aria2.tellActive",
    "aria2.tellWaiting",
    "aria2.tellStopped",
    "aria2.getPeers",
    "aria2.getGlobalStat",
    "aria2.getVersion",
    "aria2.pause",
    "aria2.pauseAll",
    "aria2.forcePause",
    "aria2.forcePauseAll",
    "aria2.unpause",
    "aria2.unpauseAll",
    "aria2.remove",
    "aria2.forceRemove",
    "aria2.changeOption",
    "aria2.changeGlobalOption",
    "aria2.getOption",
    "aria2.getGlobalOption",
    "aria2.saveSession",
    "aria2.purgeDownloadResult",
    "aria2.removeDownloadResult",
    "system.multicall",
    "system.listNotifications",
    "system.listMethods",
    "motrix.saveUserConfig",
    "motrix.getUserConfig",
];

/// The notifications, as `system.listNotifications` lists them.
pub const LIST_NOTIFICATIONS: [&'static str; 6] = [
    "aria2.onDownloadStart",
    "aria2.onDownloadPause",
    "aria2.onDownloadStop",
    "aria2.onDownloadComplete",
    "aria2.onDownloadError",
    "aria2.onBtDownloadComplete",
];

/// A list of texts.
pub open spec fn names_view(names: Seq<&'static str>) -> JsonView {
    JsonView::Array(Seq::new(names.len(), |i: int| JsonView::Text(names[i]@)))
}

/// A list of texts.
pub fn names_json(names: &[&'static str]) -> (r: Json)
    ensures
        r@ == names_view(names@),
{
    let mut out: Vec<Json> = Vec::new();
    let mut i: usize = 0;
    while i < names.len()
        invariant
            i <= names@.len(),
            out@.len() == i,
            forall|j: int| 0 <= j < i ==> (#[trigger] out@[j])@ == JsonView::Text(names@[j]@),
        decreases names@.len() - i,
    {
        out.push(json::text(names[i]));
        i += 1;
    }
    proof {
        json::lemma_array_view(out);
        assert(out.deep_view() =~= names_view(names@)->Array_0);
    }
    Json::Array(out)
}

/// An answer marked with `id`: under `key` what it holds.
pub open spec fn response(id: Option<JsonView>, key: Seq<char>, value: JsonView) -> JsonView {
    JsonView::Object(
        seq![
            ("jsonrpc"@, JsonView::Text("2.0"@)),
            (
                "id"@,
                match id {
                    Some(id) => id,
                    None => JsonView::Null,
                },
            ),
            (key, value),
        ],
    )
}

/// The answer to a call.
pub open spec fn answer(id: Option<JsonView>, outcome: Result<JsonView, RpcErrorView>) -> JsonView {
    match outcome {
        Ok(value) => response(id, "result"@, value),
        Err(e) => response(id, "error"@, e.object()),
    }
}

/// An answer marked with `id`.
fn respond(id: &Option<Json>, key: &str, value: Json) -> (r: Json)
    ensures
        r@ == response(id.deep_view(), key@, value@),
{
    let mark = match id {
        Some(id) => id.clone(),
        None => Json::Null,
    };
    let ghost shown = value@;
    let mut out: Vec<(String, Json)> = Vec::new();
    assoc::put(&mut out, "jsonrpc", json::text("2.0"));
    assoc::put(&mut out, "id", mark);
    assoc::put(&mut out, key, value);
    proof {
        json::lemma_object_view(out);
        assert(out.deep_view() =~= response(id.deep_view(), key@, shown)->Object_0);
    }
    Json::Object(out)
}

/// The answer to a call that came to `outcome`.
pub fn respond_to(id: &Option<Json>, outcome: Result<Json, RpcError>) -> (r: Json)
    ensures
        r@ == answer(id.deep_view(), outcome_view(outcome)),
{
    match outcome {
        Ok(value) => respond(id, "result", value),
        Err(e) => respond(id, "error", e.to_jsonrpc()),
    }
}

/// The answer to a request that is not JSON.
pub fn respond_unreadable(message: String) -> (r: Json)
    ensures
        r@ == answer(None, Err(RpcErrorView::Parse(message@))),
{
    respond_to(&None, Err(RpcError::Parse(message)))
}

/// The token for a secret.
pub open spec fn token(secret: Seq<char>) -> Seq<char> {
    "token:"@ + secret
}

/// The parameters without the token; `None` where the token is not the right one.
/// Without a secret no token is asked for.
pub open spec fn stripped(params: Seq<JsonView>, secret: Seq<char>) -> Option<Seq<JsonView>> {
    if secret.len() == 0 {
        Some(params)
    } else if params.len() > 0 && params[0] == JsonView::Text(token(secret)) {
        Some(params.skip(1))
    } else {
        None
    }
}

/// Whether the token is the right one, and the parameters without it.
pub fn extract_params(params: &Vec<Json>, secret: &str) -> (r: (bool, Vec<Json>))
    ensures
        match stripped(params.deep_view(), secret@) {
            Some(rest) => r.0 && r.1.deep_view() == rest,
            None => !r.0 && r.1@.len() == 0,
        },
{
    if secret.is_empty() {
        return (true, json::clone_values(params));
    }
    if params.len() > 0 {
        proof {
            assert(params.deep_view()[0] == params@[0]@);
        }
        if let Some(given) = params[0].as_str() {
            let expected = join2("token:", secret);
            if same(given, expected.as_str()) {
                return (true, json::clone_from(params, 1));
            }
        }
    }
    (false, Vec::new())
}

/// What is done about one call of a batch.
#[derive(Debug, PartialEq, Eq)]
pub enum ItemPlan {
    /// It is answered as it stands.
    Done(Json),
    /// The backend is called.
    Call { method: String, params: Vec<Json> },
}

/// What an `ItemPlan` stands for.
pub enum ItemView {
    Done(JsonView),
    Call { method: Seq<char>, params: Seq<JsonView> },
}

impl DeepView for ItemPlan {
    type V = ItemView;

    open spec fn deep_view(&self) -> ItemView {
        match *self {
            ItemPlan::Done(value) => ItemView::Done(value@),
            ItemPlan::Call { method, params } => ItemView::Call {
                method: method@,
                params: params.deep_view(),
            },
        }
    }
}

/// What is done about a request.
#[derive(Debug, PartialEq, Eq)]
pub enum RequestPlan {
    /// It is answered as it stands.
    Answer(Json),
    /// The backend is called.
    Call { method: String, params: Vec<Json> },
    /// The calls of a batch are made in turn.
    Batch(Vec<ItemPlan>),
}

/// What a `RequestPlan` stands for.
pub enum PlanView {
    Answer(JsonView),
    Call { method: Seq<char>, params: Seq<JsonView> },
    Batch(Seq<ItemView>),
}

impl View for RequestPlan {
    type V = PlanView;

    open spec fn view(&self) -> PlanView {
        match *self {
            RequestPlan::Answer(value) => PlanView::Answer(value@),
            RequestPlan::Call { method, params } => PlanView::Call {
                method: method@,
                params: params.deep_view(),
            },
            RequestPlan::Batch(items) => PlanView::Batch(items.deep_view()),
        }
    }
}

/// The first array among the parameters.
pub open spec fn first_array(params: Seq<JsonView>) -> Option<Seq<JsonView>>
    decreases params.len(),
{
    if params.len() == 0 {
        None
    } else {
        match params[0] {
            JsonView::Array(items) => Some(items),
            _ => first_array(params.skip(1)),
        }
    }
}

/// The parameters of a call of a batch: the array that follows the method, or
/// whatever follows it.
pub open spec fn item_params(call: Seq<JsonView>) -> Seq<JsonView> {
    if call.len() > 1 {
        match call[1] {
            JsonView::Array(items) => items,
            _ => call.skip(1),
        }
    } else {
        call.skip(1)
    }
}

/// What is done about one call of a batch. It carries its own token.
pub open spec fn item_plan(call: JsonView, secret: Seq<char>) -> ItemView {
    let malformed = RpcErrorView::InvalidParams("multicall 元素需为 [method, params...] 数组"@);
    match call {
        JsonView::Array(parts) => if parts.len() > 0 {
            match parts[0] {
                JsonView::Text(method) => match stripped(item_params(parts), secret) {
                    Some(params) => ItemView::Call { method, params },
                    None => ItemView::Done(RpcErrorView::AuthorizationFailed.object()),
                },
                _ => ItemView::Done(malformed.object()),
            }
        } else {
            ItemView::Done(malformed.object())
        },
        _ => ItemView::Done(malformed.object()),
    }
}

/// What is done about a request: it is refused where it names another version of
/// the protocol or lacks the right token; the methods of the system are answered
/// here; and every other call is the backend's.
pub open spec fn plan(req: RequestView, secret: Seq<char>) -> PlanView {
    if req.jsonrpc is Some && req.jsonrpc->0 != "2.0"@ {
        PlanView::Answer(
            answer(
                req.id,
                Err(RpcErrorView::InvalidRequest("不支持的 jsonrpc 版本: "@ + req.jsonrpc->0)),
            ),
        )
    } else {
        match stripped(req.params, secret) {
            None => PlanView::Answer(answer(req.id, Err(RpcErrorView::AuthorizationFailed))),
            Some(params) => if req.method == "system.multicall"@ {
                match first_array(params) {
                    Some(calls) => PlanView::Batch(
                        Seq::new(calls.len(), |i: int| item_plan(calls[i], secret)),
                    ),
                    None => PlanView::Answer(
                        answer(
                            req.id,
                            Err(
                                RpcErrorView::InvalidParams(
                                    "system.multicall 需要一个 [method, params] 数组作为参数"@,
                                ),
                            ),
                        ),
                    ),
                }
            } else if req.method == "system.listMethods"@ {
                PlanView::Answer(answer(req.id, Ok(names_view(LIST_METHODS@))))
            } else if req.method == "system.listNotifications"@ {
                PlanView::Answer(answer(req.id, Ok(names_view(LIST_NOTIFICATIONS@))))
            } else {
                PlanView::Call { method: req.method, params }
            },
        }
    }
}

/// What is done about one call of a batch.
fn plan_item(call: &Json, secret: &str) -> (r: ItemPlan)
    ensures
        r.deep_view() == item_plan(call@, secret@),
{
    if let Json::Array(parts) = call {
        proof {
            json::lemma_array_view(*parts);
            assert(parts.deep_view().len() == parts@.len());
        }
        if parts.len() > 0 {
            proof {
                assert(parts.deep_view()[0] == parts@[0]@);
            }
            if let Some(method) = parts[0].as_str() {
                let mut raw: Vec<Json> = Vec::new();
                let mut nested = false;
                if parts.len() > 1 {
                    proof {
                        assert(parts.deep_view()[1] == parts@[1]@);
                    }
                    if let Json::Array(items) = &parts[1] {
                        proof {
                            json::lemma_array_view(*items);
                        }
                        raw = json::clone_values(items);
                        nested = true;
                    }
                }
                if !nested {
                    raw = json::clone_from(parts, 1);
                }
                let (allowed, params) = extract_params(&raw, secret);
                if !allowed {
                    return ItemPlan::Done(RpcError::AuthorizationFailed.to_jsonrpc());
                }
                return ItemPlan::Call { method: method.to_owned(), params };
            }
        }
    }
    ItemPlan::Done(
        RpcError::InvalidParams("multicall 元素需为 [method, params...] 数组".to_owned()).to_jsonrpc(),
    )
}

/// The plan of a batch whose parameters, without the token, are given.
fn plan_batch(id: &Option<Json>, params: &Vec<Json>, secret: &str) -> (r: RequestPlan)
    ensures
        r@ == (match first_array(params.deep_view()) {
            Some(calls) => PlanView::Batch(
                Seq::new(calls.len(), |i: int| item_plan(calls[i], secret@)),
            ),
            None => PlanView::Answer(
                answer(
                    id.deep_view(),
                    Err(
                        RpcErrorView::InvalidParams(
                            "system.multicall 需要一个 [method, params] 数组作为参数"@,
                        ),
                    ),
                ),
            ),
        }),
{
    let ghost view = params.deep_view();
    let mut i: usize = 0;
    proof {
        assert(view.skip(0) =~= view);
    }
    while i < params.len()
        invariant
            i <= params@.len(),
            view == params.deep_view(),
            first_array(view.skip(i as int)) == first_array(view),
        decreases params@.len() - i,
    {
        proof {
            assert(view.skip(i as int)[0] == params@[i as int]@);
            assert(view.skip(i as int).skip(1) =~= view.skip(i + 1));
        }
        if let Json::Array(calls) = &params[i] {
            let mut items: Vec<ItemPlan> = Vec::new();
            let mut k: usize = 0;
            while k < calls.len()
                invariant
                    k <= calls@.len(),
                    items@.len() == k,
                    forall|j: int|
                        0 <= j < k ==> (#[trigger] items@[j]).deep_view() == item_plan(
                            calls@[j]@,
                            secret@,
                        ),
                decreases calls@.len() - k,
            {
                items.push(plan_item(&calls[k], secret));
                k += 1;
            }
            proof {
                json::lemma_array_view(*calls);
                let want = Seq::new(
                    calls.deep_view().len(),
                    |j: int| item_plan(calls.deep_view()[j], secret@),
                );
                assert(items.deep_view() =~= want);
            }
            return RequestPlan::Batch(items);
        }
        i += 1;
    }
    RequestPlan::Answer(
        respond_to(
            id,
            Err(
                RpcError::InvalidParams(
                    "system.multicall 需要一个 [method, params] 数组作为参数".to_owned(),
                ),
            ),
        ),
    )
}

/// What is done about a request.
pub fn plan_request(req: &RpcRequest, secret: &str) -> (r: RequestPlan)
    ensures
        r@ == plan(req@, secret@),
{
    if let Some(version) = &req.jsonrpc {
        if !same(version.as_str(), "2.0") {
            let e = RpcError::InvalidRequest(join2("不支持的 jsonrpc 版本: ", version.as_str()));
            return RequestPlan::Answer(respond_to(&req.id, Err(e)));
        }
    }
    let (allowed, params) = extract_params(&req.params, secret);
    if !allowed {
        return RequestPlan::Answer(respond_to(&req.id, Err(RpcError::AuthorizationFailed)));
    }
    let method = req.method.as_str();
    if same(method, "system.multicall") {
        plan_batch(&req.id, &params, secret)
    } else if same(method, "system.listMethods") {
        let names = LIST_METHODS;
        RequestPlan::Answer(respond_to(&req.id, Ok(names_json(names.as_slice()))))
    } else if same(method, "system.listNotifications") {
        let names = LIST_NOTIFICATIONS;
        RequestPlan::Answer(respond_to(&req.id, Ok(names_json(names.as_slice()))))
    } else {
        RequestPlan::Call { method: req.method.clone(), params }
    }
}

/// What stands in the answer to a batch for a call that came to `outcome`.
pub open spec fn item_answer(outcome: Result<JsonView, RpcErrorView>) -> JsonView {
    match outcome {
        Ok(value) => value,
        Err(e) => e.object(),
    }
}

/// What stands in the answer to a batch for a call that came to `outcome`.
pub fn respond_in_batch(outcome: Result<Json, RpcError>) -> (r: Json)
    ensures
        r@ == item_answer(outcome_view(outcome)),
{
    match outcome {
        Ok(value) => value,
        Err(e) => e.to_jsonrpc(),
    }
}

/// What was asked for in these calls.
pub open spec fn asked(made: Seq<Exchange>) -> Seq<(Seq<char>, Seq<JsonView>)> {
    Seq::new(made.len(), |i: int| (made[i].method, made[i].params))
}

/// The calls of a batch that are made, in their order.
pub open spec fn calls_in(items: Seq<ItemView>) -> Seq<(Seq<char>, Seq<JsonView>)>
    decreases items.len(),
{
    if items.len() == 0 {
        seq![]
    } else {
        match items.last() {
            ItemView::Done(_) => calls_in(items.drop_last()),
            ItemView::Call { method, params } => calls_in(items.drop_last()).push(
                (method, params),
            ),
        }
    }
}

/// The calls that a plan makes, in their order.
pub open spec fn planned(plan: PlanView) -> Seq<(Seq<char>, Seq<JsonView>)> {
    match plan {
        PlanView::Answer(_) => seq![],
        PlanView::Call { method, params } => seq![(method, params)],
        PlanView::Batch(items) => calls_in(items),
    }
}

/// What stands in the answer to a batch whose calls came to what was `made` of them.
pub open spec fn results_of(items: Seq<ItemView>, made: Seq<Exchange>) -> Seq<JsonView>
    decreases items.len(),
{
    if items.len() == 0 {
        seq![]
    } else {
        match items.last() {
            ItemView::Done(value) => results_of(items.drop_last(), made).push(value),
            ItemView::Call { .. } => results_of(items.drop_last(), made.drop_last()).push(
                item_answer(made.last().outcome),
            ),
        }
    }
}

/// The answer to a request with this plan, whose calls came to what was `made` of
/// them.
pub open spec fn reply(id: Option<JsonView>, plan: PlanView, made: Seq<Exchange>) -> JsonView {
    match plan {
        PlanView::Answer(value) => value,
        PlanView::Call { .. } => answer(id, made[0].outcome),
        PlanView::Batch(items) => answer(id, Ok(JsonView::Array(results_of(items, made)))),
    }
}

/// Makes the calls of a batch, in turn.
fn run_batch<B: RpcBackend>(backend: &mut Ledger<B>, items: &Vec<ItemPlan>) -> (r: Vec<
    Json,
>)
    ensures
        final(backend).backend() == old(backend).backend(),
        final(backend).log().len() >= old(backend).log().len(),
        final(backend).log().take(old(backend).log().len() as int) == old(backend).log(),
        forall|i: int|
            old(backend).log().len() <= i < final(backend).log().len() ==> ledger::may_answer(
                final(backend).backend(),
                #[trigger] final(backend).log()[i],
            ),
        asked(final(backend).log().skip(old(backend).log().len() as int)) == calls_in(
            items.deep_view(),
        ),
        r.deep_view() == results_of(
            items.deep_view(),
            final(backend).log().skip(old(backend).log().len() as int),
        ),
{
    let ghost before = backend.log();
    let ghost n = before.len() as int;
    let ghost view = items.deep_view();
    let mut out: Vec<Json> = Vec::new();
    let mut i: usize = 0;
    proof {
        assert(before.take(n) =~= before);
        assert(asked(before.skip(n)) =~= calls_in(view.take(0)));
        assert(out.deep_view() =~= results_of(view.take(0), before.skip(n)));
    }
    while i < items.len()
        invariant
            i <= items@.len(),
            view == items.deep_view(),
            n == before.len(),
            backend.backend() == old(backend).backend(),
            backend.log().len() >= n,
            forall|j: int|
                n <= j < backend.log().len() ==> ledger::may_answer(
                    backend.backend(),
                    #[trigger] backend.log()[j],
                ),
            backend.log().take(n) == before,
            asked(backend.log().skip(n)) == calls_in(view.take(i as int)),
            out.deep_view() == results_of(view.take(i as int), backend.log().skip(n)),
        decreases items@.len() - i,
    {
        let ghost made = backend.log().skip(n);
        let ghost done = out.deep_view();
        let ghost upto = view.take(i + 1);
        proof {
            assert(upto.drop_last() =~= view.take(i as int));
            assert(upto.last() == items@[i as int].deep_view());
        }
        match &items[i] {
            ItemPlan::Done(value) => {
                out.push(value.clone());
                proof {
                    assert(out.deep_view() =~= done.push(value@));
                }
            },
            ItemPlan::Call { method, params } => {
                let outcome = backend.call(method.as_str(), params);
                let ghost shown = outcome_view(outcome);
                out.push(respond_in_batch(outcome));
                proof {
                    let exchange = Exchange {
                        method: method@,
                        params: params.deep_view(),
                        outcome: shown,
                    };
                    let more = backend.log().skip(n);
                    assert(more =~= made.push(exchange));
                    assert(more.drop_last() =~= made);
                    assert(backend.log().take(n) =~= before);
                    assert(asked(more) =~= asked(made).push((method@, params.deep_view())));
                    assert(out.deep_view() =~= done.push(item_answer(shown)));
                }
            },
        }
        i += 1;
    }
    proof {
        assert(view.take(i as int) =~= view);
    }
    out
}

/// Answers a request. The backend gets the calls that the plan makes, each once and
/// in their order, and no others; the answer is made of what it gives for them.
pub fn handle_request<B: RpcBackend>(
    req: &RpcRequest,
    backend: &mut Ledger<B>,
    secret: &str,
) -> (r: Json)
    ensures
        final(backend).backend() == old(backend).backend(),
        final(backend).log().len() >= old(backend).log().len(),
        final(backend).log().take(old(backend).log().len() as int) == old(backend).log(),
        forall|i: int|
            old(backend).log().len() <= i < final(backend).log().len() ==> ledger::may_answer(
                final(backend).backend(),
                #[trigger] final(backend).log()[i],
            ),
        asked(final(backend).log().skip(old(backend).log().len() as int)) == planned(
            plan(req@, secret@),
        ),
        r@ == reply(
            req@.id,
            plan(req@, secret@),
            final(backend).log().skip(old(backend).log().len() as int),
        ),
{
    let ghost before = backend.log();
    let ghost n = before.len() as int;
    match plan_request(req, secret) {
        RequestPlan::Answer(value) => {
            proof {
                assert(before.take(n) =~= before);
                assert(asked(before.skip(n)) =~= seq![]);
            }
            value
        },
        RequestPlan::Call { method, params } => {
            let outcome = backend.call(method.as_str(), &params);
            proof {
                let made = backend.log().skip(n);
                assert(made.len() == 1);
                assert(backend.log().take(n) =~= before);
                assert(asked(made) =~= seq![(method@, params.deep_view())]);
            }
            respond_to(&req.id, outcome)
        },
        RequestPlan::Batch(items) => {
            let results = run_batch(backend, &items);
            proof {
                json::lemma_array_view(results);
            }
            respond_to(&req.id, Ok(Json::Array(results)))
        },
    }
}

/// A notification: a message without an identifier.
pub fn build_notification(method: &str, params: Vec<Json>) -> (r: Json)
    ensures
        r@ == JsonView::Object(
            seq![
                ("jsonrpc"@, JsonView::Text("2.0"@)),
                ("method"@, JsonView::Text(method@)),
                ("params"@, JsonView::Array(params.deep_view())),
            ],
        ),
{
    let ghost shown = params.deep_view();
    let mut out: Vec<(String, Json)> = Vec::new();
    proof {
        json::lemma_array_view(params);
    }
    assoc::put(&mut out, "jsonrpc", json::text("2.0"));
    assoc::put(&mut out, "method", json::text(method));
    assoc::put(&mut out, "params", Json::Array(params));
    proof {
        json::lemma_object_view(out);
        assert(out.deep_view() =~= seq![
            ("jsonrpc"@, JsonView::Text("2.0"@)),
            ("method"@, JsonView::Text(method@)),
            ("params"@, JsonView::Array(shown)),
        ]);
    }
    Json::Object(out)
}

/// Why a call of a client failed.
#[derive(Debug, PartialEq, Eq)]
pub enum ClientError {
    /// There is no connection.
    Connection(String),
    /// The server answered with another status than success.
    HttpStatus(u16),
    /// The answer is not JSON.
    InvalidResponse(String),
    /// The answer holds neither a result nor an error.
    MissingResult,
    /// The answer holds this error.
    ServerError { code: i64, message: String },
}

impl ClientError {
    /// The error in words.
    pub open spec fn words(self) -> Seq<char> {
        match self {
            ClientError::Connection(m) => "无法连接到 RPC 服务: "@ + m@,
            ClientError::HttpStatus(code) => "RPC 服务返回 HTTP 状态码 "@ + digits::dec(
                code as nat,
            ),
            ClientError::InvalidResponse(m) => "RPC 响应解析失败: "@ + m@,
            ClientError::MissingResult => "RPC 响应缺少 result 且缺少 error"@,
            ClientError::ServerError { message, .. } => message@,
        }
    }

    /// The error in words.
    pub fn message(&self) -> (r: String)
        ensures
            r@ == self.words(),
    {
        match self {
            ClientError::Connection(m) => join2("无法连接到 RPC 服务: ", m.as_str()),
            ClientError::HttpStatus(code) => {
                let mut out = "RPC 服务返回 HTTP 状态码 ".to_owned();
                digits::push_dec(&mut out, *code as u64);
                out
            },
            ClientError::InvalidResponse(m) => join2("RPC 响应解析失败: ", m.as_str()),
            ClientError::MissingResult => "RPC 响应缺少 result 且缺少 error".to_owned(),
            ClientError::ServerError { message, .. } => message.clone(),
        }
    }
}

/// Parameters with the token for a secret before them; without a secret, as they
/// are.
pub open spec fn with_token(params: Seq<JsonView>, secret: Seq<char>) -> Seq<JsonView> {
    if secret.len() == 0 {
        params
    } else {
        seq![JsonView::Text(token(secret))] + params
    }
}

/// A client's request.
pub open spec fn client_body(
    method: Seq<char>,
    params: Seq<JsonView>,
    secret: Seq<char>,
) -> JsonView {
    JsonView::Object(
        seq![
            ("jsonrpc"@, JsonView::Text("2.0"@)),
            ("id"@, JsonView::Number(json::number_of(1))),
            ("method"@, JsonView::Text(method)),
            ("params"@, JsonView::Array(with_token(params, secret))),
        ],
    )
}

/// A client's request.
pub fn client_request(method: &str, params: Vec<Json>, secret: &str) -> (r: Json)
    ensures
        r@ == client_body(method@, params.deep_view(), secret@),
{
    let ghost given = params.deep_view();
    let mut params = params;
    if !secret.is_empty() {
        let mark = join2("token:", secret);
        params.insert(0, Json::Text(mark));
        proof {
            assert(params.deep_view() =~= with_token(given, secret@));
        }
    }
    proof {
        json::lemma_array_view(params);
    }
    let mut out: Vec<(String, Json)> = Vec::new();
    assoc::put(&mut out, "jsonrpc", json::text("2.0"));
    assoc::put(&mut out, "id", json::integer(1));
    assoc::put(&mut out, "method", json::text(method));
    assoc::put(&mut out, "params", Json::Array(params));
    proof {
        json::lemma_object_view(out);
        assert(out.deep_view() =~= client_body(method@, given, secret@)->Object_0);
    }
    Json::Object(out)
}

/// What a client makes of an answer: an error where it holds one, else the result.
pub open spec fn client_reads(value: JsonView) -> Result<JsonView, Option<(i64, Seq<char>)>> {
    match value.field("error"@) {
        Some(e) => {
            let code = match e.field("code"@) {
                Some(code) => match code.signed() {
                    Some(n) => n,
                    None => 0,
                },
                None => 0,
            };
            let message = match e.field("message"@) {
                Some(message) => match message.text() {
                    Some(s) => s,
                    None => "未知错误"@,
                },
                None => "未知错误"@,
            };
            Err(Some((code, message)))
        },
        None => match value.field("result"@) {
            Some(result) => Ok(result),
            None => Err(None),
        },
    }
}

/// What a client makes of an answer.
pub fn read_answer(value: &Json) -> (r: Result<Json, ClientError>)
    ensures
        match (r, client_reads(value@)) {
            (Ok(result), Ok(want)) => result@ == want,
            (Err(ClientError::ServerError { code, message }), Err(Some(want))) => code == want.0
                && message@ == want.1,
            (Err(ClientError::MissingResult), Err(None)) => true,
            _ => false,
        },
{
    if let Some(e) = value.get("error") {
        let code: i64 = match e.get("code") {
            Some(code) => match code.as_i64() {
                Some(n) => n,
                None => 0,
            },
            None => 0,
        };
        let message = match e.get("message") {
            Some(message) => match message.as_str() {
                Some(s) => s.to_owned(),
                None => "未知错误".to_owned(),
            },
            None => "未知错误".to_owned(),
        };
        return Err(ClientError::ServerError { code, message });
    }
    match value.get("result") {
        Some(result) => Ok(result.clone()),
        None => Err(ClientError::MissingResult),
    }
}

/// A request without the right token is answered with an authorization error,
/// whatever it asks for, and no call of it reaches the backend.
pub proof fn law_unauthorized_is_refused(req: RequestView, secret: Seq<char>)
    requires
        req.jsonrpc is Some ==> req.jsonrpc->0 == "2.0"@,
        secret.len() > 0,
        req.params.len() == 0 || req.params[0] != JsonView::Text(token(secret)),
    ensures
        plan(req, secret) == PlanView::Answer(
            answer(req.id, Err(RpcErrorView::AuthorizationFailed)),
        ),
        planned(plan(req, secret)).len() == 0,
        RpcErrorView::AuthorizationFailed.code() == 1,
{
}

/// Nor does a call of a batch reach the backend without a token of its own.
pub proof fn law_unauthorized_item_is_refused(call: Seq<JsonView>, secret: Seq<char>)
    requires
        secret.len() > 0,
        call.len() > 0,
        call[0] is Text,
        item_params(call).len() == 0 || item_params(call)[0] != JsonView::Text(token(secret)),
    ensures
        item_plan(JsonView::Array(call), secret) == ItemView::Done(
            RpcErrorView::AuthorizationFailed.object(),
        ),
{
}

/// A server takes from a client that knows its secret exactly the parameters that
/// the client was given.
pub proof fn law_client_is_understood(params: Seq<JsonView>, secret: Seq<char>)
    ensures
        stripped(with_token(params, secret), secret) == Some(params),
{
    assert(with_token(params, secret).skip(1) =~= params || secret.len() == 0);
}

/// A server refuses a client that has another secret.
pub proof fn law_wrong_secret_is_refused(
    params: Seq<JsonView>,
    client: Seq<char>,
    server: Seq<char>,
)
    requires
        client.len() > 0,
        server.len() > 0,
        client != server,
    ensures
        stripped(with_token(params, client), server) is None,
{
    if token(client) == token(server) {
        let n = "token:"@.len() as int;
        assert(token(client).skip(n) =~= client);
        assert(token(server).skip(n) =~= server);
    }
}

/// A client reads out of an answer what the server put into it: the result of a
/// call, or the code and the message of its error.
pub proof fn law_answer_is_understood(
    id: Option<JsonView>,
    outcome: Result<JsonView, RpcErrorView>,
)
    ensures
        client_reads(answer(id, outcome)) == (match outcome {
            Ok(value) => Ok(value),
            Err(e) => Err(Some((e.code(), e.text()))),
        }),
{
    reveal_strlit("jsonrpc");
    reveal_strlit("id");
    reveal_strlit("result");
    reveal_strlit("error");
    reveal_strlit("code");
    reveal_strlit("message");
    assert("jsonrpc"@.len() == 7 && "id"@.len() == 2 && "result"@.len() == 6 && "error"@.len() == 5);
    assert("code"@.len() == 4 && "message"@.len() == 7);
    match outcome {
        Ok(value) => {
            let fields = response(id, "result"@, value)->Object_0;
            assoc::lemma_index_is(fields, "error"@, 3);
            assoc::lemma_index_is(fields, "result"@, 2);
        },
        Err(e) => {
            let fields = response(id, "error"@, e.object())->Object_0;
            assoc::lemma_index_is(fields, "error"@, 2);
            let parts = e.object()->Object_0;
            assoc::lemma_index_is(parts, "code"@, 0);
            assoc::lemma_index_is(parts, "message"@, 1);
            assert(JsonView::Number(json::number_of(e.code())).signed() == Some(e.code()));
        },
    }
}

/// A batch is answered with one result for each of its calls; one that is refused
/// has its error in its place.
pub proof fn law_batch_is_answered_in_full(items: Seq<ItemView>, made: Seq<Exchange>)
    ensures
        results_of(items, made).len() == items.len(),
        forall|i: int|
            0 <= i < items.len() && items[i] is Done ==> (#[trigger] results_of(items, made)[i])
                == items[i]->Done_0,
    decreases items.len(),
{
    if items.len() > 0 {
        let rest = match items.last() {
            ItemView::Done(_) => made,
            ItemView::Call { .. } => made.drop_last(),
        };
        law_batch_is_answered_in_full(items.drop_last(), rest);
        assert forall|i: int| 0 <= i < items.len() && items[i] is Done implies (
        #[trigger] results_of(items, made)[i]) == items[i]->Done_0 by {
            if i < items.len() - 1 {
                assert(items.drop_last()[i] == items[i]);
                assert(results_of(items.drop_last(), rest)[i] == results_of(items, made)[i]);
            }
        }
    }
}

/// The calls of a batch are made in their order: those of its first part before
/// those of the rest.
pub proof fn law_batch_keeps_its_order(first: Seq<ItemView>, rest: Seq<ItemView>)
    ensures
        calls_in(first + rest) == calls_in(first) + calls_in(rest),
    decreases rest.len(),
{
    if rest.len() == 0 {
        assert(first + rest =~= first);
        assert(calls_in(first) + calls_in(rest) =~= calls_in(first));
    } else {
        law_batch_keeps_its_order(first, rest.drop_last());
        assert((first + rest).drop_last() =~= first + rest.drop_last());
        assert((first + rest).last() == rest.last());
        assert(calls_in(first + rest) =~= calls_in(first) + calls_in(rest));
    }
}

/// What a call of a batch came to stands in its place: the outcomes of the calls of
/// its first part go to that part, and the others to the rest.
pub proof fn law_batch_results_stand_in_place(
    first: Seq<ItemView>,
    rest: Seq<ItemView>,
    made: Seq<Exchange>,
)
    requires
        made.len() == calls_in(first + rest).len(),
    ensures
        results_of(first + rest, made) == results_of(
            first,
            made.take(calls_in(first).len() as int),
        ) + results_of(rest, made.skip(calls_in(first).len() as int)),
    decreases rest.len(),
{
    law_batch_keeps_its_order(first, rest);
    let n = calls_in(first).len() as int;
    let whole = results_of(first + rest, made);
    let early = results_of(first, made.take(n));
    if rest.len() == 0 {
        assert(first + rest =~= first);
        assert(made.take(n) =~= made);
        assert(whole =~= early + results_of(rest, made.skip(n)));
    } else {
        assert((first + rest).drop_last() =~= first + rest.drop_last());
        assert((first + rest).last() == rest.last());
        law_batch_keeps_its_order(first, rest.drop_last());
        match rest.last() {
            ItemView::Done(_) => {
                law_batch_results_stand_in_place(first, rest.drop_last(), made);
            },
            ItemView::Call { .. } => {
                law_batch_results_stand_in_place(first, rest.drop_last(), made.drop_last());
                assert(made.drop_last().take(n) =~= made.take(n));
                assert(made.drop_last().skip(n) =~= made.skip(n).drop_last());
                assert(made.skip(n).last() == made.last());
            },
        }
        assert(whole =~= early + results_of(rest, made.skip(n)));
    }
}

} // verus!
