//! The remote interface: requests, authorization, batches, notifications, and the
//! client's side of a call.

use std::cell::RefCell;

use motrix_core::json::{Json, Number};
use motrix_core::ledger::Ledger;
use motrix_core::rpc::{
    build_notification, client_request, extract_params, handle_request, plan_request,
    read_answer, respond_in_batch, respond_to, respond_unreadable, ClientError, ItemPlan,
    RequestPlan, RpcBackend, RpcError, RpcRequest, LIST_METHODS, LIST_NOTIFICATIONS,
};

fn text(s: &str) -> Json {
    Json::Text(s.to_string())
}

fn num(n: u64) -> Json {
    Json::Number(Number::Unsigned(n))
}

fn object(fields: Vec<(&str, Json)>) -> Json {
    Json::Object(fields.into_iter().map(|(k, v)| (k.to_string(), v)).collect())
}

fn array(items: Vec<Json>) -> Json {
    Json::Array(items)
}

/// The value that a JSON text holds.
fn parse(s: &str) -> Json {
    from_value(serde_json::from_str(s).expect("JSON"))
}

fn from_value(value: serde_json::Value) -> Json {
    match value {
        serde_json::Value::Null => Json::Null,
        serde_json::Value::Bool(b) => Json::Bool(b),
        serde_json::Value::Number(n) => Json::Number(if let Some(n) = n.as_u64() {
            Number::Unsigned(n)
        } else if let Some(n) = n.as_i64() {
            Number::Negative(n)
        } else {
            Number::Float(n.as_f64().expect("a double").to_bits())
        }),
        serde_json::Value::String(s) => Json::Text(s),
        serde_json::Value::Array(items) => {
            Json::Array(items.into_iter().map(from_value).collect())
        }
        serde_json::Value::Object(fields) => {
            Json::Object(fields.into_iter().map(|(k, v)| (k, from_value(v))).collect())
        }
    }
}

/// A request, as a server reads it.
fn request(body: &Json) -> RpcRequest {
    let copy = |key: &str| match body.get(key) {
        Some(Json::Text(s)) => Some(s.clone()),
        _ => None,
    };
    RpcRequest {
        jsonrpc: copy("jsonrpc"),
        id: match body.get("id") {
            Some(Json::Number(n)) => Some(Json::Number(n.clone())),
            Some(Json::Text(s)) => Some(Json::Text(s.clone())),
            _ => None,
        },
        method: copy("method").expect("a method"),
        params: match body.get("params") {
            Some(Json::Array(items)) => items.iter().map(duplicate).collect(),
            _ => Vec::new(),
        },
    }
}

fn duplicate(value: &Json) -> Json {
    value.clone()
}

fn at<'a>(value: &'a Json, path: &[&str]) -> &'a Json {
    let mut here = value;
    for key in path {
        here = match (here, key.parse::<usize>()) {
            (Json::Array(items), Ok(i)) => &items[i],
            _ => here.get(key).unwrap_or(&Json::Null),
        };
    }
    here
}

/// A backend with a handful of methods.
struct FakeBackend;

impl RpcBackend for FakeBackend {
    fn call(&self, method: &str, _params: &Vec<Json>) -> Result<Json, RpcError> {
        match method {
            "aria2.getVersion" => Ok(object(vec![
                ("version", text("1.36.0")),
                (
                    "enabledFeatures",
                    array(vec![
                        text("Async DNS"),
                        text("BitTorrent"),
                        text("HTTPS"),
                        text("Message Digest"),
                        text("Metalink"),
                        text("XML-RPC"),
                        text("SFTP"),
                    ]),
                ),
            ])),
            "aria2.tellActive" => Ok(array(vec![])),
            "aria2.getGlobalStat" => Ok(object(vec![
                ("downloadSpeed", text("0")),
                ("uploadSpeed", text("0")),
                ("numActive", text("0")),
                ("numWaiting", text("0")),
                ("numStopped", text("0")),
                ("numStoppedTotal", text("0")),
            ])),
            "aria2.addUri" => Ok(object(vec![("gid", text("2089b05ecca3d829"))])),
            _ => Err(RpcError::MethodNotFound(format!("方法未实现: {method}"))),
        }
    }
}

/// Sends a request with the given parameters to a server with the given secret.
fn post(secret: &str, id: u64, method: &str, params: Vec<Json>) -> Json {
    let body = object(vec![
        ("jsonrpc", text("2.0")),
        ("id", num(id)),
        ("method", text(method)),
        ("params", array(params)),
    ]);
    handle_request(&request(&body), &mut Ledger::new(&FakeBackend), secret)
}

/// Calls a server with secret `theirs` as a client with secret `ours`.
fn client_call(theirs: &str, ours: &str, method: &str) -> Result<Json, ClientError> {
    let body = client_request(method, vec![], ours);
    read_answer(&handle_request(&request(&body), &mut Ledger::new(&FakeBackend), theirs))
}

#[test]
fn right_secret_gives_the_result() {
    let result = client_call("secret", "secret", "aria2.getVersion").unwrap();
    assert_eq!(at(&result, &["version"]), &text("1.36.0"));
}

#[test]
fn wrong_secret_fails_authorization() {
    let err = client_call("secret", "wrong", "aria2.getVersion").unwrap_err();
    match err {
        ClientError::ServerError { code, message } => {
            assert_eq!(code, 1);
            assert_eq!(message, "Authorization failed");
        }
        other => panic!("{}", other.message()),
    }
}

#[test]
fn client_empty_secret_needs_no_token() {
    let result = client_call("", "", "aria2.getVersion").unwrap();
    assert_eq!(at(&result, &["version"]), &text("1.36.0"));
}

#[test]
fn missing_method_gives_a_server_error() {
    let err = client_call("secret", "secret", "aria2.noSuchMethod").unwrap_err();
    match err {
        ClientError::ServerError { code, message } => {
            assert_eq!(code, -32601);
            assert!(message.contains("未实现"));
        }
        other => panic!("{}", other.message()),
    }
}

#[test]
fn request_is_read_and_its_token_stripped() {
    let req = request(&parse(
        r#"{"jsonrpc":"2.0","id":1,"method":"aria2.getVersion","params":["token:secret"]}"#,
    ));
    assert_eq!(req.method, "aria2.getVersion");
    let (ok, params) = extract_params(&req.params, "secret");
    assert!(ok);
    assert!(params.is_empty());
}

#[test]
fn failed_authorization_has_code_1() {
    let req = request(&parse(
        r#"{"jsonrpc":"2.0","id":1,"method":"aria2.getVersion","params":["token:wrong"]}"#,
    ));
    let resp = handle_request(&req, &mut Ledger::new(&FakeBackend), "secret");
    assert_eq!(at(&resp, &["error", "code"]), &num(1));
    assert_eq!(at(&resp, &["error", "message"]), &text("Authorization failed"));
}

#[test]
fn methods_empty_secret_needs_no_token() {
    let req = request(&parse(
        r#"{"jsonrpc":"2.0","id":1,"method":"aria2.getVersion","params":[]}"#,
    ));
    let resp = handle_request(&req, &mut Ledger::new(&FakeBackend), "");
    assert_eq!(at(&resp, &["result", "version"]), &text("1.36.0"));
}

#[test]
fn multicall_gives_results_and_error_objects() {
    let req = request(&parse(
        r#"{"jsonrpc":"2.0","id":2,"method":"system.multicall",
            "params":["token:secret",[["aria2.getVersion",["token:secret"]],["aria2.noSuch",["token:secret"]]]]}"#,
    ));
    let resp = handle_request(&req, &mut Ledger::new(&FakeBackend), "secret");
    match at(&resp, &["result"]) {
        Json::Array(items) => assert_eq!(items.len(), 2),
        other => panic!("no list: {:?}", other),
    }
    assert_eq!(at(&resp, &["result", "0", "version"]), &text("1.36.0"));
    assert_eq!(
        at(&resp, &["result", "1", "code"]),
        &Json::Number(Number::Negative(-32601))
    );
}

#[test]
fn notification_has_its_shape() {
    let msg = build_notification(
        "aria2.onDownloadStart",
        vec![object(vec![("gid", text("2089b05ecca3d829"))])],
    );
    assert_eq!(at(&msg, &["jsonrpc"]), &text("2.0"));
    assert_eq!(at(&msg, &["method"]), &text("aria2.onDownloadStart"));
    assert_eq!(at(&msg, &["params", "0", "gid"]), &text("2089b05ecca3d829"));
    assert!(msg.get("id").is_none());
}

#[test]
fn build_notification_helper() {
    let n = build_notification(
        "aria2.onDownloadComplete",
        vec![object(vec![("gid", text("abc"))])],
    );
    assert_eq!(at(&n, &["jsonrpc"]), &text("2.0"));
    assert_eq!(at(&n, &["method"]), &text("aria2.onDownloadComplete"));
    assert_eq!(at(&n, &["params", "0", "gid"]), &text("abc"));
}

#[test]
fn http_post_get_version_has_a_version() {
    let v = post("secret", 1, "aria2.getVersion", vec![text("token:secret")]);
    assert_eq!(at(&v, &["jsonrpc"]), &text("2.0"));
    assert_eq!(at(&v, &["id"]), &num(1));
    assert_eq!(at(&v, &["result", "version"]), &text("1.36.0"));
    assert!(matches!(at(&v, &["result", "enabledFeatures"]), Json::Array(_)));
}

#[test]
fn http_post_without_token_fails() {
    let v = post("secret", 1, "aria2.getVersion", vec![]);
    assert_eq!(at(&v, &["error", "code"]), &num(1));
    assert_eq!(at(&v, &["error", "message"]), &text("Authorization failed"));
}

#[test]
fn http_post_with_wrong_token_fails() {
    let v = post("secret", 1, "aria2.getVersion", vec![text("token:wrong")]);
    assert_eq!(at(&v, &["error", "code"]), &num(1));
    assert_eq!(at(&v, &["error", "message"]), &text("Authorization failed"));
}

#[test]
fn http_post_tell_active_is_empty() {
    let v = post("secret", 2, "aria2.tellActive", vec![text("token:secret")]);
    assert_eq!(at(&v, &["result"]), &array(vec![]));
}

fn call_of(method: &str) -> Json {
    array(vec![text(method), array(vec![text("token:secret")])])
}

#[test]
fn http_post_system_multicall_makes_two_calls() {
    let calls = array(vec![call_of("aria2.getVersion"), call_of("aria2.getGlobalStat")]);
    let v = post("secret", 3, "system.multicall", vec![text("token:secret"), calls]);
    match at(&v, &["result"]) {
        Json::Array(items) => assert_eq!(items.len(), 2),
        other => panic!("no list: {:?}", other),
    }
    assert_eq!(at(&v, &["result", "0", "version"]), &text("1.36.0"));
    assert_eq!(at(&v, &["result", "1", "downloadSpeed"]), &text("0"));
}

#[test]
fn http_post_system_multicall_marks_a_failed_item() {
    let calls = array(vec![call_of("aria2.getVersion"), call_of("aria2.noSuchMethod")]);
    let v = post("secret", 4, "system.multicall", vec![text("token:secret"), calls]);
    assert_eq!(at(&v, &["result", "0", "version"]), &text("1.36.0"));
    assert_eq!(
        at(&v, &["result", "1", "code"]),
        &Json::Number(Number::Negative(-32601))
    );
    assert!(matches!(at(&v, &["result", "1", "message"]), Json::Text(_)));
}

#[test]
fn http_post_unknown_method_is_refused() {
    let v = post("secret", 5, "aria2.unknownMethod", vec![text("token:secret")]);
    assert_eq!(at(&v, &["error", "code"]), &Json::Number(Number::Negative(-32601)));
}

#[test]
fn http_post_empty_secret_needs_no_token() {
    let v = post("", 1, "aria2.getVersion", vec![]);
    assert_eq!(at(&v, &["result", "version"]), &text("1.36.0"));
}

#[test]
fn http_post_get_global_stat_has_texts() {
    let v = post("secret", 6, "aria2.getGlobalStat", vec![text("token:secret")]);
    for key in ["downloadSpeed", "uploadSpeed", "numActive", "numWaiting", "numStopped"] {
        assert_eq!(at(&v, &["result", key]), &text("0"));
    }
}

#[test]
fn http_post_system_list_methods_lists_them() {
    let v = post("secret", 7, "system.listMethods", vec![text("token:secret")]);
    let names = match at(&v, &["result"]) {
        Json::Array(items) => items,
        other => panic!("no list: {:?}", other),
    };
    for method in ["aria2.getVersion", "system.multicall", "motrix.saveUserConfig"] {
        assert!(names.contains(&text(method)));
    }
    assert_eq!(names.len(), LIST_METHODS.len());
}

#[test]
fn notifications_are_listed() {
    let v = post("", 8, "system.listNotifications", vec![]);
    let names = match at(&v, &["result"]) {
        Json::Array(items) => items,
        other => panic!("no list: {:?}", other),
    };
    assert_eq!(names.len(), LIST_NOTIFICATIONS.len());
    assert_eq!(names[0], text("aria2.onDownloadStart"));
}

#[test]
fn another_version_of_the_protocol_is_refused() {
    let body = object(vec![
        ("jsonrpc", text("1.0")),
        ("id", text("x")),
        ("method", text("aria2.getVersion")),
    ]);
    let v = handle_request(&request(&body), &mut Ledger::new(&FakeBackend), "");
    assert_eq!(at(&v, &["id"]), &text("x"));
    assert_eq!(at(&v, &["error", "code"]), &Json::Number(Number::Negative(-32600)));
    assert_eq!(at(&v, &["error", "message"]), &text("不支持的 jsonrpc 版本: 1.0"));
}

#[test]
fn a_batch_refuses_each_item_that_lacks_the_token() {
    let calls = array(vec![
        array(vec![text("aria2.getVersion"), array(vec![])]),
        call_of("aria2.tellActive"),
        array(vec![num(3)]),
    ]);
    let v = post("secret", 9, "system.multicall", vec![text("token:secret"), calls]);
    assert_eq!(at(&v, &["result", "0", "code"]), &num(1));
    assert_eq!(at(&v, &["result", "1"]), &array(vec![]));
    assert_eq!(
        at(&v, &["result", "2", "code"]),
        &Json::Number(Number::Negative(-32602))
    );

    let v = post("", 9, "system.multicall", vec![]);
    assert_eq!(at(&v, &["error", "code"]), &Json::Number(Number::Negative(-32602)));
}

#[test]
fn a_flat_item_of_a_batch_is_a_call_too() {
    let flat = array(vec![array(vec![text("aria2.remove"), text("token:s"), text("g")])]);
    let body = object(vec![
        ("method", text("system.multicall")),
        ("params", array(vec![text("token:s"), flat])),
    ]);
    assert_eq!(
        plan_request(&request(&body), "s"),
        RequestPlan::Batch(vec![ItemPlan::Call {
            method: "aria2.remove".to_string(),
            params: vec![text("g")],
        }])
    );
}

#[test]
fn an_answer_marks_what_it_answers() {
    let v = respond_to(&Some(num(4)), Ok(text("OK")));
    assert_eq!(at(&v, &["id"]), &num(4));
    assert_eq!(at(&v, &["result"]), &text("OK"));
    let v = respond_unreadable("oops".to_string());
    assert_eq!(at(&v, &["id"]), &Json::Null);
    assert_eq!(at(&v, &["error", "code"]), &Json::Number(Number::Negative(-32700)));
    assert_eq!(
        respond_in_batch(Err(RpcError::Other { code: 7, message: "m".to_string() })),
        object(vec![("code", num(7)), ("message", text("m"))])
    );
}

#[test]
fn the_client_reads_results_and_errors() {
    assert_eq!(read_answer(&object(vec![("result", num(1))])), Ok(num(1)));
    assert_eq!(read_answer(&object(vec![])), Err(ClientError::MissingResult));
    assert_eq!(
        read_answer(&object(vec![("error", object(vec![])), ("result", num(1))])),
        Err(ClientError::ServerError { code: 0, message: "未知错误".to_string() })
    );
}

#[test]
fn errors_have_words() {
    assert_eq!(
        ClientError::HttpStatus(502).message(),
        "RPC 服务返回 HTTP 状态码 502"
    );
    assert_eq!(
        ClientError::Connection("refused".to_string()).message(),
        "无法连接到 RPC 服务: refused"
    );
    assert_eq!(RpcError::MethodNotFound("x".to_string()).message(), "Method not found: x");
    assert_eq!(RpcError::AuthorizationFailed.message(), "Authorization failed");
}

#[test]
fn a_request_of_the_client_carries_its_token() {
    let body = client_request("aria2.remove", vec![text("g")], "s");
    assert_eq!(at(&body, &["method"]), &text("aria2.remove"));
    assert_eq!(at(&body, &["params"]), &array(vec![text("token:s"), text("g")]));
    let body = client_request("aria2.remove", vec![text("g")], "");
    assert_eq!(at(&body, &["params"]), &array(vec![text("g")]));
}

/// A backend that remembers what it was asked for.
struct Recorder {
    calls: RefCell<Vec<(String, Vec<Json>)>>,
}

impl RpcBackend for Recorder {
    fn call(&self, method: &str, params: &Vec<Json>) -> Result<Json, RpcError> {
        let mut calls = self.calls.borrow_mut();
        calls.push((method.to_string(), params.iter().map(duplicate).collect()));
        Ok(num(calls.len() as u64))
    }
}

#[test]
fn only_authorized_calls_are_made_once_and_in_order() {
    let ask = |params: Vec<Json>, method: &str| {
        let body = object(vec![
            ("jsonrpc", text("2.0")),
            ("id", num(1)),
            ("method", text(method)),
            ("params", array(params)),
        ]);
        let backend = Recorder { calls: RefCell::new(vec![]) };
        let answer = handle_request(&request(&body), &mut Ledger::new(&backend), "secret");
        (backend.calls.into_inner(), answer)
    };
    let token = || text("token:secret");
    let (calls, answer) = ask(vec![text("g")], "aria2.remove");
    assert!(calls.is_empty());
    assert_eq!(at(&answer, &["error", "code"]), &num(1));

    let (calls, answer) = ask(vec![token(), text("g")], "aria2.remove");
    assert_eq!(calls, vec![("aria2.remove".to_string(), vec![text("g")])]);
    assert_eq!(at(&answer, &["result"]), &num(1));

    let item = |method: &str, params: Vec<Json>| array(vec![text(method), array(params)]);
    let batch = array(vec![
        item("a", vec![token(), num(7)]),
        item("b", vec![num(8)]),
        num(9),
        item("c", vec![token()]),
    ]);
    let (calls, answer) = ask(vec![token(), batch], "system.multicall");
    assert_eq!(calls, vec![("a".to_string(), vec![num(7)]), ("c".to_string(), vec![])]);
    assert_eq!(at(&answer, &["result", "0"]), &num(1));
    assert_eq!(at(&answer, &["result", "1", "code"]), &num(1));
    assert_eq!(
        at(&answer, &["result", "2", "code"]),
        &Json::Number(Number::Negative(-32602))
    );
    assert_eq!(at(&answer, &["result", "3"]), &num(2));
}
