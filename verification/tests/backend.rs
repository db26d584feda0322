//! The engine's side of the remote interface.

use motrix_core::bt::PeerInfo;
use motrix_core::config::{Platform, SystemConfig};
use motrix_core::json::{Json, Number};
use motrix_core::manager::TaskManager;
use motrix_core::rpc::RpcError;
use motrix_core::rpc_backend::{
    answer_change, answer_query, engine_options, gid_not_found, gids_to_pause,
    gids_to_resume, paginate_tasks, peers_json, route, Command,
};
use motrix_core::task::{Task, TaskStatus};

fn text(s: &str) -> Json {
    Json::Text(s.to_string())
}

fn num(n: u64) -> Json {
    Json::Number(Number::Unsigned(n))
}

fn object(fields: Vec<(&str, Json)>) -> Json {
    Json::Object(fields.into_iter().map(|(k, v)| (k.to_string(), v)).collect())
}

fn task(gid: &str, status: TaskStatus) -> Task {
    let uris = vec![format!("http://127.0.0.1:9/{gid}")];
    let mut task = Task::new_http_task(gid, &uris, "/dl", gid);
    task.status = status;
    task
}

fn system() -> SystemConfig {
    SystemConfig::defaults(Platform::Linux, "/tmp/motrix", "/dl")
}

fn invalid(message: &str) -> Result<Command, RpcError> {
    Err(RpcError::InvalidParams(message.to_string()))
}

fn gids_of(list: &Json) -> Vec<String> {
    match list {
        Json::Array(items) => items
            .iter()
            .map(|t| match t.get("gid") {
                Some(Json::Text(gid)) => gid.clone(),
                other => panic!("no gid: {:?}", other),
            })
            .collect(),
        other => panic!("no list: {:?}", other),
    }
}

#[test]
fn calls_stand_for_commands() {
    let g = || vec![text("g")];
    let gid = || "g".to_string();
    assert_eq!(route("aria2.getVersion", &vec![]), Ok(Command::Version));
    assert_eq!(route("aria2.tellActive", &vec![]), Ok(Command::Active));
    assert_eq!(
        route("aria2.tellWaiting", &vec![]),
        Ok(Command::Waiting { offset: 0, num: 50 })
    );
    assert_eq!(
        route("aria2.tellStopped", &vec![num(2), num(3)]),
        Ok(Command::Stopped { offset: 2, num: 3 })
    );
    for method in ["aria2.pause", "aria2.forcePause"] {
        assert_eq!(route(method, &g()), Ok(Command::Pause { gid: gid() }));
    }
    assert_eq!(route("aria2.unpause", &g()), Ok(Command::Resume { gid: gid() }));
    for method in ["aria2.remove", "aria2.forceRemove"] {
        assert_eq!(route(method, &g()), Ok(Command::Remove { gid: gid() }));
    }
    assert_eq!(
        route("aria2.addUri", &vec![Json::Array(vec![text("a"), num(1), text("b")])]),
        Ok(Command::AddUri {
            uris: vec!["a".to_string(), "b".to_string()],
            options: Json::Null
        })
    );
    assert_eq!(
        route("aria2.getPeers", &g()),
        Ok(Command::Peers { gid: gid(), limit: 100 })
    );
    assert_eq!(
        route("aria2.changeOption", &vec![text("g"), object(vec![])]),
        Ok(Command::ChangeTask { gid: gid(), options: object(vec![]) })
    );
}

#[test]
fn calls_without_their_parameters_are_refused() {
    assert_eq!(route("aria2.tellStatus", &vec![]), invalid("aria2.tellStatus 需要 gid 参数"));
    assert_eq!(
        route("aria2.forcePause", &vec![num(1)]),
        invalid("aria2.forcePause 需要 gid 参数")
    );
    assert_eq!(
        route("aria2.addUri", &vec![text("http://a")]),
        invalid("aria2.addUri 需要一个 URL 数组作为第一个参数")
    );
    assert_eq!(
        route("aria2.changeOption", &vec![text("g")]),
        invalid("aria2.changeOption 需要 options 参数")
    );
    assert_eq!(
        route("aria2.none", &vec![]),
        Err(RpcError::MethodNotFound("方法未实现: aria2.none".to_string()))
    );
}

#[test]
fn pages_join_to_the_whole_list() {
    let tasks: Vec<Task> =
        ["a", "b", "c", "d", "e"].iter().map(|g| task(g, TaskStatus::Waiting)).collect();
    assert_eq!(gids_of(&paginate_tasks(&tasks, 0, 2)), ["a", "b"]);
    assert_eq!(gids_of(&paginate_tasks(&tasks, 2, 2)), ["c", "d"]);
    assert_eq!(gids_of(&paginate_tasks(&tasks, 4, usize::MAX)), ["e"]);
    assert!(gids_of(&paginate_tasks(&tasks, 5, 2)).is_empty());
    assert!(gids_of(&paginate_tasks(&tasks, usize::MAX, 2)).is_empty());
}

#[test]
fn queries_are_answered_from_the_books() {
    let mut tm = TaskManager::new(&system());
    tm.repo.add(task("run", TaskStatus::Active));
    tm.repo.add(task("queue", TaskStatus::Waiting));
    tm.repo.add(task("hold", TaskStatus::Paused));
    tm.repo.add(task("done", TaskStatus::Complete));
    let user = object(vec![("theme", text("dark"))]);
    let ask = |c: Command| answer_query(&tm, &system(), &user, &c).expect("a query");
    assert_eq!(gids_of(&ask(Command::Active).unwrap()), ["run"]);
    assert_eq!(
        gids_of(&ask(Command::Stopped { offset: 0, num: 50 }).unwrap()),
        ["done"]
    );
    let status = ask(Command::Status { gid: "hold".to_string() }).unwrap();
    assert_eq!(status.get("status"), Some(&text("paused")));
    assert_eq!(
        ask(Command::Status { gid: "x".to_string() }),
        Err(RpcError::Other { code: 1, message: "gid 不存在: x".to_string() })
    );
    assert_eq!(ask(Command::GetUser).unwrap().get("theme"), Some(&text("dark")));
    assert_eq!(ask(Command::GlobalStat).unwrap().get("numActive"), Some(&text("1")));
    assert!(answer_query(&tm, &system(), &user, &Command::Purge).is_none());

    assert_eq!(gids_to_pause(&tm), ["run", "queue"]);
    assert_eq!(gids_to_resume(&tm), ["hold"]);
}

#[test]
fn options_are_texts() {
    let options = engine_options(&system());
    assert_eq!(options.get("dir"), Some(&text("/dl")));
    assert_eq!(options.get("max-concurrent-downloads"), Some(&text("5")));
    assert_eq!(options.get("continue"), Some(&text("true")));
}

#[test]
fn peers_are_listed() {
    assert_eq!(peers_json(&Vec::<PeerInfo>::new()), Json::Array(vec![]));
}

#[test]
fn outcomes_become_answers() {
    let gid = || "g".to_string();
    let failed = || Err("no".to_string());
    let refused = || Some(Err(RpcError::Other { code: 1, message: "no".to_string() }));
    let ok = || Some(Ok(text("OK")));
    assert_eq!(answer_change(&Command::Pause { gid: gid() }, Ok(vec![])), ok());
    assert_eq!(answer_change(&Command::Pause { gid: gid() }, failed()), refused());
    assert_eq!(answer_change(&Command::Resume { gid: gid() }, Ok(vec![])), ok());
    assert_eq!(answer_change(&Command::Remove { gid: gid() }, Ok(vec![])), Some(Ok(text("g"))));
    assert_eq!(answer_change(&Command::Remove { gid: gid() }, failed()), refused());
    assert_eq!(answer_change(&Command::PauseAll, failed()), ok());
    let add = Command::AddUri { uris: vec![], options: Json::Null };
    assert_eq!(
        answer_change(&add, Ok(vec!["a".to_string(), "b".to_string()])),
        Some(Ok(Json::Array(vec![text("a"), text("b")])))
    );
    assert_eq!(answer_change(&add, failed()), refused());
    let add = Command::AddTorrent { torrent: gid(), options: Json::Null };
    assert_eq!(answer_change(&add, Ok(vec![gid()])), Some(Ok(text("g"))));
    let save = Command::SaveUser { patch: vec![] };
    assert_eq!(answer_change(&save, Ok(vec![])), ok());
    assert_eq!(
        answer_change(&save, failed()),
        Some(Err(RpcError::Other { code: 1, message: "保存用户配置失败: no".to_string() }))
    );
    assert_eq!(answer_change(&Command::Version, Ok(vec![])), None);
    assert_eq!(
        gid_not_found("g"),
        RpcError::Other { code: 1, message: "gid 不存在: g".to_string() }
    );
}
