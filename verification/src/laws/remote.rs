//! The remote interface: what a call stands for, and what it is answered.

use vstd::prelude::*;

use crate::cli;
use crate::config::SystemConfig;
use crate::json::{self, Json, JsonView, Number};
use crate::manager::TaskManager;
use crate::repository::{self, GlobalStat, Group};
use crate::rpc::RpcError;
use crate::rpc_backend::{self, Command};
use crate::task::{TaskStatus, TaskView};

verus! {

/// Whether the parameter at place `i` is this count.
pub open spec fn is_count(params: &Vec<Json>, i: int, n: usize) -> bool {
    0 <= i < params@.len() && params@[i] == Json::Number(Number::Unsigned(n as u64))
}

/// Whether the parameter at place `i` is this text.
pub open spec fn is_text(params: &Vec<Json>, i: int, s: Seq<char>) -> bool {
    0 <= i < params@.len() && params@[i] is Text && params@[i]->Text_0@ == s
}

/// What parameters stand for, one by one.
proof fn lemma_params(params: &Vec<Json>)
    ensures
        params.deep_view().len() == params@.len(),
        forall|i: int|
            0 <= i < params@.len() ==> #[trigger] params.deep_view()[i] == params@[i]@,
{
}

/// Calls that take nothing stand for the same command whatever they carry.
pub proof fn law_calls_without_parameters(
    method: &str,
    params: &Vec<Json>,
    r: Result<Command, RpcError>,
)
    requires
        call_ensures(rpc_backend::route, (method, params), r),
    ensures
        method@ == "aria2.getVersion"@ ==> (r matches Ok(c) && c is Version),
        method@ == "aria2.getGlobalStat"@ ==> (r matches Ok(c) && c is GlobalStat),
        method@ == "aria2.tellActive"@ ==> (r matches Ok(c) && c is Active),
        method@ == "aria2.pauseAll"@ ==> (r matches Ok(c) && c is PauseAll),
        method@ == "aria2.forcePauseAll"@ ==> (r matches Ok(c) && c is PauseAll),
        method@ == "aria2.unpauseAll"@ ==> (r matches Ok(c) && c is ResumeAll),
        method@ == "aria2.getOption"@ ==> (r matches Ok(c) && c is Options),
        method@ == "aria2.getGlobalOption"@ ==> (r matches Ok(c) && c is Options),
        method@ == "aria2.saveSession"@ ==> (r matches Ok(c) && c is SaveSession),
        method@ == "aria2.purgeDownloadResult"@ ==> (r matches Ok(c) && c is Purge),
        method@ == "motrix.getUserConfig"@ ==> (r matches Ok(c) && c is GetUser),
{
    cli::lemma_marks();
}

/// A call about one task stands for the command about the task whose identifier is
/// its first parameter.
pub proof fn law_calls_name_their_task(
    method: &str,
    params: &Vec<Json>,
    gid: Seq<char>,
    r: Result<Command, RpcError>,
)
    requires
        is_text(params, 0, gid),
        call_ensures(rpc_backend::route, (method, params), r),
    ensures
        method@ == "aria2.tellStatus"@ ==> (r matches Ok(Command::Status { gid: g }) && g@ == gid),
        method@ == "aria2.pause"@ ==> (r matches Ok(Command::Pause { gid: g }) && g@ == gid),
        method@ == "aria2.forcePause"@ ==> (r matches Ok(Command::Pause { gid: g }) && g@ == gid),
        method@ == "aria2.unpause"@ ==> (r matches Ok(Command::Resume { gid: g }) && g@ == gid),
        method@ == "aria2.remove"@ ==> (r matches Ok(Command::Remove { gid: g }) && g@ == gid),
        method@ == "aria2.forceRemove"@ ==> (r matches Ok(Command::Remove { gid: g }) && g@ == gid),
        method@ == "aria2.getPeers"@ ==> (r matches Ok(Command::Peers { gid: g, .. }) && g@ == gid),
        method@ == "aria2.addTorrent"@ ==> (r matches Ok(Command::AddTorrent { torrent, .. })
            && torrent@ == gid),
        method@ == "aria2.changeOption"@ && params@.len() > 1 ==> (r matches Ok(
            Command::ChangeTask { gid: g, options },
        ) && g@ == gid && options@ == params@[1]@),
{
    cli::lemma_marks();
    lemma_params(params);
    assert(params.deep_view()[0] == JsonView::Text(gid));
}

/// A call about one task that names none is refused, and changes nothing.
pub proof fn law_calls_need_their_task(
    method: &str,
    params: &Vec<Json>,
    r: Result<Command, RpcError>,
)
    requires
        params@.len() == 0 || !(params@[0] is Text),
        ({
            ||| method@ == "aria2.tellStatus"@
            ||| method@ == "aria2.pause"@
            ||| method@ == "aria2.forcePause"@
            ||| method@ == "aria2.unpause"@
            ||| method@ == "aria2.remove"@
            ||| method@ == "aria2.forceRemove"@
            ||| method@ == "aria2.getPeers"@
            ||| method@ == "aria2.changeOption"@
        }),
        call_ensures(rpc_backend::route, (method, params), r),
    ensures
        r matches Err(RpcError::InvalidParams(m)) && m@ == method@ + " 需要 gid 参数"@,
{
    cli::lemma_marks();
    lemma_params(params);
    if params@.len() > 0 {
        assert(params.deep_view()[0] == params@[0]@);
    }
}

/// A call for a list asks for the part of it that its parameters give: from the place
/// that is the first on, and as many as the second says.
pub proof fn law_pages_are_asked_for(
    method: &str,
    params: &Vec<Json>,
    from: usize,
    num: usize,
    r: Result<Command, RpcError>,
)
    requires
        is_count(params, 0, from),
        is_count(params, 1, num),
        call_ensures(rpc_backend::route, (method, params), r),
    ensures
        method@ == "aria2.tellWaiting"@ ==> r == Ok::<Command, RpcError>(
            Command::Waiting { offset: from, num },
        ),
        method@ == "aria2.tellStopped"@ ==> r == Ok::<Command, RpcError>(
            Command::Stopped { offset: from, num },
        ),
{
    cli::lemma_marks();
    lemma_params(params);
    assert(params.deep_view()[0] == params@[0]@);
    assert(params.deep_view()[1] == params@[1]@);
}

/// A call for a list that does not say asks for the first fifty.
pub proof fn law_first_page_by_default(
    method: &str,
    params: &Vec<Json>,
    r: Result<Command, RpcError>,
)
    requires
        params@.len() == 0,
        call_ensures(rpc_backend::route, (method, params), r),
    ensures
        method@ == "aria2.tellWaiting"@ ==> r == Ok::<Command, RpcError>(
            Command::Waiting { offset: 0, num: 50 },
        ),
        method@ == "aria2.tellStopped"@ ==> r == Ok::<Command, RpcError>(
            Command::Stopped { offset: 0, num: 50 },
        ),
{
    cli::lemma_marks();
    lemma_params(params);
}

/// A call for the peers of a task asks for as many as its second parameter says, or
/// for a hundred.
pub proof fn law_peers_are_asked_for(
    method: &str,
    params: &Vec<Json>,
    gid: Seq<char>,
    num: usize,
    r: Result<Command, RpcError>,
)
    requires
        method@ == "aria2.getPeers"@,
        is_text(params, 0, gid),
        call_ensures(rpc_backend::route, (method, params), r),
    ensures
        is_count(params, 1, num) ==> (r matches Ok(Command::Peers { limit, .. }) && limit == num),
        params@.len() == 1 ==> (r matches Ok(Command::Peers { limit, .. }) && limit == 100),
{
    cli::lemma_marks();
    lemma_params(params);
    assert(params.deep_view()[0] == JsonView::Text(gid));
    if params@.len() > 1 {
        assert(params.deep_view()[1] == params@[1]@);
    }
}

/// Texts in a list, all of them and in their order.
proof fn lemma_all_texts(items: Seq<JsonView>, texts: Seq<Seq<char>>)
    requires
        items.len() == texts.len(),
        forall|i: int|
            0 <= i < items.len() ==> #[trigger] items[i] == JsonView::Text(texts[i]),
    ensures
        crate::options::texts_in(items) == texts,
    decreases items.len(),
{
    if items.len() > 0 {
        let less = items.drop_last();
        let fewer = texts.drop_last();
        assert forall|i: int| 0 <= i < less.len() implies #[trigger] less[i] == JsonView::Text(
            fewer[i],
        ) by {
            assert(less[i] == items[i]);
        }
        lemma_all_texts(less, fewer);
        assert(items.last() == JsonView::Text(texts.last()));
        assert(crate::options::texts_in(items) =~= texts);
    } else {
        assert(crate::options::texts_in(items) =~= texts);
    }
}

/// A call that adds sources adds those that it lists, all of them and in their order,
/// with the options that follow the list.
pub proof fn law_sources_are_taken_over(
    method: &str,
    params: &Vec<Json>,
    items: Vec<Json>,
    r: Result<Command, RpcError>,
)
    requires
        method@ == "aria2.addUri"@,
        params@.len() > 0,
        params@[0] == Json::Array(items),
        forall|i: int| 0 <= i < items@.len() ==> (#[trigger] items@[i]) is Text,
        call_ensures(rpc_backend::route, (method, params), r),
    ensures
        r matches Ok(Command::AddUri { uris, options }) && {
            &&& uris@.len() == items@.len()
            &&& forall|i: int|
                0 <= i < items@.len() ==> (#[trigger] uris@[i])@ == items@[i]->Text_0@
            &&& params@.len() > 1 ==> options@ == params@[1]@
            &&& params@.len() == 1 ==> options@ is Null
        },
{
    cli::lemma_marks();
    lemma_params(params);
    json::lemma_array_view(items);
    assert(params.deep_view()[0] == JsonView::Array(items.deep_view()));
    let texts = Seq::new(items@.len(), |i: int| items@[i]->Text_0@);
    assert forall|i: int| 0 <= i < items@.len() implies #[trigger] items.deep_view()[i]
        == JsonView::Text(texts[i]) by {
        assert(items@[i] is Text);
        assert(items.deep_view()[i] == items@[i]@);
    }
    lemma_all_texts(items.deep_view(), texts);
    if params@.len() > 1 {
        assert(params.deep_view()[1] == params@[1]@);
    }
    match r {
        Ok(Command::AddUri { uris, options }) => {
            assert(uris.deep_view() == texts);
            assert forall|i: int| 0 <= i < items@.len() implies (#[trigger] uris@[i])@
                == items@[i]->Text_0@ by {
                assert(uris.deep_view()[i] == uris@[i]@);
            }
        },
        _ => {},
    }
}

/// A torrent is added with the options that follow it, if any do.
pub proof fn law_torrents_carry_their_options(
    method: &str,
    params: &Vec<Json>,
    torrent: Seq<char>,
    r: Result<Command, RpcError>,
)
    requires
        method@ == "aria2.addTorrent"@,
        is_text(params, 0, torrent),
        call_ensures(rpc_backend::route, (method, params), r),
    ensures
        r matches Ok(Command::AddTorrent { torrent: t, options }) && {
            &&& t@ == torrent
            &&& params@.len() > 1 ==> options@ == params@[1]@
            &&& params@.len() == 1 ==> options@ is Null
        },
{
    cli::lemma_marks();
    lemma_params(params);
    assert(params.deep_view()[0] == JsonView::Text(torrent));
    if params@.len() > 1 {
        assert(params.deep_view()[1] == params@[1]@);
    }
}

/// A change of the settings carries what is to be changed, and one without anything
/// is refused.
pub proof fn law_changes_carry_what_changes(
    method: &str,
    params: &Vec<Json>,
    r: Result<Command, RpcError>,
)
    requires
        call_ensures(rpc_backend::route, (method, params), r),
    ensures
        method@ == "aria2.changeGlobalOption"@ && params@.len() > 0 ==> (r matches Ok(
            Command::ChangeGlobal { options },
        ) && options@ == params@[0]@),
        method@ == "aria2.changeGlobalOption"@ && params@.len() == 0 ==> r is Err,
        method@ == "motrix.saveUserConfig"@ && params@.len() > 0 && params@[0] is Object ==> (r
            matches Ok(Command::SaveUser { patch }) && JsonView::Object(patch.deep_view())
            == params@[0]@),
        method@ == "motrix.saveUserConfig"@ && (params@.len() == 0 || !(params@[0] is Object))
            ==> r is Err,
        method@ == "aria2.addUri"@ && (params@.len() == 0 || !(params@[0] is Array)) ==> r is Err,
        method@ == "aria2.addTorrent"@ && (params@.len() == 0 || !(params@[0] is Text)) ==> r is Err,
        method@ == "aria2.changeOption"@ && params@.len() < 2 ==> r is Err,
        method@ == "aria2.addMetalink"@ ==> r is Err,
{
    cli::lemma_marks();
    lemma_params(params);
    if params@.len() > 0 {
        assert(params.deep_view()[0] == params@[0]@);
    }
    if params@.len() > 1 {
        assert(params.deep_view()[1] == params@[1]@);
    }
}

/// The tasks in this state, in the order in which they came.
pub open spec fn in_state(tasks: Seq<(Seq<char>, TaskView)>, status: TaskStatus) -> Seq<TaskView> {
    tasks.filter(|t: (Seq<char>, TaskView)| t.1.status == status).map_values(
        |t: (Seq<char>, TaskView)| t.1,
    )
}

/// The tasks that have come to an end, in the order in which they came.
pub open spec fn ended(tasks: Seq<(Seq<char>, TaskView)>) -> Seq<TaskView> {
    tasks.filter(
        |t: (Seq<char>, TaskView)|
            t.1.status == TaskStatus::Complete || t.1.status == TaskStatus::Error || t.1.status
                == TaskStatus::Removed,
    ).map_values(|t: (Seq<char>, TaskView)| t.1)
}

/// The running tasks are those in the state `Active`, the queued ones those in the
/// state `Waiting`, and the stopped ones those that are complete, failed or removed,
/// each list in the order in which the tasks came.
pub proof fn law_lists_go_by_state(tasks: Seq<(Seq<char>, TaskView)>)
    ensures
        repository::members(tasks, Group::Active) == in_state(tasks, TaskStatus::Active),
        repository::members(tasks, Group::Waiting) == in_state(tasks, TaskStatus::Waiting),
        repository::members(tasks, Group::Stopped) == ended(tasks),
        repository::members(tasks, Group::All) == tasks.map_values(
            |t: (Seq<char>, TaskView)| t.1,
        ),
    decreases tasks.len(),
{
    reveal(Seq::filter);
    if tasks.len() > 0 {
        law_lists_go_by_state(tasks.drop_last());
    }
    assert(repository::members(tasks, Group::Active) =~= in_state(tasks, TaskStatus::Active));
    assert(repository::members(tasks, Group::Waiting) =~= in_state(tasks, TaskStatus::Waiting));
    assert(repository::members(tasks, Group::Stopped) =~= ended(tasks));
    assert(repository::members(tasks, Group::All) =~= tasks.map_values(
        |t: (Seq<char>, TaskView)| t.1,
    ));
}

/// Whether `answer` lists the tasks `tasks` from place `from` on, `num` of them at
/// most.
pub open spec fn lists(answer: Json, tasks: Seq<TaskView>, from: int, num: int) -> bool {
    let n = if from >= tasks.len() {
        0
    } else if tasks.len() - from < num {
        tasks.len() - from
    } else {
        num
    };
    &&& answer is Array
    &&& answer->Array_0@.len() == n
    &&& forall|i: int|
        0 <= i < n ==> (#[trigger] answer->Array_0@[i])@ == tasks[from + i].aria2()
}

/// A page of tasks holds those from its place on, as many as it may.
proof fn lemma_lists(answer: Json, tasks: Seq<TaskView>, from: int, num: int)
    requires
        0 <= from,
        0 <= num,
        answer@ == rpc_backend::tasks_view(rpc_backend::page(tasks, from, num)),
    ensures
        lists(answer, tasks, from, num),
{
    match answer {
        Json::Array(items) => {
            json::lemma_array_view(items);
            let page = rpc_backend::page(tasks, from, num);
            assert(items.deep_view().len() == page.len());
            assert forall|i: int| 0 <= i < page.len() implies (#[trigger] items@[i])@ == tasks[from
                + i].aria2() by {
                assert(items.deep_view()[i] == items@[i]@);
                assert(page[i] == tasks[from + i]);
            }
        },
        _ => {},
    }
}

/// The lists of tasks are answered with the tasks in the states that they are of, from
/// the place that was asked for on; and the task with an identifier with that task.
pub proof fn law_tasks_are_listed(
    m: &TaskManager,
    system: &SystemConfig,
    user: &Json,
    c: Command,
    r: Option<Result<Json, RpcError>>,
)
    requires
        m@.wf(),
        c !is GlobalStat,
        call_ensures(rpc_backend::answer_query, (m, system, user, &c), r),
    ensures
        c matches Command::Waiting { offset, num } ==> (r matches Some(Ok(a)) && lists(
            a,
            in_state(m@.repo.tasks, TaskStatus::Waiting),
            offset as int,
            num as int,
        )),
        c matches Command::Stopped { offset, num } ==> (r matches Some(Ok(a)) && lists(
            a,
            ended(m@.repo.tasks) + m@.repo.removed,
            offset as int,
            num as int,
        )),
        c is Active ==> (r matches Some(Ok(a)) && lists(
            a,
            in_state(m@.repo.tasks, TaskStatus::Active),
            0,
            in_state(m@.repo.tasks, TaskStatus::Active).len() as int,
        )),
        c matches Command::Status { gid } ==> {
            &&& m@.repo.task(gid@) matches Some(t) ==> (r matches Some(Ok(a)) && a@ == t.aria2())
            &&& m@.repo.task(gid@) is None ==> (r matches Some(
                Err(RpcError::Other { code, message }),
            ) && code == 1 && message@ == "gid 不存在: "@ + gid@)
        },
        c is SaveSession ==> (r matches Some(Ok(a)) && a@ == JsonView::Text("OK"@)),
        c is GetUser ==> (r matches Some(Ok(a)) && a@ == user@),
{
    law_lists_go_by_state(m@.repo.tasks);
    let tasks = m@.repo.tasks;
    match c {
        Command::Waiting { offset, num } => {
            lemma_lists(
                r->0->Ok_0,
                in_state(tasks, TaskStatus::Waiting),
                offset as int,
                num as int,
            );
        },
        Command::Stopped { offset, num } => {
            lemma_lists(
                r->0->Ok_0,
                ended(tasks) + m@.repo.removed,
                offset as int,
                num as int,
            );
        },
        Command::Active => {
            let list = in_state(tasks, TaskStatus::Active);
            assert(rpc_backend::page(list, 0, list.len() as int) =~= list);
            lemma_lists(r->0->Ok_0, list, 0, list.len() as int);
        },
        _ => {},
    }
}

/// The call `aria2.tellWaiting` with the parameters `[a, b]` is answered with the
/// queued tasks from place `a` on, `b` of them at most, in the order in which they
/// came.
pub proof fn law_queued_tasks_are_paged(
    method: &str,
    params: &Vec<Json>,
    a: usize,
    b: usize,
    c: Command,
    m: &TaskManager,
    system: &SystemConfig,
    user: &Json,
    r: Option<Result<Json, RpcError>>,
)
    requires
        method@ == "aria2.tellWaiting"@,
        is_count(params, 0, a),
        is_count(params, 1, b),
        m@.wf(),
        call_ensures(rpc_backend::route, (method, params), Ok(c)),
        call_ensures(rpc_backend::answer_query, (m, system, user, &c), r),
    ensures
        r matches Some(Ok(answer)) && lists(
            answer,
            in_state(m@.repo.tasks, TaskStatus::Waiting),
            a as int,
            b as int,
        ),
{
    law_pages_are_asked_for(method, params, a, b, Ok(c));
    law_tasks_are_listed(m, system, user, c, r);
}

/// The pages `[a, b]` and `[a + b, c]` of the queued tasks together are the page
/// `[a, b + c]`: no task is left out between them, and none is in both.
pub proof fn law_pages_follow_each_other(
    m: &TaskManager,
    system: &SystemConfig,
    user: &Json,
    a: usize,
    b: usize,
    c: usize,
    next: usize,
    both: usize,
    first: Json,
    second: Json,
    whole: Json,
)
    requires
        m@.wf(),
        next == a + b,
        both == b + c,
        call_ensures(
            rpc_backend::answer_query,
            (m, system, user, &Command::Waiting { offset: a, num: b }),
            Some(Ok(first)),
        ),
        call_ensures(
            rpc_backend::answer_query,
            (m, system, user, &Command::Waiting { offset: next, num: c }),
            Some(Ok(second)),
        ),
        call_ensures(
            rpc_backend::answer_query,
            (m, system, user, &Command::Waiting { offset: a, num: both }),
            Some(Ok(whole)),
        ),
    ensures
        first is Array && second is Array && whole is Array,
        whole@->Array_0 == first@->Array_0 + second@->Array_0,
{
    law_tasks_are_listed(m, system, user, Command::Waiting { offset: a, num: b }, Some(Ok(first)));
    law_tasks_are_listed(
        m,
        system,
        user,
        Command::Waiting { offset: next, num: c },
        Some(Ok(second)),
    );
    law_tasks_are_listed(
        m,
        system,
        user,
        Command::Waiting { offset: a, num: both },
        Some(Ok(whole)),
    );
    let x = first->Array_0;
    let y = second->Array_0;
    let z = whole->Array_0;
    json::lemma_array_view(x);
    json::lemma_array_view(y);
    json::lemma_array_view(z);
    let tasks = in_state(m@.repo.tasks, TaskStatus::Waiting);
    assert(z@.len() == x@.len() + y@.len());
    assert forall|i: int| 0 <= i < z@.len() implies z.deep_view()[i] == (x.deep_view()
        + y.deep_view())[i] by {
        assert(z.deep_view()[i] == z@[i]@);
        assert(z@[i]@ == tasks[a + i].aria2());
        if i < x@.len() {
            assert(x.deep_view()[i] == x@[i]@);
        } else {
            assert(y.deep_view()[i - x@.len()] == y@[i - x@.len()]@);
        }
    }
    assert(z.deep_view() =~= x.deep_view() + y.deep_view());
}

} // verus!
