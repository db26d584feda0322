//! The command line: which calls commands make, and how answers and errors are put into
//! words.

use vstd::arithmetic::power2::*;
use vstd::prelude::*;

use crate::cli::{self, CliCommand, OutputMode, RpcCall, Shown, TorrentArg};
use crate::digits;
use crate::double::{self, Double};
use crate::json::{self, Json, JsonView, Number};
use crate::laws::answers;
use crate::rpc::ClientError;

verus! {

/// Whether a plan is one call of this method.
pub open spec fn one_call(r: Result<Vec<RpcCall>, String>, method: Seq<char>, params: int) -> bool {
    r matches Ok(calls) && calls@.len() == 1 && calls@[0].method@ == method
        && calls@[0].params@.len() == params
}

/// Whether the parameter at `i` of the only call is the text `s`.
pub open spec fn names(r: Result<Vec<RpcCall>, String>, i: int, s: Seq<char>) -> bool {
    r matches Ok(calls) && calls@[0].params@[i] matches Json::Text(t) && t@ == s
}

/// Whether the parameter at `i` of the only call is the number `n`.
pub open spec fn counts(r: Result<Vec<RpcCall>, String>, i: int, n: u64) -> bool {
    r matches Ok(calls) && calls@[0].params@[i] == Json::Number(Number::Unsigned(n))
}

proof fn lemma_one_call(r: Result<Vec<RpcCall>, String>, method: Seq<char>, params: Seq<JsonView>)
    requires
        cli::makes(r, Ok(cli::one_call(method, params))),
    ensures
        one_call(r, method, params.len() as int),
        forall|i: int|
            0 <= i < params.len() ==> (#[trigger] r->Ok_0@[0].params@[i])@ == params[i],
{
    let calls = r->Ok_0;
    let view = calls.deep_view();
    assert(view.len() == calls@.len());
    assert(view[0] == calls@[0].deep_view());
    let given = calls@[0].params;
    assert(given.deep_view().len() == given@.len());
    assert forall|i: int| 0 <= i < params.len() implies (#[trigger] given@[i])@ == params[i] by {
        assert(given.deep_view()[i] == given@[i]@);
    }
}

/// Commands without arguments make one call each, without parameters.
pub proof fn law_plain_commands_make_one_call(
    c: &CliCommand,
    secret: &str,
    r: Result<Vec<RpcCall>, String>,
)
    requires
        call_ensures(cli::plan_calls, (c, secret), r),
    ensures
        *c is PauseAll ==> one_call(r, "aria2.pauseAll"@, 0),
        *c is ResumeAll ==> one_call(r, "aria2.unpauseAll"@, 0),
        *c is Purge ==> one_call(r, "aria2.purgeDownloadResult"@, 0),
        *c is ConfigGet ==> one_call(r, "aria2.getGlobalOption"@, 0),
{
    if *c is PauseAll {
        lemma_one_call(r, "aria2.pauseAll"@, seq![]);
    }
    if *c is ResumeAll {
        lemma_one_call(r, "aria2.unpauseAll"@, seq![]);
    }
    if *c is Purge {
        lemma_one_call(r, "aria2.purgeDownloadResult"@, seq![]);
    }
    if *c is ConfigGet {
        lemma_one_call(r, "aria2.getGlobalOption"@, seq![]);
    }
}

/// Adding a download hands on its sources in their order, and of the options those that
/// were given.
pub proof fn law_adding_hands_on_sources_and_options(
    c: &CliCommand,
    secret: &str,
    r: Result<Vec<RpcCall>, String>,
    urls: Vec<String>,
    dir: Option<String>,
    connections: Option<u32>,
    limit: Option<String>,
    i: int,
)
    requires
        *c == (CliCommand::Add { urls, dir, connections, limit }),
        call_ensures(cli::plan_calls, (c, secret), r),
    ensures
        one_call(r, "aria2.addUri"@, 2),
        r->Ok_0@[0].params@[0] matches Json::Array(list) && list@.len() == urls@.len() && (0 <= i
            < urls@.len() ==> (list@[i] matches Json::Text(s) && s@ == urls@[i]@)),
        dir matches Some(d) ==> answers::tells(
            r->Ok_0@[0].params@[1]@,
            "dir"@,
            JsonView::Text(d@),
        ),
        connections matches Some(n) ==> answers::tells(
            r->Ok_0@[0].params@[1]@,
            "max-connection-per-server"@,
            JsonView::Text(digits::dec(n as nat)),
        ),
        limit matches Some(l) ==> answers::tells(
            r->Ok_0@[0].params@[1]@,
            "max-download-limit"@,
            JsonView::Text(l@),
        ),
        dir is None && connections is None && limit is None ==> r->Ok_0@[0].params@[1]@
            == JsonView::Object(seq![]),
{
    let options = cli::add_options(dir.deep_view(), connections, limit.deep_view());
    lemma_one_call(
        r,
        "aria2.addUri"@,
        seq![crate::task::text_list(urls.deep_view()), JsonView::Object(options)],
    );
    let first = r->Ok_0@[0].params@[0];
    let second = r->Ok_0@[0].params@[1];
    assert(second@ == JsonView::Object(options));
    assert(first@ == crate::task::text_list(urls.deep_view()));
    let list = first->Array_0;
    json::lemma_array_view(list);
    assert(list.deep_view().len() == list@.len());
    if 0 <= i < urls@.len() {
        assert(urls.deep_view()[i] == urls@[i]@);
        assert(list.deep_view()[i] == list@[i]@);
    }
    let a: int = if dir is Some {
        1
    } else {
        0
    };
    let b: int = a + if connections is Some {
        1int
    } else {
        0
    };
    if dir is Some {
        assert(options[0] == ("dir"@, JsonView::Text(dir->0@)));
    }
    if connections is Some {
        assert(options[a] == (
            "max-connection-per-server"@,
            JsonView::Text(digits::dec(connections->0 as nat)),
        ));
    }
    if limit is Some {
        assert(options[b] == ("max-download-limit"@, JsonView::Text(limit->0@)));
    }
    if dir is None && connections is None && limit is None {
        assert(options =~= seq![]);
    }
}

/// Commands on one thing hand that on: a torrent, a task, or a list.
pub proof fn law_commands_hand_on_what_they_name(
    c: &CliCommand,
    secret: &str,
    r: Result<Vec<RpcCall>, String>,
)
    requires
        call_ensures(cli::plan_calls, (c, secret), r),
    ensures
        *c matches CliCommand::AddTorrent { payload } ==> one_call(r, "aria2.addTorrent"@, 1)
            && names(r, 0, payload@),
        *c matches CliCommand::Status { gid } ==> one_call(r, "aria2.tellStatus"@, 1) && names(
            r,
            0,
            gid@,
        ),
        *c matches CliCommand::List { kind } ==> {
            &&& kind@ == "active"@ ==> one_call(r, "aria2.tellActive"@, 0)
            &&& kind@ == "waiting"@ ==> one_call(r, "aria2.tellWaiting"@, 2) && counts(r, 0, 0)
                && counts(r, 1, 100)
            &&& kind@ == "stopped"@ ==> one_call(r, "aria2.tellStopped"@, 2) && counts(r, 0, 0)
                && counts(r, 1, 100)
            &&& kind@ != "active"@ && kind@ != "waiting"@ && kind@ != "stopped"@ ==> r is Err
        },
{
    reveal_strlit("active");
    reveal_strlit("waiting");
    reveal_strlit("stopped");
    assert("active"@[0] == 'a' && "waiting"@[0] == 'w' && "stopped"@[0] == 's');
    if *c is AddTorrent {
        lemma_one_call(r, "aria2.addTorrent"@, seq![JsonView::Text(c->payload@)]);
        assert(r->Ok_0@[0].params@[0]@ == JsonView::Text(c->payload@));
    }
    if *c is Status {
        lemma_one_call(r, "aria2.tellStatus"@, seq![JsonView::Text(c->gid@)]);
        assert(r->Ok_0@[0].params@[0]@ == JsonView::Text(c->gid@));
    }
    if *c is List {
        let page = seq![cli::count(0), cli::count(100)];
        if c->kind@ == "active"@ {
            lemma_one_call(r, "aria2.tellActive"@, seq![]);
        } else if c->kind@ == "waiting"@ {
            lemma_one_call(r, "aria2.tellWaiting"@, page);
            assert(r->Ok_0@[0].params@[0]@ == page[0]);
            assert(r->Ok_0@[0].params@[1]@ == page[1]);
        } else if c->kind@ == "stopped"@ {
            lemma_one_call(r, "aria2.tellStopped"@, page);
            assert(r->Ok_0@[0].params@[0]@ == page[0]);
            assert(r->Ok_0@[0].params@[1]@ == page[1]);
        }
    }
}

/// Whether a plan is one call of this method for each task, in their order.
pub open spec fn call_for_each(
    r: Result<Vec<RpcCall>, String>,
    method: Seq<char>,
    gids: Vec<String>,
    i: int,
) -> bool {
    &&& gids@.len() == 0 ==> r is Err
    &&& gids@.len() > 0 ==> r is Ok && r->Ok_0@.len() == gids@.len()
    &&& 0 <= i < gids@.len() ==> r->Ok_0@[i].method@ == method && r->Ok_0@[i].params@.len() == 1 && (
    r->Ok_0@[i].params@[0] matches Json::Text(t) && t@ == gids@[i]@)
}

/// Commands on several tasks make one call for each of them, in their order; without a
/// task they are refused.
pub proof fn law_commands_go_to_every_task(
    c: &CliCommand,
    secret: &str,
    r: Result<Vec<RpcCall>, String>,
    i: int,
)
    requires
        call_ensures(cli::plan_calls, (c, secret), r),
    ensures
        *c matches CliCommand::Pause { gids } ==> call_for_each(r, "aria2.pause"@, gids, i),
        *c matches CliCommand::Resume { gids } ==> call_for_each(r, "aria2.unpause"@, gids, i),
        *c matches CliCommand::Remove { gids, force } ==> {
            &&& force ==> call_for_each(r, "aria2.forceRemove"@, gids, i)
            &&& !force ==> call_for_each(r, "aria2.remove"@, gids, i)
        },
{
    match *c {
        CliCommand::Pause { gids } => {
            lemma_call_for_each(r, "aria2.pause"@, gids, i);
        },
        CliCommand::Resume { gids } => {
            lemma_call_for_each(r, "aria2.unpause"@, gids, i);
        },
        CliCommand::Remove { gids, force } => {
            let method = if force {
                "aria2.forceRemove"@
            } else {
                "aria2.remove"@
            };
            lemma_call_for_each(r, method, gids, i);
        },
        _ => {},
    }
}

proof fn lemma_call_for_each(
    r: Result<Vec<RpcCall>, String>,
    method: Seq<char>,
    gids: Vec<String>,
    i: int,
)
    requires
        cli::makes(r, cli::calls_for(method, gids.deep_view())),
    ensures
        call_for_each(r, method, gids, i),
{
    assert(gids.deep_view().len() == gids@.len());
    if gids@.len() > 0 {
        let calls = r->Ok_0;
        assert(calls.deep_view().len() == calls@.len());
        if 0 <= i < gids@.len() {
            assert(gids.deep_view()[i] == gids@[i]@);
            assert(calls.deep_view()[i] == calls@[i].deep_view());
            let params = calls@[i].params;
            assert(params.deep_view().len() == params@.len());
            assert(params.deep_view()[0] == params@[0]@);
        }
    }
}

/// A setting of the user is saved among the user's, one of the system is changed in the
/// engine, and any other is refused.
pub proof fn law_settings_go_to_their_owner(
    c: &CliCommand,
    secret: &str,
    r: Result<Vec<RpcCall>, String>,
    key: String,
    value: String,
    i: int,
)
    requires
        *c == (CliCommand::ConfigSet { key, value }),
        call_ensures(cli::plan_calls, (c, secret), r),
    ensures
        0 <= i < cli::USER_KEYS@.len() && cli::USER_KEYS@[i]@ == key@ ==> one_call(
            r,
            "motrix.saveUserConfig"@,
            1,
        ) && r->Ok_0@[0].params@[0]@ == JsonView::Object(seq![(key@, JsonView::Text(value@))]),
        (forall|j: int|
            0 <= j < cli::USER_KEYS@.len() ==> (#[trigger] cli::USER_KEYS@[j])@ != key@) && 0 <= i
            < cli::SYSTEM_KEYS@.len() && cli::SYSTEM_KEYS@[i]@ == key@ ==> one_call(
            r,
            "aria2.changeGlobalOption"@,
            1,
        ) && r->Ok_0@[0].params@[0]@ == JsonView::Object(seq![(key@, JsonView::Text(value@))]),
        (forall|j: int|
            0 <= j < cli::USER_KEYS@.len() ==> (#[trigger] cli::USER_KEYS@[j])@ != key@) && (forall|
            j: int,
        |
            0 <= j < cli::SYSTEM_KEYS@.len() ==> (#[trigger] cli::SYSTEM_KEYS@[j])@ != key@)
            ==> r is Err,
{
    let patch = JsonView::Object(seq![(key@, JsonView::Text(value@))]);
    if cli::listed(cli::USER_KEYS@, key@) {
        lemma_one_call(r, "motrix.saveUserConfig"@, seq![patch]);
        assert(r->Ok_0@[0].params@[0]@ == seq![patch][0]);
    } else if cli::listed(cli::SYSTEM_KEYS@, key@) {
        lemma_one_call(r, "aria2.changeGlobalOption"@, seq![patch]);
        assert(r->Ok_0@[0].params@[0]@ == seq![patch][0]);
    }
}

/// The state of the engine is asked for in one batch of two calls: the version and the
/// figures.
pub proof fn law_the_state_is_asked_for_at_once(
    c: &CliCommand,
    secret: &str,
    r: Result<Vec<RpcCall>, String>,
)
    requires
        *c is EngineStatus,
        call_ensures(cli::plan_calls, (c, secret), r),
    ensures
        one_call(r, "system.multicall"@, 1),
        r->Ok_0@[0].params@[0]@ matches JsonView::Array(items) && items.len() == 2 && (
        items[0] matches JsonView::Array(a) && a[0] == JsonView::Text("aria2.getVersion"@)) && (
        items[1] matches JsonView::Array(b) && b[0] == JsonView::Text("aria2.getGlobalStat"@)),
{
    let batch = cli::status_batch(secret@);
    lemma_one_call(r, "system.multicall"@, seq![batch]);
    assert(r->Ok_0@[0].params@[0]@ == seq![batch][0]);
}

/// The secret comes from the command line, or else from the environment, or else from the
/// settings.
pub proof fn law_where_the_secret_comes_from(
    arg: &Option<String>,
    env: &Option<String>,
    system: &Option<Json>,
    r: String,
    s: Seq<char>,
)
    requires
        call_ensures(cli::resolve_secret, (arg, env, system), r),
    ensures
        *arg matches Some(a) ==> r@ == a@,
        *arg is None && (*env matches Some(e) && e@.len() > 0) ==> r@ == (*env)->0@,
        *arg is None && (*env is None || (*env)->0@.len() == 0) && (*system matches Some(v)
            && v@.field("rpc-secret"@) == Some(JsonView::Text(s))) ==> r@ == s,
        *arg is None && (*env is None || (*env)->0@.len() == 0) && *system is None ==> r@.len()
            == 0,
{
}

/// A file is told by its ending, unless it is a magnet link; either way the argument is
/// handed on as it is.
pub proof fn law_torrents_are_told_by_their_ending(
    input: &str,
    r: TorrentArg,
    head: Seq<char>,
)
    requires
        call_ensures(cli::torrent_argument, (input,), r),
    ensures
        input@ == "magnet:"@ + head ==> (r matches TorrentArg::Payload(s) && s@ == input@),
        input@ == head + ".torrent"@ && !"magnet:"@.is_prefix_of(input@) ==> (
        r matches TorrentArg::File(s) && s@ == input@),
        r matches TorrentArg::Payload(s) ==> s@ == input@,
        r matches TorrentArg::File(s) ==> s@ == input@ && ".torrent"@.is_suffix_of(input@),
{
    if input@ == "magnet:"@ + head {
        assert(input@.take("magnet:"@.len() as int) =~= "magnet:"@);
    }
    if input@ == head + ".torrent"@ {
        assert(input@.skip(input@.len() - ".torrent"@.len()) =~= ".torrent"@);
    }
    if r is File {
        let n = input@.len() - ".torrent"@.len();
        assert(input@.skip(n) =~= input@.subrange(n, input@.len() as int));
    }
}

/// Silence comes before everything else, and JSON before words.
pub proof fn law_how_answers_are_put_out(quiet: bool, json: bool, r: OutputMode)
    requires
        call_ensures(cli::output_mode, (quiet, json), r),
    ensures
        quiet ==> r == OutputMode::Silent,
        !quiet && json ==> r == OutputMode::Json,
        !quiet && !json ==> r == OutputMode::Human,
{
}

/// The states in the words of the command line; a state without one stands for itself.
pub proof fn law_states_in_words(s: &str, r: String)
    requires
        call_ensures(cli::status_label, (s,), r),
    ensures
        s@ == "active"@ ==> r@ == "下载中"@,
        s@ == "waiting"@ ==> r@ == "等待中"@,
        s@ == "paused"@ ==> r@ == "已暂停"@,
        s@ == "error"@ ==> r@ == "出错"@,
        s@ == "complete"@ ==> r@ == "已完成"@,
        s@ == "removed"@ ==> r@ == "已移除"@,
        s@ == "seeding"@ ==> r@ == s@,
{
    reveal_strlit("active");
    reveal_strlit("waiting");
    reveal_strlit("paused");
    reveal_strlit("error");
    reveal_strlit("complete");
    reveal_strlit("removed");
    reveal_strlit("seeding");
    assert("complete"@[0] == 'c' && "paused"@[0] == 'p' && "error"@[0] == 'e' && "removed"@[0]
        == 'r' && "seeding"@[0] == 's' && "waiting"@[0] == 'w' && "active"@[0] == 'a');
}

/// Errors of a call come with advice where there is some: on the connection, or on the
/// secret.
pub proof fn law_errors_come_with_advice(e: &ClientError, r: String, m: String)
    requires
        call_ensures(cli::rpc_err, (e,), r),
        call_ensures(ClientError::message, (e,), m),
    ensures
        *e is Connection ==> r@ == m@
            + "（请确认 Motrix 后端已启动，且 --rpc-url 指向正确）"@,
        (*e matches ClientError::ServerError { code, .. } && code == 1) ==> r@ == m@
            + "（请检查 --rpc-secret / 环境变量 MOTRIX_RPC_SECRET / system.json 中的 rpc-secret）"@,
        (*e matches ClientError::ServerError { code, .. } && code != 1) ==> r@ == m@,
        *e is HttpStatus || *e is InvalidResponse || *e is MissingResult ==> r@ == m@,
{
}

/// What a failed command says: the error with its advice; of a setting of the user, that
/// the engine does not save it, where it does not.
pub proof fn law_what_a_failed_command_says(
    c: &CliCommand,
    e: &ClientError,
    r: String,
    advised: String,
    plain: String,
)
    requires
        call_ensures(cli::failure_text, (c, e), r),
        call_ensures(cli::rpc_err, (e,), advised),
        call_ensures(ClientError::message, (e,), plain),
    ensures
        !(*c is ConfigSet) ==> r@ == advised@,
        (*c matches CliCommand::ConfigSet { key, .. } && !cli::listed(cli::USER_KEYS@, key@))
            ==> r@ == advised@,
        (*c matches CliCommand::ConfigSet { key, .. } && cli::listed(cli::USER_KEYS@, key@)) && (
        *e matches ClientError::ServerError { code, .. } && code == -32601) ==> r@
            == "后端暂未实现 motrix.saveUserConfig（"@ + plain@ + "），用户配置写入将在后续阶段上线"@,
        (*c matches CliCommand::ConfigSet { key, .. } && cli::listed(cli::USER_KEYS@, key@)) && !(
        *e is ServerError) ==> r@ == plain@,
{
}

/// Whether a text reads `n` in a unit of so many bytes: with one decimal, rounded to the
/// nearest tenth.
pub open spec fn reads_as(s: Seq<char>, n: u64, unit: nat, name: Seq<char>) -> bool {
    exists|t: nat|
        s == #[trigger] cli::tenths_text(t) + " "@ + name && 2 * (t * unit - 10 * n) <= unit && 2 * (
        10 * n - t * unit) <= unit
}

proof fn lemma_nearest(num: nat, den: nat)
    requires
        den > 0,
    ensures
        2 * (double::round_even(num, den) * den - num) <= den,
        2 * (num - double::round_even(num, den) * den) <= den,
{
    let q = num / den;
    let rest = num % den;
    assert(num == q * den + rest) by (nonlinear_arith)
        requires
            q == num / den,
            rest == num % den,
            den > 0,
    ;
    assert((q + 1) * den == q * den + den) by (nonlinear_arith);
}

/// The unit for a size below the one that follows it.
proof fn lemma_unit(n: nat, last: int)
    requires
        3 <= last <= 4,
    ensures
        n < 0x400 ==> cli::unit_for(n, 1, 0, last) == (1nat, 0int),
        0x400 <= n < 0x10_0000 ==> cli::unit_for(n, 1, 0, last) == (0x400nat, 1int),
        0x10_0000 <= n < 0x4000_0000 ==> cli::unit_for(n, 1, 0, last) == (0x10_0000nat, 2int),
        0x4000_0000 <= n < 0x100_0000_0000 ==> cli::unit_for(n, 1, 0, last) == (0x4000_0000nat, 3int),
        0x100_0000_0000 <= n && last == 4 ==> cli::unit_for(n, 1, 0, last) == (
            0x100_0000_0000nat,
            4int,
        ),
        0x4000_0000 <= n && last == 3 ==> cli::unit_for(n, 1, 0, last) == (0x4000_0000nat, 3int),
{
    reveal_with_fuel(cli::unit_for, 6);
}

/// A size is given in the largest unit that it reaches, with one decimal, rounded to the
/// nearest.
pub proof fn law_sizes_are_given_in_their_unit(n: u64, r: String)
    requires
        call_ensures(cli::format_bytes, (n,), r),
        n < 0x20_0000_0000_0000,
    ensures
        n < 0x400 ==> reads_as(r@, n, 1, "B"@),
        0x400 <= n < 0x10_0000 ==> reads_as(r@, n, 0x400, "KiB"@),
        0x10_0000 <= n < 0x4000_0000 ==> reads_as(r@, n, 0x10_0000, "MiB"@),
        0x4000_0000 <= n < 0x100_0000_0000 ==> reads_as(r@, n, 0x4000_0000, "GiB"@),
        0x100_0000_0000 <= n ==> reads_as(r@, n, 0x100_0000_0000, "TiB"@),
{
    lemma_unit(n as nat, 4);
    let (unit, place) = cli::unit_for(n as nat, 1, 0, 4);
    lemma_nearest(10 * n as nat, unit);
    let t = double::round_even(10 * n as nat, unit);
    assert(r@ == cli::tenths_text(t) + " "@ + cli::SIZE_UNITS@[place]@);
    assert(reads_as(r@, n, unit, cli::SIZE_UNITS@[place]@));
}

/// A speed is given as a size is, each second; none is a dash.
pub proof fn law_speeds_are_given_in_their_unit(n: u64, r: String)
    requires
        call_ensures(cli::format_speed, (n,), r),
        n < 0x20_0000_0000_0000,
    ensures
        n == 0 ==> r@ == "-"@,
        0 < n < 0x400 ==> reads_as(r@, n, 1, "B/s"@),
        0x400 <= n < 0x10_0000 ==> reads_as(r@, n, 0x400, "KiB/s"@),
        0x10_0000 <= n < 0x4000_0000 ==> reads_as(r@, n, 0x10_0000, "MiB/s"@),
        0x4000_0000 <= n ==> reads_as(r@, n, 0x4000_0000, "GiB/s"@),
{
    if n > 0 {
        lemma_unit(n as nat, 3);
        let (unit, place) = cli::unit_for(n as nat, 1, 0, 3);
        lemma_nearest(10 * n as nat, unit);
        let t = double::round_even(10 * n as nat, unit);
        assert(r@ == cli::tenths_text(t) + " "@ + cli::SPEED_UNITS@[place]@);
        assert(reads_as(r@, n, unit, cli::SPEED_UNITS@[place]@));
    }
}

/// A share that is a whole number of tenths of a percent is given as that number; nothing
/// is zero, and everything a hundred percent.
pub proof fn law_percents_are_given_in_tenths(
    done: u64,
    total: u64,
    t: nat,
    r: String,
    d: Double,
)
    requires
        call_ensures(cli::format_percent, (done, total), r),
        0 < total && 100 * total < 0x20_0000_0000_0000,
        done <= total,
        1000 * done == t * total,
        done > 0 ==> call_ensures(
            double::quotient,
            ((100 * done) as u128, total as u128),
            d,
        ),
    ensures
        r@ == digits::dec(t / 10) + "."@ + digits::dec(t % 10) + "%"@,
        done == 0 ==> t == 0,
        done == total ==> t == 1000,
{
    let b = total as nat;
    let a = (100 * done) as nat;
    if done == 0 {
        assert(t == 0) by (nonlinear_arith)
            requires
                t * b == 0,
                b > 0,
        ;
    } else {
        if done == total {
            assert(t == 1000) by (nonlinear_arith)
                requires
                    t * b == 1000 * b,
                    b > 0,
            ;
        }
        let k = d.k as int;
        double::lemma_scale_unique(a, b, k, double::scale(a, b));
        assert(a <= 100 * b);
        if k < 0 {
            lemma_pow2_pos((-k) as nat);
            let p = pow2((-k) as nat);
            assert(false) by (nonlinear_arith)
                requires
                    0x10_0000_0000_0000 * (b * p) <= a,
                    a <= 100 * b,
                    b > 0,
                    p > 0,
            ;
        }
        let p = pow2(k as nat);
        assert(p > 10) by (nonlinear_arith)
            requires
                0x10_0000_0000_0000 * b <= a * p,
                a <= 100 * b,
                b > 0,
        ;
        let m = double::mantissa(a, b, k);
        lemma_nearest(a * p, b);
        assert(10 * a == t * b);
        assert(10 * m - t * p <= 5 && t * p - 10 * m <= 5) by (nonlinear_arith)
            requires
                2 * (m * b - a * p) <= b,
                2 * (a * p - m * b) <= b,
                10 * a == t * b,
                b > 0,
        ;
        lemma_rounds_to(10 * m, p, t);
    }
}

/// A number that is less than half a step away from a multiple is rounded to it.
proof fn lemma_rounds_to(num: nat, den: nat, t: nat)
    requires
        den > 10,
        num - t * den <= 5,
        t * den - num <= 5,
    ensures
        double::round_even(num, den) == t,
{
    let q = num / den;
    let rest = num % den;
    assert(num == q * den + rest) by (nonlinear_arith)
        requires
            q == num / den,
            rest == num % den,
            den > 0,
    ;
    assert(q == t || q + 1 == t) by (nonlinear_arith)
        requires
            num == q * den + rest,
            0 <= rest < den,
            den > 10,
            num - t * den <= 5,
            t * den - num <= 5,
    ;
    if q == t {
        assert(rest <= 5);
    } else {
        assert((q + 1) * den == q * den + den) by (nonlinear_arith);
        assert(den - rest <= 5);
    }
}

/// The table of tasks says so where there are none; each further task is a further row,
/// and a row holds identifier, state, share and speed in their columns.
pub proof fn law_the_table_has_a_row_for_each_task(
    tasks: &Json,
    longer: &Json,
    items: Vec<Json>,
    more: Vec<Json>,
    t: Json,
    a: String,
    b: String,
)
    requires
        *tasks == Json::Array(items),
        *longer == Json::Array(more),
        more@ == items@.push(t),
        call_ensures(cli::format_task_table, (tasks,), a),
        call_ensures(cli::format_task_table, (longer,), b),
    ensures
        items@.len() == 0 ==> a@ == "（无任务）"@,
        items@.len() > 0 ==> b@ == a@ + "\n"@ + cli::task_row(t@),
        items@.len() == 0 ==> cli::task_row(t@).is_suffix_of(b@),
{
    json::lemma_array_view(items);
    json::lemma_array_view(more);
    let x = items.deep_view();
    let y = more.deep_view();
    assert(y =~= x.push(t@));
    let rows = cli::task_rows(y);
    assert(rows.drop_last() =~= cli::task_rows(x));
    assert(rows.last() == cli::task_row(t@));
    if items@.len() == 0 {
        assert(cli::joined(rows) == rows[0]);
        let n = b@.len() - cli::task_row(t@).len();
        assert(b@.subrange(n, b@.len() as int) =~= cli::task_row(t@));
    } else {
        assert(cli::joined(rows) == cli::joined(rows.drop_last()) + "\n"@ + rows.last());
        assert(b@ =~= a@ + "\n"@ + cli::task_row(t@));
    }
}

/// So many blanks.
pub open spec fn gap(n: int) -> Seq<char> {
    Seq::new(n as nat, |i: int| ' ')
}

/// The row of a task: its identifier and its state at the left of their columns, its
/// share, or a dash where its length is not known, and its speed at the right of theirs.
pub proof fn law_a_row_holds_the_task(
    t: Json,
    gid: Seq<char>,
    status: &str,
    done: u64,
    total: u64,
    speed: u64,
    word: String,
    rate: String,
    share: String,
)
    requires
        t@.field("gid"@) == Some(JsonView::Text(gid)),
        t@.field("status"@) == Some(JsonView::Text(status@)),
        t@.field("downloadSpeed"@) == Some(JsonView::Text(digits::dec(speed as nat))),
        t@.field("completedLength"@) == Some(JsonView::Text(digits::dec(done as nat))),
        t@.field("totalLength"@) == Some(JsonView::Text(digits::dec(total as nat))),
        call_ensures(cli::status_label, (status,), word),
        call_ensures(cli::format_speed, (speed,), rate),
        total > 0 ==> call_ensures(cli::format_percent, (done, total), share),
        total == 0 ==> share@ == "-"@,
        gid.len() <= 16 && word@.len() <= 8 && share@.len() <= 7 && rate@.len() <= 10,
    ensures
        cli::task_row(t@) == gid + gap(16 - gid.len()) + " "@ + (word@ + gap(8 - word@.len()))
            + " "@ + (gap(7 - share@.len()) + share@) + " "@ + (gap(10 - rate@.len()) + rate@),
{
    lemma_number(speed);
    lemma_number(done);
    lemma_number(total);
    assert(cli::blanks(16 - gid.len()) =~= gap(16 - gid.len()));
    assert(cli::blanks(8 - word@.len()) =~= gap(8 - word@.len()));
    assert(cli::blanks(7 - share@.len()) =~= gap(7 - share@.len()));
    assert(cli::blanks(10 - rate@.len()) =~= gap(10 - rate@.len()));
}

proof fn lemma_number(n: u64)
    ensures
        digits::unsigned(digits::dec(n as nat), u64::MAX as nat) == Some(n as nat),
{
    digits::lemma_dec(n as nat);
    let d = digits::dec(n as nat);
    assert(digits::is_digit(d[0]));
}

/// A task in detail: identifier, state, share with the bytes that are there and those in
/// all, both speeds, the error message and the directory, each on a line of its own.
pub proof fn law_a_task_in_detail(
    t: &Json,
    shown: &str,
    gid: Seq<char>,
    status: &str,
    done: u64,
    total: u64,
    down: u64,
    up: u64,
    message: Seq<char>,
    dir: Seq<char>,
    word: String,
    share: String,
    there: String,
    all: String,
    d: String,
    u: String,
    r: String,
)
    requires
        call_ensures(cli::format_task_detail, (t, shown), r),
        t@.field("gid"@) == Some(JsonView::Text(gid)),
        t@.field("status"@) == Some(JsonView::Text(status@)),
        t@.field("completedLength"@) == Some(JsonView::Text(digits::dec(done as nat))),
        t@.field("totalLength"@) == Some(JsonView::Text(digits::dec(total as nat))),
        t@.field("downloadSpeed"@) == Some(JsonView::Text(digits::dec(down as nat))),
        t@.field("uploadSpeed"@) == Some(JsonView::Text(digits::dec(up as nat))),
        t@.field("errorCode"@) is Some,
        t@.field("errorMessage"@) == Some(JsonView::Text(message)),
        t@.field("dir"@) == Some(JsonView::Text(dir)),
        t@.field("files"@) is None,
        total > 0 && message.len() > 0 && dir.len() > 0,
        call_ensures(cli::status_label, (status,), word),
        call_ensures(cli::format_percent, (done, total), share),
        call_ensures(cli::format_bytes, (done,), there),
        call_ensures(cli::format_bytes, (total,), all),
        call_ensures(cli::format_speed, (down,), d),
        call_ensures(cli::format_speed, (up,), u),
    ensures
        r@ == "gid:            "@ + gid + "\n状态:           "@ + word@ + "\n"@ + ("进度:           "@
            + share@ + " （"@ + there@ + " / "@ + all@ + "）\n"@) + "下载速度:       "@ + d@
            + "\n上传速度:       "@ + u@ + "\n"@ + ("错误码:         "@ + shown@ + "\n"@) + (
        "错误信息:       "@ + message + "\n"@) + ("目录:           "@ + dir + "\n"@),
{
    lemma_number(done);
    lemma_number(total);
    lemma_number(down);
    lemma_number(up);
    let files = cli::files_part(t@.field("files"@));
    assert(files =~= seq![]);
    assert(r@ =~= r@.take(r@.len() - files.len()));
    let whole = "gid:            "@ + gid + "\n状态:           "@ + word@ + "\n"@ + (
    "进度:           "@ + share@ + " （"@ + there@ + " / "@ + all@ + "）\n"@) + "下载速度:       "@
        + d@ + "\n上传速度:       "@ + u@ + "\n"@ + ("错误码:         "@ + shown@ + "\n"@) + (
    "错误信息:       "@ + message + "\n"@) + ("目录:           "@ + dir + "\n"@);
    assert(r@ == whole + files);
    assert(whole + files =~= whole);
}

/// Settings are listed with their values, one on each line, in the order of their keys.
pub proof fn law_settings_are_listed_in_order(
    pairs: &Vec<(String, String)>,
    r: String,
)
    requires
        call_ensures(cli::format_kv_pairs, (pairs,), r),
    ensures
        pairs@.len() == 0 ==> r@.len() == 0,
        pairs@.len() == 1 ==> r@ == pairs@[0].0@ + " = "@ + pairs@[0].1@,
        pairs@.len() == 2 && pairs@[0].0@.len() > 0 && pairs@[1].0@.len() > 0 && pairs@[0].0@[0]
            < pairs@[1].0@[0] ==> r@ == pairs@[0].0@ + " = "@ + pairs@[0].1@ + "\n"@ + (
        pairs@[1].0@ + " = "@ + pairs@[1].1@),
        pairs@.len() == 2 && pairs@[0].0@.len() > 0 && pairs@[1].0@.len() > 0 && pairs@[0].0@[0]
            > pairs@[1].0@[0] ==> r@ == pairs@[1].0@ + " = "@ + pairs@[1].1@ + "\n"@ + (
        pairs@[0].0@ + " = "@ + pairs@[0].1@),
{
    let view = pairs.deep_view();
    assert(view.len() == pairs@.len());
    let s = choose|s: Seq<(Seq<char>, Seq<char>)>|
        cli::sorted(s) && s.to_multiset() == view.to_multiset() && r@ == cli::joined(
            #[trigger] cli::pair_lines(s),
        );
    s.to_multiset_ensures();
    view.to_multiset_ensures();
    assert(s.len() == view.len());
    let lines = cli::pair_lines(s);
    if view.len() == 1 {
        assert(view[0] == (pairs@[0].0@, pairs@[0].1@));
        assert(view.contains(view[0]));
        assert(view.to_multiset().count(view[0]) > 0);
        assert(s.contains(view[0]));
        assert(cli::joined(lines) == lines[0]);
    }
    if view.len() == 2 {
        assert(view[0] == (pairs@[0].0@, pairs@[0].1@));
        assert(view[1] == (pairs@[1].0@, pairs@[1].1@));
        assert(view.contains(view[0]) && view.contains(view[1]));
        assert(view.to_multiset().count(view[0]) > 0 && view.to_multiset().count(view[1]) > 0);
        assert(s.contains(view[0]) && s.contains(view[1]));
        assert(lines.drop_last() =~= seq![lines[0]]);
        assert(cli::joined(seq![lines[0]]) == lines[0]);
        assert(cli::joined(lines) == lines[0] + "\n"@ + lines[1]);
        assert(cli::in_order(s[0].0, s[1].0));
    }
}

/// The engine's state in words begins with its version, and says that it is not known
/// where it is not told.
pub proof fn law_the_state_begins_with_the_version(r: &Json, out: String, version: Seq<char>)
    requires
        call_ensures(cli::format_engine_status, (r,), out),
    ensures
        (r@ matches JsonView::Array(items) && items.len() > 0 && items[0].field("version"@) == Some(
            JsonView::Text(version),
        )) ==> ("引擎版本: "@ + version + "\n"@).is_prefix_of(out@),
        !(r@ is Array) ==> ("引擎版本: "@ + "未知"@ + "\n"@).is_prefix_of(out@),
{
    let v = cli::text_at(cli::item_at(r@, 0), "version"@, "未知"@);
    let head = "引擎版本: "@ + v + "\n"@;
    assert(head =~= out@.subrange(0, head.len() as int));
}

/// What commands report of an answer.
pub proof fn law_what_commands_report(
    c: &CliCommand,
    result: &Json,
    shown: &Shown,
    r: Result<String, String>,
    table: String,
    state: String,
)
    requires
        call_ensures(cli::report, (c, result, shown), r),
        call_ensures(cli::format_task_table, (result,), table),
        call_ensures(cli::format_engine_status, (result,), state),
    ensures
        *c is AddTorrent ==> r is Ok && r->Ok_0@ == "任务已添加: "@ + shown.value@,
        *c is List ==> r is Ok && r->Ok_0@ == table@,
        *c is Pause ==> r is Ok && r->Ok_0@ == "已暂停: "@ + shown.value@,
        *c is Resume ==> r is Ok && r->Ok_0@ == "已恢复: "@ + shown.value@,
        *c is Remove ==> r is Ok && r->Ok_0@ == "已删除: "@ + shown.value@,
        *c is PauseAll ==> r is Ok && r->Ok_0@ == "已暂停全部任务"@,
        *c is ResumeAll ==> r is Ok && r->Ok_0@ == "已恢复全部任务"@,
        *c is Purge ==> r is Ok && r->Ok_0@ == "已清除下载记录"@,
        *c is EngineStatus ==> r is Ok && r->Ok_0@ == state@,
        *c matches CliCommand::ConfigSet { key, value } ==> r is Ok && (cli::listed(
            cli::USER_KEYS@,
            key@,
        ) ==> r->Ok_0@ == "已保存用户配置: "@ + key@ + " = "@ + value@) && (!cli::listed(
            cli::USER_KEYS@,
            key@,
        ) ==> r->Ok_0@ == "已设置全局选项: "@ + key@ + " = "@ + value@),
{
}

/// A setting that is asked for is reported as it is, and missed where it is not there.
pub proof fn law_a_setting_is_reported(
    c: &CliCommand,
    result: &Json,
    shown: &Shown,
    r: Result<String, String>,
    key: String,
    s: Seq<char>,
)
    requires
        *c == (CliCommand::ConfigGet { only: Some(key) }),
        call_ensures(cli::report, (c, result, shown), r),
    ensures
        result@.field(key@) == Some(JsonView::Text(s)) ==> r is Ok && r->Ok_0@ == s,
        result@.field(key@) is None || result@.field(key@) == Some(JsonView::Null) ==> r is Err
            && r->Err_0@ == "未找到配置键: "@ + key@,
        (result@.field(key@) matches Some(JsonView::Number(_))) ==> r is Ok && r->Ok_0@
            == shown.value@,
{
}

/// Every task that was added is reported on a line of its own.
pub proof fn law_added_tasks_are_reported(
    c: &CliCommand,
    result: &Json,
    shown: &Shown,
    r: Result<String, String>,
    items: Vec<Json>,
    gid: String,
)
    requires
        *c is Add,
        *result == Json::Array(items),
        items@.len() == 1,
        items@[0] == Json::Text(gid),
        call_ensures(cli::report, (c, result, shown), r),
    ensures
        r is Ok && r->Ok_0@ == "任务已添加: "@ + gid@,
{
    json::lemma_array_view(items);
    let view = items.deep_view();
    assert(view[0] == items@[0]@);
    assert(view.drop_last() =~= seq![]);
    assert(crate::options::texts_in(view.drop_last()) =~= seq![]);
    assert(crate::options::texts_in(view) =~= seq![gid@]);
    let lines = cli::added_lines(seq![gid@]);
    assert(lines.len() == 1);
    assert(cli::joined(lines) == lines[0]);
}

/// A task of unknown length in detail: the bytes that are there in place of its share;
/// what is not told has no line; and the files are listed, each with its path and length.
pub proof fn law_a_task_of_unknown_length_in_detail(
    t: &Json,
    shown: &str,
    gid: Seq<char>,
    status: &str,
    done: u64,
    down: u64,
    up: u64,
    files: Seq<JsonView>,
    p: Seq<char>,
    len: u64,
    word: String,
    there: String,
    d: String,
    u: String,
    long: String,
    r: String,
)
    requires
        call_ensures(cli::format_task_detail, (t, shown), r),
        t@.field("gid"@) == Some(JsonView::Text(gid)),
        t@.field("status"@) == Some(JsonView::Text(status@)),
        t@.field("completedLength"@) == Some(JsonView::Text(digits::dec(done as nat))),
        t@.field("totalLength"@) is None,
        t@.field("downloadSpeed"@) == Some(JsonView::Text(digits::dec(down as nat))),
        t@.field("uploadSpeed"@) == Some(JsonView::Text(digits::dec(up as nat))),
        t@.field("errorCode"@) is None,
        t@.field("errorMessage"@) is None,
        t@.field("dir"@) is None,
        t@.field("files"@) == Some(JsonView::Array(files)),
        files.len() <= 1,
        files.len() == 1 ==> files[0].field("path"@) == Some(JsonView::Text(p)),
        files.len() == 1 ==> files[0].field("length"@) == Some(
            JsonView::Text(digits::dec(len as nat)),
        ),
        call_ensures(cli::status_label, (status,), word),
        call_ensures(cli::format_bytes, (done,), there),
        call_ensures(cli::format_speed, (down,), d),
        call_ensures(cli::format_speed, (up,), u),
        call_ensures(cli::format_bytes, (len,), long),
    ensures
        ({
            let body = "gid:            "@ + gid + "\n状态:           "@ + word@ + "\n"@ + (
            "已下载:         "@ + there@ + "\n"@) + "下载速度:       "@ + d@ + "\n上传速度:       "@ + u@
                + "\n"@;
            &&& files.len() == 0 ==> r@ == body
            &&& files.len() == 1 ==> r@ == body + ("文件:\n"@ + ("  - "@ + p + " （"@ + long@
                + "）\n"@))
        }),
{
    lemma_number(done);
    lemma_number(down);
    lemma_number(up);
    lemma_number(len);
    let none = Seq::<char>::empty();
    let body = "gid:            "@ + gid + "\n状态:           "@ + word@ + "\n"@ + ("已下载:         "@
        + there@ + "\n"@) + "下载速度:       "@ + d@ + "\n上传速度:       "@ + u@ + "\n"@;
    let part = cli::files_part(t@.field("files"@));
    assert(r@ == body + none + none + none + part);
    assert(body + none + none + none =~= body);
    if files.len() == 1 {
        assert(files.drop_last() =~= seq![]);
        assert(cli::file_lines(seq![]) =~= none);
        assert(none + cli::file_line(files[0]) =~= cli::file_line(files[0]));
        assert(cli::file_lines(files) =~= cli::file_line(files[0]));
    } else {
        assert(body + part =~= body);
    }
}

/// The engine's figures in words: each under its label, in their order, and a dash for one
/// that is not told.
pub proof fn law_the_figures_in_words(
    r: &Json,
    out: String,
    items: Seq<JsonView>,
    version: Seq<char>,
    down: Seq<char>,
    up: Seq<char>,
    active: Seq<char>,
    waiting: Seq<char>,
    stopped: Seq<char>,
)
    requires
        call_ensures(cli::format_engine_status, (r,), out),
        r@ == JsonView::Array(items),
        items.len() == 2,
        items[0].field("version"@) == Some(JsonView::Text(version)),
        items[1].field("downloadSpeed"@) == Some(JsonView::Text(down)),
        items[1].field("uploadSpeed"@) == Some(JsonView::Text(up)),
        items[1].field("numActive"@) == Some(JsonView::Text(active)),
        items[1].field("numWaiting"@) == Some(JsonView::Text(waiting)),
        items[1].field("numStopped"@) == Some(JsonView::Text(stopped)),
        items[1].field("numStoppedTotal"@) is None,
    ensures
        out@ == "引擎版本: "@ + version + "\n"@ + (Seq::<char>::empty() + "下载速度"@ + ": "@
            + down + "\n"@ + "上传速度"@ + ": "@ + up + "\n"@ + "活动任务"@ + ": "@
            + active + "\n"@ + "等待任务"@ + ": "@ + waiting + "\n"@
            + "已停止任务"@ + ": "@ + stopped + "\n"@ + "累计停止"@ + ": "@ + "-"@
            + "\n"@),
{
    reveal_with_fuel(cli::stat_lines, 7);
}

/// A table of tasks starts with the names of its columns and a line of dashes.
pub proof fn law_the_head_of_the_table(tasks: &Json, items: Vec<Json>, r: String)
    requires
        *tasks == Json::Array(items),
        items@.len() > 0,
        call_ensures(cli::format_task_table, (tasks,), r),
    ensures
        ("GID"@ + gap(13) + " "@ + ("状态"@ + gap(6)) + " "@ + (gap(5) + "进度"@) + " "@ + (gap(8)
            + "速度"@) + "\n"@ + Seq::new(46, |i: int| '─') + "\n"@).is_prefix_of(r@),
{
    json::lemma_array_view(items);
    reveal_strlit("GID");
    reveal_strlit("状态");
    reveal_strlit("进度");
    reveal_strlit("速度");
    assert(cli::blanks(13) =~= gap(13));
    assert(cli::blanks(6) =~= gap(6));
    assert(cli::blanks(5) =~= gap(5));
    assert(cli::blanks(8) =~= gap(8));
    let head = "GID"@ + gap(13) + " "@ + ("状态"@ + gap(6)) + " "@ + (gap(5) + "进度"@) + " "@ + (
    gap(8) + "速度"@) + "\n"@ + Seq::new(46, |i: int| '─') + "\n"@;
    assert(cli::rule() =~= Seq::new(46, |i: int| '─'));
    assert(r@ == head + cli::joined(cli::task_rows(items.deep_view())));
    assert(r@.subrange(0, head.len() as int) =~= head);
}

/// A row shows a dash for an identifier or a state that is not there.
pub proof fn law_dashes_for_what_is_missing(t: Json, rate: String)
    requires
        t@.field("gid"@) is None,
        t@.field("status"@) is None,
        t@.field("downloadSpeed"@) is None,
        t@.field("totalLength"@) is None,
        call_ensures(cli::format_speed, (0u64,), rate),
        rate@.len() <= 10,
    ensures
        cli::task_row(t@) == "-"@ + gap(15) + " "@ + ("-"@ + gap(7)) + " "@ + (gap(6) + "-"@) + " "@
            + (gap(10 - rate@.len()) + rate@),
{
    reveal_strlit("-");
    reveal_strlit("active");
    reveal_strlit("waiting");
    reveal_strlit("paused");
    reveal_strlit("error");
    reveal_strlit("complete");
    reveal_strlit("removed");
    reveal_strlit("seeding");
    assert("-"@.len() == 1);
    assert(cli::blanks(15) =~= gap(15));
    assert(cli::blanks(7) =~= gap(7));
    assert(cli::blanks(6) =~= gap(6));
    assert(cli::blanks(10 - rate@.len()) =~= gap(10 - rate@.len()));
}

/// An addition that answers with anything but a list is reported as it is.
pub proof fn law_an_addition_is_reported(
    c: &CliCommand,
    result: &Json,
    shown: &Shown,
    r: Result<String, String>,
)
    requires
        *c is Add,
        !(*result is Array),
        call_ensures(cli::report, (c, result, shown), r),
    ensures
        r is Ok && r->Ok_0@ == "任务已添加: "@ + shown.value@,
{
}

} // verus!
