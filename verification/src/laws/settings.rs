//! Settings and options: what each of them sets, and what it leaves as it is.

use vstd::prelude::*;

use crate::assoc;
use crate::config::SystemConfig;
use crate::digits;
use crate::json::{Json, JsonView, Number};
use crate::manager::TaskManager;
use crate::options::{self, EngineOptions};
use crate::size;
use crate::text;

verus! {

/// What the keys of options are told apart by: their length and their first
/// character.
pub open spec fn key_mark(s: Seq<char>) -> (nat, char) {
    (s.len(), s[0])
}

/// No two keys of options have the same mark.
pub proof fn lemma_option_keys()
    ensures
        key_mark("split"@) == (5nat, 's'),
        key_mark("max-connection-per-server"@) == (25nat, 'm'),
        key_mark("max-download-limit"@) == (18nat, 'm'),
        key_mark("max-overall-download-limit"@) == (26nat, 'm'),
        key_mark("all-proxy"@) == (9nat, 'a'),
        key_mark("no-proxy"@) == (8nat, 'n'),
        key_mark("all-proxy-user"@) == (14nat, 'a'),
        key_mark("all-proxy-passwd"@) == (16nat, 'a'),
        key_mark("user-agent"@) == (10nat, 'u'),
        key_mark("header"@) == (6nat, 'h'),
        key_mark("max-tries"@) == (9nat, 'm'),
        key_mark("retry-wait"@) == (10nat, 'r'),
        key_mark("dir"@) == (3nat, 'd'),
        key_mark("out"@) == (3nat, 'o'),
        key_mark("bt-tracker"@) == (10nat, 'b'),
        key_mark("seed-ratio"@) == (10nat, 's'),
        key_mark("seed-time"@) == (9nat, 's'),
        key_mark("keep-seeding"@) == (12nat, 'k'),
        key_mark("select-file"@) == (11nat, 's'),
        key_mark("max-concurrent-downloads"@) == (24nat, 'm'),
{
    reveal_strlit("split");
    reveal_strlit("max-connection-per-server");
    reveal_strlit("max-download-limit");
    reveal_strlit("max-overall-download-limit");
    reveal_strlit("all-proxy");
    reveal_strlit("no-proxy");
    reveal_strlit("all-proxy-user");
    reveal_strlit("all-proxy-passwd");
    reveal_strlit("user-agent");
    reveal_strlit("header");
    reveal_strlit("max-tries");
    reveal_strlit("retry-wait");
    reveal_strlit("dir");
    reveal_strlit("out");
    reveal_strlit("bt-tracker");
    reveal_strlit("seed-ratio");
    reveal_strlit("seed-time");
    reveal_strlit("keep-seeding");
    reveal_strlit("select-file");
    reveal_strlit("max-concurrent-downloads");
}

/// The single options.
pub enum Field {
    Connections,
    DownloadLimit,
    OverallLimit,
    AllProxy,
    NoProxy,
    ProxyUser,
    ProxyPasswd,
    UserAgent,
    Headers,
    MaxTries,
    RetryWait,
    Dir,
    Out,
    Trackers,
    ListenPort,
    SeedRatio,
    SeedTime,
    KeepSeeding,
    OnlyFiles,
}

/// Whether every option but this one is as it was.
pub open spec fn others_kept(before: EngineOptions, after: EngineOptions, f: Field) -> bool {
    &&& f !is Connections ==> after.connections == before.connections
    &&& f !is DownloadLimit ==> after.max_download_limit == before.max_download_limit
    &&& f !is OverallLimit ==> after.max_overall_download_limit == before.max_overall_download_limit
    &&& f !is AllProxy ==> after.all_proxy.deep_view() == before.all_proxy.deep_view()
    &&& f !is NoProxy ==> after.no_proxy.deep_view() == before.no_proxy.deep_view()
    &&& f !is ProxyUser ==> after.all_proxy_user.deep_view() == before.all_proxy_user.deep_view()
    &&& f !is ProxyPasswd ==> after.all_proxy_passwd.deep_view() == before.all_proxy_passwd.deep_view()
    &&& f !is UserAgent ==> after.user_agent.deep_view() == before.user_agent.deep_view()
    &&& f !is Headers ==> after.headers.deep_view() == before.headers.deep_view()
    &&& f !is MaxTries ==> after.max_tries == before.max_tries
    &&& f !is RetryWait ==> after.retry_wait == before.retry_wait
    &&& f !is Dir ==> after.dir@ == before.dir@
    &&& f !is Out ==> after.out.deep_view() == before.out.deep_view()
    &&& f !is Trackers ==> after.bt_trackers.deep_view() == before.bt_trackers.deep_view()
    &&& f !is ListenPort ==> after.bt_listen_port == before.bt_listen_port
    &&& f !is SeedRatio ==> after.seed_ratio == before.seed_ratio
    &&& f !is SeedTime ==> after.seed_time == before.seed_time
    &&& f !is KeepSeeding ==> after.keep_seeding == before.keep_seeding
    &&& f !is OnlyFiles ==> options::places_view(after.only_files) == options::places_view(before.only_files)
}

/// Whether the options are an object with this one key and this value.
pub open spec fn sets(options: &Json, key: Seq<char>, value: JsonView) -> bool {
    options@ == JsonView::Object(seq![(key, value)])
}

/// One option is found under its key and under no other.
pub proof fn lemma_one_key(key: Seq<char>, value: JsonView, other: Seq<char>)
    ensures
        assoc::lookup(seq![(key, value)], other) == (if other == key {
            Some(value)
        } else {
            None
        }),
        assoc::has(seq![(key, value)], other) == (other == key),
{
    let table = seq![(key, value)];
    if other == key {
        assoc::lemma_index_is(table, other, 0);
    } else {
        assoc::lemma_index_is(table, other, 1);
    }
}

/// One option is found under its key and under none of the others.
proof fn lemma_one_option(key: Seq<char>, value: JsonView)
    ensures
        assoc::lookup(seq![(key, value)], "split"@) == (if "split"@ == key { Some(value) } else { None }),
        assoc::lookup(seq![(key, value)], "max-connection-per-server"@) == (if "max-connection-per-server"@ == key { Some(value) } else { None }),
        assoc::lookup(seq![(key, value)], "max-download-limit"@) == (if "max-download-limit"@ == key { Some(value) } else { None }),
        assoc::lookup(seq![(key, value)], "max-overall-download-limit"@) == (if "max-overall-download-limit"@ == key { Some(value) } else { None }),
        assoc::lookup(seq![(key, value)], "all-proxy"@) == (if "all-proxy"@ == key { Some(value) } else { None }),
        assoc::lookup(seq![(key, value)], "no-proxy"@) == (if "no-proxy"@ == key { Some(value) } else { None }),
        assoc::lookup(seq![(key, value)], "all-proxy-user"@) == (if "all-proxy-user"@ == key { Some(value) } else { None }),
        assoc::lookup(seq![(key, value)], "all-proxy-passwd"@) == (if "all-proxy-passwd"@ == key { Some(value) } else { None }),
        assoc::lookup(seq![(key, value)], "user-agent"@) == (if "user-agent"@ == key { Some(value) } else { None }),
        assoc::lookup(seq![(key, value)], "header"@) == (if "header"@ == key { Some(value) } else { None }),
        assoc::lookup(seq![(key, value)], "max-tries"@) == (if "max-tries"@ == key { Some(value) } else { None }),
        assoc::lookup(seq![(key, value)], "retry-wait"@) == (if "retry-wait"@ == key { Some(value) } else { None }),
        assoc::lookup(seq![(key, value)], "dir"@) == (if "dir"@ == key { Some(value) } else { None }),
        assoc::lookup(seq![(key, value)], "out"@) == (if "out"@ == key { Some(value) } else { None }),
        assoc::lookup(seq![(key, value)], "bt-tracker"@) == (if "bt-tracker"@ == key { Some(value) } else { None }),
        assoc::lookup(seq![(key, value)], "seed-ratio"@) == (if "seed-ratio"@ == key { Some(value) } else { None }),
        assoc::lookup(seq![(key, value)], "seed-time"@) == (if "seed-time"@ == key { Some(value) } else { None }),
        assoc::lookup(seq![(key, value)], "keep-seeding"@) == (if "keep-seeding"@ == key { Some(value) } else { None }),
        assoc::lookup(seq![(key, value)], "select-file"@) == (if "select-file"@ == key { Some(value) } else { None }),
        assoc::lookup(seq![(key, value)], "max-concurrent-downloads"@) == (if "max-concurrent-downloads"@ == key { Some(value) } else { None }),
        assoc::has(seq![(key, value)], "header"@) == ("header"@ == key),
        assoc::has(seq![(key, value)], "bt-tracker"@) == ("bt-tracker"@ == key),
{
    lemma_one_key(key, value, "split"@);
    lemma_one_key(key, value, "max-connection-per-server"@);
    lemma_one_key(key, value, "max-download-limit"@);
    lemma_one_key(key, value, "max-overall-download-limit"@);
    lemma_one_key(key, value, "all-proxy"@);
    lemma_one_key(key, value, "no-proxy"@);
    lemma_one_key(key, value, "all-proxy-user"@);
    lemma_one_key(key, value, "all-proxy-passwd"@);
    lemma_one_key(key, value, "user-agent"@);
    lemma_one_key(key, value, "header"@);
    lemma_one_key(key, value, "max-tries"@);
    lemma_one_key(key, value, "retry-wait"@);
    lemma_one_key(key, value, "dir"@);
    lemma_one_key(key, value, "out"@);
    lemma_one_key(key, value, "bt-tracker"@);
    lemma_one_key(key, value, "seed-ratio"@);
    lemma_one_key(key, value, "seed-time"@);
    lemma_one_key(key, value, "keep-seeding"@);
    lemma_one_key(key, value, "select-file"@);
    lemma_one_key(key, value, "max-concurrent-downloads"@);
}

/// A text that a task sets is the one that its key is of, and every other option
/// stays.
pub proof fn law_a_text_option_sets_its_own(
    o: &mut EngineOptions,
    options: &Json,
    ratio: Option<u64>,
    s: Seq<char>,
)
    requires
        s.len() > 0,
        call_ensures(EngineOptions::apply_task_options, (o, options, ratio), ()),
    ensures
        sets(options, "all-proxy"@, JsonView::Text(s)) ==> final(o).all_proxy.deep_view() == Some(s)
            && others_kept(*old(o), *final(o), Field::AllProxy),
        sets(options, "no-proxy"@, JsonView::Text(s)) ==> final(o).no_proxy.deep_view() == Some(s)
            && others_kept(*old(o), *final(o), Field::NoProxy),
        sets(options, "all-proxy-user"@, JsonView::Text(s)) ==> final(o).all_proxy_user.deep_view() == Some(s)
            && others_kept(*old(o), *final(o), Field::ProxyUser),
        sets(options, "all-proxy-passwd"@, JsonView::Text(s)) ==> final(o).all_proxy_passwd.deep_view() == Some(s)
            && others_kept(*old(o), *final(o), Field::ProxyPasswd),
        sets(options, "user-agent"@, JsonView::Text(s)) ==> final(o).user_agent.deep_view() == Some(s)
            && others_kept(*old(o), *final(o), Field::UserAgent),
        sets(options, "out"@, JsonView::Text(s)) ==> final(o).out.deep_view() == Some(s)
            && others_kept(*old(o), *final(o), Field::Out),
        sets(options, "dir"@, JsonView::Text(s)) ==> final(o).dir@ == s && others_kept(
            *old(o),
            *final(o),
            Field::Dir,
        ),
{
    lemma_option_keys();
    lemma_one_option("all-proxy"@, JsonView::Text(s));
    lemma_one_option("no-proxy"@, JsonView::Text(s));
    lemma_one_option("all-proxy-user"@, JsonView::Text(s));
    lemma_one_option("all-proxy-passwd"@, JsonView::Text(s));
    lemma_one_option("user-agent"@, JsonView::Text(s));
    lemma_one_option("out"@, JsonView::Text(s));
    lemma_one_option("dir"@, JsonView::Text(s));
}

/// An empty text clears the option that its key is of, and every other one stays.
pub proof fn law_an_empty_text_clears_its_own(
    o: &mut EngineOptions,
    options: &Json,
    ratio: Option<u64>,
    s: Seq<char>,
)
    requires
        s.len() == 0,
        call_ensures(EngineOptions::apply_task_options, (o, options, ratio), ()),
    ensures
        sets(options, "all-proxy"@, JsonView::Text(s)) ==> final(o).all_proxy is None && others_kept(
            *old(o),
            *final(o),
            Field::AllProxy,
        ),
        sets(options, "no-proxy"@, JsonView::Text(s)) ==> final(o).no_proxy is None && others_kept(
            *old(o),
            *final(o),
            Field::NoProxy,
        ),
        sets(options, "all-proxy-user"@, JsonView::Text(s)) ==> final(o).all_proxy_user is None && others_kept(
            *old(o),
            *final(o),
            Field::ProxyUser,
        ),
        sets(options, "all-proxy-passwd"@, JsonView::Text(s)) ==> final(o).all_proxy_passwd is None && others_kept(
            *old(o),
            *final(o),
            Field::ProxyPasswd,
        ),
        sets(options, "user-agent"@, JsonView::Text(s)) ==> final(o).user_agent is None && others_kept(
            *old(o),
            *final(o),
            Field::UserAgent,
        ),
        sets(options, "out"@, JsonView::Text(s)) ==> final(o).out is None && others_kept(
            *old(o),
            *final(o),
            Field::Out,
        ),
{
    lemma_option_keys();
    lemma_one_option("all-proxy"@, JsonView::Text(s));
    lemma_one_option("no-proxy"@, JsonView::Text(s));
    lemma_one_option("all-proxy-user"@, JsonView::Text(s));
    lemma_one_option("all-proxy-passwd"@, JsonView::Text(s));
    lemma_one_option("user-agent"@, JsonView::Text(s));
    lemma_one_option("out"@, JsonView::Text(s));
}

/// Whether a value is this number: as such, or as a size in letters.
pub open spec fn is_number(value: JsonView, n: u64) -> bool {
    match value {
        JsonView::Number(Number::Unsigned(m)) => m == n,
        JsonView::Text(s) => size::size(s) == Some(n as nat),
        _ => false,
    }
}

/// A number that a task sets, be it written as a number or as a size, is the one that
/// its key is of, and every other option stays.
pub proof fn law_a_number_option_sets_its_own(
    o: &mut EngineOptions,
    options: &Json,
    ratio: Option<u64>,
    value: JsonView,
    n: u64,
)
    requires
        is_number(value, n),
        call_ensures(EngineOptions::apply_task_options, (o, options, ratio), ()),
    ensures
        sets(options, "max-download-limit"@, value) ==> final(o).max_download_limit == (if n > 0 {
            Some(n)
        } else {
            None
        }) && others_kept(*old(o), *final(o), Field::DownloadLimit),
        sets(options, "max-overall-download-limit"@, value)
            ==> final(o).max_overall_download_limit == (if n > 0 {
            Some(n)
        } else {
            None
        }) && others_kept(*old(o), *final(o), Field::OverallLimit),
        sets(options, "max-tries"@, value) && n <= u32::MAX ==> final(o).max_tries == n
            && others_kept(*old(o), *final(o), Field::MaxTries),
        sets(options, "retry-wait"@, value) ==> final(o).retry_wait == n && others_kept(
            *old(o),
            *final(o),
            Field::RetryWait,
        ),
        sets(options, "max-connection-per-server"@, value) && n <= u32::MAX
            ==> final(o).connections == (if n > 0 {
            n as int
        } else {
            1
        }) && others_kept(*old(o), *final(o), Field::Connections),
        sets(options, "split"@, value) ==> final(o).connections == (if n == 0 || old(o).connections
            == 0 {
            1
        } else if n <= old(o).connections {
            n as int
        } else {
            old(o).connections as int
        }) && others_kept(*old(o), *final(o), Field::Connections),
{
    lemma_option_keys();
    lemma_one_option("max-download-limit"@, value);
    lemma_one_option("max-overall-download-limit"@, value);
    lemma_one_option("max-tries"@, value);
    lemma_one_option("retry-wait"@, value);
    lemma_one_option("max-connection-per-server"@, value);
    lemma_one_option("split"@, value);
}

/// Where a task sets both how many parts it has and how many connections a server
/// takes, it makes as many as the smaller says, and at least one.
pub proof fn law_connections_are_the_smaller(
    o: &mut EngineOptions,
    options: &Json,
    ratio: Option<u64>,
    split: u32,
    per_server: u32,
)
    requires
        call_ensures(EngineOptions::apply_task_options, (o, options, ratio), ()),
        options@.field("split"@) == Some(JsonView::Number(Number::Unsigned(split as u64))),
        options@.field("max-connection-per-server"@) == Some(
            JsonView::Number(Number::Unsigned(per_server as u64)),
        ),
    ensures
        final(o).connections >= 1,
        final(o).connections <= split || split == 0,
        final(o).connections <= per_server || per_server == 0,
        final(o).connections == 1 || final(o).connections == split || final(o).connections
            == per_server,
        split > 0 && per_server > 0 ==> final(o).connections == split || final(o).connections
            == per_server,
{
}

/// When a torrent stops seeding, and whether it seeds at all, is what a task sets it
/// to, and every other option stays.
pub proof fn law_a_seeding_option_sets_its_own(
    o: &mut EngineOptions,
    options: &Json,
    ratio: Option<u64>,
    s: Seq<char>,
    bits: u64,
    n: u32,
    b: bool,
)
    requires
        call_ensures(EngineOptions::apply_task_options, (o, options, ratio), ()),
    ensures
        sets(options, "seed-ratio"@, JsonView::Number(Number::Float(bits))) ==> final(o).seed_ratio
            == Some(bits) && others_kept(*old(o), *final(o), Field::SeedRatio),
        sets(options, "seed-ratio"@, JsonView::Text(s)) && ratio is Some ==> final(o).seed_ratio
            == ratio && others_kept(*old(o), *final(o), Field::SeedRatio),
        sets(options, "seed-ratio"@, JsonView::Text(s)) && ratio is None ==> final(o)@ == old(o)@,
        sets(options, "seed-time"@, JsonView::Number(Number::Unsigned(n as u64)))
            ==> final(o).seed_time == Some(n) && others_kept(
            *old(o),
            *final(o),
            Field::SeedTime,
        ),
        sets(options, "seed-time"@, JsonView::Text(digits::dec(n as nat))) ==> final(o).seed_time
            == Some(n) && others_kept(*old(o), *final(o), Field::SeedTime),
        sets(options, "keep-seeding"@, JsonView::Bool(b)) ==> final(o).keep_seeding == b
            && others_kept(*old(o), *final(o), Field::KeepSeeding),
        sets(options, "keep-seeding"@, JsonView::Text(s)) ==> final(o).keep_seeding == (s
            == "true"@ || s == "1"@) && others_kept(*old(o), *final(o), Field::KeepSeeding),
{
    lemma_option_keys();
    digits::lemma_dec(n as nat);
    let written = digits::dec(n as nat);
    assert(digits::is_digit(written[0]));
    lemma_one_option("seed-ratio"@, JsonView::Number(Number::Float(bits)));
    lemma_one_option("seed-ratio"@, JsonView::Text(s));
    lemma_one_option("seed-time"@, JsonView::Number(Number::Unsigned(n as u64)));
    lemma_one_option("seed-time"@, JsonView::Text(written));
    lemma_one_option("keep-seeding"@, JsonView::Bool(b));
    lemma_one_option("keep-seeding"@, JsonView::Text(s));
}

/// Files that are numbered from one are kept by their place from zero.
proof fn lemma_numbered_files(items: Seq<JsonView>, numbers: Seq<usize>)
    requires
        items.len() == numbers.len(),
        forall|i: int|
            0 <= i < items.len() ==> 1 <= (#[trigger] numbers[i]) && items[i] == JsonView::Number(
                Number::Unsigned(numbers[i] as u64),
            ),
    ensures
        options::file_places(items) == Seq::new(
            numbers.len(),
            |i: int| (numbers[i] - 1) as usize,
        ),
    decreases items.len(),
{
    let want = Seq::new(numbers.len(), |i: int| (numbers[i] - 1) as usize);
    if items.len() > 0 {
        let less = items.drop_last();
        let fewer = numbers.drop_last();
        assert forall|i: int| 0 <= i < less.len() implies 1 <= (#[trigger] fewer[i]) && less[i]
            == JsonView::Number(Number::Unsigned(fewer[i] as u64)) by {
            assert(numbers[i] >= 1);
        }
        lemma_numbered_files(less, fewer);
        assert(numbers[items.len() - 1] >= 1);
        assert(options::file_number(items.last()) == Some(numbers.last() as nat));
        assert(options::file_places(items) =~= want);
    } else {
        assert(options::file_places(items) =~= want);
    }
}

/// A selection of files that numbers them from one picks those files, in its order,
/// and every other option stays.
pub proof fn law_a_selection_picks_its_files(
    o: &mut EngineOptions,
    options: &Json,
    ratio: Option<u64>,
    numbers: Seq<usize>,
)
    requires
        call_ensures(EngineOptions::apply_task_options, (o, options, ratio), ()),
        numbers.len() > 0,
        forall|i: int| 0 <= i < numbers.len() ==> 1 <= #[trigger] numbers[i],
        sets(
            options,
            "select-file"@,
            JsonView::Array(
                Seq::new(
                    numbers.len(),
                    |i: int| JsonView::Number(Number::Unsigned(numbers[i] as u64)),
                ),
            ),
        ),
    ensures
        final(o).only_files matches Some(files) && {
            &&& files@.len() == numbers.len()
            &&& forall|i: int| 0 <= i < numbers.len() ==> (#[trigger] files@[i]) + 1 == numbers[i]
        },
        others_kept(*old(o), *final(o), Field::OnlyFiles),
{
    lemma_option_keys();
    let items = Seq::new(
        numbers.len(),
        |i: int| JsonView::Number(Number::Unsigned(numbers[i] as u64)),
    );
    lemma_one_option("select-file"@, JsonView::Array(items));
    lemma_numbered_files(items, numbers);
}

/// A selection in letters that numbers one file picks that file.
pub proof fn law_a_selection_in_letters_picks_its_file(
    o: &mut EngineOptions,
    options: &Json,
    ratio: Option<u64>,
    n: usize,
)
    requires
        call_ensures(EngineOptions::apply_task_options, (o, options, ratio), ()),
        n >= 1,
        sets(options, "select-file"@, JsonView::Text(digits::dec(n as nat))),
    ensures
        final(o).only_files matches Some(files) && files@ == seq![(n - 1) as usize],
        others_kept(*old(o), *final(o), Field::OnlyFiles),
{
    lemma_option_keys();
    let s = digits::dec(n as nat);
    digits::lemma_dec(n as nat);
    lemma_one_option("select-file"@, JsonView::Text(s));
    assert forall|j: int| 0 <= j < s.len() implies s[j] != ',' by {
        assert(digits::is_digit(s[j]));
    }
    text::lemma_find_is(s, ',', s.len() as int);
    assert(text::split(s, ',') == seq![s]);
    assert(digits::is_digit(s[0]));
    assert(digits::is_digit(s.last()));
    text::lemma_trimmed(seq![], s, seq![]);
    assert(Seq::<char>::empty() + s + Seq::<char>::empty() =~= s);
    let items = options::comma_items(s);
    assert(items =~= seq![JsonView::Text(s)]);
    assert(items.drop_last() =~= seq![]);
    assert(options::file_places(items.drop_last()) =~= seq![]);
    assert(options::file_places(items) =~= seq![(n - 1) as usize]);
}

/// Options that are no object set nothing, and neither does an object without keys.
pub proof fn law_no_options_set_nothing(
    o: &mut EngineOptions,
    options: &Json,
    ratio: Option<u64>,
)
    requires
        call_ensures(EngineOptions::apply_task_options, (o, options, ratio), ()),
        options@ !is Object || options@->Object_0.len() == 0,
    ensures
        final(o)@ == old(o)@,
{
    if options@ is Object {
        assert(options@->Object_0 =~= Seq::empty());
        options::law_options_settle(old(o)@, options@->Object_0, ratio);
    }
}

/// A new task has the general options, as far as its own do not set them.
pub proof fn law_new_tasks_start_from_the_general_options(
    m: &TaskManager,
    o: &mut EngineOptions,
    given: &Json,
    ratio: Option<u64>,
    r: EngineOptions,
)
    requires
        call_ensures(TaskManager::new_task_options, (m, given, ratio), r),
        old(o)@ == m.global@,
        call_ensures(EngineOptions::apply_task_options, (o, given, ratio), ()),
    ensures
        r@ == final(o)@,
        given@ !is Object ==> r@ == m.global@,
{
}

/// The options that the system settings give are those settings, one by one; a limit
/// of zero and an empty text are none.
pub proof fn law_settings_become_options(system: &SystemConfig, r: EngineOptions)
    requires
        call_ensures(EngineOptions::from_system_config, (system,), r),
    ensures
        r.dir@ == system.dir@,
        r.out is None,
        r.user_agent.deep_view() == Some(system.user_agent@),
        system.all_proxy@.len() > 0 ==> r.all_proxy.deep_view() == Some(system.all_proxy@),
        system.all_proxy@.len() == 0 ==> r.all_proxy is None,
        system.no_proxy@.len() > 0 ==> r.no_proxy.deep_view() == Some(system.no_proxy@),
        system.no_proxy@.len() == 0 ==> r.no_proxy is None,
        system.max_download_limit > 0 ==> r.max_download_limit == Some(system.max_download_limit),
        system.max_download_limit == 0 ==> r.max_download_limit is None,
        system.max_overall_download_limit > 0 ==> r.max_overall_download_limit == Some(
            system.max_overall_download_limit,
        ),
        system.max_overall_download_limit == 0 ==> r.max_overall_download_limit is None,
        r.connections >= 1,
        system.split > 0 && system.max_connection_per_server > 0 ==> r.connections
            == if system.split <= system.max_connection_per_server {
            system.split
        } else {
            system.max_connection_per_server
        },
        r.bt_listen_port == Some(system.listen_port),
        system.seed_time > 0 ==> r.seed_time == Some(system.seed_time),
        system.seed_time == 0 ==> r.seed_time is None,
        0 < system.seed_ratio <= 0x7FF0_0000_0000_0000 ==> r.seed_ratio == Some(system.seed_ratio),
        system.seed_ratio == 0 ==> r.seed_ratio is None,
        !r.keep_seeding,
        r.only_files is None,
        system.extra@.len() == 0 ==> r.max_tries == 5 && r.retry_wait == 0 && r.headers@.len() == 0
            && r.all_proxy_user is None && r.all_proxy_passwd is None,
{
    if system.extra@.len() == 0 {
        let extra = system.extra.deep_view();
        assert(extra.len() == 0);
        assert(r.headers.deep_view().len() == 0);
    }
}

/// The user name and the password for the proxy are read from the settings that have
/// no field of their own, each under its key.
pub proof fn law_proxy_login_becomes_options(
    system: &SystemConfig,
    r: EngineOptions,
    user: Seq<char>,
    passwd: Seq<char>,
)
    requires
        call_ensures(EngineOptions::from_system_config, (system,), r),
    ensures
        assoc::lookup(system.extra.deep_view(), "all-proxy-user"@) == Some(JsonView::Text(user))
            ==> r.all_proxy_user.deep_view() == Some(user),
        assoc::lookup(system.extra.deep_view(), "all-proxy-passwd"@) == Some(
            JsonView::Text(passwd),
        ) ==> r.all_proxy_passwd.deep_view() == Some(passwd),
{
}

/// The speed limit in force is one of the two limits, and no faster than either; there
/// is none only where both are missing or zero.
pub proof fn law_the_tighter_limit_holds(o: &EngineOptions, r: Option<u64>)
    requires
        call_ensures(EngineOptions::effective_speed_limit, (o,), r),
    ensures
        r is None <==> (o.max_download_limit is None || o.max_download_limit == Some(0u64)) && (
        o.max_overall_download_limit is None || o.max_overall_download_limit == Some(0u64)),
        r matches Some(n) ==> {
            &&& n > 0
            &&& r == o.max_download_limit || r == o.max_overall_download_limit
            &&& o.max_download_limit matches Some(a) ==> a == 0 || n <= a
            &&& o.max_overall_download_limit matches Some(b) ==> b == 0 || n <= b
        },
{
}

/// As many attempts are made as the options say; where they set no bound, a hundred.
pub proof fn law_attempts_are_as_set(o: &EngineOptions, r: u32)
    requires
        call_ensures(EngineOptions::normalized_max_tries, (o,), r),
    ensures
        o.max_tries > 0 ==> r == o.max_tries,
        o.max_tries == 0 ==> r == 100,
{
}

/// A header line gives the name before its first colon and the value behind it, both
/// without the blanks round them.
pub proof fn law_a_header_line_is_read(
    line: &str,
    out: &mut Vec<(String, String)>,
    name: Seq<char>,
    gap: Seq<char>,
    value: Seq<char>,
)
    requires
        name.len() > 0,
        !text::spec_is_space(name[0]) && !text::spec_is_space(name.last()),
        forall|i: int| 0 <= i < name.len() ==> name[i] != ':',
        value.len() > 0,
        !text::spec_is_space(value[0]) && !text::spec_is_space(value.last()),
        text::blank(gap),
        line@ == name.push(':') + gap + value,
        call_ensures(options::push_header_line, (line, out), ()),
    ensures
        final(out).deep_view() == old(out).deep_view().push((name, value)),
{
    let s = line@;
    let none = Seq::<char>::empty();
    assert(s[0] == name[0]);
    assert(s.last() == value.last());
    text::lemma_trimmed(none, s, none);
    assert(none + s + none =~= s);
    let n = name.len() as int;
    assert forall|j: int| 0 <= j < n implies s[j] != ':' by {
        assert(s[j] == name[j]);
    }
    text::lemma_find_is(s, ':', n);
    assert(s.take(n) =~= name);
    assert(s.skip(n + 1) =~= gap + value + none);
    text::lemma_trimmed(gap, value, none);
    text::lemma_trimmed(none, name, none);
    assert(none + name + none =~= name);
}

/// The header that a task sets takes the place of those that were set, and every other
/// option stays.
pub proof fn law_a_header_option_sets_its_own(
    o: &mut EngineOptions,
    options: &Json,
    ratio: Option<u64>,
    name: Seq<char>,
    value: Seq<char>,
)
    requires
        name.len() > 0,
        !text::spec_is_space(name[0]) && !text::spec_is_space(name.last()),
        forall|i: int| 0 <= i < name.len() ==> name[i] != ':' && name[i] != '\n',
        value.len() > 0,
        !text::spec_is_space(value[0]) && !text::spec_is_space(value.last()),
        forall|i: int| 0 <= i < value.len() ==> value[i] != '\n',
        sets(options, "header"@, JsonView::Text(name.push(':') + value)),
        call_ensures(EngineOptions::apply_task_options, (o, options, ratio), ()),
    ensures
        final(o).headers.deep_view() == seq![(name, value)],
        others_kept(*old(o), *final(o), Field::Headers),
{
    lemma_option_keys();
    let s = name.push(':') + value;
    let none = Seq::<char>::empty();
    lemma_one_option("header"@, JsonView::Text(s));
    assert forall|j: int| 0 <= j < s.len() implies s[j] != '\n' by {
        if j < name.len() {
            assert(s[j] == name[j]);
        } else if j > name.len() {
            assert(s[j] == value[j - name.len() - 1]);
        }
    }
    text::lemma_find_is(s, '\n', s.len() as int);
    assert(text::lines(s) == seq![s]);
    assert(s[0] == name[0]);
    assert(s.last() == value.last());
    text::lemma_trimmed(none, s, none);
    assert(none + s + none =~= s);
    let n = name.len() as int;
    assert forall|j: int| 0 <= j < n implies s[j] != ':' by {
        assert(s[j] == name[j]);
    }
    text::lemma_find_is(s, ':', n);
    assert(s.take(n) =~= name);
    assert(s.skip(n + 1) =~= value);
    text::lemma_trimmed(none, value, none);
    text::lemma_trimmed(none, name, none);
    assert(none + name + none =~= name);
    assert(none + value + none =~= value);
    assert(seq![s].drop_last() =~= seq![]);
    assert(options::line_headers(seq![s].drop_last()) =~= seq![]);
    assert(options::line_headers(seq![s]) =~= seq![(name, value)]);
}

/// The trackers that a task sets take the place of those that were set, and every
/// other option stays.
pub proof fn law_a_tracker_option_sets_its_own(
    o: &mut EngineOptions,
    options: &Json,
    ratio: Option<u64>,
    s: Seq<char>,
)
    requires
        sets(options, "bt-tracker"@, JsonView::Text(s)),
        call_ensures(EngineOptions::apply_task_options, (o, options, ratio), ()),
    ensures
        final(o).bt_trackers.deep_view() == text::tokens(s, true),
        others_kept(*old(o), *final(o), Field::Trackers),
{
    lemma_option_keys();
    lemma_one_option("bt-tracker"@, JsonView::Text(s));
}

/// A header line without a colon is split at its first equals sign; without either it
/// gives no header.
pub proof fn law_header_lines_without_a_colon(
    line: &str,
    out: &mut Vec<(String, String)>,
    name: Seq<char>,
    value: Seq<char>,
)
    requires
        call_ensures(options::push_header_line, (line, out), ()),
        name.len() > 0 && value.len() > 0,
        !text::spec_is_space(name[0]) && !text::spec_is_space(name.last()),
        !text::spec_is_space(value[0]) && !text::spec_is_space(value.last()),
        forall|i: int| 0 <= i < name.len() ==> name[i] != ':' && name[i] != '=',
        forall|i: int| 0 <= i < value.len() ==> value[i] != ':',
    ensures
        line@ == name.push('=') + value ==> final(out).deep_view() == old(out).deep_view().push(
            (name, value),
        ),
        line@ == name ==> final(out).deep_view() == old(out).deep_view(),
{
    let s = line@;
    let none = Seq::<char>::empty();
    let n = name.len() as int;
    text::lemma_trimmed(none, name, none);
    text::lemma_trimmed(none, value, none);
    assert(none + name + none =~= name);
    assert(none + value + none =~= value);
    if s == name.push('=') + value {
        assert(s[0] == name[0]);
        assert(s.last() == value.last());
        text::lemma_trimmed(none, s, none);
        assert(none + s + none =~= s);
        assert forall|j: int| 0 <= j < s.len() implies s[j] != ':' by {
            if j < n {
                assert(s[j] == name[j]);
            } else if j > n {
                assert(s[j] == value[j - n - 1]);
            }
        }
        text::lemma_find_is(s, ':', s.len() as int);
        text::lemma_find_is(s, '=', n);
        assert(s.take(n) =~= name);
        assert(s.skip(n + 1) =~= value);
    }
    if s == name {
        text::lemma_find_is(s, ':', n);
        text::lemma_find_is(s, '=', n);
    }
}

/// What a task is transferred with where nothing is set: sixteen connections, five
/// attempts without a wait between them, into the current directory, and nothing else.
pub proof fn law_options_at_first(r: EngineOptions)
    requires
        call_ensures(<EngineOptions as Default>::default, (), r),
    ensures
        r.connections == 16 && r.max_tries == 5 && r.retry_wait == 0,
        r.dir@ == "."@ && r.out is None,
        r.max_download_limit is None && r.max_overall_download_limit is None,
        r.all_proxy is None && r.no_proxy is None && r.all_proxy_user is None
            && r.all_proxy_passwd is None,
        r.user_agent is None && r.headers@.len() == 0,
        r.bt_trackers@.len() == 0 && r.bt_listen_port is None,
        r.seed_ratio is None && r.seed_time is None && !r.keep_seeding && r.only_files is None,
{
    assert(r.headers.deep_view().len() == r.headers@.len());
    assert(r.bt_trackers.deep_view().len() == r.bt_trackers@.len());
}

} // verus!
