//! How often the state of the tasks is sent out, and what is sent.

use vstd::prelude::*;

use crate::assoc;
use crate::json::{self, Json, JsonView};
use crate::repository::{self, Group, TaskRepository};
use crate::task::TaskView;

verus! {

/// Intervals between two messages, in milliseconds.
#[derive(Debug, Clone, Copy, PartialEq, Eq, Structural)]
pub struct BroadcasterConfig {
    /// Where no task transfers.
    pub base_interval: u64,
    /// The shortest one.
    pub min_interval: u64,
    /// The longest one.
    pub max_interval: u64,
}

impl Default for BroadcasterConfig {
    fn default() -> (r: BroadcasterConfig)
        ensures
            r == (BroadcasterConfig {
                base_interval: 1000,
                min_interval: 500,
                max_interval: 6000,
            }),
    {
        BroadcasterConfig { base_interval: 1000, min_interval: 500, max_interval: 6000 }
    }
}

/// The interval for a number of transferring tasks: a tenth of a second less for
/// each, within the bounds.
pub open spec fn interval(c: BroadcasterConfig, num_active: nat) -> int {
    let reduced = c.base_interval - 100 * num_active;
    if num_active == 0 {
        c.base_interval as int
    } else if reduced < c.min_interval {
        c.min_interval as int
    } else if reduced > c.max_interval {
        c.max_interval as int
    } else {
        reduced
    }
}

impl BroadcasterConfig {
    /// The interval for a number of transferring tasks.
    pub fn effective_interval(&self, num_active: u32) -> (r: u64)
        requires
            num_active > 0 ==> self.min_interval <= self.max_interval,
        ensures
            r == interval(*self, num_active as nat),
    {
        if num_active == 0 {
            return self.base_interval;
        }
        let step: u64 = 100 * (num_active as u64);
        let reduced: u64 = if self.base_interval >= step {
            self.base_interval - step
        } else {
            0
        };
        if reduced < self.min_interval {
            self.min_interval
        } else if reduced > self.max_interval {
            self.max_interval
        } else {
            reduced
        }
    }
}

/// The intervals that are used where nothing else is configured.
pub open spec fn default_config() -> BroadcasterConfig {
    BroadcasterConfig { base_interval: 1000, min_interval: 500, max_interval: 6000 }
}

/// The interval for a number of transferring tasks, in milliseconds.
pub fn effective_interval(num_active: u32) -> (r: u64)
    ensures
        r == interval(default_config(), num_active as nat),
{
    BroadcasterConfig::default().effective_interval(num_active)
}

/// While tasks transfer the interval keeps within the bounds, and it never grows
/// with the number of tasks. With nothing transferring the same holds of a base
/// interval within the bounds.
pub proof fn law_interval(c: BroadcasterConfig, n: nat, m: nat)
    requires
        c.min_interval <= c.max_interval,
        n <= m,
    ensures
        n > 0 || c.min_interval <= c.base_interval <= c.max_interval ==> c.min_interval
            <= interval(c, n) <= c.max_interval,
        n > 0 || c.min_interval <= c.base_interval ==> interval(c, m) <= interval(c, n),
{
}

/// Where nothing else is configured the interval is never shorter than half a
/// second nor longer than six seconds, and never grows with the number of
/// transferring tasks.
pub proof fn law_default_interval(n: nat, m: nat)
    requires
        n <= m,
    ensures
        500 <= interval(default_config(), n) <= 6000,
        interval(default_config(), m) <= interval(default_config(), n),
{
    law_interval(default_config(), n, m);
}

/// The state of the tasks as it is sent out.
pub open spec fn snapshot(tasks: Seq<(Seq<char>, TaskView)>, stopped: nat) -> JsonView {
    let all = repository::members(tasks, Group::All);
    JsonView::Object(
        seq![
            (
                "globalStat"@,
                (repository::GlobalStat {
                    download_speed: repository::download_total(tasks) as u64,
                    upload_speed: repository::upload_total(tasks) as u64,
                    num_active: repository::members(tasks, Group::Active).len() as usize,
                    num_waiting: repository::members(tasks, Group::Waiting).len() as usize,
                    num_stopped: stopped as usize,
                }).aria2(),
            ),
            ("tasks"@, JsonView::Array(Seq::new(all.len(), |i: int| all[i].aria2()))),
        ],
    )
}

/// The state of the tasks as it is sent out: the counts and speeds, and every task
/// on the books.
pub fn build_snapshot(repo: &TaskRepository) -> (r: Json)
    requires
        repo@.wf(),
        repository::download_total(repo@.tasks) <= u64::MAX,
        repository::upload_total(repo@.tasks) <= u64::MAX,
    ensures
        r@ == snapshot(repo@.tasks, repo@.stopped().len()),
{
    let stat = repo.global_stat().to_aria2_json();
    let all = repo.all();
    let mut tasks: Vec<Json> = Vec::new();
    let mut i: usize = 0;
    while i < all.len()
        invariant
            i <= all@.len(),
            tasks@.len() == i,
            forall|j: int| 0 <= j < i ==> (#[trigger] tasks@[j])@ == all@[j]@.aria2(),
        decreases all@.len() - i,
    {
        tasks.push(all[i].to_aria2());
        i += 1;
    }
    let ghost whole = snapshot(repo@.tasks, repo@.stopped().len());
    proof {
        json::lemma_array_view(tasks);
        assert(tasks.deep_view() =~= whole->Object_0[1].1->Array_0) by {
            assert forall|j: int| 0 <= j < all@.len() implies #[trigger] tasks.deep_view()[j]
                == repository::members(repo@.tasks, Group::All)[j].aria2() by {
                assert(all.deep_view()[j] == all@[j]@);
            }
        }
    }
    let mut out: Vec<(String, Json)> = Vec::new();
    assoc::put(&mut out, "globalStat", stat);
    assoc::put(&mut out, "tasks", Json::Array(tasks));
    proof {
        json::lemma_object_view(out);
        assert(out.deep_view() =~= whole->Object_0);
    }
    Json::Object(out)
}

} // verus!
