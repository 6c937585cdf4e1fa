//! What worker tasks report back, and how long it takes to hand them their plans.

use crate::plan::{copy_bytes, keys_view, TaskKey, TaskKeyView};
use crate::text::joined;
use dashmap::DashMap;
use vstd::prelude::*;

verus! {

#[verifier::external_type_specification]
#[verifier::external_body]
#[verifier::reject_recursive_types(K)]
#[verifier::reject_recursive_types(V)]
#[verifier::reject_recursive_types(S)]
pub struct ExDashMap<K, V, S>(DashMap<K, V, S>);

/// The metrics of one node of a plan, in the encoding the worker sent them in.
#[derive(Debug)]
pub struct MetricsSet {
    pub encoded: Vec<u8>,
}

/// Metrics of the nodes of a plan as mathematical values.
pub open spec fn metrics_view(metrics: Seq<MetricsSet>) -> Seq<Seq<u8>> {
    metrics.map_values(|set: MetricsSet| set.encoded@)
}

/// A [`TaskKey`] as the map holds it: a tuple, whose equality and hash are those of its parts.
type MapKey = (Vec<u8>, u64, u64);

type MetricsMap = DashMap<MapKey, Vec<Vec<u8>>>;

/// Task keys with what was reported under them.
pub type Reports = Map<TaskKeyView, Seq<Seq<u8>>>;

pub open spec fn no_reports() -> Reports {
    Map::empty()
}

/// What a `DashMap` of metrics holds.
pub uninterp spec fn map_contents(
    map: DashMap<(Vec<u8>, u64, u64), Vec<Vec<u8>>>,
) -> Map<(Seq<u8>, u64, u64), Seq<Seq<u8>>>;

/// `DashMap::new`: the map is empty.
#[verifier::external_body]
fn new_map() -> (map: MetricsMap)
    ensures
        map_contents(map) == no_reports(),
{
    DashMap::new()
}

/// `DashMap::insert`: the key then holds the value, and all other keys what they held. The map is
/// taken by `&mut`, so that nothing else changes it or refers into it meanwhile.
#[verifier::external_body]
fn map_insert(map: &mut MetricsMap, key: MapKey, value: Vec<Vec<u8>>)
    ensures
        map_contents(*final(map)) == map_contents(*old(map)).insert(
            (key.0@, key.1, key.2),
            bytes_view(value@),
        ),
{
    map.insert(key, value);
}

/// `DashMap::contains_key`: whether the key holds a value.
#[verifier::external_body]
fn map_contains_key(map: &MetricsMap, key: &MapKey) -> (r: bool)
    ensures
        r == map_contents(*map).contains_key((key.0@, key.1, key.2)),
{
    map.contains_key(key)
}

/// `DashMap::get`, with the value copied out: what the key holds, if anything.
#[verifier::external_body]
fn map_get(map: &MetricsMap, key: &MapKey) -> (r: Option<Vec<Vec<u8>>>)
    ensures
        match r {
            Some(value) => map_contents(*map).get((key.0@, key.1, key.2)) == Some(
                bytes_view(value@),
            ),
            None => map_contents(*map).get((key.0@, key.1, key.2)) is None,
        },
{
    map.get(key).map(|entry| entry.value().clone())
}

/// Byte strings as mathematical values.
pub open spec fn bytes_view(value: Seq<Vec<u8>>) -> Seq<Seq<u8>> {
    value.map_values(|bytes: Vec<u8>| bytes@)
}

/// What was reported by a task, as a mathematical value.
pub open spec fn held(metrics: Option<Vec<MetricsSet>>) -> Option<Seq<Seq<u8>>> {
    match metrics {
        Some(metrics) => Some(metrics_view(metrics@)),
        None => None,
    }
}

/// Metrics as the map holds them.
fn unwrapped(metrics: Vec<MetricsSet>) -> (r: Vec<Vec<u8>>)
    ensures
        bytes_view(r@) == metrics_view(metrics@),
{
    let ghost all = metrics@;
    let mut value: Vec<Vec<u8>> = Vec::new();
    for set in it: metrics
        invariant
            it.seq() == all,
            bytes_view(value@) == metrics_view(all).take(it.index() as int),
    {
        let ghost before = value@;
        let ghost bytes = set.encoded@;
        value.push(set.encoded);
        assert(bytes_view(value@) =~= bytes_view(before).push(bytes));
        assert(metrics_view(all).take(it.index() + 1) =~= metrics_view(all).take(
            it.index() as int,
        ).push(bytes));
    }
    assert(metrics_view(all).take(all.len() as int) =~= metrics_view(all));
    value
}

/// Metrics out of what the map holds.
fn wrapped(value: Vec<Vec<u8>>) -> (r: Vec<MetricsSet>)
    ensures
        metrics_view(r@) == bytes_view(value@),
{
    let ghost all = value@;
    let mut metrics: Vec<MetricsSet> = Vec::new();
    for encoded in it: value
        invariant
            it.seq() == all,
            metrics_view(metrics@) == bytes_view(all).take(it.index() as int),
    {
        let ghost before = metrics@;
        let ghost bytes = encoded@;
        metrics.push(MetricsSet { encoded });
        assert(metrics_view(metrics@) =~= metrics_view(before).push(bytes));
        assert(bytes_view(all).take(it.index() + 1) =~= bytes_view(all).take(
            it.index() as int,
        ).push(bytes));
    }
    assert(bytes_view(all).take(all.len() as int) =~= bytes_view(all));
    metrics
}

/// Stores the metrics collected from all worker tasks, and counts the reports, so that waiters can
/// be told of each.
pub struct MetricsStore {
    map: MetricsMap,
    count: usize,
}

impl MetricsStore {
    /// The metrics reported so far, by task.
    pub closed spec fn reports(&self) -> Reports {
        map_contents(self.map)
    }

    /// How many reports have come in, those for a task that had already reported among them. The
    /// count wraps around.
    pub closed spec fn notifications(&self) -> usize {
        self.count
    }

    /// A store without reports.
    pub fn new() -> (store: Self)
        ensures
            store.reports() == no_reports(),
            store.notifications() == 0,
    {
        MetricsStore { map: new_map(), count: 0 }
    }

    /// Stores the metrics of a task, in place of any it reported before.
    pub fn insert(&mut self, key: TaskKey, metrics: Vec<MetricsSet>)
        ensures
            final(self).reports() == old(self).reports().insert(key@, metrics_view(metrics@)),
            final(self).notifications() == old(self).notifications().wrapping_add(1),
    {
        let map_key: MapKey = (key.query_id, key.stage_id, key.task_number);
        map_insert(&mut self.map, map_key, unwrapped(metrics));
        self.count = self.count.wrapping_add(1);
    }

    /// The number of reports, as waiters see it.
    pub fn notification_count(&self) -> (r: usize)
        ensures
            r == self.notifications(),
    {
        self.count
    }

    /// Whether a task has reported.
    pub fn contains(&self, key: &TaskKey) -> (r: bool)
        ensures
            r == self.reports().contains_key(key@),
    {
        let map_key: MapKey = (copy_bytes(key.query_id.as_slice()), key.stage_id, key.task_number);
        map_contains_key(&self.map, &map_key)
    }

    /// The metrics that a task reported last, if it has reported.
    pub fn metrics(&self, key: &TaskKey) -> (r: Option<Vec<MetricsSet>>)
        ensures
            held(r) == self.reports().get(key@),
    {
        let map_key: MapKey = (copy_bytes(key.query_id.as_slice()), key.stage_id, key.task_number);
        match map_get(&self.map, &map_key) {
            Some(value) => Some(wrapped(value)),
            None => None,
        }
    }

    /// Whether all the tasks have reported.
    pub fn contains_all(&self, keys: &Vec<TaskKey>) -> (r: bool)
        ensures
            r == all_reported(self.reports(), keys_view(keys@)),
            r <==> forall|k: int|
                0 <= k < keys@.len() ==> self.reports().contains_key((#[trigger] keys@[k])@),
    {
        proof {
            assert forall|k: int| 0 <= k < keys@.len() implies keys_view(keys@)[k] == (
            #[trigger] keys@[k])@ by {}
            if forall|k: int|
                0 <= k < keys@.len() ==> self.reports().contains_key((#[trigger] keys@[k])@) {
                assert forall|k: int| 0 <= k < keys_view(keys@).len() implies self.reports().contains_key(
                    #[trigger] keys_view(keys@)[k],
                ) by {
                    assert(self.reports().contains_key(keys@[k]@));
                }
            }
            if all_reported(self.reports(), keys_view(keys@)) {
                assert forall|k: int| 0 <= k < keys@.len() implies self.reports().contains_key(
                    (#[trigger] keys@[k])@,
                ) by {
                    assert(self.reports().contains_key(keys_view(keys@)[k]));
                }
            }
        }
        for i in 0..keys.len()
            invariant
                forall|k: int|
                    0 <= k < i ==> self.reports().contains_key(#[trigger] keys_view(keys@)[k]),
        {
            if !self.contains(&keys[i]) {
                assert(!self.reports().contains_key(keys_view(keys@)[i as int]));
                return false;
            }
        }
        true
    }
}

/// Whether every one of the tasks has reported.
pub open spec fn all_reported(reports: Reports, keys: Seq<TaskKeyView>) -> bool {
    forall|i: int| 0 <= i < keys.len() ==> reports.contains_key(#[trigger] keys[i])
}

/// The metrics of one task, as a worker sends them.
#[derive(Debug)]
pub struct TaskMetrics {
    pub task_key: Option<TaskKey>,
    pub metrics: Vec<MetricsSet>,
}

/// A message from a worker.
#[derive(Debug)]
pub enum WorkerMessage {
    MetricsCollection(Vec<TaskMetrics>),
    Other,
}

/// What comes out of the stream of a worker's messages.
#[derive(Debug)]
pub enum WorkerEvent {
    Message(WorkerMessage),
    Failed,
    Closed,
}

/// The reports after those of some tasks, each in its turn; metrics without a task are dropped.
pub open spec fn collected(reports: Reports, tasks: Seq<TaskMetrics>) -> Reports
    decreases tasks.len(),
{
    if tasks.len() == 0 {
        reports
    } else {
        let before = collected(reports, tasks.drop_last());
        match tasks.last().task_key {
            Some(key) => before.insert(key@, metrics_view(tasks.last().metrics@)),
            None => before,
        }
    }
}

/// The count of reports after those of some tasks.
pub open spec fn counted(count: usize, tasks: Seq<TaskMetrics>) -> usize
    decreases tasks.len(),
{
    if tasks.len() == 0 {
        count
    } else {
        let before = counted(count, tasks.drop_last());
        if tasks.last().task_key is Some {
            before.wrapping_add(1)
        } else {
            before
        }
    }
}

/// The count of reports after an event.
pub open spec fn count_after_event(count: usize, event: WorkerEvent) -> usize {
    match event {
        WorkerEvent::Message(WorkerMessage::MetricsCollection(tasks)) => counted(count, tasks@),
        _ => count,
    }
}

/// The reports after an event.
pub open spec fn after_event(reports: Reports, event: WorkerEvent) -> Reports {
    match event {
        WorkerEvent::Message(WorkerMessage::MetricsCollection(tasks)) => collected(reports, tasks@),
        _ => reports,
    }
}

impl MetricsStore {
    /// Takes in what the stream of a worker gave. The stream is to be read on while it gives
    /// messages; one that fails or closes gives no more.
    pub fn on_worker_event(&mut self, event: WorkerEvent) -> (read_on: bool)
        ensures
            final(self).reports() == after_event(old(self).reports(), event),
            final(self).notifications() == count_after_event(old(self).notifications(), event),
            read_on == (event is Message),
    {
        match event {
            WorkerEvent::Message(WorkerMessage::MetricsCollection(tasks)) => {
                let ghost all = tasks@;
                let ghost start = self.reports();
                let ghost count = self.notifications();
                assert(all.take(0) =~= Seq::empty());
                for task in it: tasks
                    invariant
                        it.seq() == all,
                        start == old(self).reports(),
                        count == old(self).notifications(),
                        self.reports() == collected(start, all.take(it.index() as int)),
                        self.notifications() == counted(count, all.take(it.index() as int)),
                {
                    assert(all.take(it.index() + 1).drop_last() =~= all.take(it.index() as int));
                    match task.task_key {
                        Some(key) => self.insert(key, task.metrics),
                        None => {},
                    }
                }
                assert(all.take(all.len() as int) =~= all);
                true
            },
            WorkerEvent::Message(WorkerMessage::Other) => true,
            WorkerEvent::Failed | WorkerEvent::Closed => false,
        }
    }
}

/// A task that has reported stays reported, whatever workers send.
pub proof fn reports_are_never_lost(reports: Reports, event: WorkerEvent, key: TaskKeyView)
    requires
        reports.contains_key(key),
    ensures
        after_event(reports, event).contains_key(key),
{
    if let WorkerEvent::Message(WorkerMessage::MetricsCollection(tasks)) = event {
        lemma_collected_keeps(reports, tasks@, key);
    }
}

proof fn lemma_collected_keeps(reports: Reports, tasks: Seq<TaskMetrics>, key: TaskKeyView)
    requires
        reports.contains_key(key),
    ensures
        collected(reports, tasks).contains_key(key),
    decreases tasks.len(),
{
    if tasks.len() > 0 {
        lemma_collected_keeps(reports, tasks.drop_last(), key);
    }
}

/// Every task named in a collection of metrics has reported once it is taken in, and the last of
/// its metrics count.
pub proof fn a_named_task_reports(reports: Reports, tasks: Seq<TaskMetrics>, i: int)
    requires
        0 <= i < tasks.len(),
        tasks[i].task_key is Some,
        forall|j: int|
            i < j < tasks.len() ==> (#[trigger] tasks[j]).task_key is None || tasks[j].task_key->0@
                != tasks[i].task_key->0@,
    ensures
        collected(reports, tasks).contains_key(tasks[i].task_key->0@),
        collected(reports, tasks)[tasks[i].task_key->0@] == metrics_view(tasks[i].metrics@),
    decreases tasks.len(),
{
    if i < tasks.len() - 1 {
        let front = tasks.drop_last();
        assert(front[i] == tasks[i]);
        assert forall|j: int| i < j < front.len() implies (#[trigger] front[j]).task_key is None
            || front[j].task_key->0@ != front[i].task_key->0@ by {
            assert(front[j] == tasks[j]);
        }
        a_named_task_reports(reports, front, i);
        assert(tasks[tasks.len() - 1] == tasks.last());
    }
}

/// How many of some metrics name a task.
pub open spec fn named_tasks(tasks: Seq<TaskMetrics>) -> nat
    decreases tasks.len(),
{
    if tasks.len() == 0 {
        0
    } else {
        named_tasks(tasks.drop_last()) + if tasks.last().task_key is Some {
            1nat
        } else {
            0nat
        }
    }
}

/// Whoever watches the count notices every report: it moves on with each, and never stays the same
/// when something was reported.
pub proof fn every_report_is_noticed(count: usize, tasks: Seq<TaskMetrics>)
    requires
        0 < named_tasks(tasks) <= usize::MAX,
    ensures
        counted(count, tasks) != count,
{
    lemma_counted(count, tasks);
    let modulus = usize::MAX as int + 1;
    if count + named_tasks(tasks) < modulus {
        vstd::arithmetic::div_mod::lemma_small_mod(
            (count + named_tasks(tasks)) as nat,
            modulus as nat,
        );
    } else {
        let rest = count + named_tasks(tasks) - modulus;
        vstd::arithmetic::div_mod::lemma_small_mod(rest as nat, modulus as nat);
        vstd::arithmetic::div_mod::lemma_mod_sub_multiples_vanish(
            count + named_tasks(tasks),
            modulus,
        );
    }
}

proof fn lemma_counted(count: usize, tasks: Seq<TaskMetrics>)
    ensures
        counted(count, tasks) == (count + named_tasks(tasks)) % (usize::MAX as int + 1),
    decreases tasks.len(),
{
    let modulus = usize::MAX as int + 1;
    if tasks.len() == 0 {
        vstd::arithmetic::div_mod::lemma_small_mod(count as nat, modulus as nat);
    } else {
        lemma_counted(count, tasks.drop_last());
        if tasks.last().task_key is Some {
            let sum = count + named_tasks(tasks.drop_last());
            let before = counted(count, tasks.drop_last()) as int;
            vstd::arithmetic::div_mod::lemma_add_mod_noop(sum, 1, modulus);
            vstd::arithmetic::div_mod::lemma_small_mod(1, modulus as nat);
            if before + 1 < modulus {
                vstd::arithmetic::div_mod::lemma_small_mod((before + 1) as nat, modulus as nat);
            } else {
                vstd::arithmetic::div_mod::lemma_mod_self_0(modulus);
            }
        }
    }
}

/// A task that reports again does not stand in for one that has not reported.
pub proof fn a_second_report_fills_no_slot(
    reports: Reports,
    key: TaskKeyView,
    metrics: Seq<Seq<u8>>,
    keys: Seq<TaskKeyView>,
)
    requires
        reports.contains_key(key),
    ensures
        all_reported(reports.insert(key, metrics), keys) <==> all_reported(reports, keys),
{
    let after = reports.insert(key, metrics);
    assert forall|i: int| 0 <= i < keys.len() implies after.contains_key(#[trigger] keys[i])
        == reports.contains_key(keys[i]) by {}
    if all_reported(after, keys) {
        assert forall|i: int| 0 <= i < keys.len() implies reports.contains_key(
            #[trigger] keys[i],
        ) by {
            assert(after.contains_key(keys[i]));
        }
    }
}

/// The number of microseconds that is recorded of a longer measurement: its low 64 bits.
pub open spec fn recorded_micros(elapsed: u128) -> u64 {
    (elapsed % 0x1_0000_0000_0000_0000) as u64
}

/// Latency statistics: the largest latency, the sum of all of them and their number. Sum and number
/// wrap around.
#[derive(Debug)]
pub struct LatencyMetric {
    pub max_latency_micros: u64,
    pub sum_latency_micros: u64,
    pub count_latency_micros: u64,
}

impl LatencyMetric {
    /// Statistics without measurements.
    pub fn new() -> (r: Self)
        ensures
            r == after_latencies(Seq::empty()),
            r.max_latency_micros == 0,
            r.sum_latency_micros == 0,
            r.count_latency_micros == 0,
    {
        LatencyMetric {
            max_latency_micros: 0,
            sum_latency_micros: 0,
            count_latency_micros: 0,
        }
    }

    /// The names under which the largest and the average latency are published.
    pub fn metric_names(name: &str) -> (r: (String, String))
        ensures
            r.0@ == name@ + "_max"@,
            r.1@ == name@ + "_avg"@,
    {
        (joined(name, "_max"), joined(name, "_avg"))
    }

    /// What the statistics become with one more latency.
    pub open spec fn with_latency(self, micros: u64) -> Self {
        LatencyMetric {
            max_latency_micros: if micros > self.max_latency_micros {
                micros
            } else {
                self.max_latency_micros
            },
            sum_latency_micros: self.sum_latency_micros.wrapping_add(micros),
            count_latency_micros: self.count_latency_micros.wrapping_add(1),
        }
    }

    /// Records the microseconds that something took.
    pub fn record(&mut self, elapsed_micros: u128)
        ensures
            *final(self) == old(self).with_latency(recorded_micros(elapsed_micros)),
            ({
                let micros = elapsed_micros % 0x1_0000_0000_0000_0000;
                &&& final(self).max_latency_micros >= old(self).max_latency_micros
                &&& final(self).max_latency_micros >= micros
                &&& final(self).max_latency_micros == old(self).max_latency_micros
                    || final(self).max_latency_micros == micros
                &&& final(self).sum_latency_micros == (old(self).sum_latency_micros + micros)
                    % 0x1_0000_0000_0000_0000
                &&& final(self).count_latency_micros == (old(self).count_latency_micros + 1)
                    % 0x1_0000_0000_0000_0000
            }),
    {
        assert(elapsed_micros % 0x1_0000_0000_0000_0000 == (elapsed_micros as u64) as u128)
            by (bit_vector);
        let micros: u64 = #[verifier::truncate]
        (elapsed_micros as u64);
        if micros > self.max_latency_micros {
            self.max_latency_micros = micros;
        }
        self.sum_latency_micros = self.sum_latency_micros.wrapping_add(micros);
        self.count_latency_micros = self.count_latency_micros.wrapping_add(1);
    }

    /// The largest latency, in microseconds.
    pub fn max_micros(&self) -> (r: u64)
        ensures
            r == self.max_latency_micros,
    {
        self.max_latency_micros
    }

    /// The average latency, in whole microseconds; zero without measurements.
    pub open spec fn average(self) -> u64 {
        self.sum_latency_micros / if self.count_latency_micros > 1 {
            self.count_latency_micros
        } else {
            1
        }
    }

    /// The average latency, in whole microseconds; zero without measurements.
    pub fn avg_micros(&self) -> (r: u64)
        ensures
            r == self.average(),
            self.count_latency_micros > 0 ==> r == self.sum_latency_micros
                / self.count_latency_micros,
            self.count_latency_micros == 0 ==> r == self.sum_latency_micros,
    {
        let count: u64 = if self.count_latency_micros > 1 {
            self.count_latency_micros
        } else {
            1
        };
        self.sum_latency_micros / count
    }
}

/// The statistics of a series of latencies.
pub open spec fn after_latencies(latencies: Seq<u64>) -> LatencyMetric
    decreases latencies.len(),
{
    if latencies.len() == 0 {
        LatencyMetric { max_latency_micros: 0, sum_latency_micros: 0, count_latency_micros: 0 }
    } else {
        after_latencies(latencies.drop_last()).with_latency(latencies.last())
    }
}

/// The sum of a series of latencies.
pub open spec fn total_latency(latencies: Seq<u64>) -> nat
    decreases latencies.len(),
{
    if latencies.len() == 0 {
        0
    } else {
        total_latency(latencies.drop_last()) + latencies.last() as nat
    }
}

/// The published maximum is the largest latency recorded, and, while the sum of the latencies fits
/// the counter, the published average is their sum over their number.
pub proof fn latency_statistics_are_exact(latencies: Seq<u64>)
    requires
        0 < latencies.len() <= u64::MAX,
        total_latency(latencies) <= u64::MAX,
    ensures
        latencies.contains(after_latencies(latencies).max_latency_micros),
        forall|i: int|
            0 <= i < latencies.len() ==> #[trigger] latencies[i] <= after_latencies(
                latencies,
            ).max_latency_micros,
        after_latencies(latencies).average() == total_latency(latencies) / latencies.len(),
{
    lemma_latency_sums(latencies);
    lemma_latency_max(latencies);
}

proof fn lemma_latency_sums(latencies: Seq<u64>)
    requires
        latencies.len() <= u64::MAX,
        total_latency(latencies) <= u64::MAX,
    ensures
        after_latencies(latencies).sum_latency_micros == total_latency(latencies),
        after_latencies(latencies).count_latency_micros == latencies.len(),
    decreases latencies.len(),
{
    if latencies.len() > 0 {
        lemma_latency_sums(latencies.drop_last());
    }
}

proof fn lemma_latency_max(latencies: Seq<u64>)
    ensures
        latencies.len() > 0 ==> latencies.contains(after_latencies(latencies).max_latency_micros),
        forall|i: int|
            0 <= i < latencies.len() ==> #[trigger] latencies[i] <= after_latencies(
                latencies,
            ).max_latency_micros,
    decreases latencies.len(),
{
    if latencies.len() > 0 {
        let front = latencies.drop_last();
        let largest = after_latencies(front).max_latency_micros;
        lemma_latency_max(front);
        assert(latencies.last() == latencies[latencies.len() - 1]);
        assert forall|i: int| 0 <= i < latencies.len() implies #[trigger] latencies[i]
            <= after_latencies(latencies).max_latency_micros by {
            if i < front.len() {
                assert(front[i] == latencies[i]);
            }
        }
        if front.len() > 0 {
            let i = choose|i: int| 0 <= i < front.len() && front[i] == largest;
            assert(latencies[i] == largest);
        } else {
            assert(after_latencies(front).max_latency_micros == 0);
            assert(after_latencies(latencies).max_latency_micros == latencies.last());
        }
    }
}

/// All of some tasks have reported if and only if each of them has.
pub proof fn each_task_has_to_report(reports: Reports, keys: Seq<TaskKeyView>)
    ensures
        all_reported(reports, keys) <==> forall|key: TaskKeyView| #[trigger]
            keys.contains(key) ==> reports.contains_key(key),
        all_reported(reports, Seq::empty()),
{
    if all_reported(reports, keys) {
        assert forall|key: TaskKeyView| #[trigger] keys.contains(key) implies reports.contains_key(
            key,
        ) by {
            let i = keys.index_of(key);
            assert(reports.contains_key(keys[i]));
        }
    }
    if forall|key: TaskKeyView| #[trigger] keys.contains(key) ==> reports.contains_key(key) {
        assert forall|i: int| 0 <= i < keys.len() implies reports.contains_key(
            #[trigger] keys[i],
        ) by {
            assert(keys.contains(keys[i]));
        }
    }
}

/// Only metrics that name a task change what is reported: what a task reported stays as it is, or
/// stays missing, unless the task is named.
pub proof fn an_unnamed_task_reports_nothing(
    reports: Reports,
    tasks: Seq<TaskMetrics>,
    key: TaskKeyView,
)
    requires
        forall|i: int|
            0 <= i < tasks.len() ==> ((#[trigger] tasks[i]).task_key matches Some(named)
                ==> named@ != key),
    ensures
        collected(reports, tasks).contains_key(key) <==> reports.contains_key(key),
        collected(reports, tasks)[key] == reports[key],
    decreases tasks.len(),
{
    if tasks.len() > 0 {
        let front = tasks.drop_last();
        assert forall|i: int| 0 <= i < front.len() implies ((
        #[trigger] front[i]).task_key matches Some(named) ==> named@ != key) by {
            assert(front[i] == tasks[i]);
        }
        an_unnamed_task_reports_nothing(reports, front, key);
        assert(tasks[tasks.len() - 1] == tasks.last());
    }
}

/// Metrics that come in two parts are taken in as if they came in one.
pub proof fn reports_are_taken_in_turn(
    reports: Reports,
    count: usize,
    first: Seq<TaskMetrics>,
    second: Seq<TaskMetrics>,
)
    ensures
        collected(reports, first + second) == collected(collected(reports, first), second),
        counted(count, first + second) == counted(counted(count, first), second),
    decreases second.len(),
{
    if second.len() == 0 {
        assert(first + second =~= first);
    } else {
        reports_are_taken_in_turn(reports, count, first, second.drop_last());
        assert((first + second).drop_last() =~= first + second.drop_last());
        assert((first + second).last() == second.last());
    }
}

/// The metrics of one task are stored under its key in place of those before, and count as one
/// report. Metrics without a task are neither stored nor counted.
pub proof fn one_report_is_stored_and_counted(reports: Reports, count: usize, task: TaskMetrics)
    ensures
        task.task_key matches Some(key) ==> {
            &&& collected(reports, seq![task]) == reports.insert(
                key@,
                metrics_view(task.metrics@),
            )
            &&& counted(count, seq![task]) == (count + 1) % (usize::MAX as int + 1)
        },
        task.task_key is None ==> {
            &&& collected(reports, seq![task]) == reports
            &&& counted(count, seq![task]) == count
        },
{
    let tasks = seq![task];
    assert(tasks.drop_last() =~= Seq::empty());
    assert(collected(reports, tasks.drop_last()) == reports);
    assert(counted(count, tasks.drop_last()) == count);
    lemma_counted(count, tasks);
    assert(named_tasks(tasks.drop_last()) == 0);
}

/// A collection of metrics is taken in, task by task. Any other message, a failure and the end of
/// the stream change nothing.
pub proof fn only_metrics_are_taken_in(reports: Reports, count: usize, event: WorkerEvent)
    ensures
        event matches WorkerEvent::Message(WorkerMessage::MetricsCollection(tasks)) ==> {
            &&& after_event(reports, event) == collected(reports, tasks@)
            &&& count_after_event(count, event) == counted(count, tasks@)
        },
        !(event matches WorkerEvent::Message(WorkerMessage::MetricsCollection(_))) ==> {
            &&& after_event(reports, event) == reports
            &&& count_after_event(count, event) == count
        },
{
}

/// The views of metrics leave nothing out and keep their order.
pub proof fn metrics_are_seen_whole(metrics: Seq<MetricsSet>, value: Seq<Vec<u8>>)
    ensures
        metrics_view(metrics).len() == metrics.len(),
        forall|i: int|
            0 <= i < metrics.len() ==> #[trigger] metrics_view(metrics)[i] == metrics[i].encoded@,
        bytes_view(value).len() == value.len(),
        forall|i: int| 0 <= i < value.len() ==> #[trigger] bytes_view(value)[i] == value[i]@,
        held(None) is None,
        forall|held_metrics: Vec<MetricsSet>| #[trigger]
            held(Some(held_metrics)) == Some(metrics_view(held_metrics@)),
{
}

/// One more latency raises the maximum to it if it is larger, adds to the sum, and counts once.
pub proof fn what_one_latency_adds(metric: LatencyMetric, micros: u64)
    ensures
        ({
            let after = metric.with_latency(micros);
            &&& after.max_latency_micros >= metric.max_latency_micros
            &&& after.max_latency_micros >= micros
            &&& after.max_latency_micros == metric.max_latency_micros || after.max_latency_micros
                == micros
            &&& after.sum_latency_micros == (metric.sum_latency_micros + micros)
                % 0x1_0000_0000_0000_0000
            &&& after.count_latency_micros == (metric.count_latency_micros + 1)
                % 0x1_0000_0000_0000_0000
        }),
{
}

/// A measurement that fits 64 bits is recorded as it is, and one that does not loses what is above
/// them.
pub proof fn what_is_recorded_of_a_measurement(elapsed: u128)
    ensures
        elapsed <= u64::MAX ==> recorded_micros(elapsed) == elapsed,
        recorded_micros(elapsed) == elapsed % 0x1_0000_0000_0000_0000,
{
}

/// Latencies are added up, and their order does not matter for the sum.
pub proof fn latencies_are_added_up(first: Seq<u64>, second: Seq<u64>, latency: u64)
    ensures
        total_latency(first + second) == total_latency(first) + total_latency(second),
        total_latency(seq![latency]) == latency,
        after_latencies(first.push(latency)) == after_latencies(first).with_latency(latency),
        after_latencies(Seq::empty()).average() == 0,
    decreases second.len(),
{
    assert(seq![latency].drop_last() =~= Seq::empty());
    assert(total_latency(seq![latency].drop_last()) == 0);
    assert(first.push(latency).drop_last() =~= first);
    if second.len() == 0 {
        assert(first + second =~= first);
    } else {
        latencies_are_added_up(first, second.drop_last(), latency);
        assert((first + second).drop_last() =~= first + second.drop_last());
    }
}

/// What is told of a store is what it holds.
proof fn a_store_is_seen_whole(store: MetricsStore)
    ensures
        store.reports() == map_contents(store.map),
        store.notifications() == store.count,
{
}

} // verus!
