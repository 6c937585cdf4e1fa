//! The node at the head of a distributed plan: it prepares the plan under it when it is executed,
//! and keeps what the workers report about it.

use crate::metrics::{
    after_event, all_reported, each_task_has_to_report, no_reports, reports_are_never_lost,
    MetricsStore, Reports, WorkerEvent,
};
use crate::plan::{
    every_task_is_expected, expected_keys, lies_at, names_task, node_at, only_tasks_are_expected,
    PlanNode, PlanView, StageView, TaskKeyView,
};
use crate::prepare::{
    every_expected_task_is_sent_once, needs_worker, outcome, prepare_plan, sends_of, sends_view,
    sent_keys, stages, texts, PlanSend, PlanSendView, PrepareError, StageChoice,
};
use crate::text::{decimal, decimal_text, joined};
use vstd::prelude::*;

verus! {

/// Executes the plan under it in distributed mode: on execution the tasks of all its stages are
/// given workers, and the plan that runs is cut at its network boundaries.
pub struct DistributedExec {
    pub plan: PlanNode,
    pub prepared_plan: Option<PlanNode>,
    pub task_metrics: MetricsStore,
}

/// Why a distributed plan could not be executed.
#[derive(Debug)]
pub enum ExecuteError<E> {
    /// It has one partition only, and this other one was asked for.
    Partition(usize),
    /// It could not be prepared.
    Prepare(PrepareError<E>),
}

/// A plan that has not been executed has no prepared plan.
#[derive(Debug)]
pub struct NoPreparedPlan;

/// A node was given this number of children in place of one.
#[derive(Debug)]
pub struct WrongChildCount(pub usize);

/// Whether metrics have to be waited for.
#[derive(Clone, Copy, Debug, PartialEq, Eq, Structural)]
pub enum MetricsWait {
    /// Every task has reported.
    Complete,
    /// Some task has not; the answer can change with the next report.
    Pending,
}

/// The message for a partition that a distributed plan does not have.
pub fn partition_message(partition: usize) -> (r: String)
    ensures
        r@ == "DistributedExec must only have 1 partition, but it was called with partition index "@
            + decimal(partition as nat),
{
    joined(
        "DistributedExec must only have 1 partition, but it was called with partition index ",
        decimal_text(partition as u64).as_str(),
    )
}

/// Refuses a partition that a distributed plan does not have.
pub fn check_partition(partition: usize) -> (r: Result<(), String>)
    ensures
        match r {
            Ok(()) => partition == 0,
            Err(message) => partition > 0 && message@
                == "DistributedExec must only have 1 partition, but it was called with partition index "@
                + decimal(partition as nat),
        },
{
    if partition > 0 {
        Err(partition_message(partition))
    } else {
        Ok(())
    }
}

impl NoPreparedPlan {
    pub fn message(&self) -> (r: String)
        ensures
            r@ == "No prepared plan found. Was execute() called?"@,
    {
        "No prepared plan found. Was execute() called?".to_string()
    }
}

impl DistributedExec {
    /// Puts a plan under a node that was not executed yet.
    pub fn new(plan: PlanNode) -> (r: Self)
        ensures
            r.plan == plan,
            r.prepared_plan is None,
            r.task_metrics.reports() == no_reports(),
            r.task_metrics.notifications() == 0,
    {
        DistributedExec { plan, prepared_plan: None, task_metrics: MetricsStore::new() }
    }

    pub fn name(&self) -> (r: &'static str)
        ensures
            r@ == "DistributedExec"@,
    {
        "DistributedExec"
    }

    /// The plan under this node is its only child.
    pub fn children(&self) -> (r: Vec<&PlanNode>)
        ensures
            r@ == seq![&self.plan],
    {
        let mut children: Vec<&PlanNode> = Vec::new();
        children.push(&self.plan);
        assert(children@ =~= seq![&self.plan]);
        children
    }

    /// Whether every task of the plan has reported its metrics.
    ///
    /// The plan that counts is the one this node was made for. The prepared plan does not show the
    /// stages under its boundaries any more.
    pub fn wait_for_metrics(&self) -> (r: MetricsWait)
        ensures
            r is Complete <==> all_reported(
                self.task_metrics.reports(),
                expected_keys(self.plan@),
            ),
    {
        let keys = self.plan.expected_keys();
        if self.task_metrics.contains_all(&keys) {
            MetricsWait::Complete
        } else {
            MetricsWait::Pending
        }
    }

    /// The plan that the last execution prepared.
    pub fn prepared_plan(&self) -> (r: Result<&PlanNode, NoPreparedPlan>)
        ensures
            match r {
                Ok(plan) => self.prepared_plan == Some(*plan),
                Err(_) => self.prepared_plan is None,
            },
    {
        match &self.prepared_plan {
            Some(plan) => Ok(plan),
            None => Err(NoPreparedPlan),
        }
    }

    /// Prepares the plan under this node for the workers at `urls` and keeps the result. The
    /// requests that hand the stages to the workers are added to `sends`, and are to be sent even
    /// where a later stage fails.
    ///
    /// Executing twice would give the tasks other workers, so there is a single partition.
    pub fn execute<E, Enc: Fn(&PlanNode) -> Result<Vec<u8>, E>>(
        &mut self,
        partition: usize,
        urls: &Vec<String>,
        encode: &Enc,
        sends: &mut Vec<PlanSend>,
    ) -> (r: Result<(), ExecuteError<E>>)
        requires
            forall|plan: PlanNode| (*encode).requires((&plan,)),
            partition > 0 || urls@.len() > 0 || !needs_worker(stages(old(self).plan@)),
        ensures
            partition > 0 ==> {
                &&& r == Err::<(), ExecuteError<E>>(ExecuteError::Partition(partition))
                &&& *final(self) == *old(self)
                &&& final(sends)@ == old(sends)@
            },
            partition == 0 ==> exists|
                choices: Seq<StageChoice>,
                result: Result<PlanView, PrepareError<E>>,
                added: Seq<PlanSendView>,
            |
                {
                    &&& #[trigger] outcome(
                        old(self).plan@,
                        texts(urls@),
                        choices,
                        *encode,
                        result,
                        added,
                    )
                    &&& sends_view(final(sends)@) == sends_view(old(sends)@) + added
                    &&& final(self).plan == old(self).plan
                    &&& final(self).task_metrics == old(self).task_metrics
                    &&& match result {
                        Ok(plan) => {
                            &&& r is Ok
                            &&& final(self).prepared_plan matches Some(done) && done@ == plan
                        },
                        Err(error) => {
                            &&& r == Err::<(), ExecuteError<E>>(ExecuteError::Prepare(error))
                            &&& final(self).prepared_plan == old(self).prepared_plan
                        },
                    }
                },
    {
        if partition > 0 {
            return Err(ExecuteError::Partition(partition));
        }
        match prepare_plan(&self.plan, urls, encode, sends) {
            Ok(done) => {
                self.prepared_plan = Some(done);
                Ok(())
            },
            Err(error) => Err(ExecuteError::Prepare(error)),
        }
    }

    /// Puts another plan under this node. What was prepared and reported stays.
    pub fn with_new_children(self, children: Vec<PlanNode>) -> (r: Result<Self, WrongChildCount>)
        ensures
            match r {
                Ok(node) => {
                    &&& children@.len() == 1
                    &&& node.plan == children@[0]
                    &&& node.prepared_plan == self.prepared_plan
                    &&& node.task_metrics == self.task_metrics
                },
                Err(WrongChildCount(count)) => count == children@.len() && count != 1,
            },
    {
        let mut children = children;
        if children.len() != 1 {
            return Err(WrongChildCount(children.len()));
        }
        match children.pop() {
            Some(plan) => Ok(
                DistributedExec {
                    plan,
                    prepared_plan: self.prepared_plan,
                    task_metrics: self.task_metrics,
                },
            ),
            None => Err(WrongChildCount(0)),
        }
    }
}

/// The first failure in a series of results.
pub open spec fn first_failure<E>(results: Seq<Result<(), E>>) -> Result<(), E>
    decreases results.len(),
{
    if results.len() == 0 {
        Ok(())
    } else if results[0] is Err {
        results[0]
    } else {
        first_failure(results.drop_first())
    }
}

/// Whether all plans reached their workers, or else the first failure.
pub fn all_sent<E>(results: Vec<Result<(), E>>) -> (r: Result<(), E>)
    ensures
        r == first_failure(results@),
        r is Ok <==> forall|i: int| 0 <= i < results@.len() ==> (#[trigger] results@[i]) is Ok,
        r matches Err(error) ==> exists|i: int|
            {
                &&& 0 <= i < results@.len()
                &&& #[trigger] results@[i] == Err::<(), E>(error)
                &&& forall|j: int| 0 <= j < i ==> (#[trigger] results@[j]) is Ok
            },
{
    let ghost all = results@;
    proof {
        the_first_failure_is_reported(all);
    }
    assert(all.skip(0) =~= all);
    #[verifier::loop_isolation(false)]
    for result in it: results
        invariant
            it.seq() == all,
            first_failure(all) == first_failure(all.skip(it.index() as int)),
    {
        let ghost rest = all.skip(it.index() as int);
        assert(rest.drop_first() =~= all.skip(it.index() + 1));
        match result {
            Ok(()) => {},
            Err(error) => {
                return Err(error);
            },
        }
    }
    Ok(())
}

/// Once every task that was sent a plan has reported, all metrics are there, and not before.
pub proof fn metrics_are_complete_when_all_sent_tasks_report(
    plan: PlanView,
    urls: Seq<Seq<char>>,
    choices: Seq<StageChoice>,
    reports: Reports,
)
    requires
        choices.len() == stages(plan).len(),
    ensures
        all_reported(reports, expected_keys(plan)) <==> all_reported(
            reports,
            sent_keys(sends_of(stages(plan), urls, choices)),
        ),
{
    let sent = sent_keys(sends_of(stages(plan), urls, choices));
    every_expected_task_is_sent_once(plan, urls, choices);
    if all_reported(reports, expected_keys(plan)) {
        lemma_same_keys_reported(reports, expected_keys(plan), sent);
    }
    if all_reported(reports, sent) {
        lemma_same_keys_reported(reports, sent, expected_keys(plan));
    }
}

proof fn lemma_same_keys_reported(
    reports: Reports,
    keys: Seq<TaskKeyView>,
    others: Seq<TaskKeyView>,
)
    requires
        keys.to_multiset() == others.to_multiset(),
        all_reported(reports, keys),
    ensures
        all_reported(reports, others),
{
    broadcast use vstd::seq_lib::group_to_multiset_ensures;

    assert forall|i: int| 0 <= i < others.len() implies reports.contains_key(
        #[trigger] others[i],
    ) by {
        assert(others.contains(others[i]));
        assert(others.to_multiset().count(others[i]) > 0);
        assert(keys.contains(others[i]));
        let k = choose|k: int| 0 <= k < keys.len() && keys[k] == others[i];
        assert(reports.contains_key(keys[k]));
    }
}

/// Complete metrics stay complete, whatever workers still send.
pub proof fn complete_metrics_stay_complete(
    reports: Reports,
    event: WorkerEvent,
    keys: Seq<TaskKeyView>,
)
    requires
        all_reported(reports, keys),
    ensures
        all_reported(after_event(reports, event), keys),
{
    assert forall|i: int| 0 <= i < keys.len() implies after_event(reports, event).contains_key(
        #[trigger] keys[i],
    ) by {
        reports_are_never_lost(reports, event, keys[i]);
    }
}

/// All plans count as sent if and only if each of them was. A failure that is reported is that of
/// one of them, and none before it failed.
pub proof fn the_first_failure_is_reported<E>(results: Seq<Result<(), E>>)
    ensures
        first_failure(results) is Ok <==> forall|i: int|
            0 <= i < results.len() ==> (#[trigger] results[i]) is Ok,
        first_failure(results) matches Err(error) ==> exists|i: int|
            {
                &&& 0 <= i < results.len()
                &&& #[trigger] results[i] == Err::<(), E>(error)
                &&& forall|j: int| 0 <= j < i ==> (#[trigger] results[j]) is Ok
            },
    decreases results.len(),
{
    if results.len() > 0 && results[0] is Ok {
        let rest = results.drop_first();
        the_first_failure_is_reported(rest);
        assert forall|i: int| 0 <= i < results.len() && first_failure(results) is Ok implies (
        #[trigger] results[i]) is Ok by {
            if i > 0 {
                assert(rest[i - 1] == results[i]);
            }
        }
        assert forall|i: int| 0 <= i < rest.len() implies rest[i] == #[trigger] results[i + 1] by {}
        if let Err(error) = first_failure(results) {
            let i = choose|i: int|
                {
                    &&& 0 <= i < rest.len()
                    &&& #[trigger] rest[i] == Err::<(), E>(error)
                    &&& forall|j: int| 0 <= j < i ==> (#[trigger] rest[j]) is Ok
                };
            assert(results[i + 1] == Err::<(), E>(error));
            assert forall|j: int| 0 <= j < i + 1 implies (#[trigger] results[j]) is Ok by {
                if j > 0 {
                    assert(rest[j - 1] == results[j]);
                }
            }
        }
    } else if results.len() > 0 {
        assert(results[0] is Err);
    }
}

/// Metrics are complete if and only if every task of every stage of the plan has reported, however
/// deep the stage lies.
pub proof fn metrics_are_complete_when_every_task_reports(plan: PlanView, reports: Reports)
    ensures
        all_reported(reports, expected_keys(plan)) <==> forall|
            path: Seq<int>,
            stage: StageView,
            task: int,
            key: TaskKeyView,
        | #[trigger]
            lies_at(plan, path, stage) && #[trigger] names_task(key, stage, task)
                ==> reports.contains_key(key),
{
    let keys = expected_keys(plan);
    each_task_has_to_report(reports, keys);
    if all_reported(reports, keys) {
        assert forall|path: Seq<int>, stage: StageView, task: int, key: TaskKeyView| #[trigger]
            lies_at(plan, path, stage) && #[trigger] names_task(
                key,
                stage,
                task,
            ) implies reports.contains_key(key) by {
            let index = node_at(plan, path)->0->index;
            every_task_is_expected(plan, path, index, stage, task);
            assert(keys.contains(key));
        }
    } else {
        let key = choose|key: TaskKeyView| #[trigger] keys.contains(key) && !reports.contains_key(key);
        only_tasks_are_expected(plan, key);
        let (path, stage, task) = choose|path: Seq<int>, stage: StageView, task: int|
            #[trigger] lies_at(plan, path, stage) && #[trigger] names_task(key, stage, task);
        assert(lies_at(plan, path, stage) && names_task(key, stage, task));
    }
}

} // verus!
