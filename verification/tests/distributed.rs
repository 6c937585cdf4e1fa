use datafusion_distributed::distributed::{
    all_sent, check_partition, partition_message, DistributedExec, ExecuteError, MetricsWait,
    NoPreparedPlan, WrongChildCount,
};
use datafusion_distributed::metrics::{
    LatencyMetric, MetricsSet, MetricsStore, TaskMetrics, WorkerEvent, WorkerMessage,
};
use datafusion_distributed::plan::{ExecutionTask, OperatorKind, PlanNode, Stage, TaskKey};
use datafusion_distributed::prepare::PrepareError;

fn leaf() -> PlanNode {
    PlanNode::Operator { kind: OperatorKind::Plan(0), children: Vec::new() }
}

fn distributed(tasks: usize, plan: Option<PlanNode>) -> PlanNode {
    PlanNode::Boundary {
        index: 1,
        stage: Stage {
            query_id: vec![1],
            num: 5,
            plan: plan.map(Box::new),
            tasks: (0..tasks).map(|_| ExecutionTask { url: None }).collect(),
        },
    }
}

fn key(task: u64) -> TaskKey {
    TaskKey { query_id: vec![1], stage_id: 5, task_number: task }
}

fn set(byte: u8) -> MetricsSet {
    MetricsSet { encoded: vec![byte] }
}

fn report(task: u64, byte: u8) -> WorkerEvent {
    WorkerEvent::Message(WorkerMessage::MetricsCollection(vec![TaskMetrics {
        task_key: Some(key(task)),
        metrics: vec![set(byte)],
    }]))
}

fn encode(_: &PlanNode) -> Result<Vec<u8>, String> {
    Ok(vec![0; 10])
}

fn workers() -> Vec<String> {
    vec!["http://a".to_string()]
}

#[test]
fn executing_prepares_the_plan_and_sends_it() {
    let mut exec = DistributedExec::new(distributed(2, Some(leaf())));
    assert_eq!(exec.name(), "DistributedExec");
    assert_eq!(exec.children().len(), 1);
    assert!(exec.prepared_plan().is_err());

    let mut sends = Vec::new();
    exec.execute(0, &workers(), &encode, &mut sends).expect("an execution");
    assert_eq!(sends.len(), 2);
    match exec.prepared_plan() {
        Ok(PlanNode::Boundary { stage, .. }) => {
            assert!(stage.plan.is_none());
            assert_eq!(stage.tasks[1].url.as_deref(), Some("http://a"));
        }
        _ => panic!("expected a prepared boundary"),
    }
    // The plan under the node stays whole.
    assert!(matches!(&exec.plan, PlanNode::Boundary { stage, .. } if stage.plan.is_some()));
}

#[test]
fn there_is_one_partition_only() {
    let mut exec = DistributedExec::new(distributed(2, Some(leaf())));
    let mut sends = Vec::new();
    match exec.execute(3, &Vec::new(), &encode, &mut sends) {
        Err(ExecuteError::Partition(partition)) => assert_eq!(
            partition_message(partition),
            "DistributedExec must only have 1 partition, but it was called with partition index 3"
        ),
        _ => panic!("expected an error"),
    }
    assert!(sends.is_empty());
    assert!(exec.prepared_plan().is_err());
    assert_eq!(check_partition(0), Ok(()));
    assert_eq!(check_partition(12), Err(partition_message(12)));
}

#[test]
fn an_execution_that_fails_keeps_the_last_prepared_plan() {
    let mut exec = DistributedExec::new(distributed(1, None));
    exec.prepared_plan = Some(leaf());
    let mut sends = Vec::new();
    assert!(matches!(
        exec.execute(0, &workers(), &encode, &mut sends),
        Err(ExecuteError::Prepare(PrepareError::PlanNotSet(5)))
    ));
    assert!(exec.prepared_plan().is_ok());

    let mut exec = DistributedExec::new(distributed(1, Some(leaf())));
    let refuse = |_: &PlanNode| -> Result<Vec<u8>, String> { Err("no codec".to_string()) };
    assert!(matches!(
        exec.execute(0, &workers(), &refuse, &mut sends),
        Err(ExecuteError::Prepare(PrepareError::Encode(error))) if error == "no codec"
    ));
}

#[test]
fn a_plan_that_was_not_executed_says_so() {
    assert_eq!(
        NoPreparedPlan.message(),
        "No prepared plan found. Was execute() called?"
    );
}

#[test]
fn metrics_are_complete_once_every_task_has_reported() {
    let mut exec = DistributedExec::new(distributed(2, Some(leaf())));
    assert_eq!(exec.wait_for_metrics(), MetricsWait::Pending);
    assert!(exec.task_metrics.on_worker_event(report(0, 1)));
    // Two reports of one task do not stand for two tasks.
    assert!(exec.task_metrics.on_worker_event(report(0, 2)));
    assert_eq!(exec.task_metrics.notification_count(), 2);
    assert_eq!(exec.wait_for_metrics(), MetricsWait::Pending);
    assert!(exec.task_metrics.on_worker_event(report(1, 3)));
    assert_eq!(exec.wait_for_metrics(), MetricsWait::Complete);

    // Executing does not hide the stages that are waited for.
    let mut sends = Vec::new();
    exec.execute(0, &workers(), &encode, &mut sends).expect("an execution");
    assert_eq!(exec.wait_for_metrics(), MetricsWait::Complete);
    assert!(!exec.task_metrics.on_worker_event(WorkerEvent::Failed));
    assert_eq!(exec.wait_for_metrics(), MetricsWait::Complete);
}

#[test]
fn a_local_plan_has_no_metrics_to_wait_for() {
    assert_eq!(DistributedExec::new(leaf()).wait_for_metrics(), MetricsWait::Complete);
}

#[test]
fn a_node_has_one_child() {
    let mut exec = DistributedExec::new(distributed(1, Some(leaf())));
    exec.task_metrics.insert(key(0), vec![set(4)]);
    exec.prepared_plan = Some(leaf());
    let exec = exec.with_new_children(vec![leaf()]).ok().expect("another child");
    assert!(matches!(&exec.plan, PlanNode::Operator { .. }));
    assert!(exec.prepared_plan().is_ok());
    assert!(exec.task_metrics.contains(&key(0)));
    match exec.with_new_children(vec![leaf(), leaf()]) {
        Err(WrongChildCount(count)) => assert_eq!(count, 2),
        Ok(_) => panic!("expected an error"),
    }
    let exec = DistributedExec::new(leaf());
    assert!(matches!(exec.with_new_children(Vec::new()), Err(WrongChildCount(0))));
}

#[test]
fn stored_metrics_can_be_read_back() {
    let mut store = MetricsStore::new();
    assert!(!store.contains(&key(0)));
    assert!(store.metrics(&key(0)).is_none());
    assert!(store.contains_all(&Vec::new()));

    store.insert(key(0), vec![set(1), set(2)]);
    store.insert(key(1), Vec::new());
    store.insert(key(0), vec![set(3)]);
    assert_eq!(store.notification_count(), 3);
    assert!(store.contains_all(&vec![key(0), key(1)]));
    assert!(!store.contains_all(&vec![key(0), key(2)]));
    let metrics = store.metrics(&key(0)).expect("metrics");
    assert_eq!(metrics.len(), 1);
    assert_eq!(metrics[0].encoded, [3]);
    assert!(store.metrics(&key(1)).expect("metrics").is_empty());
    let other_query = TaskKey { query_id: vec![2], stage_id: 5, task_number: 0 };
    assert!(!store.contains(&other_query));
}

#[test]
fn worker_events_are_taken_in() {
    let mut store = MetricsStore::new();
    let collection = vec![
        TaskMetrics { task_key: Some(key(0)), metrics: vec![set(1)] },
        TaskMetrics { task_key: None, metrics: vec![set(2)] },
        TaskMetrics { task_key: Some(key(0)), metrics: vec![set(3)] },
    ];
    let event = WorkerEvent::Message(WorkerMessage::MetricsCollection(collection));
    assert!(store.on_worker_event(event));
    assert_eq!(store.notification_count(), 2);
    assert_eq!(store.metrics(&key(0)).expect("metrics")[0].encoded, [3]);

    assert!(store.on_worker_event(WorkerEvent::Message(WorkerMessage::Other)));
    assert!(!store.on_worker_event(WorkerEvent::Failed));
    assert!(!store.on_worker_event(WorkerEvent::Closed));
    assert_eq!(store.notification_count(), 2);
    assert!(store.contains(&key(0)));
}

#[test]
fn the_first_failure_counts() {
    let sent: Vec<Result<(), &str>> = vec![Ok(()), Ok(())];
    assert_eq!(all_sent(sent), Ok(()));
    assert_eq!(all_sent(vec![Ok(()), Err("first"), Ok(()), Err("second")]), Err("first"));
    assert_eq!(all_sent(Vec::<Result<(), &str>>::new()), Ok(()));
}

#[test]
fn latencies_are_summed_up() {
    let mut latency = LatencyMetric::new();
    assert_eq!((latency.max_micros(), latency.avg_micros()), (0, 0));
    for micros in [30, 10, 21] {
        latency.record(micros);
    }
    assert_eq!((latency.max_micros(), latency.avg_micros()), (30, 20));

    // What does not fit is cut off, and the counters wrap around.
    let mut latency = LatencyMetric::new();
    latency.record((1u128 << 64) + 5);
    assert_eq!((latency.max_micros(), latency.avg_micros()), (5, 5));
    latency.record(u64::MAX as u128);
    assert_eq!((latency.max_micros(), latency.avg_micros()), (u64::MAX, 2));

    assert_eq!(
        LatencyMetric::metric_names("plan_send_latency"),
        ("plan_send_latency_max".to_string(), "plan_send_latency_avg".to_string())
    );
}
