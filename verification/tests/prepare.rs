use datafusion_distributed::plan::{
    wrap_in_sampler, ExecutionTask, OperatorKind, PlanNode, Stage, TaskKey,
};
use datafusion_distributed::prepare::{
    dispatch_stage, missing_plan_message, plan_bytes_sent, prepare_plan, takes_workers, PlanSend,
    PrepareError,
};

fn operator(kind: usize, children: Vec<PlanNode>) -> PlanNode {
    PlanNode::Operator { kind: OperatorKind::Plan(kind), children }
}

fn stage(num: usize, tasks: usize, plan: Option<PlanNode>) -> Stage {
    Stage {
        query_id: vec![7, 7],
        num,
        plan: plan.map(Box::new),
        tasks: (0..tasks).map(|_| ExecutionTask { url: None }).collect(),
    }
}

fn boundary(index: usize, stage: Stage) -> PlanNode {
    PlanNode::Boundary { index, stage }
}

/// A plan with a stage (2 tasks) over another (3 tasks), next to a third (1 task).
fn nested() -> PlanNode {
    let inner = boundary(2, stage(1, 3, Some(operator(3, vec![]))));
    let outer = boundary(1, stage(2, 2, Some(operator(4, vec![inner]))));
    let other = boundary(5, stage(3, 1, Some(operator(6, vec![]))));
    operator(0, vec![outer, other])
}

fn urls() -> Vec<String> {
    vec!["http://a".to_string(), "http://b".to_string(), "http://c".to_string()]
}

/// Spells a plan: operators by number, boundaries by their stage and whether its plan is attached.
fn spell(plan: &PlanNode) -> String {
    match plan {
        PlanNode::Operator { kind, children } => {
            let name = match kind {
                OperatorKind::Plan(index) => index.to_string(),
                OperatorKind::Sampler => "sampler".to_string(),
            };
            let children: Vec<String> = children.iter().map(spell).collect();
            format!("{name}({})", children.join(","))
        }
        PlanNode::Boundary { index, stage } => {
            let input = stage.plan.as_ref().map_or("-".to_string(), |plan| spell(plan));
            format!("{index}<{}:{input}>", stage.num)
        }
    }
}

fn encode(plan: &PlanNode) -> Result<Vec<u8>, String> {
    Ok(spell(plan).into_bytes())
}

fn key(key: &TaskKey) -> (Vec<u8>, u64, u64) {
    (key.query_id.clone(), key.stage_id, key.task_number)
}

fn sent_keys(sends: &[PlanSend]) -> Vec<(u64, u64)> {
    sends
        .iter()
        .map(|send| {
            let key = send.request.task_key.as_ref().expect("a task key");
            assert_eq!(key.query_id, [7, 7]);
            (key.stage_id, key.task_number)
        })
        .collect()
}

#[test]
fn expected_keys_list_a_boundary_before_what_is_under_it() {
    let keys: Vec<(Vec<u8>, u64, u64)> = nested().expected_keys().iter().map(key).collect();
    let query = vec![7u8, 7];
    assert_eq!(
        keys,
        vec![
            (query.clone(), 2, 0),
            (query.clone(), 2, 1),
            (query.clone(), 1, 0),
            (query.clone(), 1, 1),
            (query.clone(), 1, 2),
            (query, 3, 0),
        ]
    );
    assert!(operator(0, vec![]).expected_keys().is_empty());
    // A stage without a plan still has its tasks.
    assert_eq!(boundary(0, stage(9, 2, None)).expected_keys().len(), 2);
}

#[test]
fn a_sampler_is_put_around_a_plan() {
    let sampled = wrap_in_sampler(nested());
    assert_eq!(spell(&sampled), format!("sampler({})", spell(&nested())));
    let keys = |plan: &PlanNode| plan.expected_keys().iter().map(key).collect::<Vec<_>>();
    assert_eq!(keys(&sampled), keys(&nested()));
}

#[test]
fn stages_are_prepared_from_the_leaves_up() {
    let mut sends = Vec::new();
    let plan = prepare_plan(&nested(), &urls(), &encode, &mut sends).expect("a prepared plan");

    // Every boundary keeps its place and loses its input.
    assert_eq!(spell(&plan), "0(1<2:->,5<3:->)");
    assert_eq!(sent_keys(&sends), vec![(1, 0), (1, 1), (1, 2), (2, 0), (2, 1), (3, 0)]);
    for send in &sends {
        let stage = send.request.task_key.as_ref().expect("a task key").stage_id;
        let (proto, tasks) = match stage {
            1 => ("3()", 3),
            // The stage under this one is sent without its plan.
            2 => ("4(2<1:->)", 2),
            _ => ("6()", 1),
        };
        assert_eq!(send.request.plan_proto, proto.as_bytes());
        assert_eq!(send.request.task_count, tasks);
    }
    assert_eq!(plan_bytes_sent(&sends), 3 * 3 + 2 * 9 + 3);
}

#[test]
fn every_expected_task_is_sent_its_plan_once() {
    let mut sends = Vec::new();
    prepare_plan(&nested(), &urls(), &encode, &mut sends).expect("a prepared plan");
    let mut sent = sent_keys(&sends);
    let mut expected: Vec<(u64, u64)> = nested()
        .expected_keys()
        .iter()
        .map(|key| (key.stage_id, key.task_number))
        .collect();
    sent.sort();
    expected.sort();
    assert_eq!(sent, expected);
}

#[test]
fn tasks_are_given_workers_in_turn() {
    for _ in 0..20 {
        let mut sends = Vec::new();
        let plan = boundary(0, stage(1, 7, Some(operator(1, vec![]))));
        let plan = prepare_plan(&plan, &urls(), &encode, &mut sends).expect("a prepared plan");
        let first = urls()
            .iter()
            .position(|url| *url == sends[0].url)
            .expect("one of the workers");
        let PlanNode::Boundary { stage, .. } = &plan else {
            panic!("expected a boundary");
        };
        assert_eq!(stage.tasks.len(), 7);
        for (i, send) in sends.iter().enumerate() {
            assert_eq!(send.url, urls()[(first + i) % 3]);
            assert_eq!(stage.tasks[i].url.as_deref(), Some(send.url.as_str()));
        }
        // Neighbours are never on one worker.
        assert!(sends.windows(2).all(|pair| pair[0].url != pair[1].url));
    }
}

#[test]
fn a_stage_is_dispatched_from_a_given_worker_on() {
    let mut sends = Vec::new();
    let dispatched = dispatch_stage(
        &stage(4, 4, Some(operator(1, vec![]))),
        &urls(),
        2,
        &vec![1, 2, 3],
        &mut sends,
    );
    assert!(dispatched.plan.is_none());
    assert_eq!((dispatched.num, dispatched.query_id), (4, vec![7, 7]));
    let assigned: Vec<&str> = dispatched
        .tasks
        .iter()
        .map(|task| task.url.as_deref().expect("a worker"))
        .collect();
    assert_eq!(assigned, ["http://c", "http://a", "http://b", "http://c"]);
    assert_eq!(sends.len(), 4);
    assert!(sends.iter().all(|send| send.request.plan_proto == [1, 2, 3]));
    assert!(sends.iter().all(|send| send.request.task_count == 4));
    assert_eq!(plan_bytes_sent(&sends), 12);
}

#[test]
fn a_stage_without_a_plan_cannot_be_prepared() {
    let first = boundary(1, stage(1, 2, Some(operator(2, vec![]))));
    let plan = operator(0, vec![first, boundary(3, stage(8, 1, None))]);
    let mut sends = Vec::new();
    match prepare_plan(&plan, &urls(), &encode, &mut sends) {
        Err(PrepareError::PlanNotSet(num)) => {
            assert_eq!(num, 8);
            assert_eq!(missing_plan_message(num), "Plan is not set for stage 8");
        }
        _ => panic!("expected an error"),
    }
    // What was prepared before is sent all the same.
    assert_eq!(sent_keys(&sends), vec![(1, 0), (1, 1)]);
}

#[test]
fn a_plan_that_cannot_be_encoded_cannot_be_prepared() {
    let refuse = |plan: &PlanNode| -> Result<Vec<u8>, String> {
        if spell(plan).starts_with('4') {
            Err(spell(plan))
        } else {
            encode(plan)
        }
    };
    let mut sends = Vec::new();
    match prepare_plan(&nested(), &urls(), &refuse, &mut sends) {
        Err(PrepareError::Encode(error)) => assert_eq!(error, "4(2<1:->)"),
        _ => panic!("expected an error"),
    }
    assert_eq!(sent_keys(&sends), vec![(1, 0), (1, 1), (1, 2)]);
}

#[test]
fn a_local_plan_needs_no_workers() {
    let plan = operator(0, vec![operator(1, vec![]), operator(2, vec![])]);
    let mut sends = Vec::new();
    let prepared = prepare_plan(&plan, &Vec::new(), &encode, &mut sends).expect("a prepared plan");
    assert_eq!(spell(&prepared), spell(&plan));
    assert!(sends.is_empty());
    assert_eq!(plan_bytes_sent(&sends), 0);
    assert!(!takes_workers(&plan));
}

#[test]
fn a_plan_takes_workers_if_its_first_stage_can_be_sent() {
    assert!(takes_workers(&nested()));
    let missing = boundary(1, stage(1, 1, None));
    assert!(!takes_workers(&missing));
    let behind = operator(0, vec![operator(2, vec![]), missing, nested()]);
    assert!(!takes_workers(&behind));
    let mut sends = Vec::new();
    assert!(matches!(
        prepare_plan(&behind, &Vec::new(), &encode, &mut sends),
        Err(PrepareError::PlanNotSet(1))
    ));
    assert!(takes_workers(&operator(0, vec![operator(2, vec![]), nested()])));
}
