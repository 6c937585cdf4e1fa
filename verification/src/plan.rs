//! The shape of a distributed plan: operators, and the network boundaries that split it into
//! stages.

use vstd::prelude::*;

verus! {

/// Which operator a node of a plan stands for.
#[derive(Clone, Copy, Debug, PartialEq, Eq, Structural)]
pub enum OperatorKind {
    /// The operator with this position in the plan it was read from.
    Plan(usize),
    /// A sampler put around its only child.
    Sampler,
}

/// A task of a stage: the worker it runs on, once one is assigned.
#[derive(Debug)]
pub struct ExecutionTask {
    pub url: Option<String>,
}

/// The part of a plan below a network boundary, and the tasks that run it.
#[derive(Debug)]
pub struct Stage {
    pub query_id: Vec<u8>,
    pub num: usize,
    pub plan: Option<Box<PlanNode>>,
    pub tasks: Vec<ExecutionTask>,
}

/// A node of a plan.
#[derive(Debug)]
pub enum PlanNode {
    Operator { kind: OperatorKind, children: Vec<PlanNode> },
    /// A network boundary, with its position in the plan it was read from. The plan of its input
    /// stage, while it is attached, is its only child.
    Boundary { index: usize, stage: Stage },
}

/// Identifies one task of one stage of one query.
#[derive(Debug)]
pub struct TaskKey {
    pub query_id: Vec<u8>,
    pub stage_id: u64,
    pub task_number: u64,
}

/// A [`TaskKey`] as a mathematical value: query, stage and task number.
pub type TaskKeyView = (Seq<u8>, u64, u64);

impl View for TaskKey {
    type V = TaskKeyView;

    open spec fn view(&self) -> TaskKeyView {
        (self.query_id@, self.stage_id, self.task_number)
    }
}

impl View for ExecutionTask {
    type V = Option<Seq<char>>;

    open spec fn view(&self) -> Option<Seq<char>> {
        match self.url {
            Some(url) => Some(url@),
            None => None,
        }
    }
}

/// A [`Stage`] as a mathematical value.
#[verifier::ext_equal]
pub struct StageView {
    pub query_id: Seq<u8>,
    pub num: usize,
    pub plan: Option<Box<PlanView>>,
    pub tasks: Seq<Option<Seq<char>>>,
}

/// A [`PlanNode`] as a mathematical value.
#[verifier::ext_equal]
pub enum PlanView {
    Operator { kind: OperatorKind, children: Seq<PlanView> },
    Boundary { index: usize, stage: StageView },
}

/// The tasks of a stage as mathematical values.
pub open spec fn tasks_view(tasks: Seq<ExecutionTask>) -> Seq<Option<Seq<char>>> {
    tasks.map_values(|task: ExecutionTask| task@)
}

pub open spec fn node_view(node: PlanNode) -> PlanView
    decreases node,
{
    match node {
        PlanNode::Operator { kind, children } => PlanView::Operator {
            kind,
            children: nodes_view(children@),
        },
        PlanNode::Boundary { index, stage } => PlanView::Boundary {
            index,
            stage: stage_view(stage),
        },
    }
}

pub open spec fn nodes_view(nodes: Seq<PlanNode>) -> Seq<PlanView>
    decreases nodes,
{
    if nodes.len() == 0 {
        Seq::empty()
    } else {
        nodes_view(nodes.drop_last()).push(node_view(nodes.last()))
    }
}

pub open spec fn stage_view(stage: Stage) -> StageView
    decreases stage,
{
    StageView {
        query_id: stage.query_id@,
        num: stage.num,
        plan: match stage.plan {
            Some(plan) => Some(Box::new(node_view(*plan))),
            None => None,
        },
        tasks: tasks_view(stage.tasks@),
    }
}

impl View for PlanNode {
    type V = PlanView;

    open spec fn view(&self) -> PlanView {
        node_view(*self)
    }
}

impl View for Stage {
    type V = StageView;

    open spec fn view(&self) -> StageView {
        stage_view(*self)
    }
}

/// The key of one task of a stage.
pub open spec fn task_key(stage: StageView, task: int) -> TaskKeyView {
    (stage.query_id, stage.num as u64, task as u64)
}

/// The keys of all tasks of a stage, in task order.
pub open spec fn stage_keys(stage: StageView) -> Seq<TaskKeyView> {
    Seq::new(stage.tasks.len(), |i: int| task_key(stage, i))
}

/// The keys of every task below any boundary of a plan, a boundary before what is under it.
pub open spec fn expected_keys(node: PlanView) -> Seq<TaskKeyView>
    decreases node,
{
    match node {
        PlanView::Operator { kind, children } => expected_keys_in(children),
        PlanView::Boundary { index, stage } => stage_keys(stage) + match stage.plan {
            Some(plan) => expected_keys(*plan),
            None => Seq::empty(),
        },
    }
}

pub open spec fn expected_keys_in(nodes: Seq<PlanView>) -> Seq<TaskKeyView>
    decreases nodes,
{
    if nodes.len() == 0 {
        Seq::empty()
    } else {
        expected_keys_in(nodes.drop_last()) + expected_keys(nodes.last())
    }
}

/// Task keys as mathematical values.
pub open spec fn keys_view(keys: Seq<TaskKey>) -> Seq<TaskKeyView> {
    keys.map_values(|key: TaskKey| key@)
}

/// The views of the nodes of a sequence are the sequence of their views.
pub proof fn lemma_nodes_view(nodes: Seq<PlanNode>)
    ensures
        nodes_view(nodes).len() == nodes.len(),
        forall|i: int|
            0 <= i < nodes.len() ==> #[trigger] nodes_view(nodes)[i] == node_view(nodes[i]),
    decreases nodes.len(),
{
    if nodes.len() > 0 {
        lemma_nodes_view(nodes.drop_last());
    }
}

/// Copies a byte string.
pub(crate) fn copy_bytes(bytes: &[u8]) -> (r: Vec<u8>)
    ensures
        r@ == bytes@,
{
    let mut copy: Vec<u8> = Vec::new();
    for i in 0..bytes.len()
        invariant
            copy@ == bytes@.take(i as int),
    {
        copy.push(bytes[i]);
        assert(copy@ =~= bytes@.take(i + 1));
    }
    assert(copy@ =~= bytes@);
    copy
}

impl Stage {
    /// The key under which a task of this stage reports.
    pub fn task_key(&self, task: usize) -> (r: TaskKey)
        ensures
            r@ == task_key(self@, task as int),
            r.query_id@ == self.query_id@,
            r.stage_id == self.num,
            r.task_number == task,
    {
        TaskKey {
            query_id: copy_bytes(self.query_id.as_slice()),
            stage_id: self.num as u64,
            task_number: task as u64,
        }
    }
}

fn push_expected_keys(node: &PlanNode, keys: &mut Vec<TaskKey>)
    ensures
        keys_view(final(keys)@) == keys_view(old(keys)@) + expected_keys(node@),
    decreases node,
{
    match node {
        PlanNode::Operator { kind, children } => {
            let ghost views = nodes_view(children@);
            proof {
                lemma_nodes_view(children@);
            }
            assert(views.take(0) =~= Seq::empty());
            #[verifier::loop_isolation(false)]
            for i in 0..children.len()
                invariant
                    keys_view(keys@) == keys_view(old(keys)@) + expected_keys_in(
                        views.take(i as int),
                    ),
            {
                push_expected_keys(&children[i], keys);
                assert(views.take(i + 1).drop_last() =~= views.take(i as int));
                assert(views.take(i + 1).last() == children@[i as int]@);
                assert(keys_view(keys@) =~= keys_view(old(keys)@) + expected_keys_in(
                    views.take(i + 1),
                ));
            }
            assert(views.take(children@.len() as int) =~= views);
        },
        PlanNode::Boundary { index, stage } => {
            #[verifier::loop_isolation(false)]
            for i in 0..stage.tasks.len()
                invariant
                    keys_view(keys@) == keys_view(old(keys)@) + stage_keys(stage@).take(i as int),
            {
                let ghost before = keys@;
                let key: TaskKey = stage.task_key(i);
                let ghost key_view = key@;
                keys.push(key);
                assert(keys_view(keys@) =~= keys_view(before).push(key_view));
                assert(stage_keys(stage@).take(i + 1) =~= stage_keys(stage@).take(i as int).push(
                    key_view,
                ));
            }
            assert(stage_keys(stage@).take(stage.tasks@.len() as int) =~= stage_keys(stage@));
            match &stage.plan {
                Some(plan) => {
                    push_expected_keys(plan, keys);
                },
                None => {},
            }
            assert(keys_view(keys@) =~= keys_view(old(keys)@) + expected_keys(node@));
        },
    }
}

impl PlanNode {
    /// Lists the keys that the tasks of this plan report under.
    pub fn expected_keys(&self) -> (keys: Vec<TaskKey>)
        ensures
            keys_view(keys@) == expected_keys(self@),
    {
        let mut keys: Vec<TaskKey> = Vec::new();
        push_expected_keys(self, &mut keys);
        assert(keys_view(keys@) =~= expected_keys(self@));
        keys
    }
}

/// What wrapping a plan in a sampler makes of it.
pub open spec fn sampled(plan: PlanView) -> PlanView {
    PlanView::Operator { kind: OperatorKind::Sampler, children: seq![plan] }
}

/// Wraps a plan in a sampler.
pub fn wrap_in_sampler(plan: PlanNode) -> (r: PlanNode)
    ensures
        r@ == sampled(plan@),
        r matches PlanNode::Operator { kind, children } && kind is Sampler && children@ == seq![
            plan,
        ],
{
    let mut children: Vec<PlanNode> = Vec::new();
    let ghost view = plan@;
    children.push(plan);
    proof {
        lemma_nodes_view(children@);
        assert(nodes_view(children@) =~= seq![view]);
    }
    PlanNode::Operator { kind: OperatorKind::Sampler, children }
}

/// A sampler changes nothing about which tasks report.
pub proof fn sampling_keeps_the_expected_keys(plan: PlanView)
    ensures
        expected_keys(sampled(plan)) == expected_keys(plan),
{
    let children = seq![plan];
    assert(children.drop_last() =~= Seq::empty());
    assert(expected_keys_in(children.drop_last()) =~= Seq::empty());
    assert(expected_keys_in(children) =~= expected_keys(plan));
}

/// The node that a path leads to: each step is the position of a child. The plan of its input stage
/// is the only child of a boundary.
pub open spec fn node_at(node: PlanView, path: Seq<int>) -> Option<PlanView>
    decreases path.len(),
{
    if path.len() == 0 {
        Some(node)
    } else {
        match node {
            PlanView::Operator { children, .. } => if 0 <= path[0] < children.len() {
                node_at(children[path[0]], path.drop_first())
            } else {
                None
            },
            PlanView::Boundary { stage, .. } => match stage.plan {
                Some(plan) => if path[0] == 0 {
                    node_at(*plan, path.drop_first())
                } else {
                    None
                },
                None => None,
            },
        }
    }
}

/// The task of a stage that a key names: the query and the number of the stage, and the position of
/// the task. The tasks of a stage are numbered from zero, each once.
pub proof fn what_a_task_key_names(stage: StageView, task: int, other: int)
    requires
        0 <= task <= u64::MAX,
        0 <= other <= u64::MAX,
    ensures
        task_key(stage, task).0 == stage.query_id,
        task_key(stage, task).1 == stage.num,
        task_key(stage, task).2 == task,
        task_key(stage, task) == task_key(stage, other) <==> task == other,
        stage_keys(stage).len() == stage.tasks.len(),
        task < stage.tasks.len() ==> stage_keys(stage)[task] == (
            stage.query_id,
            stage.num as u64,
            task as u64,
        ),
{
}

/// Keys are expected part by part: those of the children of an operator in turn, and those of the
/// tasks of a boundary's stage before those under it.
pub proof fn keys_are_expected_part_by_part(
    kind: OperatorKind,
    left: Seq<PlanView>,
    right: Seq<PlanView>,
    node: PlanView,
    index: usize,
    stage: StageView,
)
    ensures
        expected_keys(PlanView::Operator { kind, children: left + right }) == expected_keys(
            PlanView::Operator { kind, children: left },
        ) + expected_keys(PlanView::Operator { kind, children: right }),
        expected_keys(PlanView::Operator { kind, children: seq![node] }) == expected_keys(node),
        expected_keys(PlanView::Operator { kind, children: Seq::empty() }) == Seq::<
            TaskKeyView,
        >::empty(),
        ({
            let keys = expected_keys(PlanView::Boundary { index, stage });
            &&& keys.take(stage.tasks.len() as int) == Seq::new(
                stage.tasks.len(),
                |i: int| (stage.query_id, stage.num as u64, i as u64),
            )
            &&& keys.skip(stage.tasks.len() as int) == match stage.plan {
                Some(plan) => expected_keys(*plan),
                None => Seq::empty(),
            }
        }),
{
    lemma_expected_keys_of_both(left, right);
    let one = seq![node];
    assert(one.drop_last() =~= Seq::empty());
    assert(expected_keys_in(one.drop_last()) =~= Seq::empty());
    assert(expected_keys_in(one) =~= expected_keys(node));
    let keys = expected_keys(PlanView::Boundary { index, stage });
    let under = match stage.plan {
        Some(plan) => expected_keys(*plan),
        None => Seq::empty(),
    };
    assert(keys == stage_keys(stage) + under);
    assert(keys.take(stage.tasks.len() as int) =~= Seq::new(
        stage.tasks.len(),
        |i: int| (stage.query_id, stage.num as u64, i as u64),
    ));
    assert(keys.skip(stage.tasks.len() as int) =~= under);
}

proof fn lemma_expected_keys_of_both(left: Seq<PlanView>, right: Seq<PlanView>)
    ensures
        expected_keys_in(left + right) == expected_keys_in(left) + expected_keys_in(right),
    decreases right.len(),
{
    if right.len() == 0 {
        assert(left + right =~= left);
    } else {
        lemma_expected_keys_of_both(left, right.drop_last());
        assert((left + right).drop_last() =~= left + right.drop_last());
        assert((left + right).last() == right.last());
    }
    assert(expected_keys_in(left + right) =~= expected_keys_in(left) + expected_keys_in(right));
}

/// Every task of every stage of a plan is expected to report, however deep the stage lies.
pub proof fn every_task_is_expected(
    node: PlanView,
    path: Seq<int>,
    index: usize,
    stage: StageView,
    task: int,
)
    requires
        node_at(node, path) == Some(PlanView::Boundary { index, stage }),
        0 <= task < stage.tasks.len(),
    ensures
        expected_keys(node).contains((stage.query_id, stage.num as u64, task as u64)),
    decreases path.len(),
{
    let key = (stage.query_id, stage.num as u64, task as u64);
    if path.len() == 0 {
        assert(expected_keys(node)[task] == key);
    } else {
        match node {
            PlanView::Operator { kind, children } => {
                every_task_is_expected(
                    children[path[0]],
                    path.drop_first(),
                    index,
                    stage,
                    task,
                );
                lemma_child_keys_are_expected(children, path[0], key);
            },
            PlanView::Boundary { index: _, stage: above } => {
                let plan = above.plan->0;
                every_task_is_expected(*plan, path.drop_first(), index, stage, task);
                let i = expected_keys(*plan).index_of(key);
                assert(expected_keys(node)[above.tasks.len() + i] == key);
            },
        }
    }
}

proof fn lemma_child_keys_are_expected(nodes: Seq<PlanView>, child: int, key: TaskKeyView)
    requires
        0 <= child < nodes.len(),
        expected_keys(nodes[child]).contains(key),
    ensures
        expected_keys_in(nodes).contains(key),
    decreases nodes.len(),
{
    let before = expected_keys_in(nodes.drop_last());
    if child == nodes.len() - 1 {
        let i = expected_keys(nodes[child]).index_of(key);
        assert(expected_keys_in(nodes)[before.len() + i] == key);
    } else {
        assert(nodes.drop_last()[child] == nodes[child]);
        lemma_child_keys_are_expected(nodes.drop_last(), child, key);
        let i = before.index_of(key);
        assert(expected_keys_in(nodes)[i] == key);
    }
}

/// Whether a path leads to a boundary with this stage.
pub open spec fn lies_at(node: PlanView, path: Seq<int>, stage: StageView) -> bool {
    node_at(node, path) matches Some(PlanView::Boundary { stage: found, .. }) && found == stage
}

/// Whether a key is that of a task of a stage.
pub open spec fn names_task(key: TaskKeyView, stage: StageView, task: int) -> bool {
    0 <= task < stage.tasks.len() && key == (stage.query_id, stage.num as u64, task as u64)
}

/// Nothing else is expected: every expected key is that of a task of a stage of the plan.
pub proof fn only_tasks_are_expected(node: PlanView, key: TaskKeyView)
    requires
        expected_keys(node).contains(key),
    ensures
        exists|path: Seq<int>, stage: StageView, task: int|
            #[trigger] lies_at(node, path, stage) && #[trigger] names_task(key, stage, task),
    decreases node,
{
    match node {
        PlanView::Operator { kind, children } => {
            lemma_only_child_keys_are_expected(children, key);
            let child = choose|child: int|
                0 <= child < children.len() && expected_keys(#[trigger] children[child]).contains(
                    key,
                );
            only_tasks_are_expected(children[child], key);
            let (path, stage, task) = choose|path: Seq<int>, stage: StageView, task: int|
                #[trigger] lies_at(children[child], path, stage) && #[trigger] names_task(
                    key,
                    stage,
                    task,
                );
            let longer = seq![child] + path;
            assert(longer.drop_first() =~= path);
            assert(lies_at(node, longer, stage));
        },
        PlanView::Boundary { index, stage } => {
            let i = expected_keys(node).index_of(key);
            if i < stage.tasks.len() {
                assert(lies_at(node, Seq::empty(), stage));
                assert(names_task(key, stage, i));
            } else {
                let plan = stage.plan->0;
                assert(expected_keys(*plan)[i - stage.tasks.len()] == key);
                only_tasks_are_expected(*plan, key);
                let (path, below, task) = choose|path: Seq<int>, below: StageView, task: int|
                    #[trigger] lies_at(*plan, path, below) && #[trigger] names_task(key, below, task);
                let longer = seq![0int] + path;
                assert(longer.drop_first() =~= path);
                assert(lies_at(node, longer, below));
            }
        },
    }
}

proof fn lemma_only_child_keys_are_expected(nodes: Seq<PlanView>, key: TaskKeyView)
    requires
        expected_keys_in(nodes).contains(key),
    ensures
        exists|child: int|
            0 <= child < nodes.len() && expected_keys(#[trigger] nodes[child]).contains(key),
    decreases nodes.len(),
{
    let before = expected_keys_in(nodes.drop_last());
    let i = expected_keys_in(nodes).index_of(key);
    if i < before.len() {
        assert(before[i] == key);
        lemma_only_child_keys_are_expected(nodes.drop_last(), key);
        let child = choose|child: int|
            0 <= child < nodes.drop_last().len() && expected_keys(
                #[trigger] nodes.drop_last()[child],
            ).contains(key);
        assert(nodes[child] == nodes.drop_last()[child]);
    } else {
        assert(expected_keys(nodes.last())[i - before.len()] == key);
        assert(nodes[nodes.len() - 1] == nodes.last());
    }
}

/// The views of plans, stages, tasks and keys leave nothing out.
pub proof fn plans_are_seen_whole(
    node: PlanNode,
    stage: Stage,
    key: TaskKey,
    keys: Seq<TaskKey>,
)
    ensures
        match node {
            PlanNode::Operator { kind, children } => {
                &&& node@ matches PlanView::Operator { kind: seen, children: views } && seen == kind
                    && views.len() == children@.len() && forall|i: int|
                    0 <= i < views.len() ==> #[trigger] views[i] == children@[i]@
            },
            PlanNode::Boundary { index, stage } => node@ == (PlanView::Boundary {
                index,
                stage: stage@,
            }),
        },
        stage@.query_id == stage.query_id@,
        stage@.num == stage.num,
        stage@.plan is Some <==> stage.plan is Some,
        stage.plan matches Some(plan) ==> *stage@.plan->0 == plan@,
        stage@.tasks.len() == stage.tasks@.len(),
        forall|i: int|
            0 <= i < stage.tasks@.len() ==> (match stage.tasks@[i].url {
                Some(url) => #[trigger] stage@.tasks[i] == Some(url@),
                None => stage@.tasks[i] is None,
            }),
        key@ == (key.query_id@, key.stage_id, key.task_number),
        keys_view(keys).len() == keys.len(),
        forall|i: int| 0 <= i < keys.len() ==> #[trigger] keys_view(keys)[i] == keys[i]@,
{
    if let PlanNode::Operator { kind, children } = node {
        lemma_nodes_view(children@);
    }
}

/// A sampler has the plan that it was put around as its only child.
pub proof fn a_sampler_is_put_around_a_plan(plan: PlanView)
    ensures
        sampled(plan) matches PlanView::Operator { kind, children } && kind is Sampler && children
            == seq![plan],
{
}

} // verus!
