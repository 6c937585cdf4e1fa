//! Preparing a plan for execution: every task of every stage is given a worker, every stage's plan
//! is encoded for the workers that run it, and the plan is cut at its network boundaries.

use crate::calls::called;
use crate::plan::{
    copy_bytes, expected_keys, expected_keys_in, lemma_nodes_view, lies_at, nodes_view, stage_keys,
    task_key, tasks_view, ExecutionTask, OperatorKind, PlanNode, PlanView, Stage, StageView,
    TaskKey, TaskKeyView,
};
use crate::text::{decimal, decimal_text, joined};
use rand::Rng;
use vstd::prelude::*;

verus! {

/// Hands a worker the plan of one of its tasks.
#[derive(Debug)]
pub struct SetPlanRequest {
    pub plan_proto: Vec<u8>,
    pub task_count: u64,
    pub task_key: Option<TaskKey>,
}

/// A request, and the worker it goes to.
#[derive(Debug)]
pub struct PlanSend {
    pub url: String,
    pub request: SetPlanRequest,
}

/// A [`PlanSend`] as a mathematical value.
#[verifier::ext_equal]
pub struct PlanSendView {
    pub url: Seq<char>,
    pub plan_proto: Seq<u8>,
    pub task_count: u64,
    pub task_key: Option<TaskKeyView>,
}

impl View for PlanSend {
    type V = PlanSendView;

    open spec fn view(&self) -> PlanSendView {
        PlanSendView {
            url: self.url@,
            plan_proto: self.request.plan_proto@,
            task_count: self.request.task_count,
            task_key: match self.request.task_key {
                Some(key) => Some(key@),
                None => None,
            },
        }
    }
}

/// Requests as mathematical values.
pub open spec fn sends_view(sends: Seq<PlanSend>) -> Seq<PlanSendView> {
    sends.map_values(|send: PlanSend| send@)
}

/// Texts as mathematical values.
pub open spec fn texts(urls: Seq<String>) -> Seq<Seq<char>> {
    urls.map_values(|url: String| url@)
}

/// What is free in preparing one stage: the worker its first task is given, and the bytes that its
/// plan is encoded to.
pub ghost struct StageChoice {
    pub start: int,
    pub bytes: Seq<u8>,
}

/// The worker of a task: the workers are taken in turn, from `start` on.
pub open spec fn assigned_url(urls: Seq<Seq<char>>, start: int, task: int) -> Seq<char> {
    urls[(start + task) % (urls.len() as int)]
}

/// The stage that a boundary is left with: a worker for every task, and no plan.
pub open spec fn detached_stage(stage: StageView, urls: Seq<Seq<char>>, start: int) -> StageView {
    StageView {
        query_id: stage.query_id,
        num: stage.num,
        plan: None,
        tasks: Seq::new(stage.tasks.len(), |i: int| Some(assigned_url(urls, start, i))),
    }
}

/// The request for one task of a stage.
pub open spec fn stage_send(
    stage: StageView,
    urls: Seq<Seq<char>>,
    choice: StageChoice,
    task: int,
) -> PlanSendView {
    PlanSendView {
        url: assigned_url(urls, choice.start, task),
        plan_proto: choice.bytes,
        task_count: stage.tasks.len() as u64,
        task_key: Some(task_key(stage, task)),
    }
}

/// The requests for a stage, one for each task, in task order.
pub open spec fn stage_sends(
    stage: StageView,
    urls: Seq<Seq<char>>,
    choice: StageChoice,
) -> Seq<PlanSendView> {
    Seq::new(stage.tasks.len(), |i: int| stage_send(stage, urls, choice, i))
}

/// The stages of a plan in the order in which they are prepared: those under a boundary before the
/// boundary's own.
pub open spec fn stages(node: PlanView) -> Seq<StageView>
    decreases node,
{
    match node {
        PlanView::Operator { kind, children } => stages_in(children),
        PlanView::Boundary { index, stage } => (match stage.plan {
            Some(plan) => stages(*plan),
            None => Seq::empty(),
        }).push(stage),
    }
}

pub open spec fn stages_in(nodes: Seq<PlanView>) -> Seq<StageView>
    decreases nodes,
{
    if nodes.len() == 0 {
        Seq::empty()
    } else {
        stages_in(nodes.drop_last()) + stages(nodes.last())
    }
}

/// Whether preparing some stages takes a worker at all: the first one has a plan.
pub open spec fn needs_worker(all: Seq<StageView>) -> bool {
    all.len() > 0 && all[0].plan is Some
}

/// The prepared plan: each boundary keeps its place and loses its input plan. There is one choice
/// for each of the plan's stages.
pub open spec fn prepared(
    node: PlanView,
    urls: Seq<Seq<char>>,
    choices: Seq<StageChoice>,
) -> PlanView
    decreases node,
{
    match node {
        PlanView::Operator { kind, children } => PlanView::Operator {
            kind,
            children: prepared_in(children, urls, choices),
        },
        PlanView::Boundary { index, stage } => PlanView::Boundary {
            index,
            stage: detached_stage(stage, urls, choices.last().start),
        },
    }
}

pub open spec fn prepared_in(
    nodes: Seq<PlanView>,
    urls: Seq<Seq<char>>,
    choices: Seq<StageChoice>,
) -> Seq<PlanView>
    decreases nodes,
{
    if nodes.len() == 0 {
        Seq::empty()
    } else {
        let before = stages_in(nodes.drop_last()).len() as int;
        prepared_in(nodes.drop_last(), urls, choices.take(before)).push(
            prepared(nodes.last(), urls, choices.skip(before)),
        )
    }
}

/// The plan of one of some stages as it is sent: with the stages under it already prepared, which
/// are those right before it.
pub open spec fn sent_plan(
    all: Seq<StageView>,
    urls: Seq<Seq<char>>,
    choices: Seq<StageChoice>,
    k: int,
) -> PlanView {
    let plan = *all[k].plan->0;
    prepared(plan, urls, choices.subrange(k - stages(plan).len(), k))
}

/// Whether the bytes chosen for a stage are an encoding of its plan as it is sent.
pub open spec fn stage_encoded(
    all: Seq<StageView>,
    urls: Seq<Seq<char>>,
    choices: Seq<StageChoice>,
    encodes: spec_fn(PlanView, Seq<u8>) -> bool,
    k: int,
) -> bool {
    all[k].plan is Some && encodes(sent_plan(all, urls, choices, k), choices[k].bytes)
}

/// Whether the bytes chosen for each of the first stages are an encoding of its plan as it is sent.
#[verifier::opaque]
pub open spec fn encoded(
    all: Seq<StageView>,
    urls: Seq<Seq<char>>,
    choices: Seq<StageChoice>,
    encodes: spec_fn(PlanView, Seq<u8>) -> bool,
) -> bool {
    forall|k: int|
        0 <= k < choices.len() ==> #[trigger] stage_encoded(all, urls, choices, encodes, k)
}

/// The requests for the first stages, as many as there are choices.
pub open spec fn sends_of(
    all: Seq<StageView>,
    urls: Seq<Seq<char>>,
    choices: Seq<StageChoice>,
) -> Seq<PlanSendView>
    decreases choices.len(),
{
    if choices.len() == 0 {
        Seq::empty()
    } else {
        sends_of(all, urls, choices.drop_last()) + stage_sends(
            all[choices.len() - 1],
            urls,
            choices.last(),
        )
    }
}

/// Whether `start` was drawn from all of `workers` workers.
pub closed spec fn start_drawn(workers: nat, start: int) -> bool {
    exists|len: usize, index: usize|
        len == workers && index == start && #[trigger] call_ensures(random_index, (len,), index)
}

/// Whether every choice starts at one of `workers` workers that was drawn from all of them.
pub open spec fn starts_drawn(choices: Seq<StageChoice>, workers: nat) -> bool {
    forall|i: int|
        0 <= i < choices.len() ==> 0 <= (#[trigger] choices[i]).start < workers && start_drawn(
            workers,
            choices[i].start,
        )
}

/// What a call of `encode` can give: `bytes` for a plan.
pub open spec fn encoding<E, Enc: Fn(&PlanNode) -> Result<Vec<u8>, E>>(encode: Enc) -> spec_fn(
    PlanView,
    Seq<u8>,
) -> bool {
    |plan: PlanView, bytes: Seq<u8>|
        exists|node: PlanNode, proto: Vec<u8>|
            node@ == plan && proto@ == bytes && #[trigger] encode.ensures(
                (&node,),
                Ok::<Vec<u8>, E>(proto),
            )
}

/// Why a plan could not be prepared.
#[derive(Debug)]
pub enum PrepareError<E> {
    /// The stage with this number has no plan to send.
    PlanNotSet(usize),
    /// A plan could not be encoded.
    Encode(E),
}

/// Picks an index below `len` with `rand::rng().random_range(0..len)`, which panics on an empty
/// range. Which index it is, is chance.
#[verifier::external_body]
fn random_index(len: usize) -> (r: usize)
    requires
        len > 0,
    ensures
        r < len,
{
    rand::rng().random_range(0..len)
}

/// `(start + task) % len`, without overflow.
fn worker_index(start: usize, task: usize, len: usize) -> (r: usize)
    requires
        start < len,
    ensures
        r == (start + task) % (len as int),
{
    let turn: usize = task % len;
    proof {
        vstd::arithmetic::div_mod::lemma_add_mod_noop_right(start as int, task as int, len as int);
        if start + turn < len {
            vstd::arithmetic::div_mod::lemma_small_mod((start + turn) as nat, len as nat);
        } else {
            vstd::arithmetic::div_mod::lemma_small_mod((start + turn - len) as nat, len as nat);
            vstd::arithmetic::div_mod::lemma_mod_sub_multiples_vanish(
                (start + turn) as int,
                len as int,
            );
        }
    }
    if turn < len - start {
        start + turn
    } else {
        turn - (len - start)
    }
}

/// Gives every task of a stage a worker, from the one at `start` on, and lists the requests that
/// hand `bytes`, the encoded plan of the stage, to them. The stage that comes back has no plan.
pub fn dispatch_stage(
    stage: &Stage,
    urls: &Vec<String>,
    start: usize,
    bytes: &Vec<u8>,
    sends: &mut Vec<PlanSend>,
) -> (r: Stage)
    requires
        start < urls@.len(),
    ensures
        r@ == detached_stage(stage@, texts(urls@), start as int),
        sends_view(final(sends)@) == sends_view(old(sends)@) + stage_sends(
            stage@,
            texts(urls@),
            (StageChoice { start: start as int, bytes: bytes@ }),
        ),
        r.query_id@ == stage.query_id@,
        r.num == stage.num,
        r.plan is None,
        r.tasks@.len() == stage.tasks@.len(),
        forall|i: int|
            0 <= i < stage.tasks@.len() ==> ((#[trigger] r.tasks@[i]).url matches Some(url) && url@
                == urls@[(start + i) % (urls@.len() as int)]@),
        final(sends)@.len() == old(sends)@.len() + stage.tasks@.len(),
        final(sends)@.take(old(sends)@.len() as int) == old(sends)@,
        forall|k: int|
            old(sends)@.len() <= k < final(sends)@.len() ==> {
                let send = #[trigger] final(sends)@[k];
                let task = k - old(sends)@.len();
                &&& send.url@ == urls@[(start + task) % (urls@.len() as int)]@
                &&& send.request.plan_proto@ == bytes@
                &&& send.request.task_count == stage.tasks@.len()
                &&& send.request.task_key matches Some(key) && key.query_id@ == stage.query_id@
                    && key.stage_id == stage.num && key.task_number == task
            },
{
    let ghost choice = StageChoice { start: start as int, bytes: bytes@ };
    let ghost all = stage_sends(stage@, texts(urls@), choice);
    let mut tasks: Vec<ExecutionTask> = Vec::new();
    assert(all.take(0) =~= Seq::empty());
    assert(sends@.take(sends@.len() as int) =~= sends@);
    #[verifier::loop_isolation(false)]
    for i in 0..stage.tasks.len()
        invariant
            tasks_view(tasks@) == detached_stage(stage@, texts(urls@), start as int).tasks.take(
                i as int,
            ),
            sends_view(sends@) == sends_view(old(sends)@) + all.take(i as int),
            tasks@.len() == i,
            forall|k: int|
                0 <= k < i ==> ((#[trigger] tasks@[k]).url matches Some(url) && url@ == urls@[(start
                    + k) % (urls@.len() as int)]@),
            sends@.len() == old(sends)@.len() + i,
            sends@.take(old(sends)@.len() as int) == old(sends)@,
            forall|k: int|
                old(sends)@.len() <= k < sends@.len() ==> {
                    let send = #[trigger] sends@[k];
                    let task = k - old(sends)@.len();
                    &&& send.url@ == urls@[(start + task) % (urls@.len() as int)]@
                    &&& send.request.plan_proto@ == bytes@
                    &&& send.request.task_count == stage.tasks@.len()
                    &&& send.request.task_key matches Some(key) && key.query_id@ == stage.query_id@
                        && key.stage_id == stage.num && key.task_number == task
                },
    {
        let worker: usize = worker_index(start, i, urls.len());
        let ghost tasks_before = tasks@;
        let ghost sends_before = sends@;
        tasks.push(ExecutionTask { url: Some(urls[worker].clone()) });
        let send: PlanSend = PlanSend {
            url: urls[worker].clone(),
            request: SetPlanRequest {
                plan_proto: copy_bytes(bytes.as_slice()),
                task_count: stage.tasks.len() as u64,
                task_key: Some(stage.task_key(i)),
            },
        };
        let ghost send_view = send@;
        sends.push(send);
        assert(sends@.take(old(sends)@.len() as int) =~= sends_before.take(
            old(sends)@.len() as int,
        ));
        assert(texts(urls@)[worker as int] == urls@[worker as int]@);
        assert(tasks_view(tasks@) =~= tasks_view(tasks_before).push(
            Some(assigned_url(texts(urls@), start as int, i as int)),
        ));
        assert(tasks_view(tasks@) =~= detached_stage(stage@, texts(urls@), start as int).tasks.take(
            i + 1,
        ));
        assert(sends_view(sends@) =~= sends_view(sends_before).push(send_view));
        assert(all.take(i + 1) =~= all.take(i as int).push(send_view));
        assert(sends_view(sends@) =~= sends_view(old(sends)@) + all.take(i + 1));
    }
    assert(all.take(stage.tasks@.len() as int) =~= all);
    let query_id: Vec<u8> = copy_bytes(stage.query_id.as_slice());
    let r: Stage = Stage { query_id, num: stage.num, plan: None, tasks };
    assert(r@ =~= detached_stage(stage@, texts(urls@), start as int));
    r
}

/// Whether `encode` can fail with `error` on a plan.
pub open spec fn refuses<E, Enc: Fn(&PlanNode) -> Result<Vec<u8>, E>>(
    encode: Enc,
    plan: PlanView,
    error: E,
) -> bool {
    exists|node: PlanNode|
        node@ == plan && #[trigger] encode.ensures((&node,), Err::<Vec<u8>, E>(error))
}

/// Whether the first stages, as many as there are choices, can be prepared in this way.
pub open spec fn prepares<E, Enc: Fn(&PlanNode) -> Result<Vec<u8>, E>>(
    all: Seq<StageView>,
    urls: Seq<Seq<char>>,
    choices: Seq<StageChoice>,
    encode: Enc,
) -> bool {
    &&& choices.len() <= all.len()
    &&& starts_drawn(choices, urls.len())
    &&& encoded(all, urls, choices, encoding::<E, Enc>(encode))
}

/// Whether the stage after those that were prepared can fail with `error`.
pub open spec fn fails_after<E, Enc: Fn(&PlanNode) -> Result<Vec<u8>, E>>(
    all: Seq<StageView>,
    urls: Seq<Seq<char>>,
    choices: Seq<StageChoice>,
    encode: Enc,
    error: PrepareError<E>,
) -> bool {
    let k = choices.len() as int;
    &&& k < all.len()
    &&& match error {
        PrepareError::PlanNotSet(num) => all[k].plan is None && num == all[k].num,
        PrepareError::Encode(cause) => all[k].plan is Some && refuses(
            encode,
            sent_plan(all, urls, choices, k),
            cause,
        ),
    }
}

/// Whether preparing a plan can end like this: all of its stages are prepared, or the first of them
/// up to one that fails. `sends` are the requests for those that are prepared.
pub open spec fn outcome<E, Enc: Fn(&PlanNode) -> Result<Vec<u8>, E>>(
    plan: PlanView,
    urls: Seq<Seq<char>>,
    choices: Seq<StageChoice>,
    encode: Enc,
    result: Result<PlanView, PrepareError<E>>,
    sends: Seq<PlanSendView>,
) -> bool {
    &&& prepares::<E, Enc>(stages(plan), urls, choices, encode)
    &&& sends == sends_of(stages(plan), urls, choices)
    &&& match result {
        Ok(done) => choices.len() == stages(plan).len() && done == prepared(plan, urls, choices),
        Err(error) => fails_after(stages(plan), urls, choices, encode, error),
    }
}

/// The stages under a stage come before it.
proof fn lemma_under_comes_before(node: PlanView)
    ensures
        under_comes_before(stages(node)),
    decreases node,
{
    match node {
        PlanView::Operator { kind, children } => {
            lemma_under_comes_before_in(children);
        },
        PlanView::Boundary { index, stage } => {
            if let Some(plan) = stage.plan {
                lemma_under_comes_before(*plan);
            }
        },
    }
}

proof fn lemma_under_comes_before_in(nodes: Seq<PlanView>)
    ensures
        under_comes_before(stages_in(nodes)),
    decreases nodes,
{
    if nodes.len() > 0 {
        lemma_under_comes_before_in(nodes.drop_last());
        lemma_under_comes_before(nodes.last());
    }
}

spec fn under_comes_before(all: Seq<StageView>) -> bool {
    forall|k: int|
        0 <= k < all.len() && (#[trigger] all[k]).plan is Some ==> stages(*all[k].plan->0).len()
            <= k
}

/// Stages that come later have no part in the first ones.
proof fn lemma_longer<E, Enc: Fn(&PlanNode) -> Result<Vec<u8>, E>>(
    all: Seq<StageView>,
    more: Seq<StageView>,
    urls: Seq<Seq<char>>,
    choices: Seq<StageChoice>,
    encode: Enc,
)
    requires
        prepares::<E, Enc>(all, urls, choices, encode),
    ensures
        prepares::<E, Enc>(all + more, urls, choices, encode),
        sends_of(all + more, urls, choices) == sends_of(all, urls, choices),
        forall|error: PrepareError<E>| #[trigger]
            fails_after(all, urls, choices, encode, error) ==> fails_after(
                all + more,
                urls,
                choices,
                encode,
                error,
            ),
{
    lemma_sends_of_longer(all, more, urls, choices);
    lemma_encoded_longer(all, more, urls, choices, encoding::<E, Enc>(encode));
    if choices.len() < all.len() {
        assert((all + more)[choices.len() as int] == all[choices.len() as int]);
    }
}

proof fn lemma_encoded_longer(
    all: Seq<StageView>,
    more: Seq<StageView>,
    urls: Seq<Seq<char>>,
    choices: Seq<StageChoice>,
    encodes: spec_fn(PlanView, Seq<u8>) -> bool,
)
    requires
        choices.len() <= all.len(),
        encoded(all, urls, choices, encodes),
    ensures
        encoded(all + more, urls, choices, encodes),
{
    reveal(encoded);
    assert forall|k: int| 0 <= k < choices.len() implies #[trigger] stage_encoded(
        all + more,
        urls,
        choices,
        encodes,
        k,
    ) by {
        assert(stage_encoded(all, urls, choices, encodes, k));
        assert((all + more)[k] == all[k]);
    }
}

proof fn lemma_sends_of_longer(
    all: Seq<StageView>,
    more: Seq<StageView>,
    urls: Seq<Seq<char>>,
    choices: Seq<StageChoice>,
)
    requires
        choices.len() <= all.len(),
    ensures
        sends_of(all + more, urls, choices) == sends_of(all, urls, choices),
    decreases choices.len(),
{
    if choices.len() > 0 {
        lemma_sends_of_longer(all, more, urls, choices.drop_last());
    }
}

/// Stages that are prepared after others are prepared as if they were alone.
proof fn lemma_one_after_another<E, Enc: Fn(&PlanNode) -> Result<Vec<u8>, E>>(
    left: Seq<StageView>,
    right: Seq<StageView>,
    urls: Seq<Seq<char>>,
    first: Seq<StageChoice>,
    then: Seq<StageChoice>,
    encode: Enc,
)
    requires
        under_comes_before(left),
        under_comes_before(right),
        first.len() == left.len(),
        prepares::<E, Enc>(left, urls, first, encode),
        prepares::<E, Enc>(right, urls, then, encode),
    ensures
        prepares::<E, Enc>(left + right, urls, first + then, encode),
        sends_of(left + right, urls, first + then) == sends_of(left, urls, first) + sends_of(
            right,
            urls,
            then,
        ),
        forall|error: PrepareError<E>| #[trigger]
            fails_after(right, urls, then, encode, error) ==> fails_after(
                left + right,
                urls,
                first + then,
                encode,
                error,
            ),
{
    let all = left + right;
    let choices = first + then;
    let n = left.len() as int;
    lemma_sends_of_one_after_another(left, right, urls, first, then);
    lemma_encoded_one_after_another(left, right, urls, first, then, encoding::<E, Enc>(encode));
    assert forall|i: int| 0 <= i < choices.len() implies 0 <= (#[trigger] choices[i]).start
        < urls.len() && start_drawn(urls.len(), choices[i].start) by {
        if i < n {
            assert(choices[i] == first[i]);
        } else {
            assert(choices[i] == then[i - n]);
        }
    }
    if then.len() < right.len() {
        assert(all[choices.len() as int] == right[then.len() as int]);
        if right[then.len() as int].plan is Some {
            lemma_sent_plan_after(left, right, urls, first, then, then.len() as int);
        }
    }
}

/// The plan of a stage that is prepared after others is sent as if it were alone.
proof fn lemma_sent_plan_after(
    left: Seq<StageView>,
    right: Seq<StageView>,
    urls: Seq<Seq<char>>,
    first: Seq<StageChoice>,
    then: Seq<StageChoice>,
    k: int,
)
    requires
        under_comes_before(right),
        first.len() == left.len(),
        0 <= k <= then.len(),
        k < right.len(),
        right[k].plan is Some,
    ensures
        sent_plan(left + right, urls, first + then, left.len() + k) == sent_plan(
            right,
            urls,
            then,
            k,
        ),
{
    let n = left.len() as int;
    let under = stages(*right[k].plan->0).len();
    assert((left + right)[n + k] == right[k]);
    assert((first + then).subrange(n + k - under, n + k) =~= then.subrange(k - under, k));
}

proof fn lemma_encoded_one_after_another(
    left: Seq<StageView>,
    right: Seq<StageView>,
    urls: Seq<Seq<char>>,
    first: Seq<StageChoice>,
    then: Seq<StageChoice>,
    encodes: spec_fn(PlanView, Seq<u8>) -> bool,
)
    requires
        under_comes_before(left),
        under_comes_before(right),
        first.len() == left.len(),
        then.len() <= right.len(),
        encoded(left, urls, first, encodes),
        encoded(right, urls, then, encodes),
    ensures
        encoded(left + right, urls, first + then, encodes),
{
    reveal(encoded);
    let all = left + right;
    let choices = first + then;
    let n = left.len() as int;
    assert forall|k: int| 0 <= k < choices.len() implies #[trigger] stage_encoded(
        all,
        urls,
        choices,
        encodes,
        k,
    ) by {
        if k < n {
            assert(stage_encoded(left, urls, first, encodes, k));
            assert(all[k] == left[k]);
            assert(choices[k] == first[k]);
            let under = stages(*left[k].plan->0).len();
            assert(choices.subrange(k - under, k) =~= first.subrange(k - under, k));
        } else {
            assert(stage_encoded(right, urls, then, encodes, k - n));
            assert(all[k] == right[k - n]);
            assert(choices[k] == then[k - n]);
            lemma_sent_plan_after(left, right, urls, first, then, k - n);
        }
    }
}

/// Nothing is encoded yet.
proof fn lemma_encoded_empty(
    all: Seq<StageView>,
    urls: Seq<Seq<char>>,
    encodes: spec_fn(PlanView, Seq<u8>) -> bool,
)
    ensures
        encoded(all, urls, Seq::empty(), encodes),
{
    reveal(encoded);
}

/// One more stage is encoded.
proof fn lemma_encoded_push(
    all: Seq<StageView>,
    urls: Seq<Seq<char>>,
    choices: Seq<StageChoice>,
    choice: StageChoice,
    encodes: spec_fn(PlanView, Seq<u8>) -> bool,
)
    requires
        under_comes_before(all),
        choices.len() < all.len(),
        encoded(all, urls, choices, encodes),
        all[choices.len() as int].plan is Some,
        encodes(sent_plan(all, urls, choices, choices.len() as int), choice.bytes),
    ensures
        encoded(all, urls, choices.push(choice), encodes),
{
    reveal(encoded);
    let longer = choices.push(choice);
    let n = choices.len() as int;
    assert forall|k: int| 0 <= k < longer.len() implies #[trigger] stage_encoded(
        all,
        urls,
        longer,
        encodes,
        k,
    ) by {
        let under = stages(*all[k].plan->0).len();
        if k < n {
            assert(stage_encoded(all, urls, choices, encodes, k));
        }
        assert(longer.subrange(k - under, k) =~= choices.subrange(k - under, k));
    }
}

proof fn lemma_sends_of_one_after_another(
    left: Seq<StageView>,
    right: Seq<StageView>,
    urls: Seq<Seq<char>>,
    first: Seq<StageChoice>,
    then: Seq<StageChoice>,
)
    requires
        first.len() == left.len(),
        then.len() <= right.len(),
    ensures
        sends_of(left + right, urls, first + then) == sends_of(left, urls, first) + sends_of(
            right,
            urls,
            then,
        ),
    decreases then.len(),
{
    if then.len() == 0 {
        assert(first + then =~= first);
        lemma_sends_of_longer(left, right, urls, first);
        assert(sends_of(left, urls, first) + sends_of(right, urls, then) =~= sends_of(
            left,
            urls,
            first,
        ));
    } else {
        lemma_sends_of_one_after_another(left, right, urls, first, then.drop_last());
        assert((first + then).drop_last() =~= first + then.drop_last());
        assert((left + right)[left.len() + then.len() - 1] == right[then.len() - 1]);
        assert(sends_of(left + right, urls, first + then) =~= sends_of(left, urls, first)
            + sends_of(right, urls, then));
    }
}

/// The stages of the first nodes come first.
proof fn lemma_stages_in_prefix(nodes: Seq<PlanView>, i: int) -> (more: Seq<StageView>)
    requires
        0 <= i <= nodes.len(),
    ensures
        stages_in(nodes) == stages_in(nodes.take(i)) + more,
    decreases nodes.len(),
{
    if i == nodes.len() {
        assert(nodes.take(i) =~= nodes);
        assert(stages_in(nodes) =~= stages_in(nodes) + Seq::empty());
        Seq::empty()
    } else {
        assert(nodes.drop_last().take(i) =~= nodes.take(i));
        let more = lemma_stages_in_prefix(nodes.drop_last(), i);
        assert(stages_in(nodes) =~= stages_in(nodes.take(i)) + (more + stages(nodes.last())));
        more + stages(nodes.last())
    }
}

/// What preparing gave: the prepared nodes or why they could not be prepared, and the choices made.
type Prepared<N, E> = (Result<N, PrepareError<E>>, Ghost<Seq<StageChoice>>);

/// Prepares nodes from left to right, each with what is under it.
fn prepare_nodes<E, Enc: Fn(&PlanNode) -> Result<Vec<u8>, E>>(
    nodes: &Vec<PlanNode>,
    urls: &Vec<String>,
    encode: &Enc,
    sends: &mut Vec<PlanSend>,
) -> (r: Prepared<Vec<PlanNode>, E>)
    requires
        forall|plan: PlanNode| (*encode).requires((&plan,)),
        urls@.len() > 0 || !needs_worker(stages_in(nodes_view(nodes@))),
    ensures
        prepares::<E, Enc>(stages_in(nodes_view(nodes@)), texts(urls@), r.1@, *encode),
        sends_view(final(sends)@) == sends_view(old(sends)@) + sends_of(
            stages_in(nodes_view(nodes@)),
            texts(urls@),
            r.1@,
        ),
        match r.0 {
            Ok(done) => {
                &&& r.1@.len() == stages_in(nodes_view(nodes@)).len()
                &&& nodes_view(done@) == prepared_in(nodes_view(nodes@), texts(urls@), r.1@)
            },
            Err(error) => fails_after(
                stages_in(nodes_view(nodes@)),
                texts(urls@),
                r.1@,
                *encode,
                error,
            ),
        },
    decreases nodes,
{
    let ghost workers = texts(urls@);
    let ghost views = nodes_view(nodes@);
    let mut done: Vec<PlanNode> = Vec::new();
    let ghost mut choices: Seq<StageChoice> = Seq::empty();
    proof {
        lemma_nodes_view(nodes@);
        assert(views.take(0) =~= Seq::empty());
        assert(sends_view(sends@) =~= sends_view(old(sends)@) + Seq::empty());
        lemma_encoded_empty(stages_in(views.take(0)), workers, encoding::<E, Enc>(*encode));
    }
    #[verifier::loop_isolation(false)]
    for i in 0..nodes.len()
        invariant
            choices.len() == stages_in(views.take(i as int)).len(),
            prepares::<E, Enc>(stages_in(views.take(i as int)), workers, choices, *encode),
            nodes_view(done@) == prepared_in(views.take(i as int), workers, choices),
            sends_view(sends@) == sends_view(old(sends)@) + sends_of(
                stages_in(views.take(i as int)),
                workers,
                choices,
            ),
    {
        let ghost longer = views.take(i + 1);
        let ghost left = stages_in(views.take(i as int));
        let ghost right = stages(longer.last());
        assert(longer.drop_last() =~= views.take(i as int));
        assert(longer.last() == nodes@[i as int]@);
        proof {
            if urls@.len() == 0 && needs_worker(right) {
                if choices.len() > 0 {
                    assert(0 <= choices[0].start < urls@.len());
                }
                let more = lemma_stages_in_prefix(views, i + 1);
                assert(stages_in(views)[0] == right[0]);
            }
        }
        let ghost done_before = done@;
        let ghost sends_before = sends_view(sends@);
        let (result, made) = prepare_node(&nodes[i], urls, encode, sends);
        let ghost all = choices + made@;
        proof {
            lemma_under_comes_before_in(views.take(i as int));
            lemma_under_comes_before(longer.last());
            lemma_one_after_another::<E, Enc>(left, right, workers, choices, made@, *encode);
            assert(sends_view(sends@) =~= sends_view(old(sends)@) + sends_of(
                left + right,
                workers,
                all,
            ));
        }
        match result {
            Ok(node) => {
                done.push(node);
                proof {
                    assert(all.take(choices.len() as int) =~= choices);
                    assert(all.skip(choices.len() as int) =~= made@);
                    assert(done@.drop_last() =~= done_before);
                    choices = all;
                }
            },
            Err(error) => {
                proof {
                    let more = lemma_stages_in_prefix(views, i + 1);
                    lemma_longer::<E, Enc>(left + right, more, workers, all, *encode);
                }
                return (Err(error), Ghost(all));
            },
        }
    }
    assert(views.take(nodes@.len() as int) =~= views);
    (Ok(done), Ghost(choices))
}

/// Prepares a node with what is under it.
fn prepare_node<E, Enc: Fn(&PlanNode) -> Result<Vec<u8>, E>>(
    node: &PlanNode,
    urls: &Vec<String>,
    encode: &Enc,
    sends: &mut Vec<PlanSend>,
) -> (r: Prepared<PlanNode, E>)
    requires
        forall|plan: PlanNode| (*encode).requires((&plan,)),
        urls@.len() > 0 || !needs_worker(stages(node@)),
    ensures
        prepares::<E, Enc>(stages(node@), texts(urls@), r.1@, *encode),
        sends_view(final(sends)@) == sends_view(old(sends)@) + sends_of(
            stages(node@),
            texts(urls@),
            r.1@,
        ),
        match r.0 {
            Ok(done) => {
                &&& r.1@.len() == stages(node@).len()
                &&& done@ == prepared(node@, texts(urls@), r.1@)
            },
            Err(error) => fails_after(stages(node@), texts(urls@), r.1@, *encode, error),
        },
    decreases node,
{
    match node {
        PlanNode::Operator { kind, children } => {
            let (result, made) = prepare_nodes(children, urls, encode, sends);
            match result {
                Ok(children) => (Ok(PlanNode::Operator { kind: *kind, children }), made),
                Err(error) => (Err(error), made),
            }
        },
        PlanNode::Boundary { index, stage } => prepare_boundary(*index, stage, urls, encode, sends),
    }
}

/// Prepares a network boundary with what is under it.
fn prepare_boundary<E, Enc: Fn(&PlanNode) -> Result<Vec<u8>, E>>(
    index: usize,
    stage: &Stage,
    urls: &Vec<String>,
    encode: &Enc,
    sends: &mut Vec<PlanSend>,
) -> (r: Prepared<PlanNode, E>)
    requires
        forall|plan: PlanNode| (*encode).requires((&plan,)),
        urls@.len() > 0 || !needs_worker(
            stages(PlanView::Boundary { index, stage: stage@ }),
        ),
    ensures
        prepares::<E, Enc>(
            stages(PlanView::Boundary { index, stage: stage@ }),
            texts(urls@),
            r.1@,
            *encode,
        ),
        sends_view(final(sends)@) == sends_view(old(sends)@) + sends_of(
            stages(PlanView::Boundary { index, stage: stage@ }),
            texts(urls@),
            r.1@,
        ),
        match r.0 {
            Ok(done) => {
                let node = PlanView::Boundary { index, stage: stage@ };
                &&& r.1@.len() == stages(node).len()
                &&& done@ == prepared(node, texts(urls@), r.1@)
            },
            Err(error) => fails_after(
                stages(PlanView::Boundary { index, stage: stage@ }),
                texts(urls@),
                r.1@,
                *encode,
                error,
            ),
        },
    decreases stage,
{
    let ghost workers = texts(urls@);
    let ghost all = stages(PlanView::Boundary { index, stage: stage@ });
    let plan: &PlanNode = match &stage.plan {
        Some(plan) => plan,
        None => {
            proof {
                assert(sends_view(sends@) =~= sends_view(old(sends)@) + Seq::empty());
                lemma_encoded_empty(all, workers, encoding::<E, Enc>(*encode));
            }
            return (Err(PrepareError::PlanNotSet(stage.num)), Ghost(Seq::empty()));
        },
    };
    let ghost under = stages(plan@);
    proof {
        if urls@.len() == 0 && needs_worker(under) {
            assert(all[0] == under[0]);
        }
    }
    let (result, made) = prepare_node(plan, urls, encode, sends);
    let ghost choices = made@;
    proof {
        assert(all =~= under + seq![stage@]);
        lemma_longer::<E, Enc>(under, seq![stage@], workers, choices, *encode);
    }
    let input: PlanNode = match result {
        Ok(input) => input,
        Err(error) => {
            return (Err(error), made);
        },
    };
    proof {
        assert(choices.subrange(0, choices.len() as int) =~= choices);
        assert(sent_plan(all, workers, choices, choices.len() as int) == input@);
        if urls@.len() == 0 {
            if choices.len() > 0 {
                assert(0 <= choices[0].start < urls@.len());
            }
        }
    }
    let start: usize = called(random_index, urls.len());
    let bytes: Vec<u8> = match encode(&input) {
        Ok(bytes) => bytes,
        Err(error) => {
            assert(refuses(*encode, input@, error));
            return (Err(PrepareError::Encode(error)), made);
        },
    };
    let detached: Stage = dispatch_stage(stage, urls, start, &bytes, sends);
    let ghost choice = StageChoice { start: start as int, bytes: bytes@ };
    let ghost with_own = choices.push(choice);
    proof {
        assert(with_own.drop_last() =~= choices);
        assert(encoding::<E, Enc>(*encode)(input@, bytes@));
        lemma_under_comes_before(PlanView::Boundary { index, stage: stage@ });
        lemma_encoded_push(all, workers, choices, choice, encoding::<E, Enc>(*encode));
        assert(sends_view(sends@) =~= sends_view(old(sends)@) + sends_of(all, workers, with_own));
    }
    (Ok(PlanNode::Boundary { index, stage: detached }), Ghost(with_own))
}

/// Prepares a plan for execution on the workers at `urls`, and adds to `sends` the requests that
/// hand its stages to them.
///
/// Stages are prepared from the leaves up, so that a stage's plan is encoded with the stages under
/// it already prepared. A stage's first task is given a random worker and the others follow in
/// turn. A stage that cannot be prepared does not take back the requests for those before it.
/// Without workers a stage cannot be prepared, which `requires` leaves out.
pub fn prepare_plan<E, Enc: Fn(&PlanNode) -> Result<Vec<u8>, E>>(
    plan: &PlanNode,
    urls: &Vec<String>,
    encode: &Enc,
    sends: &mut Vec<PlanSend>,
) -> (r: Result<PlanNode, PrepareError<E>>)
    requires
        forall|plan: PlanNode| (*encode).requires((&plan,)),
        urls@.len() > 0 || !needs_worker(stages(plan@)),
    ensures
        exists|choices: Seq<StageChoice>, added: Seq<PlanSendView>|
            {
                &&& sends_view(final(sends)@) == sends_view(old(sends)@) + added
                &&& #[trigger] outcome(
                    plan@,
                    texts(urls@),
                    choices,
                    *encode,
                    result_view(r),
                    added,
                )
            },
{
    let (result, made) = prepare_node(plan, urls, encode, sends);
    assert(outcome(
        plan@,
        texts(urls@),
        made@,
        *encode,
        result_view(result),
        sends_of(stages(plan@), texts(urls@), made@),
    ));
    result
}

/// Whether the first of some stages has a plan, if there are any.
spec fn first_has_plan(all: Seq<StageView>) -> Option<bool> {
    if all.len() == 0 {
        None
    } else {
        Some(all[0].plan is Some)
    }
}

/// Whether the first stage under a node has a plan, if there are any.
fn first_stage(node: &PlanNode) -> (r: Option<bool>)
    ensures
        r == first_has_plan(stages(node@)),
    decreases node,
{
    match node {
        PlanNode::Operator { kind, children } => {
            let ghost views = nodes_view(children@);
            proof {
                lemma_nodes_view(children@);
                assert(views.take(0) =~= Seq::empty());
            }
            #[verifier::loop_isolation(false)]
            for i in 0..children.len()
                invariant
                    stages_in(views.take(i as int)).len() == 0,
            {
                let first: Option<bool> = first_stage(&children[i]);
                assert(views.take(i + 1).drop_last() =~= views.take(i as int));
                assert(views.take(i + 1).last() == children@[i as int]@);
                if first.is_some() {
                    proof {
                        let more = lemma_stages_in_prefix(views, i + 1);
                        assert(stages_in(views)[0] == stages(children@[i as int]@)[0]);
                    }
                    return first;
                }
            }
            assert(views.take(children@.len() as int) =~= views);
            None
        },
        PlanNode::Boundary { index, stage } => match &stage.plan {
            Some(plan) => match first_stage(plan) {
                Some(first) => Some(first),
                None => Some(true),
            },
            None => Some(false),
        },
    }
}

/// Whether preparing a plan takes a worker at all.
pub fn takes_workers(plan: &PlanNode) -> (r: bool)
    ensures
        r == needs_worker(stages(plan@)),
{
    match first_stage(plan) {
        Some(first) => first,
        None => false,
    }
}

/// What preparing gave, as a mathematical value.
pub open spec fn result_view<E>(result: Result<PlanNode, PrepareError<E>>) -> Result<
    PlanView,
    PrepareError<E>,
> {
    match result {
        Ok(plan) => Ok(plan@),
        Err(error) => Err(error),
    }
}

/// The message for a stage that has no plan to send.
pub fn missing_plan_message(num: usize) -> (r: String)
    ensures
        r@ == "Plan is not set for stage "@ + decimal(num as nat),
{
    joined("Plan is not set for stage ", decimal_text(num as u64).as_str())
}

/// The size of all plans that requests carry.
pub open spec fn plan_bytes(sends: Seq<PlanSendView>) -> nat
    decreases sends.len(),
{
    if sends.len() == 0 {
        0
    } else {
        plan_bytes(sends.drop_last()) + sends.last().plan_proto.len()
    }
}

/// Counts the bytes of plan that requests send. The count wraps around like the metric that it
/// feeds.
pub fn plan_bytes_sent(sends: &Vec<PlanSend>) -> (r: usize)
    ensures
        r == plan_bytes(sends_view(sends@)) % (usize::MAX as nat + 1),
{
    let ghost views = sends_view(sends@);
    let ghost modulus = usize::MAX as int + 1;
    let mut count: usize = 0;
    assert(views.take(0) =~= Seq::empty());
    for i in 0..sends.len()
        invariant
            views == sends_view(sends@),
            modulus == usize::MAX as int + 1,
            count == plan_bytes(views.take(i as int)) as int % modulus,
    {
        let size: usize = sends[i].request.plan_proto.len();
        let ghost before = plan_bytes(views.take(i as int)) as int;
        assert(views.take(i + 1).drop_last() =~= views.take(i as int));
        proof {
            vstd::arithmetic::div_mod::lemma_add_mod_noop(before, size as int, modulus);
            vstd::arithmetic::div_mod::lemma_small_mod(size as nat, modulus as nat);
            if count + size < modulus {
                vstd::arithmetic::div_mod::lemma_small_mod((count + size) as nat, modulus as nat);
            } else {
                vstd::arithmetic::div_mod::lemma_small_mod(
                    (count + size - modulus) as nat,
                    modulus as nat,
                );
                vstd::arithmetic::div_mod::lemma_mod_sub_multiples_vanish(
                    (count + size) as int,
                    modulus,
                );
            }
        }
        count = count.wrapping_add(size);
    }
    assert(views.take(sends@.len() as int) =~= views);
    count
}

/// The task keys that requests carry.
pub open spec fn sent_keys(sends: Seq<PlanSendView>) -> Seq<TaskKeyView> {
    sends.map_values(|send: PlanSendView| send.task_key->0)
}

/// Whether every network boundary of a plan has lost its input plan.
pub open spec fn detached(node: PlanView) -> bool
    decreases node,
{
    match node {
        PlanView::Operator { kind, children } => detached_in(children),
        PlanView::Boundary { index, stage } => stage.plan is None,
    }
}

pub open spec fn detached_in(nodes: Seq<PlanView>) -> bool
    decreases nodes,
{
    nodes.len() > 0 ==> detached_in(nodes.drop_last()) && detached(nodes.last())
}

/// Every task that is expected to report is sent its plan, exactly once, and no other is: the keys
/// that the requests of a prepared plan carry are the keys that its tasks report under.
pub proof fn every_expected_task_is_sent_once(
    node: PlanView,
    urls: Seq<Seq<char>>,
    choices: Seq<StageChoice>,
)
    requires
        choices.len() == stages(node).len(),
    ensures
        sent_keys(sends_of(stages(node), urls, choices)).to_multiset()
            == expected_keys(node).to_multiset(),
        forall|i: int|
            0 <= i < sends_of(stages(node), urls, choices).len() ==> (#[trigger] sends_of(
                stages(node),
                urls,
                choices,
            )[i]).task_key is Some,
{
    lemma_sent_keys(stages(node), urls, choices);
    lemma_expected_keys(node);
    assert(stages(node).take(choices.len() as int) =~= stages(node));
}

/// The keys of the tasks of some stages, stage by stage.
spec fn keys_of(all: Seq<StageView>) -> Seq<TaskKeyView>
    decreases all.len(),
{
    if all.len() == 0 {
        Seq::empty()
    } else {
        keys_of(all.drop_last()) + stage_keys(all.last())
    }
}

proof fn lemma_sent_keys(all: Seq<StageView>, urls: Seq<Seq<char>>, choices: Seq<StageChoice>)
    requires
        choices.len() <= all.len(),
    ensures
        sent_keys(sends_of(all, urls, choices)) == keys_of(all.take(choices.len() as int)),
        forall|i: int|
            0 <= i < sends_of(all, urls, choices).len() ==> (#[trigger] sends_of(
                all,
                urls,
                choices,
            )[i]).task_key is Some,
    decreases choices.len(),
{
    let first = all.take(choices.len() as int);
    if choices.len() > 0 {
        lemma_sent_keys(all, urls, choices.drop_last());
        let own = stage_sends(all[choices.len() - 1], urls, choices.last());
        assert(sent_keys(own) =~= stage_keys(first.last()));
        assert(first.drop_last() =~= all.take(choices.len() - 1));
    }
    assert(sent_keys(sends_of(all, urls, choices)) =~= keys_of(first));
}

proof fn lemma_keys_of_both(left: Seq<StageView>, right: Seq<StageView>)
    ensures
        keys_of(left + right) == keys_of(left) + keys_of(right),
    decreases right.len(),
{
    if right.len() == 0 {
        assert(left + right =~= left);
    } else {
        lemma_keys_of_both(left, right.drop_last());
        assert((left + right).drop_last() =~= left + right.drop_last());
    }
    assert(keys_of(left + right) =~= keys_of(left) + keys_of(right));
}

/// The order in which stages are prepared is not the order in which their keys are expected, but
/// the keys are the same.
proof fn lemma_expected_keys(node: PlanView)
    ensures
        keys_of(stages(node)).to_multiset() == expected_keys(node).to_multiset(),
    decreases node,
{
    match node {
        PlanView::Operator { kind, children } => {
            lemma_expected_keys_in(children);
        },
        PlanView::Boundary { index, stage } => {
            let under = match stage.plan {
                Some(plan) => stages(*plan),
                None => Seq::empty(),
            };
            let expected = match stage.plan {
                Some(plan) => expected_keys(*plan),
                None => Seq::empty(),
            };
            if let Some(plan) = stage.plan {
                lemma_expected_keys(*plan);
            } else {
                assert(keys_of(under) =~= expected);
            }
            assert(under.push(stage).drop_last() =~= under);
            vstd::seq_lib::lemma_multiset_commutative(keys_of(under), stage_keys(stage));
            vstd::seq_lib::lemma_multiset_commutative(stage_keys(stage), expected);
            assert(keys_of(stages(node)).to_multiset() =~= expected_keys(node).to_multiset());
        },
    }
}

proof fn lemma_expected_keys_in(nodes: Seq<PlanView>)
    ensures
        keys_of(stages_in(nodes)).to_multiset() == expected_keys_in(nodes).to_multiset(),
    decreases nodes,
{
    if nodes.len() == 0 {
        assert(keys_of(stages_in(nodes)) =~= expected_keys_in(nodes));
    } else {
        let left = stages_in(nodes.drop_last());
        let right = stages(nodes.last());
        lemma_expected_keys_in(nodes.drop_last());
        lemma_expected_keys(nodes.last());
        lemma_keys_of_both(left, right);
        vstd::seq_lib::lemma_multiset_commutative(keys_of(left), keys_of(right));
        vstd::seq_lib::lemma_multiset_commutative(
            expected_keys_in(nodes.drop_last()),
            expected_keys(nodes.last()),
        );
    }
}

/// No boundary of a prepared plan leads further down.
pub proof fn a_prepared_plan_is_detached(
    node: PlanView,
    urls: Seq<Seq<char>>,
    choices: Seq<StageChoice>,
)
    ensures
        detached(prepared(node, urls, choices)),
    decreases node,
{
    if let PlanView::Operator { kind, children } = node {
        lemma_prepared_in_is_detached(children, urls, choices);
    }
}

proof fn lemma_prepared_in_is_detached(
    nodes: Seq<PlanView>,
    urls: Seq<Seq<char>>,
    choices: Seq<StageChoice>,
)
    ensures
        detached_in(prepared_in(nodes, urls, choices)),
    decreases nodes,
{
    if nodes.len() > 0 {
        let before = stages_in(nodes.drop_last()).len() as int;
        let left = prepared_in(nodes.drop_last(), urls, choices.take(before));
        lemma_prepared_in_is_detached(nodes.drop_last(), urls, choices.take(before));
        a_prepared_plan_is_detached(nodes.last(), urls, choices.skip(before));
        assert(prepared_in(nodes, urls, choices).drop_last() =~= left);
    }
}

/// A plan without network boundaries runs as it is: preparing it changes nothing, sends nothing and
/// takes no worker.
pub proof fn a_local_plan_is_left_alone(
    node: PlanView,
    urls: Seq<Seq<char>>,
    choices: Seq<StageChoice>,
)
    requires
        stages(node).len() == 0,
        choices.len() == 0,
    ensures
        prepared(node, urls, choices) == node,
        sends_of(stages(node), urls, choices) == Seq::<PlanSendView>::empty(),
        !needs_worker(stages(node)),
    decreases node,
{
    if let PlanView::Operator { kind, children } = node {
        lemma_local_nodes(children, urls, choices);
    }
}

proof fn lemma_local_nodes(nodes: Seq<PlanView>, urls: Seq<Seq<char>>, choices: Seq<StageChoice>)
    requires
        stages_in(nodes).len() == 0,
        choices.len() == 0,
    ensures
        prepared_in(nodes, urls, choices) == nodes,
    decreases nodes,
{
    if nodes.len() > 0 {
        lemma_local_nodes(nodes.drop_last(), urls, choices.take(0));
        a_local_plan_is_left_alone(nodes.last(), urls, choices.skip(0));
    }
    assert(prepared_in(nodes, urls, choices) =~= nodes);
}

/// Every task of a stage is given one of the workers, and its plan goes to that worker.
pub proof fn every_task_runs_where_its_plan_is_sent(
    stage: StageView,
    urls: Seq<Seq<char>>,
    choice: StageChoice,
    task: int,
)
    requires
        0 <= choice.start < urls.len(),
        0 <= task < stage.tasks.len(),
    ensures
        detached_stage(stage, urls, choice.start).tasks.len() == stage.tasks.len(),
        detached_stage(stage, urls, choice.start).tasks[task] == Some(
            stage_send(stage, urls, choice, task).url,
        ),
        stage_sends(stage, urls, choice)[task] == stage_send(stage, urls, choice, task),
        urls.contains(stage_send(stage, urls, choice, task).url),
{
    let worker = (choice.start + task) % (urls.len() as int);
    vstd::arithmetic::div_mod::lemma_mod_bound(choice.start + task, urls.len() as int);
    assert(urls[worker] == stage_send(stage, urls, choice, task).url);
}

/// Tasks of a stage that are fewer apart than there are workers go to different workers, so that a
/// stage with no more tasks than workers gives no worker two of them.
pub proof fn nearby_tasks_go_to_different_workers(workers: int, start: int, first: int, second: int)
    requires
        0 <= start < workers,
        0 <= first < second < first + workers,
    ensures
        (start + first) % workers != (start + second) % workers,
{
    let gap = second - first;
    if (start + first) % workers == (start + second) % workers {
        vstd::arithmetic::div_mod::lemma_fundamental_div_mod(start + first, workers);
        vstd::arithmetic::div_mod::lemma_fundamental_div_mod(start + second, workers);
        let turns = (start + second) / workers - (start + first) / workers;
        assert(gap == workers * turns) by (nonlinear_arith)
            requires
                gap == (start + second) - (start + first),
                start + first == workers * ((start + first) / workers) + (start + first) % workers,
                start + second == workers * ((start + second) / workers) + (start + second)
                    % workers,
                (start + first) % workers == (start + second) % workers,
                turns == (start + second) / workers - (start + first) / workers,
        ;
        assert(false) by (nonlinear_arith)
            requires
                0 < gap < workers,
                gap == workers * turns,
        ;
    }
}

/// The tasks of a stage take the workers in turn, from `start` on. The request for a task goes to
/// its worker, and carries the plan, the number of tasks, and the key of the task. What is left at
/// the boundary is the stage with the workers of its tasks, and without its plan.
pub proof fn tasks_take_the_workers_in_turn(
    stage: StageView,
    urls: Seq<Seq<char>>,
    choice: StageChoice,
    task: int,
)
    requires
        0 <= choice.start < urls.len(),
        0 <= task < stage.tasks.len() <= u64::MAX,
    ensures
        stage_sends(stage, urls, choice).len() == stage.tasks.len(),
        ({
            let send = stage_sends(stage, urls, choice)[task];
            &&& send.url == urls[(choice.start + task) % (urls.len() as int)]
            &&& send.plan_proto == choice.bytes
            &&& send.task_count == stage.tasks.len()
            &&& send.task_key matches Some(key) && key.0 == stage.query_id && key.1 == stage.num
                && key.2 == task
        }),
        ({
            let left = detached_stage(stage, urls, choice.start);
            &&& left.query_id == stage.query_id
            &&& left.num == stage.num
            &&& left.plan is None
            &&& left.tasks.len() == stage.tasks.len()
            &&& left.tasks[task] == Some(urls[(choice.start + task) % (urls.len() as int)])
        }),
{
}

/// Two tasks of one stage that are fewer apart than there are workers go to different workers, and
/// so do their plans. Tasks that are as far apart as there are workers go to the same one.
pub proof fn tasks_go_round_the_workers(
    stage: StageView,
    urls: Seq<Seq<char>>,
    choice: StageChoice,
    first: int,
    second: int,
)
    requires
        0 <= choice.start < urls.len(),
        urls.no_duplicates(),
        0 <= first < second < stage.tasks.len(),
    ensures
        second - first < urls.len() ==> {
            &&& stage_sends(stage, urls, choice)[first].url != stage_sends(
                stage,
                urls,
                choice,
            )[second].url
            &&& detached_stage(stage, urls, choice.start).tasks[first] != detached_stage(
                stage,
                urls,
                choice.start,
            ).tasks[second]
        },
        second - first == urls.len() ==> {
            &&& stage_sends(stage, urls, choice)[first].url == stage_sends(
                stage,
                urls,
                choice,
            )[second].url
            &&& detached_stage(stage, urls, choice.start).tasks[first] == detached_stage(
                stage,
                urls,
                choice.start,
            ).tasks[second]
        },
{
    let workers = urls.len() as int;
    vstd::arithmetic::div_mod::lemma_mod_bound(choice.start + first, workers);
    vstd::arithmetic::div_mod::lemma_mod_bound(choice.start + second, workers);
    if second - first < workers {
        nearby_tasks_go_to_different_workers(workers, choice.start, first, second);
    }
    if second - first == workers {
        vstd::arithmetic::div_mod::lemma_mod_add_multiples_vanish(choice.start + first, workers);
    }
}

/// Stages are listed part by part: those of the children of an operator in turn, and those under a
/// boundary before the boundary's own.
pub proof fn stages_are_listed_part_by_part(
    kind: OperatorKind,
    left: Seq<PlanView>,
    right: Seq<PlanView>,
    node: PlanView,
    index: usize,
    stage: StageView,
)
    ensures
        stages(PlanView::Operator { kind, children: left + right }) == stages(
            PlanView::Operator { kind, children: left },
        ) + stages(PlanView::Operator { kind, children: right }),
        stages(PlanView::Operator { kind, children: seq![node] }) == stages(node),
        stages(PlanView::Operator { kind, children: Seq::empty() }) == Seq::<StageView>::empty(),
        stages(PlanView::Boundary { index, stage }).len() > 0,
        stages(PlanView::Boundary { index, stage }).last() == stage,
        stages(PlanView::Boundary { index, stage }).drop_last() == match stage.plan {
            Some(plan) => stages(*plan),
            None => Seq::empty(),
        },
{
    lemma_stages_of_both(left, right);
    let one = seq![node];
    assert(one.drop_last() =~= Seq::empty());
    assert(stages_in(one.drop_last()) =~= Seq::empty());
    assert(stages_in(one) =~= stages(node));
    assert(stages(PlanView::Boundary { index, stage }).drop_last() =~= match stage.plan {
        Some(plan) => stages(*plan),
        None => Seq::empty(),
    });
}

proof fn lemma_stages_of_both(left: Seq<PlanView>, right: Seq<PlanView>)
    ensures
        stages_in(left + right) == stages_in(left) + stages_in(right),
    decreases right.len(),
{
    if right.len() == 0 {
        assert(left + right =~= left);
    } else {
        lemma_stages_of_both(left, right.drop_last());
        assert((left + right).drop_last() =~= left + right.drop_last());
        assert((left + right).last() == right.last());
    }
    assert(stages_in(left + right) =~= stages_in(left) + stages_in(right));
}

/// Every stage of a plan is prepared, however deep it lies.
pub proof fn every_stage_is_prepared(node: PlanView, path: Seq<int>, stage: StageView)
    requires
        lies_at(node, path, stage),
    ensures
        stages(node).contains(stage),
    decreases path.len(),
{
    if path.len() == 0 {
        assert(stages(node).last() == stage);
    } else {
        match node {
            PlanView::Operator { kind, children } => {
                every_stage_is_prepared(children[path[0]], path.drop_first(), stage);
                lemma_child_stages(children, path[0], stage);
            },
            PlanView::Boundary { index, stage: above } => {
                let plan = above.plan->0;
                every_stage_is_prepared(*plan, path.drop_first(), stage);
                let i = stages(*plan).index_of(stage);
                assert(stages(node)[i] == stage);
            },
        }
    }
}

proof fn lemma_child_stages(nodes: Seq<PlanView>, child: int, stage: StageView)
    requires
        0 <= child < nodes.len(),
        stages(nodes[child]).contains(stage),
    ensures
        stages_in(nodes).contains(stage),
    decreases nodes.len(),
{
    let before = stages_in(nodes.drop_last());
    if child == nodes.len() - 1 {
        let i = stages(nodes[child]).index_of(stage);
        assert(stages_in(nodes)[before.len() + i] == stage);
    } else {
        assert(nodes.drop_last()[child] == nodes[child]);
        lemma_child_stages(nodes.drop_last(), child, stage);
        let i = before.index_of(stage);
        assert(stages_in(nodes)[i] == stage);
    }
}

/// A prepared operator is the operator with its children prepared: as many, in their order, each
/// with the choices for its own stages.
pub proof fn operators_stay_in_place(
    kind: OperatorKind,
    children: Seq<PlanView>,
    urls: Seq<Seq<char>>,
    choices: Seq<StageChoice>,
    child: int,
)
    requires
        choices.len() == stages(PlanView::Operator { kind, children }).len(),
        0 <= child < children.len(),
    ensures
        ({
            let before = stages(
                PlanView::Operator { kind, children: children.take(child) },
            ).len() as int;
            let own = stages(children[child]).len() as int;
            &&& 0 <= before <= before + own <= choices.len()
            &&& prepared(PlanView::Operator { kind, children }, urls, choices) matches
                PlanView::Operator { kind: kept, children: done }
            &&& kept == kind
            &&& done.len() == children.len()
            &&& done[child] == prepared(
                children[child],
                urls,
                choices.subrange(before, before + own),
            )
        }),
{
    lemma_children_stay_in_place(children, urls, choices, child);
}

#[verifier::spinoff_prover]
proof fn lemma_children_stay_in_place(
    nodes: Seq<PlanView>,
    urls: Seq<Seq<char>>,
    choices: Seq<StageChoice>,
    child: int,
)
    requires
        choices.len() == stages_in(nodes).len(),
        0 <= child < nodes.len(),
    ensures
        ({
            let before = stages_in(nodes.take(child)).len() as int;
            let own = stages(nodes[child]).len() as int;
            &&& 0 <= before <= before + own <= choices.len()
            &&& prepared_in(nodes, urls, choices).len() == nodes.len()
            &&& prepared_in(nodes, urls, choices)[child] == prepared(
                nodes[child],
                urls,
                choices.subrange(before, before + own),
            )
        }),
    decreases nodes.len(),
{
    let front = nodes.drop_last();
    let size = stages_in(front).len() as int;
    let before = stages_in(nodes.take(child)).len() as int;
    let own = stages(nodes[child]).len() as int;
    let left = prepared_in(front, urls, choices.take(size));
    let last = prepared(nodes.last(), urls, choices.skip(size));
    assert(stages_in(nodes).len() == size + stages(nodes.last()).len());
    assert(prepared_in(nodes, urls, choices) == left.push(last));
    lemma_as_many_children(front, urls, choices.take(size));
    if child == nodes.len() - 1 {
        assert(nodes.take(child) =~= front);
        assert(nodes[child] == nodes.last());
        assert(choices.skip(size) =~= choices.subrange(before, before + own));
        assert(left.push(last)[child] == last);
    } else {
        assert(front.take(child) =~= nodes.take(child));
        assert(front[child] == nodes[child]);
        assert(choices.take(size).len() == size);
        lemma_children_stay_in_place(front, urls, choices.take(size), child);
        assert(choices.take(size).subrange(before, before + own) =~= choices.subrange(
            before,
            before + own,
        ));
        assert(left.push(last)[child] == left[child]);
    }
}

proof fn lemma_as_many_children(
    nodes: Seq<PlanView>,
    urls: Seq<Seq<char>>,
    choices: Seq<StageChoice>,
)
    ensures
        prepared_in(nodes, urls, choices).len() == nodes.len(),
    decreases nodes.len(),
{
    if nodes.len() > 0 {
        let before = stages_in(nodes.drop_last()).len() as int;
        lemma_as_many_children(nodes.drop_last(), urls, choices.take(before));
    }
}

/// A prepared boundary keeps its place, the query and the number of its stage. It loses the plan of
/// its stage, and its tasks have the workers in turn.
pub proof fn boundaries_are_cut_in_place(
    index: usize,
    stage: StageView,
    urls: Seq<Seq<char>>,
    choices: Seq<StageChoice>,
)
    requires
        choices.len() > 0,
    ensures
        prepared(PlanView::Boundary { index, stage }, urls, choices) matches PlanView::Boundary {
            index: kept,
            stage: left,
        } && {
            &&& kept == index
            &&& left.query_id == stage.query_id
            &&& left.num == stage.num
            &&& left.plan is None
            &&& left.tasks.len() == stage.tasks.len()
            &&& forall|i: int|
                0 <= i < stage.tasks.len() ==> #[trigger] left.tasks[i] == Some(
                    urls[(choices.last().start + i) % (urls.len() as int)],
                )
        },
{
}

/// The requests for some stages: for each stage one for each of its tasks, and all of a stage before
/// those of the next.
pub proof fn requests_go_out_stage_by_stage(
    all: Seq<StageView>,
    urls: Seq<Seq<char>>,
    choices: Seq<StageChoice>,
    k: int,
    task: int,
)
    requires
        choices.len() <= all.len(),
        0 <= k < choices.len(),
        0 <= task < all[k].tasks.len() <= u64::MAX,
    ensures
        sends_of(all, urls, Seq::empty()) == Seq::<PlanSendView>::empty(),
        sends_of(all, urls, choices.take(k + 1)).len() == sends_of(
            all,
            urls,
            choices.take(k),
        ).len() + all[k].tasks.len(),
        ({
            let position = sends_of(all, urls, choices.take(k)).len() + task;
            let send = sends_of(all, urls, choices)[position];
            &&& position < sends_of(all, urls, choices).len()
            &&& send.url == urls[(choices[k].start + task) % (urls.len() as int)]
            &&& send.plan_proto == choices[k].bytes
            &&& send.task_count == all[k].tasks.len()
            &&& send.task_key matches Some(key) && key.0 == all[k].query_id && key.1 == all[k].num
                && key.2 == task
        }),
    decreases choices.len(),
{
    assert(choices.take(k + 1).drop_last() =~= choices.take(k));
    assert(choices.take(k + 1).last() == choices[k]);
    let position = sends_of(all, urls, choices.take(k)).len() + task;
    if k == choices.len() - 1 {
        assert(choices.take(k + 1) =~= choices);
        assert(sends_of(all, urls, choices)[position] == stage_sends(
            all[k],
            urls,
            choices[k],
        )[task]);
    } else {
        let front = choices.drop_last();
        requests_go_out_stage_by_stage(all, urls, front, k, task);
        assert(front.take(k) =~= choices.take(k));
        assert(front[k] == choices[k]);
        assert(sends_of(all, urls, choices)[position] == sends_of(all, urls, front)[position]);
    }
}

/// What can be said of every end of preparing a plan.
///
/// The stages that were prepared are the first ones, each has a plan, is given a worker to start
/// from, and its bytes are what `encode` gave for its plan with the stages under it prepared. If all
/// went well these are all stages. Otherwise the next one has no plan, and is named in the error, or
/// has one that `encode` failed on, with the error that is passed on.
pub proof fn how_preparing_ends<E, Enc: Fn(&PlanNode) -> Result<Vec<u8>, E>>(
    plan: PlanView,
    urls: Seq<Seq<char>>,
    choices: Seq<StageChoice>,
    encode: Enc,
    result: Result<PlanView, PrepareError<E>>,
    sends: Seq<PlanSendView>,
)
    requires
        outcome(plan, urls, choices, encode, result, sends),
    ensures
        sends == sends_of(stages(plan), urls, choices),
        forall|k: int|
            0 <= k < choices.len() ==> 0 <= (#[trigger] choices[k]).start < urls.len()
                && stages(plan)[k].plan is Some,
        match result {
            Ok(done) => {
                &&& choices.len() == stages(plan).len()
                &&& done == prepared(plan, urls, choices)
            },
            Err(PrepareError::PlanNotSet(num)) => {
                &&& choices.len() < stages(plan).len()
                &&& stages(plan)[choices.len() as int].plan is None
                &&& num == stages(plan)[choices.len() as int].num
            },
            Err(PrepareError::Encode(cause)) => {
                let k = choices.len() as int;
                &&& k < stages(plan).len()
                &&& stages(plan)[k].plan is Some
                &&& exists|node: PlanNode|
                    {
                        &&& node@ == prepared(
                            *stages(plan)[k].plan->0,
                            urls,
                            choices.subrange(k - stages(*stages(plan)[k].plan->0).len(), k),
                        )
                        &&& #[trigger] encode.ensures((&node,), Err::<Vec<u8>, E>(cause))
                    }
            },
        },
{
    reveal(encoded);
    let encodes = encoding::<E, Enc>(encode);
    assert forall|k: int| 0 <= k < choices.len() implies 0 <= (#[trigger] choices[k]).start
        < urls.len() && stages(plan)[k].plan is Some by {
        assert(stage_encoded(stages(plan), urls, choices, encodes, k));
    }
}

/// The bytes that are sent for a stage are what `encode` gave for its plan, cut at the boundaries
/// under it, whose stages are those that were prepared right before.
pub proof fn what_is_sent_for_a_stage<E, Enc: Fn(&PlanNode) -> Result<Vec<u8>, E>>(
    plan: PlanView,
    urls: Seq<Seq<char>>,
    choices: Seq<StageChoice>,
    encode: Enc,
    result: Result<PlanView, PrepareError<E>>,
    sends: Seq<PlanSendView>,
    k: int,
)
    requires
        outcome(plan, urls, choices, encode, result, sends),
        0 <= k < choices.len(),
    ensures
        stages(plan)[k].plan is Some,
        stages(*stages(plan)[k].plan->0).len() <= k,
        exists|node: PlanNode, proto: Vec<u8>|
            {
                &&& node@ == prepared(
                    *stages(plan)[k].plan->0,
                    urls,
                    choices.subrange(k - stages(*stages(plan)[k].plan->0).len(), k),
                )
                &&& proto@ == choices[k].bytes
                &&& #[trigger] encode.ensures((&node,), Ok::<Vec<u8>, E>(proto))
            },
        stages(plan).subrange(k - stages(*stages(plan)[k].plan->0).len(), k) == stages(
            *stages(plan)[k].plan->0,
        ),
{
    reveal(encoded);
    let encodes = encoding::<E, Enc>(encode);
    assert(stage_encoded(stages(plan), urls, choices, encodes, k));
    assert(encodes(sent_plan(stages(plan), urls, choices, k), choices[k].bytes));
    lemma_under_comes_before(plan);
    lemma_right_before(plan, k);
}

/// The stages under a stage are those right before it.
proof fn lemma_right_before(node: PlanView, k: int)
    requires
        0 <= k < stages(node).len(),
        stages(node)[k].plan is Some,
    ensures
        stages(*stages(node)[k].plan->0).len() <= k,
        stages(node).subrange(k - stages(*stages(node)[k].plan->0).len(), k) == stages(
            *stages(node)[k].plan->0,
        ),
    decreases node,
{
    match node {
        PlanView::Operator { kind, children } => {
            lemma_right_before_in(children, k);
        },
        PlanView::Boundary { index, stage } => {
            let under = stages(*stages(node)[k].plan->0);
            if k == stages(node).len() - 1 {
                assert(stages(node).subrange(k - under.len(), k) =~= under);
            } else {
                let plan = stage.plan->0;
                assert(stages(node)[k] == stages(*plan)[k]);
                lemma_right_before(*plan, k);
                assert(stages(node).subrange(k - under.len(), k) =~= stages(*plan).subrange(
                    k - under.len(),
                    k,
                ));
            }
        },
    }
}

proof fn lemma_right_before_in(nodes: Seq<PlanView>, k: int)
    requires
        0 <= k < stages_in(nodes).len(),
        stages_in(nodes)[k].plan is Some,
    ensures
        stages(*stages_in(nodes)[k].plan->0).len() <= k,
        stages_in(nodes).subrange(k - stages(*stages_in(nodes)[k].plan->0).len(), k) == stages(
            *stages_in(nodes)[k].plan->0,
        ),
    decreases nodes,
{
    let front = stages_in(nodes.drop_last());
    let under = stages(*stages_in(nodes)[k].plan->0);
    if k < front.len() {
        assert(stages_in(nodes)[k] == front[k]);
        lemma_right_before_in(nodes.drop_last(), k);
        assert(stages_in(nodes).subrange(k - under.len(), k) =~= front.subrange(
            k - under.len(),
            k,
        ));
    } else {
        let own = stages(nodes.last());
        let i = k - front.len();
        assert(stages_in(nodes)[k] == own[i]);
        lemma_right_before(nodes.last(), i);
        assert(stages_in(nodes).subrange(k - under.len(), k) =~= own.subrange(i - under.len(), i));
    }
}

/// A plan whose stages all have plans, which can all be encoded, is prepared.
pub proof fn a_complete_plan_is_prepared<E, Enc: Fn(&PlanNode) -> Result<Vec<u8>, E>>(
    plan: PlanView,
    urls: Seq<Seq<char>>,
    choices: Seq<StageChoice>,
    encode: Enc,
    result: Result<PlanView, PrepareError<E>>,
    sends: Seq<PlanSendView>,
)
    requires
        outcome(plan, urls, choices, encode, result, sends),
        forall|k: int| 0 <= k < stages(plan).len() ==> (#[trigger] stages(plan)[k]).plan is Some,
        forall|node: PlanNode, error: E|
            !(#[trigger] encode.ensures((&node,), Err::<Vec<u8>, E>(error))),
    ensures
        result is Ok,
{
    how_preparing_ends(plan, urls, choices, encode, result, sends);
}

/// A worker is needed if and only if there is a stage at all and the first one has a plan. Without
/// workers no stage is prepared.
pub proof fn when_a_worker_is_needed<E, Enc: Fn(&PlanNode) -> Result<Vec<u8>, E>>(
    all: Seq<StageView>,
    choices: Seq<StageChoice>,
    encode: Enc,
)
    ensures
        needs_worker(all) <==> all.len() > 0 && all[0].plan is Some,
        prepares::<E, Enc>(all, Seq::empty(), choices, encode) ==> choices.len() == 0,
{
    if prepares::<E, Enc>(all, Seq::empty(), choices, encode) && choices.len() > 0 {
        assert(0 <= choices[0].start < Seq::<Seq<char>>::empty().len());
    }
}

/// The worker that a stage starts from is one that was drawn.
proof fn starts_are_drawn_from_all_workers(choices: Seq<StageChoice>, workers: nat, k: int)
    requires
        starts_drawn(choices, workers),
        0 <= k < choices.len(),
    ensures
        exists|len: usize, index: usize|
            len == workers && index == choices[k].start && #[trigger] call_ensures(
                random_index,
                (len,),
                index,
            ),
        0 <= choices[k].start < workers,
{
    assert(0 <= choices[k].start);
}

/// The size of all plans that requests carry is the sum of their sizes.
pub proof fn plan_sizes_are_added_up(
    first: Seq<PlanSendView>,
    second: Seq<PlanSendView>,
    send: PlanSendView,
)
    ensures
        plan_bytes(first + second) == plan_bytes(first) + plan_bytes(second),
        plan_bytes(seq![send]) == send.plan_proto.len(),
        plan_bytes(Seq::empty()) == 0,
    decreases second.len(),
{
    assert(seq![send].drop_last() =~= Seq::empty());
    assert(plan_bytes(seq![send].drop_last()) == 0);
    if second.len() == 0 {
        assert(first + second =~= first);
    } else {
        plan_sizes_are_added_up(first, second.drop_last(), send);
        assert((first + second).drop_last() =~= first + second.drop_last());
        assert((first + second).last() == second.last());
    }
}

/// The views of requests, of workers and of results leave nothing out.
pub proof fn requests_are_seen_whole<E>(
    sends: Seq<PlanSend>,
    urls: Seq<String>,
    result: Result<PlanNode, PrepareError<E>>,
)
    ensures
        sends_view(sends).len() == sends.len(),
        forall|i: int|
            0 <= i < sends.len() ==> {
                let seen = #[trigger] sends_view(sends)[i];
                &&& seen.url == sends[i].url@
                &&& seen.plan_proto == sends[i].request.plan_proto@
                &&& seen.task_count == sends[i].request.task_count
                &&& seen.task_key is Some <==> sends[i].request.task_key is Some
                &&& sends[i].request.task_key matches Some(key) ==> seen.task_key == Some(key@)
            },
        sent_keys(sends_view(sends)).len() == sends.len(),
        forall|i: int|
            0 <= i < sends.len() && sends[i].request.task_key is Some ==> #[trigger] sent_keys(
                sends_view(sends),
            )[i] == sends[i].request.task_key->0@,
        texts(urls).len() == urls.len(),
        forall|i: int| 0 <= i < urls.len() ==> #[trigger] texts(urls)[i] == urls[i]@,
        match result {
            Ok(plan) => result_view(result) == Ok::<PlanView, PrepareError<E>>(plan@),
            Err(error) => result_view(result) == Err::<PlanView, PrepareError<E>>(error),
        },
{
}

} // verus!
