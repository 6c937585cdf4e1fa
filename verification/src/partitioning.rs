//! How the output of a plan is split, and what is left of that when the number of parts changes.
//!
//! Expressions, orderings and split points are not looked into here: each stands as a number by
//! which its owner finds it again.

use vstd::prelude::*;

verus! {

/// Partitions by ranges of a key: the keys before the first split point, those between each two,
/// and those from the last on.
#[derive(Debug)]
pub struct RangePartitioning {
    pub ordering: Vec<u64>,
    pub split_points: Vec<u64>,
}

/// How the output of a plan is split.
#[derive(Debug)]
pub enum Partitioning {
    /// Batches in turn.
    RoundRobinBatch(usize),
    /// By a hash of these expressions.
    Hash(Vec<u64>, usize),
    Range(RangePartitioning),
    UnknownPartitioning(usize),
}

/// A [`Partitioning`] as a mathematical value.
pub ghost enum PartitioningView {
    RoundRobinBatch(usize),
    Hash(Seq<u64>, usize),
    Range { ordering: Seq<u64>, split_points: Seq<u64> },
    UnknownPartitioning(usize),
}

impl View for Partitioning {
    type V = PartitioningView;

    open spec fn view(&self) -> PartitioningView {
        match self {
            Partitioning::RoundRobinBatch(count) => PartitioningView::RoundRobinBatch(*count),
            Partitioning::Hash(exprs, count) => PartitioningView::Hash(exprs@, *count),
            Partitioning::Range(range) => PartitioningView::Range {
                ordering: range.ordering@,
                split_points: range.split_points@,
            },
            Partitioning::UnknownPartitioning(count) => PartitioningView::UnknownPartitioning(
                *count,
            ),
        }
    }
}

impl PartitioningView {
    /// The number of partitions.
    pub open spec fn count(self) -> nat {
        match self {
            PartitioningView::RoundRobinBatch(count) => count as nat,
            PartitioningView::Hash(_, count) => count as nat,
            PartitioningView::Range { split_points, .. } => split_points.len() + 1,
            PartitioningView::UnknownPartitioning(count) => count as nat,
        }
    }

    /// The partitioning with another number of partitions. Split points do not survive a change of
    /// that number.
    pub open spec fn scaled(self, count: usize) -> Self {
        match self {
            PartitioningView::RoundRobinBatch(_) => PartitioningView::RoundRobinBatch(count),
            PartitioningView::Hash(exprs, _) => PartitioningView::Hash(exprs, count),
            PartitioningView::Range { .. } => if count == self.count() {
                self
            } else {
                PartitioningView::UnknownPartitioning(count)
            },
            PartitioningView::UnknownPartitioning(_) => PartitioningView::UnknownPartitioning(
                count,
            ),
        }
    }
}

/// Copies a list of numbers.
fn copy_numbers(numbers: &Vec<u64>) -> (r: Vec<u64>)
    ensures
        r@ == numbers@,
{
    let mut copy: Vec<u64> = Vec::new();
    for i in 0..numbers.len()
        invariant
            copy@ == numbers@.take(i as int),
    {
        copy.push(numbers[i]);
        assert(copy@ =~= numbers@.take(i + 1));
    }
    assert(copy@ =~= numbers@);
    copy
}

impl Partitioning {
    /// The number of partitions.
    pub fn partition_count(&self) -> (r: usize)
        requires
            self@.count() <= usize::MAX,
        ensures
            r == self@.count(),
            match *self {
                Partitioning::RoundRobinBatch(count) => r == count,
                Partitioning::Hash(_, count) => r == count,
                Partitioning::Range(range) => r == range.split_points@.len() + 1,
                Partitioning::UnknownPartitioning(count) => r == count,
            },
    {
        match self {
            Partitioning::RoundRobinBatch(count) => *count,
            Partitioning::Hash(_, count) => *count,
            Partitioning::Range(range) => range.split_points.len() + 1,
            Partitioning::UnknownPartitioning(count) => *count,
        }
    }
}

/// The partitioning with the number of partitions that `f` gives for the present one.
pub fn scale_partitioning<F: FnOnce(usize) -> usize>(partitioning: &Partitioning, f: F) -> (r:
    Partitioning)
    requires
        partitioning@.count() <= usize::MAX,
        f.requires((partitioning@.count() as usize,)),
    ensures
        exists|count: usize|
            {
                &&& #[trigger] f.ensures((partitioning@.count() as usize,), count)
                &&& r@ == partitioning@.scaled(count)
                &&& match *partitioning {
                    Partitioning::RoundRobinBatch(_) => r == Partitioning::RoundRobinBatch(count),
                    Partitioning::Hash(exprs, _) => r matches Partitioning::Hash(hashed, parts)
                        && hashed@ == exprs@ && parts == count,
                    Partitioning::Range(range) => if count == range.split_points@.len() + 1 {
                        r matches Partitioning::Range(kept) && kept.ordering@ == range.ordering@
                            && kept.split_points@ == range.split_points@
                    } else {
                        r == Partitioning::UnknownPartitioning(count)
                    },
                    Partitioning::UnknownPartitioning(_) => r == Partitioning::UnknownPartitioning(
                        count,
                    ),
                }
            },
{
    let partition_count: usize = partitioning.partition_count();
    let scaled_count: usize = f(partition_count);
    match partitioning {
        Partitioning::RoundRobinBatch(_) => Partitioning::RoundRobinBatch(scaled_count),
        Partitioning::Hash(exprs, _) => Partitioning::Hash(copy_numbers(exprs), scaled_count),
        Partitioning::Range(range) => if scaled_count == partition_count {
            Partitioning::Range(
                RangePartitioning {
                    ordering: copy_numbers(&range.ordering),
                    split_points: copy_numbers(&range.split_points),
                },
            )
        } else {
            Partitioning::UnknownPartitioning(scaled_count)
        },
        Partitioning::UnknownPartitioning(_) => Partitioning::UnknownPartitioning(scaled_count),
    }
}

/// When a plan emits its output.
#[derive(Debug, Clone, Copy, PartialEq, Eq, Structural)]
pub enum EmissionType {
    Incremental,
    Final,
    Both,
}

/// Whether the output of a plan ends.
#[derive(Debug, Clone, Copy, PartialEq, Eq, Structural)]
pub enum Boundedness {
    Bounded,
    Unbounded { requires_infinite_memory: bool },
}

/// Whether a plan waits to be asked for its output.
#[derive(Debug, Clone, Copy, PartialEq, Eq, Structural)]
pub enum EvaluationType {
    Lazy,
    Eager,
}

/// Whether a plan yields to others by itself.
#[derive(Debug, Clone, Copy, PartialEq, Eq, Structural)]
pub enum SchedulingType {
    NonCooperative,
    Cooperative,
}

/// What is known of the output of a plan.
#[derive(Debug)]
pub struct PlanProperties {
    pub eq_properties: u64,
    pub partitioning: Partitioning,
    pub emission_type: EmissionType,
    pub boundedness: Boundedness,
    pub evaluation_type: EvaluationType,
    pub scheduling_type: SchedulingType,
}

/// [`PlanProperties`] as a mathematical value.
pub ghost struct PropertiesView {
    pub eq_properties: u64,
    pub partitioning: PartitioningView,
    pub emission_type: EmissionType,
    pub boundedness: Boundedness,
    pub evaluation_type: EvaluationType,
    pub scheduling_type: SchedulingType,
}

impl View for PlanProperties {
    type V = PropertiesView;

    open spec fn view(&self) -> PropertiesView {
        PropertiesView {
            eq_properties: self.eq_properties,
            partitioning: self.partitioning@,
            emission_type: self.emission_type,
            boundedness: self.boundedness,
            evaluation_type: self.evaluation_type,
            scheduling_type: self.scheduling_type,
        }
    }
}

impl PropertiesView {
    /// The properties with another number of partitions, those of a plan that is lazy and does not
    /// yield by itself.
    pub open spec fn scaled(self, count: usize) -> Self {
        PropertiesView {
            partitioning: self.partitioning.scaled(count),
            evaluation_type: EvaluationType::Lazy,
            scheduling_type: SchedulingType::NonCooperative,
            ..self
        }
    }
}

impl PlanProperties {
    /// The properties of a plan that is lazy and does not yield by itself.
    pub fn new(
        eq_properties: u64,
        partitioning: Partitioning,
        emission_type: EmissionType,
        boundedness: Boundedness,
    ) -> (r: Self)
        ensures
            r@ == (PropertiesView {
                eq_properties,
                partitioning: partitioning@,
                emission_type,
                boundedness,
                evaluation_type: EvaluationType::Lazy,
                scheduling_type: SchedulingType::NonCooperative,
            }),
            r.eq_properties == eq_properties,
            r.partitioning == partitioning,
            r.emission_type == emission_type,
            r.boundedness == boundedness,
            r.evaluation_type is Lazy,
            r.scheduling_type is NonCooperative,
    {
        PlanProperties {
            eq_properties,
            partitioning,
            emission_type,
            boundedness,
            evaluation_type: EvaluationType::Lazy,
            scheduling_type: SchedulingType::NonCooperative,
        }
    }
}

/// The properties of a plan like the given one, with the number of partitions that `f` gives for
/// the present one.
pub fn scale_partitioning_props<F: FnOnce(usize) -> usize>(props: &PlanProperties, f: F) -> (r:
    PlanProperties)
    requires
        props@.partitioning.count() <= usize::MAX,
        f.requires((props@.partitioning.count() as usize,)),
    ensures
        exists|count: usize|
            {
                &&& #[trigger] f.ensures((props@.partitioning.count() as usize,), count)
                &&& r@ == props@.scaled(count)
                &&& match props.partitioning {
                    Partitioning::RoundRobinBatch(_) => r.partitioning
                        == Partitioning::RoundRobinBatch(count),
                    Partitioning::Hash(exprs, _) => r.partitioning matches Partitioning::Hash(
                        hashed,
                        parts,
                    ) && hashed@ == exprs@ && parts == count,
                    Partitioning::Range(range) => if count == range.split_points@.len() + 1 {
                        r.partitioning matches Partitioning::Range(kept) && kept.ordering@
                            == range.ordering@ && kept.split_points@ == range.split_points@
                    } else {
                        r.partitioning == Partitioning::UnknownPartitioning(count)
                    },
                    Partitioning::UnknownPartitioning(_) => r.partitioning
                        == Partitioning::UnknownPartitioning(count),
                }
            },
        r.eq_properties == props.eq_properties,
        r.emission_type == props.emission_type,
        r.boundedness == props.boundedness,
        r.evaluation_type is Lazy,
        r.scheduling_type is NonCooperative,
{
    PlanProperties::new(
        props.eq_properties,
        scale_partitioning(&props.partitioning, f),
        props.emission_type,
        props.boundedness,
    )
}

/// A scaled partitioning has the number of partitions that was asked for.
pub proof fn scaling_gives_the_count(partitioning: PartitioningView, count: usize)
    ensures
        partitioning.scaled(count).count() == count,
{
}

/// Scaling to the present number of partitions changes nothing.
pub proof fn scaling_to_the_same_count_changes_nothing(partitioning: PartitioningView)
    requires
        partitioning.count() <= usize::MAX,
    ensures
        partitioning.scaled(partitioning.count() as usize) == partitioning,
{
}

/// Only the last of two scalings counts, unless the first one lost the split points of ranges.
pub proof fn the_last_scaling_counts(partitioning: PartitioningView, first: usize, last: usize)
    ensures
        partitioning is Range && first != partitioning.count() && last == partitioning.count()
            ==> partitioning.scaled(first).scaled(last) == PartitioningView::UnknownPartitioning(
            last,
        ),
        !(partitioning is Range && first != partitioning.count() && last == partitioning.count())
            ==> partitioning.scaled(first).scaled(last) == partitioning.scaled(last),
{
}

/// A scaled hash partitioning hashes the same expressions.
pub proof fn scaling_keeps_the_hash(exprs: Seq<u64>, before: usize, count: usize)
    ensures
        PartitioningView::Hash(exprs, before).scaled(count) == PartitioningView::Hash(exprs, count),
{
}

/// There is one partition more than there are split points, and else as many as are stated.
pub proof fn partitions_are_counted(partitioning: PartitioningView)
    ensures
        match partitioning {
            PartitioningView::RoundRobinBatch(count) => partitioning.count() == count,
            PartitioningView::Hash(_, count) => partitioning.count() == count,
            PartitioningView::Range { split_points, .. } => partitioning.count()
                == split_points.len() + 1,
            PartitioningView::UnknownPartitioning(count) => partitioning.count() == count,
        },
{
}

/// Every kind of partitioning stays what it is with another number of partitions, but for ranges:
/// these stay where the number does, and nothing is known of the partitions otherwise.
pub proof fn scaling_keeps_the_kind(partitioning: PartitioningView, count: usize)
    ensures
        match partitioning {
            PartitioningView::RoundRobinBatch(_) => partitioning.scaled(count)
                == PartitioningView::RoundRobinBatch(count),
            PartitioningView::Hash(exprs, _) => partitioning.scaled(count)
                == PartitioningView::Hash(exprs, count),
            PartitioningView::Range { ordering, split_points } => partitioning.scaled(count) == if (
            count == split_points.len() + 1) {
                PartitioningView::Range { ordering, split_points }
            } else {
                PartitioningView::UnknownPartitioning(count)
            },
            PartitioningView::UnknownPartitioning(_) => partitioning.scaled(count)
                == PartitioningView::UnknownPartitioning(count),
        },
{
}

/// Scaled properties have the partitioning scaled, kind by kind, and nothing else of what is known
/// of the output changes. They are those of a plan that is lazy and does not yield by itself.
pub proof fn scaled_properties_differ_in_the_partitioning(props: PropertiesView, count: usize)
    ensures
        match props.partitioning {
            PartitioningView::RoundRobinBatch(_) => props.scaled(count).partitioning
                == PartitioningView::RoundRobinBatch(count),
            PartitioningView::Hash(exprs, _) => props.scaled(count).partitioning
                == PartitioningView::Hash(exprs, count),
            PartitioningView::Range { ordering, split_points } => props.scaled(count).partitioning
                == if (count == split_points.len() + 1) {
                PartitioningView::Range { ordering, split_points }
            } else {
                PartitioningView::UnknownPartitioning(count)
            },
            PartitioningView::UnknownPartitioning(_) => props.scaled(count).partitioning
                == PartitioningView::UnknownPartitioning(count),
        },
        props.scaled(count).partitioning == props.partitioning.scaled(count),
        props.scaled(count).partitioning.count() == count,
        props.scaled(count).eq_properties == props.eq_properties,
        props.scaled(count).emission_type == props.emission_type,
        props.scaled(count).boundedness == props.boundedness,
        props.scaled(count).evaluation_type is Lazy,
        props.scaled(count).scheduling_type is NonCooperative,
{
}

/// The view of a partitioning leaves nothing out.
pub proof fn a_partitioning_is_seen_whole(partitioning: Partitioning)
    ensures
        match partitioning {
            Partitioning::RoundRobinBatch(count) => partitioning@
                == PartitioningView::RoundRobinBatch(count),
            Partitioning::Hash(exprs, count) => partitioning@ == PartitioningView::Hash(
                exprs@,
                count,
            ),
            Partitioning::Range(range) => partitioning@ == (PartitioningView::Range {
                ordering: range.ordering@,
                split_points: range.split_points@,
            }),
            Partitioning::UnknownPartitioning(count) => partitioning@
                == PartitioningView::UnknownPartitioning(count),
        },
{
}

/// The view of properties leaves nothing out.
pub proof fn properties_are_seen_whole(props: PlanProperties)
    ensures
        props@.eq_properties == props.eq_properties,
        props@.partitioning == props.partitioning@,
        props@.emission_type == props.emission_type,
        props@.boundedness == props.boundedness,
        props@.evaluation_type == props.evaluation_type,
        props@.scheduling_type == props.scheduling_type,
{
}

} // verus!
