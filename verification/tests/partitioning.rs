use datafusion_distributed::partitioning::{
    scale_partitioning, scale_partitioning_props, Boundedness, EmissionType, EvaluationType,
    Partitioning, PlanProperties, RangePartitioning, SchedulingType,
};

fn range(split_points: Vec<u64>) -> Partitioning {
    Partitioning::Range(RangePartitioning { ordering: vec![1, 2], split_points })
}

#[test]
fn partitions_are_counted() {
    assert_eq!(Partitioning::RoundRobinBatch(3).partition_count(), 3);
    assert_eq!(Partitioning::Hash(vec![1], 4).partition_count(), 4);
    assert_eq!(Partitioning::UnknownPartitioning(0).partition_count(), 0);
    assert_eq!(range(vec![]).partition_count(), 1);
    assert_eq!(range(vec![10, 20]).partition_count(), 3);
}

#[test]
fn partitionings_are_scaled() {
    assert!(matches!(
        scale_partitioning(&Partitioning::RoundRobinBatch(3), |n| n * 2),
        Partitioning::RoundRobinBatch(6)
    ));
    assert!(matches!(
        scale_partitioning(&Partitioning::Hash(vec![5, 6], 3), |n| n + 1),
        Partitioning::Hash(exprs, 4) if exprs == [5, 6]
    ));
    assert!(matches!(
        scale_partitioning(&Partitioning::UnknownPartitioning(3), |_| 9),
        Partitioning::UnknownPartitioning(9)
    ));
}

#[test]
fn split_points_survive_only_the_same_count() {
    assert!(matches!(
        scale_partitioning(&range(vec![10, 20]), |n| n),
        Partitioning::Range(range) if range.ordering == [1, 2] && range.split_points == [10, 20]
    ));
    let scaled = scale_partitioning(&range(vec![10, 20]), |n| n * 2);
    assert!(matches!(scaled, Partitioning::UnknownPartitioning(6)));
    // They do not come back.
    assert!(matches!(
        scale_partitioning(&scaled, |_| 3),
        Partitioning::UnknownPartitioning(3)
    ));
}

#[test]
fn scaled_properties_keep_what_the_count_does_not_touch() {
    let props = PlanProperties {
        eq_properties: 42,
        partitioning: Partitioning::RoundRobinBatch(2),
        emission_type: EmissionType::Final,
        boundedness: Boundedness::Unbounded { requires_infinite_memory: true },
        evaluation_type: EvaluationType::Eager,
        scheduling_type: SchedulingType::Cooperative,
    };
    let scaled = scale_partitioning_props(&props, |n| n * 4);
    assert!(matches!(scaled.partitioning, Partitioning::RoundRobinBatch(8)));
    assert_eq!(scaled.eq_properties, 42);
    assert_eq!(scaled.emission_type, EmissionType::Final);
    assert_eq!(
        scaled.boundedness,
        Boundedness::Unbounded { requires_infinite_memory: true }
    );
    assert_eq!(scaled.evaluation_type, EvaluationType::Lazy);
    assert_eq!(scaled.scheduling_type, SchedulingType::NonCooperative);
}
