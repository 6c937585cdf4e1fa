use datafusion_distributed::proto_converter::{
    ConvertError, Expr, ExprIds, Parsed, SharedDeserializerState, SharedPhysicalProtoConverter,
};
use std::collections::hash_map::DefaultHasher;
use std::hash::{Hash, Hasher};
use std::sync::Arc;

fn ids(expr_id: Option<u64>, dynamic_filter_inner_id: Option<u64>) -> ExprIds {
    ExprIds { expr_id, dynamic_filter_inner_id }
}

fn filter(text: &str) -> Expr<str> {
    Expr { value: Arc::from(text), dynamic_filter: true }
}

fn other(text: &str) -> Expr<str> {
    Expr { value: Arc::from(text), dynamic_filter: false }
}

fn rebase(parsed: &Expr<str>, cached: &Expr<str>) -> Result<Arc<str>, String> {
    Ok(Arc::from(format!("{} on {}", parsed.value, cached.value)))
}

fn never(_: &Expr<str>, _: &Expr<str>) -> Result<Arc<str>, String> {
    panic!("nothing is to be rebased")
}

#[test]
fn decoding_an_id_twice_gives_the_same_expression() {
    let mut state: SharedDeserializerState<str> = SharedDeserializerState::new();
    assert!(state.cached(&ids(Some(1), None)).is_none());
    let decoded = state
        .finish(&ids(Some(1), None), other("a"), never)
        .expect("an expression");
    let again = state.cached(&ids(Some(1), None)).expect("the expression");
    assert!(Arc::ptr_eq(&decoded.value, &again.value));
    assert!(state.cached(&ids(Some(2), None)).is_none());
    assert!(state.cached(&ids(None, None)).is_none());
    // The last one decoded under an id is the one that is found.
    state.finish(&ids(Some(1), None), other("b"), never).expect("an expression");
    assert_eq!(&*state.cached(&ids(Some(1), None)).expect("the expression").value, "b");
}

#[test]
fn an_expression_without_ids_is_not_remembered() {
    let mut state: SharedDeserializerState<str> = SharedDeserializerState::default();
    let decoded = state.finish(&ids(None, None), other("a"), never).expect("an expression");
    assert_eq!(&*decoded.value, "a");
    assert!(state.cached(&ids(None, None)).is_none());
}

#[test]
fn later_filters_take_over_the_state_of_the_first() {
    let mut state = SharedDeserializerState::new();
    let first = state
        .finish(&ids(Some(1), Some(9)), filter("first"), never)
        .expect("a filter");
    assert_eq!(&*first.value, "first");
    for text in ["second", "third"] {
        let later = state
            .finish(&ids(Some(2), Some(9)), filter(text), rebase)
            .expect("a filter");
        assert_eq!(&*later.value, format!("{text} on first"));
        assert!(later.dynamic_filter);
        let cached = state.cached(&ids(Some(2), None)).expect("the filter");
        assert!(Arc::ptr_eq(&later.value, &cached.value));
    }
    // Another state is not shared.
    let apart = state.finish(&ids(None, Some(8)), filter("apart"), never).expect("a filter");
    assert_eq!(&*apart.value, "apart");
}

#[test]
fn failed_decodings_leave_no_trace() {
    let mut state = SharedDeserializerState::new();
    state.finish(&ids(None, Some(9)), other("no filter"), never).expect("an expression");
    let error = state
        .finish(&ids(Some(1), Some(9)), filter("a"), never)
        .expect_err("what is cached is no filter");
    assert!(matches!(error, ConvertError::CachedIsNoFilter));
    assert_eq!(
        error.message(),
        Ok("dynamic filter cache returned a non DynamicFilterPhysicalExpr".to_string())
    );

    state.finish(&ids(None, Some(8)), filter("first"), never).expect("a filter");
    let error = state
        .finish(&ids(Some(1), Some(8)), other("b"), never)
        .expect_err("what was parsed is no filter");
    assert!(matches!(error, ConvertError::ParsedIsNoFilter));
    assert_eq!(
        error.message(),
        Ok("dynamic_filter_inner_id set but expression is not DynamicFilterPhysicalExpr"
            .to_string())
    );

    let error = state
        .finish(&ids(Some(1), Some(8)), filter("c"), |_, _| Err("schema".to_string()))
        .expect_err("the state cannot be taken over");
    assert_eq!(error.message(), Err("schema".to_string()));
    assert!(state.cached(&ids(Some(1), None)).is_none());
}

#[test]
fn decoding_can_be_done_in_steps() {
    let mut state = SharedDeserializerState::new();
    let parsed: Result<Parsed<str>, ConvertError<String>> =
        state.on_parsed(&ids(Some(1), Some(9)), filter("first"));
    assert!(matches!(parsed, Ok(Parsed::Done(expr)) if &*expr.value == "first"));
    let parsed: Result<Parsed<str>, ConvertError<String>> =
        state.on_parsed(&ids(Some(2), Some(9)), filter("second"));
    match parsed {
        Ok(Parsed::Rebase { parsed, cached }) => {
            assert_eq!((&*parsed.value, &*cached.value), ("second", "first"));
        }
        _ => panic!("expected a filter to take over a state"),
    }
    assert!(state.cached(&ids(Some(2), None)).is_none());
    state.on_decoded(&ids(Some(2), Some(9)), filter("rebased"));
    assert_eq!(&*state.cached(&ids(Some(2), None)).expect("the filter").value, "rebased");
}

#[test]
fn ids_depend_on_session_number_and_process() {
    let converter = SharedPhysicalProtoConverter { session_id: 11 };
    assert_eq!(converter.hash(5, 1), converter.hash(5, 1));
    assert_ne!(converter.hash(5, 1), converter.hash(6, 1));
    assert_ne!(converter.hash(5, 1), converter.hash(5, 2));
    let elsewhere = SharedPhysicalProtoConverter { session_id: 12 };
    assert_ne!(converter.hash(5, 1), elsewhere.hash(5, 1));
    // Two converters are made for two sessions.
    assert_ne!(
        SharedPhysicalProtoConverter::new().session_id,
        SharedPhysicalProtoConverter::new().session_id
    );

    let mut hasher = DefaultHasher::new();
    11u64.to_le().hash(&mut hasher);
    5u64.to_le().hash(&mut hasher);
    1u32.to_le().hash(&mut hasher);
    assert_eq!(converter.hash(5, 1), hasher.finish());
}

#[test]
fn encoded_expressions_carry_their_ids() {
    let converter = SharedPhysicalProtoConverter { session_id: 11 };
    let plain = converter.physical_expr_to_proto(ids(None, None), None, 5, 1);
    assert_eq!(plain, ids(Some(converter.hash(5, 1)), None));
    let dynamic = converter.physical_expr_to_proto(ids(Some(3), None), Some(7), 5, 1);
    assert_eq!(dynamic, ids(Some(converter.hash(5, 1)), Some(converter.hash(7, 1))));
    let kept = converter.physical_expr_to_proto(ids(None, Some(4)), None, 5, 1);
    assert_eq!(kept.dynamic_filter_inner_id, Some(4));
}

#[test]
fn filters_with_one_state_keep_it_through_a_converter() {
    let converter = SharedPhysicalProtoConverter::new();
    let mut state = SharedDeserializerState::new();
    let none = ids(None, None);
    let left = converter.physical_expr_to_proto(none, Some(77), 1, 1);
    let right = converter.physical_expr_to_proto(none, Some(77), 2, 1);
    state.finish(&left, filter("left"), never).expect("a filter");
    let right = state.finish(&right, filter("right"), rebase).expect("a filter");
    assert_eq!(&*right.value, "right on left");
    // Encoded once more, the first one is found as it was.
    let again = converter.physical_expr_to_proto(none, Some(77), 1, 1);
    assert_eq!(&*state.cached(&again).expect("the filter").value, "left");
}
