use datafusion::error::DataFusionError;
use datafusion::execution::{SessionState, SessionStateBuilder};
use datafusion_distributed::session::{
    DefaultSessionBuilder, MappedWorkerSessionBuilderExt, PlanSetup, WorkerQueryContext,
    WorkerSessionBuilder,
};
use std::sync::atomic::{AtomicUsize, Ordering};
use std::sync::Arc;

#[test]
fn default_plan_setup_runs_callback_once() {
    let state = SessionStateBuilder::new().build();
    let mut callback_calls = 0;

    DefaultSessionBuilder
        .run_plan_setup(&state, &mut || {
            callback_calls += 1;
            Ok(())
        })
        .unwrap();

    assert_eq!(callback_calls, 1);
}

#[test]
fn default_plan_setup_propagates_callback_error() {
    let state = SessionStateBuilder::new().build();

    let error = DefaultSessionBuilder
        .run_plan_setup(&state, &mut || {
            Err(DataFusionError::Internal("plan setup failed".to_string()))
        })
        .expect_err("the callback error should be returned");

    assert!(error.to_string().contains("plan setup failed"));
}

#[test]
fn mapped_plan_setup_delegates_to_inner_builder() {
    let wrapper_calls = Arc::new(AtomicUsize::new(0));
    let builder = RecordingSessionBuilder {
        wrapper_calls: Arc::clone(&wrapper_calls),
    }
    .map(|builder: SessionStateBuilder| Ok(builder.build()));
    let state = SessionStateBuilder::new().build();
    let mut callback_calls = 0;

    builder
        .run_plan_setup(&state, &mut || {
            callback_calls += 1;
            Ok(())
        })
        .unwrap();

    assert_eq!(wrapper_calls.load(Ordering::Relaxed), 1);
    assert_eq!(callback_calls, 1);
}

struct RecordingSessionBuilder {
    wrapper_calls: Arc<AtomicUsize>,
}

impl WorkerSessionBuilder for RecordingSessionBuilder {}

impl<S: FnOnce() -> Result<(), DataFusionError>> PlanSetup<S> for RecordingSessionBuilder {
    fn run_plan_setup(
        &self,
        _session_state: &SessionState,
        setup: S,
    ) -> Result<(), DataFusionError> {
        self.wrapper_calls.fetch_add(1, Ordering::Relaxed);
        setup()
    }
}

struct RejectingSessionBuilder;

impl WorkerSessionBuilder for RejectingSessionBuilder {}

impl<S: FnOnce() -> Result<(), DataFusionError>> PlanSetup<S> for RejectingSessionBuilder {
    fn run_plan_setup(
        &self,
        _session_state: &SessionState,
        _setup: S,
    ) -> Result<(), DataFusionError> {
        Err(DataFusionError::Internal("worker plan setup rejected".to_string()))
    }
}

#[test]
fn a_mapped_builder_rejects_what_the_inner_one_rejects() {
    let builder =
        RejectingSessionBuilder.map(|builder: SessionStateBuilder| Ok(builder.build()));
    let state = SessionStateBuilder::new().build();
    let error = builder
        .run_plan_setup(&state, || panic!("a rejected plan is not set up"))
        .expect_err("the rejection should be returned");
    assert!(error.to_string().contains("worker plan setup rejected"));
}

#[test]
fn a_builder_mapped_twice_leaves_the_setup_to_the_first() {
    let wrapper_calls = Arc::new(AtomicUsize::new(0));
    let builder = RecordingSessionBuilder {
        wrapper_calls: Arc::clone(&wrapper_calls),
    }
    .map(|builder: SessionStateBuilder| Ok(builder.build()))
    .map(|builder: SessionStateBuilder| Ok(builder.build()));
    let state = SessionStateBuilder::new().build();
    let error = builder
        .run_plan_setup(&state, || {
            Err(DataFusionError::Internal("plan setup failed".to_string()))
        })
        .expect_err("the callback error should be returned");
    assert!(error.to_string().contains("plan setup failed"));
    assert_eq!(wrapper_calls.load(Ordering::Relaxed), 1);
}

#[test]
fn a_query_brings_nothing_along_by_default() {
    let ctx = WorkerQueryContext::default();
    assert!(ctx.headers.is_empty());
    let mut builder = ctx.builder;
    assert!(builder.session_id().is_none() && builder.config().is_none());
}

#[test]
fn a_mapped_builder_extends_the_session() {
    let builder = DefaultSessionBuilder.map(|builder: SessionStateBuilder| {
        Ok(builder.with_session_id("extended".to_string()).build())
    });
    let copy = builder.clone();
    let state = copy
        .map_session_state(Ok(SessionStateBuilder::new().build()))
        .expect("a session");
    assert_eq!(state.session_id(), "extended");
    let DefaultSessionBuilder = copy.inner();
}

#[test]
fn a_mapped_builder_starts_from_the_inner_session() {
    let builder = DefaultSessionBuilder.map(|mut builder: SessionStateBuilder| {
        let partitions = builder
            .config()
            .as_ref()
            .map(|config| config.target_partitions());
        assert_eq!(partitions, Some(3));
        Ok(builder.build())
    });
    let config = datafusion::prelude::SessionConfig::new().with_target_partitions(3);
    let inner = SessionStateBuilder::new().with_config(config).build();
    let state = builder.map_session_state(Ok(inner)).expect("a session");
    assert_eq!(state.config().target_partitions(), 3);
}

#[test]
fn a_mapped_builder_passes_the_inner_error_on() {
    let builder = DefaultSessionBuilder
        .map(|_: SessionStateBuilder| panic!("there is no session to extend"));
    let error = builder
        .map_session_state(Err(DataFusionError::Internal("no session".to_string())))
        .expect_err("the inner error should be returned");
    assert!(error.to_string().contains("no session"));
}
