//! The sessions that a worker runs queries in, and who builds them.

use crate::calls::{called, called0, called3};
use crate::headers::{empty_headers, header_contents, no_headers};
use datafusion::error::DataFusionError;
use datafusion::execution::{SessionState, SessionStateBuilder};
use http::HeaderMap;
use std::sync::Arc;
use vstd::prelude::*;

verus! {

#[verifier::external_type_specification]
#[verifier::external_body]
pub struct ExSessionState(SessionState);

#[verifier::external_type_specification]
#[verifier::external_body]
pub struct ExSessionStateBuilder(SessionStateBuilder);

#[verifier::external_type_specification]
#[verifier::external_body]
pub struct ExDataFusionError(DataFusionError);

/// What a query brings along: the session to start from, and the headers of its request.
#[derive(Debug)]
pub struct WorkerQueryContext {
    pub builder: SessionStateBuilder,
    pub headers: HeaderMap,
}

/// `SessionStateBuilder::new`: a builder without anything in it. It is only handed on, so nothing
/// is said of what it holds.
pub assume_specification[ SessionStateBuilder::new ]() -> SessionStateBuilder;

/// `SessionStateBuilder::new_from_existing`: a builder that starts from a session. Nothing is said
/// of it: it is only handed on, and lists functions in the order of a hash map.
pub assume_specification[ SessionStateBuilder::new_from_existing ](
    existing: SessionState,
) -> SessionStateBuilder;

impl Default for WorkerQueryContext {
    fn default() -> (r: Self)
        ensures
            call_ensures(SessionStateBuilder::new, (), r.builder),
            header_contents(r.headers) == no_headers(),
    {
        WorkerQueryContext { builder: called0(SessionStateBuilder::new), headers: empty_headers() }
    }
}

/// Builds the sessions of a worker, and may reject the plans that it receives.
pub trait WorkerSessionBuilder {
    /// Whether a plan can be rejected with this error without its setup being run.
    open spec fn rejects(&self, session_state: &SessionState, error: DataFusionError) -> bool {
        true
    }
}

/// Sets up the plans that a worker receives.
pub trait PlanSetup<S: FnOnce() -> Result<(), DataFusionError>>: WorkerSessionBuilder {
    /// Runs the synchronous setup for a plan received by the worker.
    ///
    /// The callback decodes the physical plan, applies worker plan hooks, and starts any initial
    /// sampling work. Implementations may override this method to wrap that work with tracing or
    /// resource accounting. An implementation that returns `Ok(())` must invoke `setup` exactly
    /// once and return its result; it may reject setup by returning an error without invoking it.
    fn run_plan_setup(&self, session_state: &SessionState, setup: S) -> (r: Result<
        (),
        DataFusionError,
    >)
        requires
            setup.requires(()),
        ensures
            match r {
                Ok(()) => setup.ensures((), r),
                Err(error) => setup.ensures((), r) || self.rejects(session_state, error),
            },
        default_ensures
            setup.ensures((), r),
    {
        setup()
    }
}

/// Noop implementation of the [WorkerSessionBuilder]. Used by default if no [WorkerSessionBuilder]
/// is provided while building the Worker.
#[derive(Debug, Clone, Copy)]
pub struct DefaultSessionBuilder;

impl WorkerSessionBuilder for DefaultSessionBuilder {
    /// It rejects no plan by itself.
    open spec fn rejects(&self, session_state: &SessionState, error: DataFusionError) -> bool {
        false
    }
}

impl<S: FnOnce() -> Result<(), DataFusionError>> PlanSetup<S> for DefaultSessionBuilder {

}

/// A [WorkerSessionBuilder] whose sessions are extended by a function.
pub struct MappedWorkerSessionBuilder<T, F> {
    inner: T,
    f: Arc<F>,
}

impl<T, F> MappedWorkerSessionBuilder<T, F> {
    /// The builder that is extended.
    pub closed spec fn spec_inner(self) -> T {
        self.inner
    }

    /// What extends its sessions.
    pub closed spec fn spec_function(self) -> F {
        *self.f
    }

    /// The builder that is extended.
    pub fn inner(&self) -> (r: &T)
        ensures
            *r == self.spec_inner(),
    {
        &self.inner
    }

    /// Extends a session that the inner builder built, or passes its error on.
    pub fn map_session_state(&self, built: Result<SessionState, DataFusionError>) -> (r: Result<
        SessionState,
        DataFusionError,
    >) where F: Fn(SessionStateBuilder) -> Result<SessionState, DataFusionError>
        requires
            forall|builder: SessionStateBuilder| self.spec_function().requires((builder,)),
        ensures
            built is Err ==> r == built,
            built is Ok ==> exists|builder: SessionStateBuilder|
                {
                    &&& call_ensures(
                        SessionStateBuilder::new_from_existing,
                        (built->Ok_0,),
                        builder,
                    )
                    &&& #[trigger] self.spec_function().ensures((builder,), r)
                },
    {
        match built {
            Ok(state) => {
                let builder = called(SessionStateBuilder::new_from_existing, state);
                let f: &F = &*self.f;
                assert(*f == self.spec_function());
                assert((*f).requires((builder,)));
                f(builder)
            },
            Err(error) => Err(error),
        }
    }
}

impl<T: Clone, F> Clone for MappedWorkerSessionBuilder<T, F> {
    fn clone(&self) -> (r: Self)
        ensures
            cloned(self.spec_inner(), r.spec_inner()),
            r.spec_function() == self.spec_function(),
    {
        MappedWorkerSessionBuilder { inner: self.inner.clone(), f: self.f.clone() }
    }
}

impl<T: WorkerSessionBuilder, F> WorkerSessionBuilder for MappedWorkerSessionBuilder<T, F> {
    /// It rejects the plans that the inner builder rejects.
    open spec fn rejects(&self, session_state: &SessionState, error: DataFusionError) -> bool {
        self.spec_inner().rejects(session_state, error)
    }
}

impl<S, T, F> PlanSetup<S> for MappedWorkerSessionBuilder<T, F> where
    S: FnOnce() -> Result<(), DataFusionError>,
    T: PlanSetup<S>,
 {
    /// Leaves the setup to the inner builder.
    fn run_plan_setup(&self, session_state: &SessionState, setup: S) -> (r: Result<
        (),
        DataFusionError,
    >)
        ensures
            call_ensures(
                <T as PlanSetup<S>>::run_plan_setup,
                (&self.spec_inner(), session_state, setup),
                r,
            ),
    {
        called3(<T as PlanSetup<S>>::run_plan_setup, &self.inner, session_state, setup)
    }
}

pub trait MappedWorkerSessionBuilderExt: Sized {
    /// Maps an existing [WorkerSessionBuilder] allowing to add further extensions
    /// to its already built [SessionStateBuilder].
    ///
    /// Useful if there's already a [WorkerSessionBuilder] that needs to be extended
    /// with further capabilities.
    fn map<F>(self, f: F) -> (r: MappedWorkerSessionBuilder<Self, F>) where
        F: Fn(SessionStateBuilder) -> Result<SessionState, DataFusionError>,

        ensures
            r.spec_inner() == self,
            r.spec_function() == f,
    ;
}

impl<T: WorkerSessionBuilder> MappedWorkerSessionBuilderExt for T {
    fn map<F>(self, f: F) -> (r: MappedWorkerSessionBuilder<Self, F>) where
        F: Fn(SessionStateBuilder) -> Result<SessionState, DataFusionError>,
    {
        MappedWorkerSessionBuilder { inner: self, f: Arc::new(f) }
    }
}

/// Whatever a mapped builder makes of a plan, the inner builder can make of it too.
pub proof fn mapping_sets_plans_up_alike<S, T, F>(
    builder: MappedWorkerSessionBuilder<T, F>,
    session_state: &SessionState,
    setup: S,
    r: Result<(), DataFusionError>,
) where S: FnOnce() -> Result<(), DataFusionError>, T: PlanSetup<S>
    requires
        call_ensures(
            <MappedWorkerSessionBuilder<T, F> as PlanSetup<S>>::run_plan_setup,
            (&builder, session_state, setup),
            r,
        ),
    ensures
        call_ensures(
            <T as PlanSetup<S>>::run_plan_setup,
            (&builder.spec_inner(), session_state, setup),
            r,
        ),
{
}

/// Mapping a builder changes its sessions only: plans are rejected as they were before.
pub proof fn mapping_rejects_no_other_plans<T: WorkerSessionBuilder, F>(
    builder: MappedWorkerSessionBuilder<T, F>,
    session_state: &SessionState,
    error: DataFusionError,
)
    ensures
        builder.rejects(session_state, error) == builder.spec_inner().rejects(
            session_state,
            error,
        ),
{
}

/// The default builder rejects no plan, and neither does any that is mapped from it.
pub proof fn the_default_builder_rejects_no_plan<F>(
    builder: DefaultSessionBuilder,
    mapped: MappedWorkerSessionBuilder<DefaultSessionBuilder, F>,
    session_state: &SessionState,
    error: DataFusionError,
)
    ensures
        !builder.rejects(session_state, error),
        !mapped.rejects(session_state, error),
{
}

/// What is told of a mapped builder is what it holds.
proof fn a_mapped_builder_is_seen_whole<T, F>(builder: MappedWorkerSessionBuilder<T, F>)
    ensures
        builder.spec_inner() == builder.inner,
        builder.spec_function() == *builder.f,
{
}

} // verus!
