//! How expressions keep their identity when plans are encoded and decoded one by one.
//!
//! Every expression that is encoded carries an id, and so does the state that a dynamic filter
//! shares with its copies. Decoding the same id twice gives the same expression, and a dynamic
//! filter that was decoded before lends its state to those that come after it.

use crate::calls::called0;
use std::collections::hash_map::DefaultHasher;
use std::collections::HashMap;
use std::hash::Hasher;
use std::sync::Arc;
use vstd::bytes::{spec_u32_to_le_bytes, spec_u64_to_le_bytes, u32_to_le_bytes, u64_to_le_bytes};
use vstd::prelude::*;
use vstd::std_specs::hash::DefaultHasherAdditionalSpecFns;

verus! {

broadcast use vstd::std_specs::hash::group_hash_axioms;

/// The ids that an encoded expression carries.
#[derive(Debug, Clone, Copy, PartialEq, Eq, Structural)]
pub struct ExprIds {
    /// Which expression it is.
    pub expr_id: Option<u64>,
    /// Which state it filters by, if it is a dynamic filter.
    pub dynamic_filter_inner_id: Option<u64>,
}

/// An expression, and whether it is a dynamic filter.
#[derive(Debug)]
pub struct Expr<T: ?Sized> {
    pub value: Arc<T>,
    pub dynamic_filter: bool,
}

impl<T: ?Sized> Clone for Expr<T> {
    fn clone(&self) -> (r: Self)
        ensures
            r == *self,
    {
        Expr { value: self.value.clone(), dynamic_filter: self.dynamic_filter }
    }
}

/// What was decoded so far.
#[derive(Debug)]
pub struct SharedDeserializerState<T: ?Sized> {
    expr_cache: HashMap<u64, Expr<T>>,
    dynamic_filter_cache: HashMap<u64, Expr<T>>,
}

/// A [`SharedDeserializerState`] as a mathematical value.
#[verifier::reject_recursive_types(T)]
pub ghost struct StateView<T: ?Sized> {
    /// The last expression decoded under each id.
    pub exprs: Map<u64, Expr<T>>,
    /// The first dynamic filter decoded under each id.
    pub filters: Map<u64, Expr<T>>,
}

impl<T: ?Sized> View for SharedDeserializerState<T> {
    type V = StateView<T>;

    closed spec fn view(&self) -> StateView<T> {
        StateView { exprs: self.expr_cache@, filters: self.dynamic_filter_cache@ }
    }
}

/// Why an expression could not be decoded.
#[derive(Debug)]
pub enum ConvertError<E> {
    /// What is known under the dynamic filter's id is not a dynamic filter.
    CachedIsNoFilter,
    /// The expression has a dynamic filter's id and is not a dynamic filter.
    ParsedIsNoFilter,
    /// The state could not be taken over.
    Rebase(E),
}

/// What is left to do with a parsed expression.
#[derive(Debug)]
pub enum Parsed<T: ?Sized> {
    /// Nothing: this is the expression.
    Done(Expr<T>),
    /// Have `parsed` take over the state of `cached`.
    Rebase { parsed: Expr<T>, cached: Expr<T> },
}

impl<T: ?Sized> StateView<T> {
    pub open spec fn empty() -> Self {
        StateView { exprs: Map::empty(), filters: Map::empty() }
    }

    /// The expression known under the id of an encoded one.
    pub open spec fn cached(self, ids: ExprIds) -> Option<Expr<T>> {
        match ids.expr_id {
            Some(id) => if self.exprs.contains_key(id) {
                Some(self.exprs[id])
            } else {
                None
            },
            None => None,
        }
    }

    /// The dynamic filter whose state an encoded expression shares.
    pub open spec fn filter(self, ids: ExprIds) -> Option<Expr<T>> {
        match ids.dynamic_filter_inner_id {
            Some(id) => if self.filters.contains_key(id) {
                Some(self.filters[id])
            } else {
                None
            },
            None => None,
        }
    }

    /// The state once an expression is known under its id.
    pub open spec fn with_expr(self, ids: ExprIds, expr: Expr<T>) -> Self {
        match ids.expr_id {
            Some(id) => StateView { exprs: self.exprs.insert(id, expr), ..self },
            None => self,
        }
    }

    /// The state once a dynamic filter is known under the id of its state.
    pub open spec fn with_filter(self, ids: ExprIds, expr: Expr<T>) -> Self {
        match ids.dynamic_filter_inner_id {
            Some(id) => StateView { filters: self.filters.insert(id, expr), ..self },
            None => self,
        }
    }

    /// The state after an expression was parsed, and what is left to do with it.
    pub open spec fn parsed<E>(self, ids: ExprIds, expr: Expr<T>) -> (
        Self,
        Result<Parsed<T>, ConvertError<E>>,
    ) {
        match self.filter(ids) {
            Some(cached) => if !cached.dynamic_filter {
                (self, Err(ConvertError::CachedIsNoFilter))
            } else if !expr.dynamic_filter {
                (self, Err(ConvertError::ParsedIsNoFilter))
            } else {
                (self, Ok(Parsed::Rebase { parsed: expr, cached }))
            },
            None => (
                self.with_filter(ids, expr).with_expr(ids, expr),
                Ok(Parsed::Done(expr)),
            ),
        }
    }

    /// The state after an expression was decoded that does not take over the state of another, and
    /// the expression.
    pub open spec fn settled<E>(self, ids: ExprIds, expr: Expr<T>) -> (
        Self,
        Result<Expr<T>, ConvertError<E>>,
    ) {
        match self.parsed::<E>(ids, expr) {
            (state, Ok(_)) => (state, Ok(expr)),
            (state, Err(error)) => (state, Err(error)),
        }
    }

    /// The state after an expression was decoded, and the expression. `rebased` is the parsed
    /// expression on the state of the filter that shares it, where there is one.
    pub open spec fn decoded<E>(
        self,
        ids: ExprIds,
        expr: Expr<T>,
        rebased: Result<Arc<T>, E>,
    ) -> (Self, Result<Expr<T>, ConvertError<E>>) {
        if rebases(self, ids, expr) {
            match rebased {
                Ok(value) => {
                    let expr = Expr { value, dynamic_filter: true };
                    (self.with_expr(ids, expr), Ok(expr))
                },
                Err(error) => (self, Err(ConvertError::Rebase(error))),
            }
        } else {
            self.settled(ids, expr)
        }
    }
}

/// Whether decoding an expression has it take over the state of another.
pub open spec fn rebases<T: ?Sized>(state: StateView<T>, ids: ExprIds, expr: Expr<T>) -> bool {
    state.filter(ids) matches Some(cached) && cached.dynamic_filter && expr.dynamic_filter
}

impl<T: ?Sized> SharedDeserializerState<T> {
    pub fn new() -> (r: Self)
        ensures
            r@ == StateView::<T>::empty(),
    {
        let r = SharedDeserializerState {
            expr_cache: HashMap::new(),
            dynamic_filter_cache: HashMap::new(),
        };
        assert(r@.exprs =~= Map::empty());
        assert(r@.filters =~= Map::empty());
        r
    }

    /// The expression known under the id of an encoded one. Where there is none, the encoded one is
    /// to be parsed, and the result handed to [`Self::finish`].
    pub fn cached(&self, ids: &ExprIds) -> (r: Option<Expr<T>>)
        ensures
            r == self@.cached(*ids),
    {
        match ids.expr_id {
            Some(id) => match self.expr_cache.get(&id) {
                Some(expr) => Some(expr.clone()),
                None => None,
            },
            None => None,
        }
    }

    /// Takes note of a parsed expression.
    pub fn on_parsed<E>(&mut self, ids: &ExprIds, expr: Expr<T>) -> (r: Result<
        Parsed<T>,
        ConvertError<E>,
    >)
        ensures
            (final(self)@, r) == old(self)@.parsed::<E>(*ids, expr),
    {
        if let Some(id) = ids.dynamic_filter_inner_id {
            if let Some(cached) = self.dynamic_filter_cache.get(&id) {
                if !cached.dynamic_filter {
                    return Err(ConvertError::CachedIsNoFilter);
                }
                if !expr.dynamic_filter {
                    return Err(ConvertError::ParsedIsNoFilter);
                }
                return Ok(Parsed::Rebase { cached: cached.clone(), parsed: expr });
            }
            self.dynamic_filter_cache.insert(id, expr.clone());
        }
        Ok(Parsed::Done(self.on_decoded(ids, expr)))
    }

    /// Takes note of a decoded expression.
    pub fn on_decoded(&mut self, ids: &ExprIds, expr: Expr<T>) -> (r: Expr<T>)
        ensures
            final(self)@ == old(self)@.with_expr(*ids, expr),
            r == expr,
    {
        if let Some(id) = ids.expr_id {
            self.expr_cache.insert(id, expr.clone());
        }
        expr
    }

    /// Finishes the decoding of an expression that was parsed. `rebase` makes the parsed dynamic
    /// filter take over the state of the one that was decoded first.
    pub fn finish<E, R: FnOnce(&Expr<T>, &Expr<T>) -> Result<Arc<T>, E>>(
        &mut self,
        ids: &ExprIds,
        expr: Expr<T>,
        rebase: R,
    ) -> (r: Result<Expr<T>, ConvertError<E>>)
        requires
            rebases(old(self)@, *ids, expr) ==> rebase.requires(
                (&expr, &old(self)@.filter(*ids)->0),
            ),
        ensures
            rebases(old(self)@, *ids, expr) ==> exists|rebased: Result<Arc<T>, E>|
                {
                    &&& #[trigger] rebase.ensures((&expr, &old(self)@.filter(*ids)->0), rebased)
                    &&& (final(self)@, r) == old(self)@.decoded(*ids, expr, rebased)
                },
            !rebases(old(self)@, *ids, expr) ==> (final(self)@, r) == old(self)@.settled::<E>(
                *ids,
                expr,
            ),
    {
        match self.on_parsed(ids, expr) {
            Ok(Parsed::Done(expr)) => Ok(expr),
            Ok(Parsed::Rebase { parsed, cached }) => match rebase(&parsed, &cached) {
                Ok(value) => Ok(self.on_decoded(ids, Expr { value, dynamic_filter: true })),
                Err(error) => Err(ConvertError::Rebase(error)),
            },
            Err(error) => Err(error),
        }
    }
}

impl<T: ?Sized> Default for SharedDeserializerState<T> {
    fn default() -> (r: Self)
        ensures
            r@ == StateView::<T>::empty(),
    {
        SharedDeserializerState::new()
    }
}

impl<E> ConvertError<E> {
    /// The text of an error, or the error that the state could not be taken over for.
    pub fn message(self) -> (r: Result<String, E>)
        ensures
            match self {
                ConvertError::CachedIsNoFilter => r matches Ok(text) && text@
                    == "dynamic filter cache returned a non DynamicFilterPhysicalExpr"@,
                ConvertError::ParsedIsNoFilter => r matches Ok(text) && text@
                    == "dynamic_filter_inner_id set but expression is not DynamicFilterPhysicalExpr"@,
                ConvertError::Rebase(error) => r == Err::<String, E>(error),
            },
    {
        match self {
            ConvertError::CachedIsNoFilter => Ok(
                "dynamic filter cache returned a non DynamicFilterPhysicalExpr".to_string(),
            ),
            ConvertError::ParsedIsNoFilter => Ok(
                "dynamic_filter_inner_id set but expression is not DynamicFilterPhysicalExpr".to_string(),
            ),
            ConvertError::Rebase(error) => Err(error),
        }
    }
}

/// Makes the ids of one converter. Those of two converters, or of two processes, have nothing to do
/// with each other.
#[derive(Debug)]
pub struct SharedPhysicalProtoConverter {
    pub session_id: u64,
}

/// The id for an address or another number that is unique within a process.
pub open spec fn hashed(session_id: u64, ptr: u64, process_id: u32) -> u64 {
    DefaultHasher::spec_finish(
        seq![
            spec_u64_to_le_bytes(session_id),
            spec_u64_to_le_bytes(ptr),
            spec_u32_to_le_bytes(process_id),
        ],
    )
}

/// A number from `rand::random`. Which one it is, is chance.
#[verifier::external_body]
fn random_session() -> u64 {
    rand::random()
}

/// Whether a session is one that `rand::random` gave.
pub closed spec fn drawn(session_id: u64) -> bool {
    call_ensures(random_session, (), session_id)
}

impl SharedPhysicalProtoConverter {
    /// A converter with a random session.
    pub fn new() -> (r: Self)
        ensures
            drawn(r.session_id),
    {
        SharedPhysicalProtoConverter { session_id: called0(random_session) }
    }

    /// The id for an address or another number that is unique within the process.
    pub fn hash(&self, ptr: u64, process_id: u32) -> (r: u64)
        ensures
            r == hashed(self.session_id, ptr, process_id),
            r == DefaultHasher::spec_finish(
                seq![
                    spec_u64_to_le_bytes(self.session_id),
                    spec_u64_to_le_bytes(ptr),
                    spec_u32_to_le_bytes(process_id),
                ],
            ),
    {
        let mut hasher = DefaultHasher::new();
        hasher.write(u64_to_le_bytes(self.session_id).as_slice());
        hasher.write(u64_to_le_bytes(ptr).as_slice());
        hasher.write(u32_to_le_bytes(process_id).as_slice());
        assert(hasher@ =~= seq![
            spec_u64_to_le_bytes(self.session_id),
            spec_u64_to_le_bytes(ptr),
            spec_u32_to_le_bytes(process_id),
        ]);
        hasher.finish()
    }

    /// The ids of an encoded expression, given those it was encoded with, the id of its state if it
    /// is a dynamic filter, and its address.
    pub fn physical_expr_to_proto(
        &self,
        encoded: ExprIds,
        inner_id: Option<u64>,
        ptr: u64,
        process_id: u32,
    ) -> (r: ExprIds)
        ensures
            r == self.outgoing_ids(encoded, inner_id, ptr, process_id),
            r.expr_id == Some(hashed(self.session_id, ptr, process_id)),
            match inner_id {
                Some(inner_id) => r.dynamic_filter_inner_id == Some(
                    hashed(self.session_id, inner_id, process_id),
                ),
                None => r.dynamic_filter_inner_id == encoded.dynamic_filter_inner_id,
            },
    {
        ExprIds {
            expr_id: Some(self.hash(ptr, process_id)),
            dynamic_filter_inner_id: match inner_id {
                Some(inner_id) => Some(self.hash(inner_id, process_id)),
                None => encoded.dynamic_filter_inner_id,
            },
        }
    }

    pub open spec fn outgoing_ids(
        &self,
        encoded: ExprIds,
        inner_id: Option<u64>,
        ptr: u64,
        process_id: u32,
    ) -> ExprIds {
        ExprIds {
            expr_id: Some(hashed(self.session_id, ptr, process_id)),
            dynamic_filter_inner_id: match inner_id {
                Some(inner_id) => Some(hashed(self.session_id, inner_id, process_id)),
                None => encoded.dynamic_filter_inner_id,
            },
        }
    }
}

/// One expression being decoded: its ids, what it was parsed to, and what came of having it take
/// over the state of another, had it come to that.
#[verifier::reject_recursive_types(T)]
#[verifier::reject_recursive_types(E)]
pub ghost struct Decoding<T: ?Sized, E> {
    pub ids: ExprIds,
    pub expr: Expr<T>,
    pub rebased: Result<Arc<T>, E>,
}

/// The state after some expressions were decoded one after another.
pub open spec fn after_decodings<T: ?Sized, E>(
    state: StateView<T>,
    decodings: Seq<Decoding<T, E>>,
) -> StateView<T>
    decreases decodings.len(),
{
    if decodings.len() == 0 {
        state
    } else {
        let last = decodings.last();
        after_decodings(state, decodings.drop_last()).decoded(last.ids, last.expr, last.rebased).0
    }
}

/// The dynamic filter that was decoded first under an id stays the one of that id.
pub proof fn the_first_filter_stays<T: ?Sized, E>(
    state: StateView<T>,
    decodings: Seq<Decoding<T, E>>,
    id: u64,
)
    requires
        state.filters.contains_key(id),
    ensures
        after_decodings(state, decodings).filters.contains_key(id),
        after_decodings(state, decodings).filters[id] == state.filters[id],
    decreases decodings.len(),
{
    if decodings.len() > 0 {
        the_first_filter_stays(state, decodings.drop_last(), id);
    }
}

/// A dynamic filter takes over the state of the first one decoded under the same id, whatever was
/// decoded in between.
pub proof fn later_filters_share_the_state_of_the_first<T: ?Sized, E>(
    state: StateView<T>,
    first: Decoding<T, E>,
    decodings: Seq<Decoding<T, E>>,
    later: Decoding<T, E>,
)
    requires
        first.ids.dynamic_filter_inner_id is Some,
        first.expr.dynamic_filter,
        state.filter(first.ids) is None,
        later.ids.dynamic_filter_inner_id == first.ids.dynamic_filter_inner_id,
        later.expr.dynamic_filter,
    ensures
        ({
            let known = state.decoded(first.ids, first.expr, first.rebased).0;
            let between = after_decodings(known, decodings);
            &&& rebases(between, later.ids, later.expr)
            &&& between.filter(later.ids) == Some(first.expr)
            &&& between.parsed::<E>(later.ids, later.expr).1 == Ok::<_, ConvertError<E>>(
                Parsed::Rebase { parsed: later.expr, cached: first.expr },
            )
        }),
{
    let known = state.decoded(first.ids, first.expr, first.rebased).0;
    the_first_filter_stays(known, decodings, first.ids.dynamic_filter_inner_id->0);
}

/// An expression is found again under its id, as long as no other was decoded under that id.
pub proof fn a_decoded_expression_is_found_again<T: ?Sized, E>(
    state: StateView<T>,
    first: Decoding<T, E>,
    decodings: Seq<Decoding<T, E>>,
    ids: ExprIds,
)
    requires
        ids.expr_id is Some,
        first.ids.expr_id == ids.expr_id,
        state.decoded(first.ids, first.expr, first.rebased).1 is Ok,
        forall|i: int|
            0 <= i < decodings.len() ==> (#[trigger] decodings[i]).ids.expr_id != ids.expr_id,
    ensures
        after_decodings(state.decoded(first.ids, first.expr, first.rebased).0, decodings).cached(
            ids,
        ) == Some(state.decoded(first.ids, first.expr, first.rebased).1->Ok_0),
    decreases decodings.len(),
{
    if decodings.len() > 0 {
        assert(decodings.last() == decodings[decodings.len() - 1]);
        assert forall|i: int| 0 <= i < decodings.drop_last().len() implies (
        #[trigger] decodings.drop_last()[i]).ids.expr_id != ids.expr_id by {
            assert(decodings.drop_last()[i] == decodings[i]);
        }
        a_decoded_expression_is_found_again(state, first, decodings.drop_last(), ids);
    }
}

/// A decoding that fails leaves no trace.
pub proof fn a_failed_decoding_changes_nothing<T: ?Sized, E>(
    state: StateView<T>,
    decoding: Decoding<T, E>,
)
    requires
        state.decoded(decoding.ids, decoding.expr, decoding.rebased).1 is Err,
    ensures
        state.decoded(decoding.ids, decoding.expr, decoding.rebased).0 == state,
{
}

/// An expression that one converter encodes twice is decoded once: the second time, whatever it was
/// encoded with, it is the expression that was decoded first.
pub proof fn an_expression_encoded_twice_is_decoded_once<T: ?Sized, E>(
    converter: SharedPhysicalProtoConverter,
    state: StateView<T>,
    first: Decoding<T, E>,
    encoded: ExprIds,
    encoded_again: ExprIds,
    inner_id: Option<u64>,
    ptr: u64,
    process_id: u32,
)
    requires
        first.ids == converter.outgoing_ids(encoded, inner_id, ptr, process_id),
        state.decoded(first.ids, first.expr, first.rebased).1 is Ok,
    ensures
        state.decoded(first.ids, first.expr, first.rebased).0.cached(
            converter.outgoing_ids(encoded_again, inner_id, ptr, process_id),
        ) == Some(state.decoded(first.ids, first.expr, first.rebased).1->Ok_0),
{
}

/// Two dynamic filters with one state still have one after they went through one converter: the
/// second to be decoded takes over the state of the first.
pub proof fn filters_with_one_state_keep_it<T: ?Sized, E>(
    converter: SharedPhysicalProtoConverter,
    state: StateView<T>,
    first: Decoding<T, E>,
    second: Decoding<T, E>,
    encoded: (ExprIds, ExprIds),
    ptrs: (u64, u64),
    inner_id: u64,
    process_id: u32,
)
    requires
        first.ids == converter.outgoing_ids(encoded.0, Some(inner_id), ptrs.0, process_id),
        second.ids == converter.outgoing_ids(encoded.1, Some(inner_id), ptrs.1, process_id),
        first.expr.dynamic_filter,
        second.expr.dynamic_filter,
        state.filter(first.ids) is None,
    ensures
        ({
            let known = state.decoded(first.ids, first.expr, first.rebased).0;
            &&& rebases(known, second.ids, second.expr)
            &&& known.filter(second.ids) == Some(first.expr)
        }),
{
}

/// An id is the hash of three writes: the eight bytes of the session, all eight bytes of the number
/// that the id is made for, and the four bytes of the process. What is written determines each of
/// the three, so that two ids are equal for different numbers, sessions or processes only where the
/// hasher gives one result for two different inputs.
#[verifier::spinoff_prover]
pub proof fn an_id_is_made_of_the_whole_number(
    sessions: (u64, u64),
    numbers: (u64, u64),
    processes: (u32, u32),
)
    ensures
        ({
            let first = seq![
                spec_u64_to_le_bytes(sessions.0),
                spec_u64_to_le_bytes(numbers.0),
                spec_u32_to_le_bytes(processes.0),
            ];
            let second = seq![
                spec_u64_to_le_bytes(sessions.1),
                spec_u64_to_le_bytes(numbers.1),
                spec_u32_to_le_bytes(processes.1),
            ];
            &&& hashed(sessions.0, numbers.0, processes.0) == DefaultHasher::spec_finish(first)
            &&& hashed(sessions.1, numbers.1, processes.1) == DefaultHasher::spec_finish(second)
            &&& first == second <==> sessions.0 == sessions.1 && numbers.0 == numbers.1
                && processes.0 == processes.1
            &&& first[0].len() == 8 && first[1].len() == 8 && first[2].len() == 4
        }),
{
    let first = seq![
        spec_u64_to_le_bytes(sessions.0),
        spec_u64_to_le_bytes(numbers.0),
        spec_u32_to_le_bytes(processes.0),
    ];
    let second = seq![
        spec_u64_to_le_bytes(sessions.1),
        spec_u64_to_le_bytes(numbers.1),
        spec_u32_to_le_bytes(processes.1),
    ];
    lemma_bytes_stand_for_their_number(sessions.0, sessions.1);
    lemma_bytes_stand_for_their_number(numbers.0, numbers.1);
    vstd::bytes::lemma_auto_spec_u32_to_from_le_bytes();
    assert(spec_u32_to_le_bytes(processes.0).len() == 4);
    assert(spec_u32_to_le_bytes(processes.1).len() == 4);
    assert(first[0] == spec_u64_to_le_bytes(sessions.0));
    assert(first[1] == spec_u64_to_le_bytes(numbers.0));
    assert(first[2] == spec_u32_to_le_bytes(processes.0));
    assert(second[0] == spec_u64_to_le_bytes(sessions.1));
    assert(second[1] == spec_u64_to_le_bytes(numbers.1));
    assert(second[2] == spec_u32_to_le_bytes(processes.1));
}

proof fn lemma_bytes_stand_for_their_number(a: u64, b: u64)
    ensures
        spec_u64_to_le_bytes(a).len() == 8,
        spec_u64_to_le_bytes(a) == spec_u64_to_le_bytes(b) ==> a == b,
{
    vstd::bytes::lemma_auto_spec_u64_to_from_le_bytes();
    let left = vstd::bytes::spec_u64_from_le_bytes(spec_u64_to_le_bytes(a));
    let right = vstd::bytes::spec_u64_from_le_bytes(spec_u64_to_le_bytes(b));
    assert(left == a && right == b);
}

/// An encoded expression carries the id for its address. A dynamic filter carries the id for its
/// state too, and any other expression what it was encoded with.
pub proof fn what_an_encoded_expression_carries(
    converter: SharedPhysicalProtoConverter,
    encoded: ExprIds,
    inner_id: Option<u64>,
    ptr: u64,
    process_id: u32,
)
    ensures
        ({
            let ids = converter.outgoing_ids(encoded, inner_id, ptr, process_id);
            &&& ids.expr_id == Some(
                DefaultHasher::spec_finish(
                    seq![
                        spec_u64_to_le_bytes(converter.session_id),
                        spec_u64_to_le_bytes(ptr),
                        spec_u32_to_le_bytes(process_id),
                    ],
                ),
            )
            &&& inner_id matches Some(inner_id) ==> ids.dynamic_filter_inner_id == Some(
                DefaultHasher::spec_finish(
                    seq![
                        spec_u64_to_le_bytes(converter.session_id),
                        spec_u64_to_le_bytes(inner_id),
                        spec_u32_to_le_bytes(process_id),
                    ],
                ),
            )
            &&& inner_id is None ==> ids.dynamic_filter_inner_id
                == encoded.dynamic_filter_inner_id
        }),
{
}

/// What is known under the id of an encoded expression is what the state holds under it, and an
/// expression without an id is not known.
pub proof fn only_ids_are_looked_up<T: ?Sized>(state: StateView<T>, ids: ExprIds)
    ensures
        ids.expr_id is None ==> state.cached(ids) is None,
        ids.expr_id matches Some(id) ==> state.cached(ids) == state.exprs.get(id),
        ids.dynamic_filter_inner_id is None ==> state.filter(ids) is None,
        ids.dynamic_filter_inner_id matches Some(id) ==> state.filter(ids) == state.filters.get(id),
        StateView::<T>::empty().cached(ids) is None,
        StateView::<T>::empty().filter(ids) is None,
{
}

/// What decoding an expression gives, and what is known afterwards.
///
/// Where nothing is known under the id of its state, the expression comes out as it was parsed, and
/// is known under both of its ids from then on. Where something is, that and the expression have to
/// be dynamic filters; the expression that comes out is then the one that took over the state, and
/// is known under its own id only.
pub proof fn what_decoding_gives<T: ?Sized, E>(
    state: StateView<T>,
    ids: ExprIds,
    expr: Expr<T>,
    rebased: Result<Arc<T>, E>,
)
    ensures
        ({
            let (after, r) = state.decoded::<E>(ids, expr, rebased);
            if ids.dynamic_filter_inner_id is Some && state.filters.contains_key(
                ids.dynamic_filter_inner_id->0,
            ) {
                if !state.filters[ids.dynamic_filter_inner_id->0].dynamic_filter {
                    &&& r == Err::<Expr<T>, ConvertError<E>>(ConvertError::CachedIsNoFilter)
                    &&& after == state
                } else if !expr.dynamic_filter {
                    &&& r == Err::<Expr<T>, ConvertError<E>>(ConvertError::ParsedIsNoFilter)
                    &&& after == state
                } else {
                    match rebased {
                        Ok(value) => {
                            &&& r matches Ok(done) && done.value == value && done.dynamic_filter
                            &&& after.filters == state.filters
                            &&& after.exprs == match ids.expr_id {
                                Some(id) => state.exprs.insert(id, r->Ok_0),
                                None => state.exprs,
                            }
                        },
                        Err(error) => {
                            &&& r == Err::<Expr<T>, ConvertError<E>>(ConvertError::Rebase(error))
                            &&& after == state
                        },
                    }
                }
            } else {
                &&& r == Ok::<Expr<T>, ConvertError<E>>(expr)
                &&& after.filters == match ids.dynamic_filter_inner_id {
                    Some(id) => state.filters.insert(id, expr),
                    None => state.filters,
                }
                &&& after.exprs == match ids.expr_id {
                    Some(id) => state.exprs.insert(id, expr),
                    None => state.exprs,
                }
            }
        }),
{
}

/// A state is taken over exactly where the filter that was decoded first under its id and the
/// expression are both dynamic filters. Decoding does not depend on it otherwise.
pub proof fn when_a_state_is_taken_over<T: ?Sized, E>(
    state: StateView<T>,
    ids: ExprIds,
    expr: Expr<T>,
    rebased: Result<Arc<T>, E>,
)
    ensures
        rebases(state, ids, expr) <==> {
            &&& ids.dynamic_filter_inner_id is Some
            &&& state.filters.contains_key(ids.dynamic_filter_inner_id->0)
            &&& state.filters[ids.dynamic_filter_inner_id->0].dynamic_filter
            &&& expr.dynamic_filter
        },
        !rebases(state, ids, expr) ==> state.settled::<E>(ids, expr) == state.decoded::<E>(
            ids,
            expr,
            rebased,
        ),
{
}

/// What is left to do with a parsed expression, and what is known meanwhile: an expression that is
/// to take over a state is not known before it has, and any other is done with.
pub proof fn what_parsing_leaves_to_do<T: ?Sized, E>(
    state: StateView<T>,
    ids: ExprIds,
    expr: Expr<T>,
    rebased: Result<Arc<T>, E>,
)
    ensures
        ({
            let (after, r) = state.parsed::<E>(ids, expr);
            if rebases(state, ids, expr) {
                &&& after == state
                &&& r matches Ok(Parsed::Rebase { parsed, cached }) && parsed == expr && cached
                    == state.filters[ids.dynamic_filter_inner_id->0]
            } else {
                &&& after == state.decoded::<E>(ids, expr, rebased).0
                &&& match r {
                    Ok(Parsed::Done(done)) => state.decoded::<E>(ids, expr, rebased).1 == Ok::<
                        Expr<T>,
                        ConvertError<E>,
                    >(done),
                    Ok(Parsed::Rebase { .. }) => false,
                    Err(error) => state.decoded::<E>(ids, expr, rebased).1 == Err::<
                        Expr<T>,
                        ConvertError<E>,
                    >(error),
                }
            }
        }),
{
}

/// Taking note of an expression or of a dynamic filter changes what is known under that one id, and
/// nothing without an id.
pub proof fn one_id_is_noted<T: ?Sized>(state: StateView<T>, ids: ExprIds, expr: Expr<T>)
    ensures
        state.with_expr(ids, expr).filters == state.filters,
        state.with_expr(ids, expr).exprs == match ids.expr_id {
            Some(id) => state.exprs.insert(id, expr),
            None => state.exprs,
        },
        state.with_filter(ids, expr).exprs == state.exprs,
        state.with_filter(ids, expr).filters == match ids.dynamic_filter_inner_id {
            Some(id) => state.filters.insert(id, expr),
            None => state.filters,
        },
{
}

/// A session that was drawn is one that the generator gave.
proof fn sessions_are_drawn(session_id: u64)
    ensures
        drawn(session_id) <==> call_ensures(random_session, (), session_id),
{
}

/// What is told of a state is what it holds.
proof fn a_state_is_seen_whole<T: ?Sized>(state: SharedDeserializerState<T>)
    ensures
        state@.exprs == state.expr_cache@,
        state@.filters == state.dynamic_filter_cache@,
        StateView::<T>::empty().exprs == Map::<u64, Expr<T>>::empty(),
        StateView::<T>::empty().filters == Map::<u64, Expr<T>>::empty(),
{
}

} // verus!
