//! The request that hands a worker its plan, and what is made of a refusal.

use crate::headers::{crowded, header_contents, merged, request_headers};
use crate::prepare::SetPlanRequest;
use crate::text::joined;
use http::HeaderMap;
use tonic::metadata::MetadataMap;
use vstd::prelude::*;

verus! {

/// What the coordinator tells a worker.
#[derive(Debug)]
pub enum CoordinatorMessage {
    SetPlanRequest(SetPlanRequest),
}

#[verifier::external_type_specification]
#[verifier::external_body]
pub struct ExMetadataMap(MetadataMap);

/// The values of each entry of the metadata of a request, under its name.
pub uninterp spec fn metadata_contents(metadata: MetadataMap) -> Map<Seq<char>, Seq<Seq<u8>>>;

/// `MetadataMap::from_headers`: the metadata are the headers.
#[verifier::external_body]
fn metadata_of(headers: HeaderMap) -> (r: MetadataMap)
    ensures
        metadata_contents(r) == header_contents(headers),
{
    MetadataMap::from_headers(headers)
}

/// A request to a worker: its metadata, and the messages that the coordinator sends on it.
#[derive(Debug)]
pub struct PlanRequest {
    pub metadata: MetadataMap,
    pub messages: Vec<CoordinatorMessage>,
}

/// Why a plan could not be sent.
#[derive(Debug)]
pub enum SendError<D> {
    /// The worker's own error.
    Worker(D),
    /// Any other refusal, described.
    Refused(String),
}

/// The plan of a worker, and headers that are too many for [`request_headers`].
#[derive(Debug)]
pub struct CrowdedRequest {
    pub config: HeaderMap,
    pub passthrough: HeaderMap,
    pub request: SetPlanRequest,
}

/// The request that hands a worker its plan: one message, with the headers as its metadata.
pub fn plan_request_with(headers: HeaderMap, request: SetPlanRequest) -> (r: PlanRequest)
    ensures
        metadata_contents(r.metadata) == header_contents(headers),
        r.messages@ == seq![CoordinatorMessage::SetPlanRequest(request)],
{
    let mut messages: Vec<CoordinatorMessage> = Vec::new();
    messages.push(CoordinatorMessage::SetPlanRequest(request));
    assert(messages@ =~= seq![CoordinatorMessage::SetPlanRequest(request)]);
    PlanRequest { metadata: metadata_of(headers), messages }
}

/// The request that hands a worker its plan: one message, with the headers that carry the
/// configuration and those that are passed through as its metadata. Where there are too many
/// headers for [`request_headers`], everything is given back.
pub fn plan_request(
    config: HeaderMap,
    passthrough: HeaderMap,
    request: SetPlanRequest,
) -> (r: Result<PlanRequest, CrowdedRequest>)
    ensures
        match r {
            Ok(sent) => {
                &&& !crowded(merged(header_contents(config), header_contents(passthrough)))
                &&& metadata_contents(sent.metadata) == merged(
                    header_contents(config),
                    header_contents(passthrough),
                )
                &&& sent.messages@ == seq![CoordinatorMessage::SetPlanRequest(request)]
            },
            Err(given) => {
                &&& crowded(merged(header_contents(config), header_contents(passthrough)))
                &&& given == (CrowdedRequest { config, passthrough, request })
            },
        },
{
    match request_headers(config, passthrough) {
        Ok(headers) => Ok(plan_request_with(headers, request)),
        Err((config, passthrough)) => Err(CrowdedRequest { config, passthrough, request }),
    }
}

/// What follows from sending a plan: what to tell those who wait for it to be sent, and the stream
/// of the worker's messages, if there is one to read.
pub fn plan_sent<M, E>(result: Result<M, E>) -> (r: (Result<(), E>, Option<M>))
    ensures
        match result {
            Ok(messages) => r == (Ok::<(), E>(()), Some(messages)),
            Err(error) => r == (Err::<(), E>(error), None::<M>),
        },
{
    match result {
        Ok(messages) => (Ok(()), Some(messages)),
        Err(error) => (Err(error), None),
    }
}

/// What those who wait for a plan to be sent learn. One who is told nothing has nothing to complain
/// of.
pub fn sent_result<E>(told: Option<Result<(), E>>) -> (r: Result<(), E>)
    ensures
        match told {
            Some(result) => r == result,
            None => r is Ok,
        },
{
    match told {
        Some(result) => result,
        None => Ok(()),
    }
}

/// What a refusal is reported as: the error that the worker put into it, if there is one, and else
/// a text that names the worker and the status of the refusal.
pub fn plan_send_error<D>(worker_error: Option<D>, url: &str, status: &str) -> (r: SendError<D>)
    ensures
        match worker_error {
            Some(error) => r == SendError::Worker(error),
            None => r matches SendError::Refused(text) && text@ == "Error sending plan to worker "@
                + url@ + ": "@ + status@,
        },
{
    match worker_error {
        Some(error) => SendError::Worker(error),
        None => {
            let named = joined("Error sending plan to worker ", url);
            SendError::Refused(joined(joined(named.as_str(), ": ").as_str(), status))
        },
    }
}

} // verus!
