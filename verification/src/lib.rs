//! Running DataFusion plans on a cluster of workers, and watching the cluster.
//!
//! A distributed plan ([`plan`]) is cut at its network boundaries into stages. To execute it
//! ([`distributed`]), every task of every stage is given a worker and sent its plan ([`prepare`],
//! [`sending`], [`headers`]), and workers report the metrics of their tasks back ([`metrics`]).
//! Workers build the sessions that they run plans in ([`session`]). Expressions keep their identity
//! when plans are encoded ([`proto_converter`]), and plans know what is left of their partitioning
//! when its size changes ([`partitioning`]).
//!
//! The console ([`console`]) watches the workers. How it reaches them is decided by
//! [`connector`], on addresses that [`address`] reads, and [`endpoint`] is how it speaks to them.

pub mod address;
mod calls;
pub mod connector;
pub mod console;
pub mod distributed;
pub mod endpoint;
pub mod headers;
pub mod metrics;
pub mod partitioning;
pub mod plan;
pub mod prepare;
pub mod proto_converter;
pub mod sending;
pub mod session;
pub mod text;
