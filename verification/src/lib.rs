//! degc routes the internet egress of selected Docker containers through
//! shared gateways, and closes a gateway whose egress is not there.
//!
//! From a snapshot of the containers and the configured gateways a plan is made
//! ([`plan`]); the plan is compiled into the state that the host should have
//! ([`enforce`]); and applying that state is a run that decides step by step
//! what follows ([`enforce::run`]). [`reconcile`] puts these together,
//! [`daemon`] says when to reconcile, and [`obs`] keeps the metrics.

pub mod api;
pub mod config;
pub mod daemon;
pub mod docker;
pub mod enforce;
pub mod net;
pub mod obs;
pub mod ordered;
pub mod plan;
pub mod reconcile;
pub mod seqs;
pub mod text;
