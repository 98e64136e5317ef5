//! Deployment-completion detection and hook fanout for a Kubernetes
//! controller that creates one batch Job per matching hook whenever a
//! Deployment finishes rolling out a genuinely new pod template.

pub mod cache;
pub mod controller;
pub mod crd;
pub mod fingerprint;
pub mod job;
pub mod labels;
pub mod model;
pub mod order;
pub mod resolver;
pub mod utils;
