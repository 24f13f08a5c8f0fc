use vstd::prelude::*;

pub mod text;
pub mod json;
pub mod attributor;
pub mod attribution;
pub mod otlp;
pub mod prom;
pub mod demo;
pub mod ingest;
pub mod feeder;
pub mod k8s;
pub mod operator;
pub mod predictor;

verus! {
} // verus!
