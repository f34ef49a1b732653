//! Boundary layer for driving an embedded virtual-machine engine from a host
//! process: reconstruction of a structured execution trace from the engine's
//! flat event stream, a deterministic mapping of dispatch failures onto a
//! fixed exit-code vocabulary, the decision logic of the machine lifecycle
//! (create, execute, flush, destroy), and the binary schema used to ship a
//! reconstructed trace across the boundary.

pub mod cids;
pub mod codec;
pub mod exit_code;
pub mod handles;
pub mod machine;
pub mod timing;
pub mod trace;
