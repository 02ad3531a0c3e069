//! Network layers: what is seen at each, what is reported, and how packets go back.
pub mod address;
pub mod bpf;
pub mod bpf_wire;
pub mod callout_flow;
pub mod callout_socket;
pub mod callout_stream;
pub mod callout_transport;
pub mod callouts;
pub mod context;
pub mod guids;
pub mod inject;
pub mod module;
pub mod programs;
pub mod send;
pub mod wfp_init;
