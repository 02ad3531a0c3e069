//! FastDivert: interception of network packets and file operations.
//!
//! The library holds what the driver and its client decide and compute: filter programs and their
//! compiler, the rings through which packets and events travel, the rules of the file monitor, and
//! what is done with each request. Objects of the platform are named by numbers, and what the
//! platform answers is an argument.
pub mod bpf_compiler;
pub mod bytes;
pub mod context;
pub mod driver;
pub mod driver_install;
pub mod file;
pub mod file_config;
pub mod file_monitor;
pub mod file_policy;
pub mod file_types;
pub mod ioctl;
pub mod ioctl_code;
pub mod ioctl_handler;
pub mod layout;
pub mod network;
pub mod packet_count;
pub mod packet_dump;
pub mod packet_parser;
pub mod raw;
pub mod ringbuffer;
pub mod status;
pub mod text;
pub mod types;
pub mod utf16;
pub mod utils;

pub use bpf_compiler::compile_bpf;
pub use file_types::{
    FileCallbackDecision, FileDecision, FileEvent, FileFilterRule, FileModuleConfig,
    FILE_ACTION_ALLOW, FILE_ACTION_DENY, FILE_MATCH_EXACT, FILE_MATCH_GLOB, FILE_MATCH_PREFIX,
    FILE_MATCH_SUFFIX, FILE_OP_CREATE, FILE_OP_DELETE, FILE_OP_WRITE, MAX_FILTER_RULES,
    MAX_RULE_PATH_LEN,
};
pub use network::bpf::BpfInsn;
pub use packet_parser::{FiveTuple, PacketParser};
pub use ringbuffer::client::{FileEventRef, PacketRef, PollMode, RingBufferClient};
pub use ringbuffer::scan::PacketData;
pub use types::{DivertAddress, Flags, Layer};
pub use utils::hexdump;
