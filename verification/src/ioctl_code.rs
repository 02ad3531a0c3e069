//! Requests between the client and the driver.
use vstd::prelude::*;

verus! {

pub const FILE_DEVICE_NETWORK: u32 = 0x12;

pub const METHOD_IN_DIRECT: u32 = 1;

pub const METHOD_OUT_DIRECT: u32 = 2;

pub const FILE_READ_DATA: u32 = 1;

pub const FILE_WRITE_DATA: u32 = 2;

/// The four fields of a request code, from the highest bits down: device type, access, function,
/// method.
pub open spec fn code_of(device_type: u32, function: u32, method: u32, access: u32) -> u32 {
    (device_type << 16u32) | (access << 14u32) | (function << 2u32) | method
}

/// The code of a request.
pub fn ctl_code(device_type: u32, function: u32, method: u32, access: u32) -> (code: u32)
    ensures
        code == code_of(device_type, function, method, access),
{
    (device_type << 16u32) | (access << 14u32) | (function << 2u32) | method
}

/// Asks for the version of the driver.
pub const IOCTL_VERSION: u32 = 0x12E482;

/// Chooses the layer of a handle.
pub const IOCTL_INITIALIZE: u32 = 0x12E486;

/// Starts a handle.
pub const IOCTL_STARTUP: u32 = 0x12E489;

/// Waits for something to arrive in the rings.
pub const IOCTL_RECV: u32 = 0x12648E;

/// Sends a packet, or tells of a decision.
pub const IOCTL_SEND: u32 = 0x12E491;

/// Sets a parameter.
pub const IOCTL_SET_PARAM: u32 = 0x12E495;

/// Reads a parameter.
pub const IOCTL_GET_PARAM: u32 = 0x12649A;

/// Shuts a handle down.
pub const IOCTL_SHUTDOWN: u32 = 0x12E49D;

/// Maps the rings.
pub const IOCTL_MAP_MM: u32 = 0x12E4C2;

/// Sets the filter program.
pub const IOCTL_SET_BPF: u32 = 0x12E4C5;

/// A request code whose fields fit their bits holds each of them.
pub proof fn law_code_holds_fields(device_type: u32, function: u32, method: u32, access: u32)
    requires
        device_type < 0x1_0000,
        function < 0x1000,
        method < 4,
        access < 4,
    ensures
        ({
            let code = code_of(device_type, function, method, access);
            &&& code >> 16 == device_type
            &&& (code >> 14) & 3 == access
            &&& (code >> 2) & 0xFFF == function
            &&& code & 3 == method
        }),
{
    assert({
        let code = (device_type << 16u32) | (access << 14u32) | (function << 2u32) | method;
        &&& code >> 16 == device_type
        &&& (code >> 14) & 3 == access
        &&& (code >> 2) & 0xFFF == function
        &&& code & 3 == method
    }) by (bit_vector)
        requires
            device_type < 0x1_0000,
            function < 0x1000,
            method < 4,
            access < 4,
    ;
}

/// The request codes are those of the network device: what a client may read or write with each,
/// and their functions.
pub proof fn law_request_codes()
    ensures
        IOCTL_VERSION == code_of(
            FILE_DEVICE_NETWORK,
            0x920,
            METHOD_OUT_DIRECT,
            FILE_READ_DATA | FILE_WRITE_DATA,
        ),
        IOCTL_INITIALIZE == code_of(
            FILE_DEVICE_NETWORK,
            0x921,
            METHOD_OUT_DIRECT,
            FILE_READ_DATA | FILE_WRITE_DATA,
        ),
        IOCTL_STARTUP == code_of(
            FILE_DEVICE_NETWORK,
            0x922,
            METHOD_IN_DIRECT,
            FILE_READ_DATA | FILE_WRITE_DATA,
        ),
        IOCTL_RECV == code_of(FILE_DEVICE_NETWORK, 0x923, METHOD_OUT_DIRECT, FILE_READ_DATA),
        IOCTL_SEND == code_of(
            FILE_DEVICE_NETWORK,
            0x924,
            METHOD_IN_DIRECT,
            FILE_READ_DATA | FILE_WRITE_DATA,
        ),
        IOCTL_SET_PARAM == code_of(
            FILE_DEVICE_NETWORK,
            0x925,
            METHOD_IN_DIRECT,
            FILE_READ_DATA | FILE_WRITE_DATA,
        ),
        IOCTL_GET_PARAM == code_of(FILE_DEVICE_NETWORK, 0x926, METHOD_OUT_DIRECT, FILE_READ_DATA),
        IOCTL_SHUTDOWN == code_of(
            FILE_DEVICE_NETWORK,
            0x927,
            METHOD_IN_DIRECT,
            FILE_READ_DATA | FILE_WRITE_DATA,
        ),
        IOCTL_MAP_MM == code_of(
            FILE_DEVICE_NETWORK,
            0x930,
            METHOD_OUT_DIRECT,
            FILE_READ_DATA | FILE_WRITE_DATA,
        ),
        IOCTL_SET_BPF == code_of(
            FILE_DEVICE_NETWORK,
            0x931,
            METHOD_IN_DIRECT,
            FILE_READ_DATA | FILE_WRITE_DATA,
        ),
{
    assert(0x12E482u32 == (0x12u32 << 16u32) | ((1u32 | 2u32) << 14u32) | (0x920u32 << 2u32) | 2u32
        && 0x12E486u32 == (0x12u32 << 16u32) | ((1u32 | 2u32) << 14u32) | (0x921u32 << 2u32) | 2u32
        && 0x12E489u32 == (0x12u32 << 16u32) | ((1u32 | 2u32) << 14u32) | (0x922u32 << 2u32) | 1u32
        && 0x12648Eu32 == (0x12u32 << 16u32) | (1u32 << 14u32) | (0x923u32 << 2u32) | 2u32
        && 0x12E491u32 == (0x12u32 << 16u32) | ((1u32 | 2u32) << 14u32) | (0x924u32 << 2u32) | 1u32
        && 0x12E495u32 == (0x12u32 << 16u32) | ((1u32 | 2u32) << 14u32) | (0x925u32 << 2u32) | 1u32
        && 0x12649Au32 == (0x12u32 << 16u32) | (1u32 << 14u32) | (0x926u32 << 2u32) | 2u32
        && 0x12E49Du32 == (0x12u32 << 16u32) | ((1u32 | 2u32) << 14u32) | (0x927u32 << 2u32) | 1u32
        && 0x12E4C2u32 == (0x12u32 << 16u32) | ((1u32 | 2u32) << 14u32) | (0x930u32 << 2u32) | 2u32
        && 0x12E4C5u32 == (0x12u32 << 16u32) | ((1u32 | 2u32) << 14u32) | (0x931u32 << 2u32)
        | 1u32) by (bit_vector);
}

#[derive(Clone, Copy, Debug)]
pub struct DivertVersion {
    pub magic: u64,
    pub major: u32,
    pub minor: u32,
    pub bits: u32,
    pub reserved32: [u32; 3],
    pub reserved64: [u64; 4],
}

#[derive(Clone, Copy, Debug, PartialEq, Eq, Structural)]
pub struct DivertIoctlRecv {
    pub addr: u64,
    pub addr_len_ptr: u64,
}

#[derive(Clone, Copy, Debug, PartialEq, Eq, Structural)]
pub struct DivertIoctlSend {
    pub addr: u64,
    pub addr_len: u64,
}

/// Layer, priority and flags of a new handle.
#[derive(Clone, Copy, Debug, PartialEq, Eq, Structural)]
pub struct DivertIoctlInitialize {
    pub layer: u32,
    pub priority: u32,
    pub flags: u64,
}

/// Answer to [`IOCTL_INITIALIZE`].
#[derive(Clone, Copy, Debug)]
pub struct IoctlInitializeResponse {
    pub magic: u64,
    /// Version of the driver.
    pub major: u32,
    pub minor: u32,
    /// 32 or 64.
    pub bits: u32,
    pub reserved32: [u32; 3],
    pub reserved64: [u64; 4],
}

impl Default for IoctlInitializeResponse {
    fn default() -> (r: IoctlInitializeResponse)
        ensures
            r.magic == 0 && r.major == 0 && r.minor == 0 && r.bits == 0,
            r.reserved32@ == seq![0u32, 0u32, 0u32],
            r.reserved64@ == seq![0u64, 0u64, 0u64, 0u64],
    {
        let reserved32: [u32; 3] = [0u32; 3];
        let reserved64: [u64; 4] = [0u64; 4];
        assert(reserved32@ =~= seq![0u32, 0u32, 0u32]);
        assert(reserved64@ =~= seq![0u64, 0u64, 0u64, 0u64]);
        IoctlInitializeResponse { magic: 0, major: 0, minor: 0, bits: 0, reserved32, reserved64 }
    }
}

/// Flags with which a handle is started; 0 keeps those it was opened with.
#[derive(Clone, Copy, Debug, PartialEq, Eq, Structural)]
pub struct DivertIoctlStartup {
    pub flags: u64,
}

#[derive(Clone, Copy, Debug, PartialEq, Eq, Structural)]
pub struct DivertIoctlShutdown {
    pub how: u32,
}

#[derive(Clone, Copy, Debug, PartialEq, Eq, Structural)]
pub struct DivertIoctlGetParam {
    pub param: u32,
}

#[derive(Clone, Copy, Debug, PartialEq, Eq, Structural)]
pub struct DivertIoctlSetParam {
    pub val: u64,
    pub param: u32,
}

/// How many rings the client can take.
#[derive(Clone, Copy, Debug, PartialEq, Eq, Structural)]
pub struct DivertIoctlMMapRequest {
    pub max_cores: u32,
}

/// Where the driver mapped rings for its client; 0 where there is none.
#[derive(Clone, Copy, Debug, PartialEq, Eq, Structural)]
pub struct IoctlMMapResponse {
    pub max_cores: u32,
    pub size: u32,
    pub ring_buffer_header: u64,
    pub ring_buffer_data: u64,
    pub send_ring_buffer_header: u64,
    pub send_ring_buffer_data: u64,
}

/// The same answer as the client reads it.
#[derive(Clone, Copy, Debug, PartialEq, Eq, Structural)]
pub struct DivertIoctlMMapResponse {
    pub max_cores: u32,
    pub rb_size: u32,
    pub ring_buffer_header: u64,
    pub ring_buffer_data: u64,
    pub send_ring_buffer_header: u64,
    pub send_ring_buffer_data: u64,
}

impl Default for DivertIoctlMMapResponse {
    fn default() -> (r: DivertIoctlMMapResponse)
        ensures
            r == (DivertIoctlMMapResponse {
                max_cores: 0,
                rb_size: 0,
                ring_buffer_header: 0,
                ring_buffer_data: 0,
                send_ring_buffer_header: 0,
                send_ring_buffer_data: 0,
            }),
    {
        DivertIoctlMMapResponse {
            max_cores: 0,
            rb_size: 0,
            ring_buffer_header: 0,
            ring_buffer_data: 0,
            send_ring_buffer_header: 0,
            send_ring_buffer_data: 0,
        }
    }
}

} // verus!
