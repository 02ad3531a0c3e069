//! Status codes of the kernel side.
use vstd::prelude::*;

verus! {

pub const STATUS_SUCCESS: i32 = 0;

pub const STATUS_TIMEOUT: i32 = 0x0000_0102;

pub const STATUS_PENDING: i32 = 0x0000_0103;

pub const STATUS_REPARSE: i32 = 0x0000_0104;

/// 0xC0000001
pub const STATUS_UNSUCCESSFUL: i32 = -0x3FFF_FFFF;

/// 0xC000000D
pub const STATUS_INVALID_PARAMETER: i32 = -0x3FFF_FFF3;

/// 0xC0000010
pub const STATUS_INVALID_DEVICE_REQUEST: i32 = -0x3FFF_FFF0;

/// 0xC0000022
pub const STATUS_ACCESS_DENIED: i32 = -0x3FFF_FFDE;

/// 0xC0000023
pub const STATUS_BUFFER_TOO_SMALL: i32 = -0x3FFF_FFDD;

/// 0xC000009A
pub const STATUS_INSUFFICIENT_RESOURCES: i32 = -0x3FFF_FF66;

/// 0xC0000120
pub const STATUS_CANCELLED: i32 = -0x3FFF_FEE0;

/// 0xC0000184
pub const STATUS_INVALID_DEVICE_STATE: i32 = -0x3FFF_FE7C;

/// 0xC0000225
pub const STATUS_NOT_FOUND: i32 = -0x3FFF_FDDB;

/// A status reports success exactly when it is not negative.
pub fn nt_success(status: i32) -> (ok: bool)
    ensures
        ok == (status >= 0),
{
    status >= 0
}

/// The numbers of the statuses as the platform writes them: those of failures have the two highest
/// bits set, and are negative as signed numbers.
pub proof fn law_numbers_of_statuses()
    ensures
        STATUS_UNSUCCESSFUL + 0x1_0000_0000 == 0xC000_0001,
        STATUS_INVALID_PARAMETER + 0x1_0000_0000 == 0xC000_000D,
        STATUS_INVALID_DEVICE_REQUEST + 0x1_0000_0000 == 0xC000_0010,
        STATUS_ACCESS_DENIED + 0x1_0000_0000 == 0xC000_0022,
        STATUS_BUFFER_TOO_SMALL + 0x1_0000_0000 == 0xC000_0023,
        STATUS_INSUFFICIENT_RESOURCES + 0x1_0000_0000 == 0xC000_009A,
        STATUS_CANCELLED + 0x1_0000_0000 == 0xC000_0120,
        STATUS_INVALID_DEVICE_STATE + 0x1_0000_0000 == 0xC000_0184,
        STATUS_NOT_FOUND + 0x1_0000_0000 == 0xC000_0225,
        STATUS_SUCCESS == 0 && STATUS_TIMEOUT == 0x102 && STATUS_PENDING == 0x103 && STATUS_REPARSE
            == 0x104,
{
}

} // verus!
