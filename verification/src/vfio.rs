//! What a device server tells its client of regions and interrupts.
use vstd::prelude::*;

verus! {

pub const BAR0_REGION_INDEX: u32 = 0;
pub const BAR4_REGION_INDEX: u32 = 4;
pub const CONFIG_REGION_INDEX: u32 = 7;
/// Six base address registers, the expansion ROM and the configuration space.
pub const REGION_COUNT: u32 = 8;

pub const REGION_FLAG_READ: u32 = 1;
pub const REGION_FLAG_WRITE: u32 = 2;
pub const REGION_FLAGS_READ_WRITE: u32 = 3;

pub const INTX_IRQ_INDEX: u32 = 0;
pub const REQ_IRQ_INDEX: u32 = 4;
/// Line, message-signalled (two kinds), error and request interrupts.
pub const IRQ_COUNT: u32 = 5;

pub const IRQ_FLAG_EVENTFD: u32 = 1;
pub const IRQ_FLAG_MASKABLE: u32 = 2;
pub const IRQ_FLAG_AUTOMASKED: u32 = 4;
/// Signalled by an event, maskable, and masked by its own signal.
pub const IRQ_FLAGS_LINE: u32 = 7;

pub const IRQ_SET_DATA_NONE: u32 = 1;
pub const IRQ_SET_DATA_EVENTFD: u32 = 4;
/// The data kinds that are understood.
pub const IRQ_SET_DATA_MASK: u32 = 5;
pub const IRQ_SET_ACTION_MASK: u32 = 8;
pub const IRQ_SET_ACTION_UNMASK: u32 = 16;
pub const IRQ_SET_ACTION_TRIGGER: u32 = 32;
/// The three actions.
pub const IRQ_SET_ACTION_ALL: u32 = 56;

/// One region of a device, as the client sees it.
#[derive(Clone, Copy, Debug, PartialEq, Eq)]
pub struct RegionInfo {
    pub index: u32,
    pub flags: u32,
    pub size: u64,
}

/// One interrupt index of a device, as the client sees it.
#[derive(Clone, Copy, Debug, PartialEq, Eq)]
pub struct IrqInfo {
    pub index: u32,
    pub flags: u32,
    pub count: u32,
}

/// Why a request of the client was refused.
#[derive(Clone, Copy, Debug, PartialEq, Eq, Structural)]
pub enum BackendError {
    /// The region is not implemented.
    UnimplementedRegion(u32),
    /// The access leaves its region.
    OutOfRange,
    /// Only vector zero of the line interrupt can be set up.
    UnsupportedVector,
    /// The combination of action, data and count is not understood.
    UnsupportedIrqSetup,
    /// The device has no interrupts.
    NoInterrupts,
}

/// The bytes of a region of `size` bytes that an access touches.
pub fn checked_range(offset: u64, length: usize, size: usize) -> (r: Result<usize, BackendError>)
    ensures
        r == (if offset + length <= size {
            Ok(offset as usize)
        } else {
            Err(BackendError::OutOfRange)
        }),
{
    if offset > size as u64 || length > size - offset as usize {
        return Err(BackendError::OutOfRange);
    }
    Ok(offset as usize)
}

} // verus!
