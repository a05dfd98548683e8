//! Property-mail messages for the firmware mailbox collaborator.
//!
//! Only the construction of the messages lives here: each constructor
//! fills the fixed header words — total buffer size, request status, tag,
//! value-buffer size — and the tag-specific payload. Sending a message
//! through the memory-mapped mailbox, and the 16-byte alignment the
//! hardware requires of the buffer, belong to the platform layer.

use vstd::prelude::*;

verus! {

pub const STATUS_SUCCESS: u32 = 0x8000_0000;

pub const STATUS_FAILURE: u32 = 0x8000_0001;

/// Clock identifier of the UART clock.
pub const CLOCK_UART: u32 = 2;

/// A property-mail buffer: the fixed header, one tag payload, and the
/// terminating null tag.
pub struct Message<T> {
    /// Total buffer size in bytes, including the header.
    pub msgsize: u32,
    /// Request/response status word.
    pub status: u32,
    /// The tag payload.
    pub data: T,
    /// Terminating null tag.
    pub null: u32,
}

/// Payloads that may ride in a property-mail message.
pub trait MailboxMessageData {
}

/// Queries the base and size of the memory given to the processor.
pub struct GetArmMemory {
    pub tag: u32,
    pub bufsize: u32,
    pub status: u32,
    pub base: u32,
    pub size: u32,
}

/// Queries the rate of one clock.
pub struct GetClockRate {
    pub tag: u32,
    pub bufsize: u32,
    pub status: u32,
    pub id: u32,
    pub rate: u32,
}

/// Sets the rate of one clock.
pub struct SetClockRate {
    pub tag: u32,
    pub bufsize: u32,
    pub status: u32,
    pub id: u32,
    pub rate: u32,
    pub skip_turbo: u32,
}

impl MailboxMessageData for GetArmMemory {

}

impl MailboxMessageData for GetClockRate {

}

impl MailboxMessageData for SetClockRate {

}

impl GetArmMemory {
    /// A fresh memory query: 32 buffer bytes, tag 0x0001_0005, an 8-byte
    /// value buffer, and zeroed response fields.
    pub fn new() -> (r: Message<GetArmMemory>)
        ensures
            r.msgsize == 32,
            r.status == 0,
            r.null == 0,
            r.data.tag == 0x0001_0005,
            r.data.bufsize == 8,
            r.data.status == 0,
            r.data.base == 0,
            r.data.size == 0,
    {
        Message {
            msgsize: 32,
            status: 0,
            data: GetArmMemory { tag: 0x0001_0005, bufsize: 8, status: 0, base: 0, size: 0 },
            null: 0,
        }
    }
}

impl GetClockRate {
    /// A fresh clock-rate query: 32 buffer bytes, tag 0x0003_0002, an
    /// 8-byte value buffer holding the queried clock.
    pub fn new(id: u32) -> (r: Message<GetClockRate>)
        ensures
            r.msgsize == 32,
            r.status == 0,
            r.null == 0,
            r.data.tag == 0x0003_0002,
            r.data.bufsize == 8,
            r.data.status == 0,
            r.data.id == id,
            r.data.rate == 0,
    {
        Message {
            msgsize: 32,
            status: 0,
            data: GetClockRate { tag: 0x0003_0002, bufsize: 8, status: 0, id, rate: 0 },
            null: 0,
        }
    }
}

impl SetClockRate {
    /// A fresh clock-rate command: 48 buffer bytes, tag 0x0003_8002, a
    /// 12-byte value buffer holding the clock, the rate, and the
    /// turbo-skip flag.
    pub fn new(id: u32, rate: u32) -> (r: Message<SetClockRate>)
        ensures
            r.msgsize == 48,
            r.status == 0,
            r.null == 0,
            r.data.tag == 0x0003_8002,
            r.data.bufsize == 12,
            r.data.status == 0,
            r.data.id == id,
            r.data.rate == rate,
            r.data.skip_turbo == 0,
    {
        Message {
            msgsize: 48,
            status: 0,
            data: SetClockRate {
                tag: 0x0003_8002,
                bufsize: 12,
                status: 0,
                id,
                rate,
                skip_turbo: 0,
            },
            null: 0,
        }
    }
}

} // verus!
