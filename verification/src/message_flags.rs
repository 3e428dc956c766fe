//! The bits of the flags of a message. `MessageFlags` holds their bit-wise
//! OR.

use vstd::prelude::*;

verus! {

/// No flag.
pub const NONE: u8 = 0x00;

/// The sender expects no reply to this message.
pub const NO_REPLY_EXPECTED: u8 = 0x01;

/// The bus must not launch an owner for the destination name.
pub const NO_AUTO_START: u8 = 0x02;

/// The caller is prepared to wait for interactive authorization.
pub const ALLOW_INTERACTIVE_AUTHORIZATION: u8 = 0x04;

} // verus!
