//! Messages: the header, its fields, the message type and the flags.

use crate::signature::{Signature, SpecSignature};
use crate::types::ObjectPath;
use crate::variant::{SpecVariant, Variant};
use vstd::prelude::*;

verus! {

/// The mathematical value of a [`MessageHeaderField`].
pub enum SpecMessageHeaderField {
    Destination(Seq<char>),
    ErrorName(Seq<char>),
    Interface(Seq<char>),
    Member(Seq<char>),
    Path(Seq<char>),
    ReplySerial(u32),
    Sender(Seq<char>),
    Signature(SpecSignature),
    UnixFds(u32),
    Unknown { code: u8, value: SpecVariant },
}

/// The mathematical value of a [`MessageType`].
pub enum SpecMessageType {
    Error { name: Seq<char>, reply_serial: u32 },
    MethodCall { member: Seq<char>, path: Seq<char> },
    MethodReturn { reply_serial: u32 },
    Signal { interface: Seq<char>, member: Seq<char>, path: Seq<char> },
}

/// The mathematical value of a [`MessageHeader`].
pub struct SpecMessageHeader {
    pub message_type: SpecMessageType,
    pub flags: u8,
    pub body_len: nat,
    pub serial: u32,
    pub fields: Seq<SpecMessageHeaderField>,
}

/// Message flags.
///
/// Bit-wise OR of the constants of [`crate::message_flags`]. Bits that none
/// of them names pass through.
#[derive(Clone, Copy, Debug, PartialEq, Eq, Structural)]
pub struct MessageFlags(pub u8);

impl core::ops::BitOr for MessageFlags {
    type Output = MessageFlags;

    fn bitor(self, rhs: MessageFlags) -> (ret: MessageFlags) {
        MessageFlags(self.0 | rhs.0)
    }
}

impl vstd::std_specs::ops::BitOrSpecImpl for MessageFlags {
    open spec fn obeys_bitor_spec() -> bool {
        true
    }

    open spec fn bitor_req(self, rhs: MessageFlags) -> bool {
        true
    }

    open spec fn bitor_spec(self, rhs: MessageFlags) -> MessageFlags {
        MessageFlags(self.0 | rhs.0)
    }
}

/// A message header field.
#[derive(Debug, PartialEq)]
pub enum MessageHeaderField {
    Destination(String),
    ErrorName(String),
    Interface(String),
    Member(String),
    Path(ObjectPath),
    ReplySerial(u32),
    Sender(String),
    Signature(Signature),
    UnixFds(u32),
    /// A field with a code that this library gives no meaning to.
    Unknown { code: u8, value: Variant },
}

impl View for MessageHeaderField {
    type V = SpecMessageHeaderField;

    open spec fn view(&self) -> SpecMessageHeaderField {
        match self {
            MessageHeaderField::Destination(v) => SpecMessageHeaderField::Destination(v@),
            MessageHeaderField::ErrorName(v) => SpecMessageHeaderField::ErrorName(v@),
            MessageHeaderField::Interface(v) => SpecMessageHeaderField::Interface(v@),
            MessageHeaderField::Member(v) => SpecMessageHeaderField::Member(v@),
            MessageHeaderField::Path(v) => SpecMessageHeaderField::Path(v@),
            MessageHeaderField::ReplySerial(v) => SpecMessageHeaderField::ReplySerial(*v),
            MessageHeaderField::Sender(v) => SpecMessageHeaderField::Sender(v@),
            MessageHeaderField::Signature(v) => SpecMessageHeaderField::Signature(v@),
            MessageHeaderField::UnixFds(v) => SpecMessageHeaderField::UnixFds(*v),
            MessageHeaderField::Unknown { code, value } => SpecMessageHeaderField::Unknown {
                code: *code,
                value: value@,
            },
        }
    }
}

impl Clone for MessageHeaderField {
    fn clone(&self) -> (r: Self)
        ensures
            r@ == self@,
    {
        match self {
            MessageHeaderField::Destination(v) => MessageHeaderField::Destination(v.clone()),
            MessageHeaderField::ErrorName(v) => MessageHeaderField::ErrorName(v.clone()),
            MessageHeaderField::Interface(v) => MessageHeaderField::Interface(v.clone()),
            MessageHeaderField::Member(v) => MessageHeaderField::Member(v.clone()),
            MessageHeaderField::Path(v) => MessageHeaderField::Path(v.clone()),
            MessageHeaderField::ReplySerial(v) => MessageHeaderField::ReplySerial(*v),
            MessageHeaderField::Sender(v) => MessageHeaderField::Sender(v.clone()),
            MessageHeaderField::Signature(v) => MessageHeaderField::Signature(v.clone()),
            MessageHeaderField::UnixFds(v) => MessageHeaderField::UnixFds(*v),
            MessageHeaderField::Unknown { code, value } => MessageHeaderField::Unknown {
                code: *code,
                value: value.clone(),
            },
        }
    }
}

impl MessageHeaderField {
    /// This field, which owns all that it holds.
    pub fn into_owned(self) -> (r: MessageHeaderField)
        ensures
            r == self,
    {
        self
    }
}

/// The mathematical values of a sequence of header fields.
pub open spec fn field_views(v: Seq<MessageHeaderField>) -> Seq<SpecMessageHeaderField> {
    Seq::new(v.len(), |i: int| v[i]@)
}

/// Message type, with the header fields that a message of the type must
/// have.
#[derive(Debug, PartialEq)]
pub enum MessageType {
    Error { name: String, reply_serial: u32 },
    MethodCall { member: String, path: ObjectPath },
    MethodReturn { reply_serial: u32 },
    Signal { interface: String, member: String, path: ObjectPath },
}

impl View for MessageType {
    type V = SpecMessageType;

    open spec fn view(&self) -> SpecMessageType {
        match self {
            MessageType::Error { name, reply_serial } => SpecMessageType::Error {
                name: name@,
                reply_serial: *reply_serial,
            },
            MessageType::MethodCall { member, path } => SpecMessageType::MethodCall {
                member: member@,
                path: path@,
            },
            MessageType::MethodReturn { reply_serial } => SpecMessageType::MethodReturn {
                reply_serial: *reply_serial,
            },
            MessageType::Signal { interface, member, path } => SpecMessageType::Signal {
                interface: interface@,
                member: member@,
                path: path@,
            },
        }
    }
}

impl Clone for MessageType {
    fn clone(&self) -> (r: Self)
        ensures
            r@ == self@,
    {
        match self {
            MessageType::Error { name, reply_serial } => MessageType::Error {
                name: name.clone(),
                reply_serial: *reply_serial,
            },
            MessageType::MethodCall { member, path } => MessageType::MethodCall {
                member: member.clone(),
                path: path.clone(),
            },
            MessageType::MethodReturn { reply_serial } => MessageType::MethodReturn {
                reply_serial: *reply_serial,
            },
            MessageType::Signal { interface, member, path } => MessageType::Signal {
                interface: interface.clone(),
                member: member.clone(),
                path: path.clone(),
            },
        }
    }
}

impl MessageType {
    /// This message type, which owns all that it holds.
    pub fn into_owned(self) -> (r: MessageType)
        ensures
            r == self,
    {
        self
    }
}

impl SpecMessageType {
    /// The code of this message type on the wire.
    pub open spec fn code(self) -> u8 {
        match self {
            SpecMessageType::MethodCall { .. } => 1,
            SpecMessageType::MethodReturn { .. } => 2,
            SpecMessageType::Error { .. } => 3,
            SpecMessageType::Signal { .. } => 4,
        }
    }

    /// The header fields that a message of this type must have, in the
    /// order in which they are written.
    pub open spec fn mandatory_fields(self) -> Seq<SpecMessageHeaderField> {
        match self {
            SpecMessageType::Error { name, reply_serial } => seq![
                SpecMessageHeaderField::ErrorName(name),
                SpecMessageHeaderField::ReplySerial(reply_serial),
            ],
            SpecMessageType::MethodCall { member, path } => seq![
                SpecMessageHeaderField::Member(member),
                SpecMessageHeaderField::Path(path),
            ],
            SpecMessageType::MethodReturn { reply_serial } => seq![
                SpecMessageHeaderField::ReplySerial(reply_serial),
            ],
            SpecMessageType::Signal { interface, member, path } => seq![
                SpecMessageHeaderField::Interface(interface),
                SpecMessageHeaderField::Member(member),
                SpecMessageHeaderField::Path(path),
            ],
        }
    }

    /// This message type with its strings emptied.
    pub open spec fn emptied(self) -> SpecMessageType {
        match self {
            SpecMessageType::Error { name, reply_serial } => SpecMessageType::Error {
                name: Seq::empty(),
                reply_serial,
            },
            SpecMessageType::MethodCall { member, path } => SpecMessageType::MethodCall {
                member: Seq::empty(),
                path: Seq::empty(),
            },
            SpecMessageType::MethodReturn { reply_serial } => SpecMessageType::MethodReturn {
                reply_serial,
            },
            SpecMessageType::Signal { interface, member, path } => SpecMessageType::Signal {
                interface: Seq::empty(),
                member: Seq::empty(),
                path: Seq::empty(),
            },
        }
    }
}

/// Message header.
#[derive(Debug, PartialEq)]
pub struct MessageHeader {
    /// The message type.
    pub message_type: MessageType,
    /// The message flags.
    pub flags: MessageFlags,
    /// The length of the message body, in bytes.
    pub body_len: usize,
    /// The message serial.
    pub serial: u32,
    /// Header fields.
    pub fields: Vec<MessageHeaderField>,
}

impl View for MessageHeader {
    type V = SpecMessageHeader;

    open spec fn view(&self) -> SpecMessageHeader {
        SpecMessageHeader {
            message_type: self.message_type@,
            flags: self.flags.0,
            body_len: self.body_len as nat,
            serial: self.serial,
            fields: field_views(self.fields@),
        }
    }
}

impl MessageHeader {
    /// This header, which owns all that it holds.
    pub fn into_owned(self) -> (r: MessageHeader)
        ensures
            r == self,
    {
        self
    }

    /// Copies of the header fields `v`, in order.
    pub fn clone_fields(v: &Vec<MessageHeaderField>) -> (r: Vec<MessageHeaderField>)
        ensures
            field_views(r@) == field_views(v@),
    {
        let mut out: Vec<MessageHeaderField> = Vec::new();
        let mut i: usize = 0;
        while i < v.len()
            invariant
                i <= v.len(),
                out@.len() == i,
                forall|j: int| 0 <= j < i ==> out@[j]@ == v@[j]@,
            decreases v.len() - i,
        {
            out.push(v[i].clone());
            i += 1;
        }
        assert(field_views(out@) =~= field_views(v@));
        out
    }
}

impl Clone for MessageHeader {
    fn clone(&self) -> (r: Self)
        ensures
            r@ == self@,
    {
        MessageHeader {
            message_type: self.message_type.clone(),
            flags: self.flags,
            body_len: self.body_len,
            serial: self.serial,
            fields: MessageHeader::clone_fields(&self.fields),
        }
    }
}

} // verus!
