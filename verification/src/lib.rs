//! A pure Rust implementation of the client side of the D-Bus protocol, with
//! machine-checked contracts.
//!
//! The library reads and writes the binary wire format and keeps the state of
//! a connection and of a client. It does no input or output: the bytes that a
//! connection wants to send are taken from it with
//! [`Connection::take_output`], and the bytes that arrive are handed to it
//! with [`Connection::feed`].
//!
//! - [`signature`], [`signature_text`]: the type of a value, its text and
//!   its alignment.
//! - [`de`], [`ser`], [`wire`]: reading and writing scalars, strings and
//!   the frames of arrays and structs, with the padding that alignment asks
//!   for.
//! - [`variant`], [`variant_de`], [`variant_ser`], [`variant_wire`]: values
//!   of any signature.
//! - [`message`], [`message_codec`], [`message_wire`]: messages.
//! - [`address`], [`conn`], [`client`]: bus addresses, authentication, the
//!   connection and the client.
//! - [`signature_laws`], [`wire_laws`], [`element_laws`], [`variant_laws`]:
//!   what holds between reading and writing.
//!
//! Each function states what it returns over the mathematical value of its
//! arguments: a [`Signature`] stands for a [`signature::SpecSignature`], a
//! [`Variant`] for a [`variant::SpecVariant`], and the bytes that a value is
//! written as are given by [`variant_wire::encode`], the value that bytes are
//! read as by [`variant_wire::decode`].

pub mod address;
pub mod as_variant;
pub mod client;
pub mod conn;
pub mod de;
pub mod element;
pub mod element_laws;
pub mod endian;
pub mod message;
pub mod message_codec;
pub mod message_flags;
pub mod message_wire;
pub mod ser;
pub mod signature;
pub mod signature_laws;
pub mod signature_text;
pub mod std2;
pub mod text;
pub mod types;
mod utf8;
pub mod variant;
pub mod variant_convert;
pub mod variant_de;
pub mod variant_laws;
pub mod variant_ser;
pub mod variant_wire;
pub mod wire;
pub mod wire_laws;

pub use as_variant::{AsVariant, Object, ToVariant};
pub use client::{Client, CreateClientError, MethodCallError};
pub use conn::{BusPath, ConnectError, Connection, IoError, RecvError, SaslAuthType, SendError};
pub use de::DeserializeError;
pub use endian::Endianness;
pub use message::{MessageFlags, MessageHeader, MessageHeaderField, MessageType};
pub use message_codec::{deserialize_message, serialize_message};
pub use ser::SerializeError;
pub use signature::Signature;
pub use types::{ObjectPath, UnixFd};
pub use variant::Variant;
pub use variant_convert::VariantDeserializeError;
