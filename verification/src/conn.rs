//! The state of a connection to a message bus: what to say to the server
//! to authenticate, the bytes still to send, and the bytes received that no
//! message was read from yet.
//!
//! The connection does no input or output itself. Its user writes to the
//! socket what [`Connection::take_output`] gives, and hands what it reads
//! from the socket to [`Connection::feed`].

use crate::address::{hex_value, socket_paths, socket_paths_of};
use crate::de::DeserializeError;
use crate::endian::{le_bytes, uint_bytes, Endianness};
use crate::message::MessageHeader;
use crate::message_codec::{body_of, deserialize_message, serialize_message};
use crate::message_wire::{decode_message, encode_body, encode_message, header_as_written};
use crate::ser::SerializeError;
use crate::variant::Variant;
use crate::wire::DecodeError;
use vstd::prelude::*;
use vstd::slice::{slice_subrange, slice_to_vec};
use vstd::string::StringSliceAdditionalSpecFns;
use vstd::utf8::encode_utf8;

verus! {

/// What went wrong with the socket.
#[derive(Debug, PartialEq, Eq)]
pub enum IoError {
    /// The stream ended before a whole message had arrived.
    UnexpectedEof,
    /// The server's reply to the authentication request is not the reply of
    /// a server that accepts it.
    MalformedResponse,
    /// An error that the operating system reported, as text.
    Other(String),
}

impl IoError {
    /// The sentence that says what went wrong.
    pub open spec fn sentence(&self) -> Seq<char> {
        match self {
            IoError::UnexpectedEof => "unexpected end of file"@,
            IoError::MalformedResponse => "malformed response"@,
            IoError::Other(message) => message@,
        }
    }

    /// A sentence that says what went wrong.
    pub fn to_string(&self) -> (r: String)
        ensures
            r@ == self.sentence(),
    {
        match self {
            IoError::UnexpectedEof => "unexpected end of file".to_owned(),
            IoError::MalformedResponse => "malformed response".to_owned(),
            IoError::Other(message) => message.clone(),
        }
    }
}

/// The path of a message bus.
#[derive(Clone, Copy, Debug)]
pub enum BusPath<'a> {
    /// The session bus. Its path is found in the value of the
    /// `DBUS_SESSION_BUS_ADDRESS` environment variable.
    Session,
    /// The system bus. Its path is found in the value of the
    /// `DBUS_SYSTEM_BUS_ADDRESS` environment variable if it exists, and is
    /// `unix:path=/var/run/dbus/system_bus_socket` if it does not.
    System,
    /// A unix domain socket file at the given filesystem path.
    UnixSocketFile(&'a [u8]),
}

/// The string to send for SASL EXTERNAL authentication with the message
/// bus.
///
/// `Uid` is usually the type to use for local message buses.
#[derive(Clone, Copy, Debug)]
pub enum SaslAuthType<'a> {
    /// The user ID of the current thread will be used.
    Uid,
    /// The specified string will be used.
    Other(&'a str),
}

/// An error from connecting to a message bus.
#[derive(Debug, PartialEq, Eq)]
pub enum ConnectError {
    Authenticate(IoError),
    /// No socket path could be connected to: each path that was tried, with
    /// what went wrong.
    Connect(Vec<(Vec<u8>, IoError)>),
    MissingSessionBusEnvVar,
    UnsupportedTransport(Vec<u8>),
}

impl ConnectError {
    /// The sentence that says what went wrong.
    pub open spec fn sentence(&self) -> Seq<char> {
        match self {
            ConnectError::Authenticate(_) => "could not authenticate with bus"@,
            ConnectError::Connect(_) => "could not connect to any bus paths"@,
            ConnectError::MissingSessionBusEnvVar => "the DBUS_SESSION_BUS_ADDRESS env var is not set"@,
            ConnectError::UnsupportedTransport(_) => "the bus path has an unsupported transport"@,
        }
    }

    /// A sentence that says what went wrong.
    pub fn to_string(&self) -> (r: String)
        ensures
            r@ == self.sentence(),
    {
        match self {
            ConnectError::Authenticate(_) => "could not authenticate with bus".to_owned(),
            ConnectError::Connect(_) => "could not connect to any bus paths".to_owned(),
            ConnectError::MissingSessionBusEnvVar => "the DBUS_SESSION_BUS_ADDRESS env var is not set".to_owned(),
            ConnectError::UnsupportedTransport(_) => "the bus path has an unsupported transport".to_owned(),
        }
    }
}

/// An error from sending a message.
#[derive(Debug, PartialEq, Eq)]
pub enum SendError {
    Io(IoError),
    Serialize(SerializeError),
}

impl SendError {
    /// The sentence that says what went wrong.
    pub open spec fn sentence(&self) -> Seq<char> {
        match self {
            SendError::Io(_) => "could not send message"@,
            SendError::Serialize(_) => "could not serialize message"@,
        }
    }

    /// A sentence that says what went wrong.
    pub fn to_string(&self) -> (r: String)
        ensures
            r@ == self.sentence(),
    {
        match self {
            SendError::Io(_) => "could not send message".to_owned(),
            SendError::Serialize(_) => "could not serialize message".to_owned(),
        }
    }
}

/// An error from receiving a message.
#[derive(Debug, PartialEq, Eq)]
pub enum RecvError {
    Deserialize(DeserializeError),
    Io(IoError),
}

impl RecvError {
    /// The sentence that says what went wrong.
    pub open spec fn sentence(&self) -> Seq<char> {
        match self {
            RecvError::Deserialize(_) => "could not deserialize message"@,
            RecvError::Io(_) => "could not receive message"@,
        }
    }

    /// A sentence that says what went wrong.
    pub fn to_string(&self) -> (r: String)
        ensures
            r@ == self.sentence(),
    {
        match self {
            RecvError::Deserialize(_) => "could not deserialize message".to_owned(),
            RecvError::Io(_) => "could not receive message".to_owned(),
        }
    }
}

/// The address of the system bus where the environment names none.
pub open spec fn system_bus_default() -> Seq<u8> {
    encode_utf8("unix:path=/var/run/dbus/system_bus_socket"@)
}

/// The mathematical value of bytes that may be there.
pub open spec fn bytes_of(b: Option<&[u8]>) -> Option<Seq<u8>> {
    match b {
        Some(b) => Some(b@),
        None => None,
    }
}

/// The socket paths to try for the bus `bus_path`, in order, where the
/// environment gives `session_address` and `system_address` as the
/// addresses of the session bus and of the system bus.
pub open spec fn candidate_paths(
    bus_path: BusPath<'_>,
    session_address: Option<Seq<u8>>,
    system_address: Option<Seq<u8>>,
) -> Option<Seq<Seq<u8>>> {
    match bus_path {
        BusPath::Session => match session_address {
            Some(address) => Some(socket_paths(address)),
            None => None,
        },
        BusPath::System => match system_address {
            Some(address) => Some(socket_paths(address)),
            None => Some(socket_paths(system_bus_default())),
        },
        BusPath::UnixSocketFile(path) => Some(seq![path@]),
    }
}

/// The socket paths to try for the bus `bus_path`, in order.
///
/// `session_address` and `system_address` are the values of the environment
/// variables `DBUS_SESSION_BUS_ADDRESS` and `DBUS_SYSTEM_BUS_ADDRESS`, where
/// they are set. The session bus has no address where its variable is not
/// set.
pub fn socket_paths_to_try(
    bus_path: BusPath<'_>,
    session_address: Option<&[u8]>,
    system_address: Option<&[u8]>,
) -> (r: Result<Vec<Vec<u8>>, ConnectError>)
    ensures
        match candidate_paths(bus_path, bytes_of(session_address), bytes_of(system_address)) {
            Some(paths) => r matches Ok(found) && found@.len() == paths.len() && forall|i: int|
                0 <= i < paths.len() ==> found@[i]@ == paths[i],
            None => r == Err::<Vec<Vec<u8>>, ConnectError>(ConnectError::MissingSessionBusEnvVar),
        },
{
    match bus_path {
        BusPath::Session => match session_address {
            Some(address) => Ok(socket_paths_of(address)),
            None => Err(ConnectError::MissingSessionBusEnvVar),
        },
        BusPath::System => match system_address {
            Some(address) => Ok(socket_paths_of(address)),
            None => Ok(socket_paths_of("unix:path=/var/run/dbus/system_bus_socket".as_bytes())),
        },
        BusPath::UnixSocketFile(path) => {
            let mut paths: Vec<Vec<u8>> = Vec::new();
            paths.push(slice_to_vec(path));
            Ok(paths)
        },
    }
}

/// The decimal digits of `n`, as ASCII characters.
pub open spec fn decimal_digits(n: nat) -> Seq<u8>
    decreases n,
{
    if n < 10 {
        seq![(0x30 + n) as u8]
    } else {
        decimal_digits(n / 10).push((0x30 + n % 10) as u8)
    }
}

/// The lowercase hexadecimal digit of the number `d` below 16, as an ASCII
/// character.
pub open spec fn hex_digit(d: int) -> u8 {
    if d < 10 {
        (0x30 + d) as u8
    } else {
        (0x61 + d - 10) as u8
    }
}

/// The bytes `s`, each written as two lowercase hexadecimal digits.
pub open spec fn hex_encoded(s: Seq<u8>) -> Seq<u8>
    decreases s.len(),
{
    if s.len() == 0 {
        Seq::empty()
    } else {
        hex_encoded(s.drop_last()).push(hex_digit(s.last() as int / 16)).push(
            hex_digit(s.last() as int % 16),
        )
    }
}

/// The identity that the authentication request presents: for `Uid` the
/// hexadecimal encoding of the decimal digits of the user ID `uid`, else
/// the given string.
pub open spec fn auth_id(auth: SaslAuthType<'_>, uid: u32) -> Seq<u8> {
    match auth {
        SaslAuthType::Uid => hex_encoded(decimal_digits(uid as nat)),
        SaslAuthType::Other(id) => id.spec_bytes(),
    }
}

/// The bytes of the authentication request: a zero byte, and the line
/// `AUTH EXTERNAL` with the identity.
pub open spec fn auth_request(auth: SaslAuthType<'_>, uid: u32) -> Seq<u8> {
    seq![0u8] + encode_utf8("AUTH EXTERNAL "@) + auth_id(auth, uid) + encode_utf8("\r\n"@)
}

/// Appends the decimal digits of `n` to `out`.
fn write_decimal(n: u32, out: &mut Vec<u8>)
    ensures
        final(out)@ == old(out)@ + decimal_digits(n as nat),
    decreases n,
{
    if n >= 10 {
        write_decimal(n / 10, out);
    }
    out.push(0x30 + (n % 10) as u8);
    assert(out@ =~= old(out)@ + decimal_digits(n as nat));
}

/// The lowercase hexadecimal digit of the number `d` below 16.
fn hex_digit_of(d: u8) -> (r: u8)
    requires
        d < 16,
    ensures
        r == hex_digit(d as int),
{
    if d < 10 {
        0x30 + d
    } else {
        0x61 + (d - 10)
    }
}

/// Appends to `out` the bytes `text`, each as two hexadecimal digits.
fn write_hex(text: &[u8], out: &mut Vec<u8>)
    ensures
        final(out)@ == old(out)@ + hex_encoded(text@),
{
    let ghost before = out@;
    let mut i: usize = 0;
    assert(text@.take(0) =~= Seq::<u8>::empty());
    assert(before + hex_encoded(text@.take(0)) =~= before);
    while i < text.len()
        invariant
            i <= text@.len(),
            out@ == before + hex_encoded(text@.take(i as int)),
        decreases text.len() - i,
    {
        let b = text[i];
        proof {
            assert(text@.take(i + 1).drop_last() =~= text@.take(i as int));
            assert(text@.take(i + 1).last() == b);
        }
        out.push(hex_digit_of(b / 16));
        out.push(hex_digit_of(b % 16));
        i += 1;
        assert(out@ =~= before + hex_encoded(text@.take(i as int)));
    }
    assert(text@.take(text@.len() as int) =~= text@);
}

/// Appends `bytes` to `out`.
fn write_bytes(bytes: &[u8], out: &mut Vec<u8>)
    ensures
        final(out)@ == old(out)@ + bytes@,
{
    let ghost before = out@;
    let mut i: usize = 0;
    assert(before + bytes@.take(0) =~= before);
    while i < bytes.len()
        invariant
            i <= bytes@.len(),
            out@ == before + bytes@.take(i as int),
        decreases bytes.len() - i,
    {
        out.push(bytes[i]);
        i += 1;
        assert(out@ =~= before + bytes@.take(i as int));
    }
    assert(bytes@.take(bytes@.len() as int) =~= bytes@);
}

/// The bytes to send first on a fresh socket: a zero byte, and the line
/// `AUTH EXTERNAL` with the identity that `auth` names. `uid` is the user
/// ID of the current thread.
///
/// The identity of `Uid` is the decimal digits of the user ID, each written
/// as the two hexadecimal digits of its character: `31303030` for 1000.
pub fn authentication_request(auth: SaslAuthType<'_>, uid: u32) -> (r: Vec<u8>)
    ensures
        r@ == auth_request(auth, uid),
{
    let mut out: Vec<u8> = Vec::new();
    out.push(0);
    write_bytes("AUTH EXTERNAL ".as_bytes(), &mut out);
    match auth {
        SaslAuthType::Uid => {
            let mut digits: Vec<u8> = Vec::new();
            write_decimal(uid, &mut digits);
            assert(digits@ =~= decimal_digits(uid as nat));
            write_hex(digits.as_slice(), &mut out);
        },
        SaslAuthType::Other(id) => {
            write_bytes(id.as_bytes(), &mut out);
        },
    }
    write_bytes("\r\n".as_bytes(), &mut out);
    assert(out@ =~= auth_request(auth, uid));
    out
}

/// The bytes to send once the server has accepted the authentication
/// request: the line `BEGIN`. Behind it the socket carries messages only.
pub fn begin_request() -> (r: Vec<u8>)
    ensures
        r@ == encode_utf8("BEGIN\r\n"@),
{
    slice_to_vec("BEGIN\r\n".as_bytes())
}

/// Whether `line` is the reply of a server that accepts the authentication
/// request: `OK`, a space, exactly 32 hexadecimal digits, perhaps more behind
/// them, and the end of the line.
pub open spec fn accepts(line: Seq<u8>) -> bool {
    &&& line.len() >= 37
    &&& line[0] == 0x4f
    &&& line[1] == 0x4b
    &&& line[2] == 0x20
    &&& forall|i: int| 3 <= i < 35 ==> hex_value(#[trigger] line[i]) is Some
    &&& hex_value(line[35]) is None
    &&& line[line.len() - 2] == 0x0d
    &&& line[line.len() - 1] == 0x0a
}

/// Whether the byte `b` is a hexadecimal digit.
fn is_hex(b: u8) -> (r: bool)
    ensures
        r == (hex_value(b) is Some),
{
    (0x30 <= b && b <= 0x39) || (0x61 <= b && b <= 0x66) || (0x41 <= b && b <= 0x46)
}

/// The GUID of the server in its reply `line` to the authentication
/// request: the 32 hexadecimal digits behind `OK`.
///
/// Any other reply is an error.
pub fn server_guid_in(line: &[u8]) -> (r: Result<Vec<u8>, ConnectError>)
    ensures
        accepts(line@) ==> (r matches Ok(guid) && guid@ == line@.subrange(3, 35)),
        !accepts(line@) ==> r == Err::<Vec<u8>, ConnectError>(
            ConnectError::Authenticate(IoError::MalformedResponse),
        ),
{
    let len = line.len();
    if len < 37 || line[0] != 0x4f || line[1] != 0x4b || line[2] != 0x20 || line[len - 2] != 0x0d
        || line[len - 1] != 0x0a {
        return Err(ConnectError::Authenticate(IoError::MalformedResponse));
    }
    let mut i: usize = 3;
    while i < 35
        invariant
            3 <= i <= 35,
            line@.len() >= 37,
            forall|j: int| 3 <= j < i ==> hex_value(#[trigger] line@[j]) is Some,
        decreases 35 - i,
    {
        if !is_hex(line[i]) {
            return Err(ConnectError::Authenticate(IoError::MalformedResponse));
        }
        i += 1;
    }
    if is_hex(line[35]) {
        return Err(ConnectError::Authenticate(IoError::MalformedResponse));
    }
    Ok(slice_to_vec(slice_subrange(line, 3, 35)))
}

/// `u16::to_ne_bytes` of the standard library, for the number 1. What it
/// returns depends on the machine: nothing is claimed of it.
#[verifier::external_body]
fn one_in_memory_order() -> [u8; 2] {
    1u16.to_ne_bytes()
}

/// The byte order that lays out the number 1 in two bytes as `bytes`:
/// little-endian where the first byte is 1, big-endian where it is not.
pub open spec fn order_of_one(bytes: Seq<u8>) -> Endianness {
    if bytes[0] == 1 {
        Endianness::Little
    } else {
        Endianness::Big
    }
}

impl Endianness {
    /// The byte order of a machine that holds the number 1, two bytes wide,
    /// in memory as `bytes`.
    pub fn of_one(bytes: [u8; 2]) -> (r: Endianness)
        ensures
            r == order_of_one(bytes@),
            forall|e: Endianness| #[trigger] uint_bytes(1, 2, e) == bytes@ ==> r == e,
    {
        proof {
            reveal_with_fuel(le_bytes, 3);
            assert(le_bytes(1, 2) =~= seq![1u8, 0u8]);
            assert(uint_bytes(1, 2, Endianness::Little)[0] == 1);
            assert(uint_bytes(1, 2, Endianness::Big)[0] == 0);
        }
        if bytes[0] == 1 {
            Endianness::Little
        } else {
            Endianness::Big
        }
    }

    /// The byte order of this machine. It is found from how the machine
    /// holds the number 1 in memory, so nothing is known of it beforehand.
    pub fn native() -> Endianness {
        Endianness::of_one(one_in_memory_order())
    }
}

/// The mathematical value of a [`Connection`].
pub struct ConnectionView {
    /// The bytes received that no message was read from yet.
    pub input: Seq<u8>,
    /// The bytes of the messages sent that are still to be written to the
    /// socket.
    pub output: Seq<u8>,
    /// The byte order of the messages sent.
    pub write_endianness: Endianness,
    /// The GUID of the server.
    pub server_guid: Seq<u8>,
}

/// A connection to a message bus.
#[derive(Debug)]
pub struct Connection {
    read_buf: Vec<u8>,
    write_buf: Vec<u8>,
    write_endianness: Endianness,
    server_guid: Vec<u8>,
}

impl View for Connection {
    type V = ConnectionView;

    closed spec fn view(&self) -> ConnectionView {
        ConnectionView {
            input: self.read_buf@,
            output: self.write_buf@,
            write_endianness: self.write_endianness,
            server_guid: self.server_guid@,
        }
    }
}

/// Whether a connection that went from `before` to `after` and returned `r`
/// received a message: it read one from the bytes received, where they
/// hold a whole one, and dropped its bytes.
pub open spec fn reads_new(
    before: ConnectionView,
    after: ConnectionView,
    r: Result<Option<(MessageHeader, Option<Variant>)>, RecvError>,
) -> bool {
    match decode_message(before.input) {
        Ok((header, body, read)) => r matches Ok(found) && message_of(found) == Some(
            (header, body),
        ) && after == (ConnectionView { input: before.input.skip(read), ..before }) && 1 <= read
            <= before.input.len(),
        Err(DecodeError::EndOfInput) => r matches Ok(None) && after == before,
        Err(e) => r matches Err(RecvError::Deserialize(err)) && err@ == e && after == before,
    }
}

/// The mathematical value of a message that may be there.
pub open spec fn message_of(m: Option<(MessageHeader, Option<Variant>)>) -> Option<
    (crate::message::SpecMessageHeader, Option<crate::variant::SpecVariant>),
> {
    match m {
        Some((header, body)) => Some(
            (
                header@,
                match body {
                    Some(v) => Some(v@),
                    None => None,
                },
            ),
        ),
        None => None,
    }
}

impl Connection {
    /// The connection that the server has accepted with the reply
    /// `response` to the authentication request. It sends messages in the
    /// byte order `write_endianness`, has received nothing and has nothing
    /// to send.
    pub fn new(response: &[u8], write_endianness: Endianness) -> (r: Result<Self, ConnectError>)
        ensures
            accepts(response@) ==> (r matches Ok(c) && c@ == (ConnectionView {
                input: Seq::empty(),
                output: Seq::empty(),
                write_endianness,
                server_guid: response@.subrange(3, 35),
            })),
            !accepts(response@) ==> (r matches Err(e) && e == ConnectError::Authenticate(
                IoError::MalformedResponse,
            )),
    {
        match server_guid_in(response) {
            Ok(server_guid) => Ok(
                Connection {
                    read_buf: Vec::new(),
                    write_buf: Vec::new(),
                    write_endianness,
                    server_guid,
                },
            ),
            Err(err) => Err(err),
        }
    }

    /// The GUID of the server.
    pub fn server_guid(&self) -> (r: &[u8])
        ensures
            r@ == self@.server_guid,
    {
        self.server_guid.as_slice()
    }

    /// Sets the byte order of the messages sent from now on.
    pub fn set_write_endianness(&mut self, endianness: Endianness)
        ensures
            final(self)@ == (ConnectionView { write_endianness: endianness, ..old(self)@ }),
    {
        self.write_endianness = endianness;
    }

    /// Sends a message with the given header and body: puts its bytes
    /// behind the bytes still to be written to the socket.
    ///
    /// The header fields that the message type must have, and with a body
    /// the field of its signature, are put in by this function and must
    /// not be given by the caller.
    ///
    /// Where the message cannot be serialized, nothing is sent.
    pub fn send(&mut self, header: &mut MessageHeader, body: Option<&Variant>) -> (r: Result<
        (),
        SendError,
    >)
        ensures
            final(header)@ == header_as_written(
                old(header)@,
                body_of(body),
                encode_body(body_of(body), old(self)@.write_endianness),
            ),
            match encode_message(old(header)@, body_of(body), old(self)@.write_endianness) {
                Some(bytes) => r is Ok && final(self)@ == (ConnectionView {
                    output: old(self)@.output + bytes,
                    ..old(self)@
                }),
                None => r == Err::<(), SendError>(
                    SendError::Serialize(SerializeError::ExceedsNumericLimits),
                ) && final(self)@ == old(self)@,
            },
    {
        match serialize_message(header, body, &mut self.write_buf, self.write_endianness) {
            Ok(()) => Ok(()),
            Err(err) => Err(SendError::Serialize(err)),
        }
    }

    /// The bytes to write to the socket. The connection then has nothing
    /// left to send.
    pub fn take_output(&mut self) -> (r: Vec<u8>)
        ensures
            r@ == old(self)@.output,
            final(self)@ == (ConnectionView { output: Seq::empty(), ..old(self)@ }),
    {
        let mut out: Vec<u8> = Vec::new();
        core::mem::swap(&mut out, &mut self.write_buf);
        out
    }

    /// Takes the bytes `data` that were read from the socket.
    ///
    /// A read of no bytes says that the stream has ended: it is an error.
    pub fn feed(&mut self, data: &[u8]) -> (r: Result<(), RecvError>)
        ensures
            data@.len() > 0 ==> r is Ok && final(self)@ == (ConnectionView {
                input: old(self)@.input + data@,
                ..old(self)@
            }),
            data@.len() == 0 ==> r == Err::<(), RecvError>(RecvError::Io(IoError::UnexpectedEof))
                && final(self)@ == old(self)@,
    {
        if data.len() == 0 {
            return Err(RecvError::Io(IoError::UnexpectedEof));
        }
        write_bytes(data, &mut self.read_buf);
        Ok(())
    }

    /// Receives a message: reads one from the bytes received, if they hold
    /// a whole one, and drops its bytes.
    ///
    /// `Ok(None)` says that more bytes have to be read from the socket and
    /// handed to [`Connection::feed`] first. An error says that the bytes
    /// received are no message; the connection is then of no further use.
    pub fn recv(&mut self) -> (r: Result<Option<(MessageHeader, Option<Variant>)>, RecvError>)
        ensures
            reads_new(old(self)@, final(self)@, r),
    {
        proof {
            crate::message_wire::lemma_message_not_empty(self.read_buf@);
        }
        match deserialize_message(self.read_buf.as_slice()) {
            Ok((header, body, read)) => {
                let rest = slice_to_vec(
                    slice_subrange(self.read_buf.as_slice(), read, self.read_buf.len()),
                );
                assert(rest@ =~= self.read_buf@.skip(read as int));
                self.read_buf = rest;
                Ok(Some((header, body)))
            },
            Err(DeserializeError::EndOfInput) => Ok(None),
            Err(err) => Err(RecvError::Deserialize(err)),
        }
    }
}

} // verus!
