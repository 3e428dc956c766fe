//! The state of a client of a message bus: the serial of the last message
//! sent, the name that the bus gave the client, and the messages received
//! that nobody has asked for yet.
//!
//! Like the connection it is built on, the client does no input or output
//! itself: a function that needs bytes that have not arrived yet says so by
//! returning `Ok(None)`.

use crate::conn::{reads_new, Connection, ConnectionView, RecvError, SendError};
use crate::message::{
    field_views, MessageFlags, MessageHeader, MessageHeaderField, MessageType,
    SpecMessageHeader, SpecMessageHeaderField, SpecMessageType,
};
use crate::message_codec::body_of;
use crate::message_wire::{
    decode_message, encode_body, encode_message, header_as_written, message_len,
};
use crate::ser::SerializeError;
use crate::types::ObjectPath;
use crate::variant::{SpecVariant, Variant};
use crate::variant_convert::VariantDeserializeError;
use crate::wire::DecodeError;
use std::collections::VecDeque;
use vstd::prelude::*;

verus! {

/// An error from calling a method.
#[derive(Debug, PartialEq)]
pub enum MethodCallError {
    /// The reply is an error message, with this name and this body.
    Error(String, Option<Variant>),
    RecvResponse(RecvError),
    SendRequest(SendError),
    /// The reply has no body, or its body is not of the type expected.
    UnexpectedResponse(Option<VariantDeserializeError>),
}

impl MethodCallError {
    /// The sentence that says what went wrong.
    pub open spec fn sentence(&self) -> Seq<char> {
        match self {
            MethodCallError::Error(_, _) => "method call failed with an error"@,
            MethodCallError::RecvResponse(_) => "could not receive response"@,
            MethodCallError::SendRequest(_) => "could not send request"@,
            MethodCallError::UnexpectedResponse(Some(_)) => "could not deserialize response body"@,
            MethodCallError::UnexpectedResponse(None) => "could not deserialize response body: response has empty body"@,
        }
    }

    /// A sentence that says what went wrong.
    pub fn to_string(&self) -> (r: String)
        ensures
            r@ == self.sentence(),
    {
        match self {
            MethodCallError::Error(_, _) => "method call failed with an error".to_owned(),
            MethodCallError::RecvResponse(_) => "could not receive response".to_owned(),
            MethodCallError::SendRequest(_) => "could not send request".to_owned(),
            MethodCallError::UnexpectedResponse(Some(_)) => "could not deserialize response body".to_owned(),
            MethodCallError::UnexpectedResponse(None) => "could not deserialize response body: response has empty body".to_owned(),
        }
    }
}

/// An error from creating a [`Client`].
#[derive(Debug, PartialEq)]
pub enum CreateClientError {
    Hello(MethodCallError),
}

impl CreateClientError {
    /// The sentence that says what went wrong.
    pub open spec fn sentence(&self) -> Seq<char> {
        match self {
            CreateClientError::Hello(_) => "could not complete hello"@,
        }
    }

    /// A sentence that says what went wrong.
    pub fn to_string(&self) -> (r: String)
        ensures
            r@ == self.sentence(),
    {
        match self {
            CreateClientError::Hello(_) => "could not complete hello".to_owned(),
        }
    }
}

/// The greatest serial. The serial behind it is 1.
pub const MAX_SERIAL: u32 = 0xffff_ffff;

/// The serial that follows the serial `last`: serials run from 1 to
/// `MAX_SERIAL` and then start at 1 again. 0 is the serial of no message.
pub open spec fn next_serial(last: u32) -> u32 {
    (last as int % MAX_SERIAL as int + 1) as u32
}

/// The serial of the `n`th message sent behind the one with the serial
/// `last`.
pub open spec fn serial_after(last: u32, n: nat) -> u32
    decreases n,
{
    if n == 0 {
        last
    } else {
        next_serial(serial_after(last, (n - 1) as nat))
    }
}

/// The serial of the `n`th message, for `n` at least 1, is the remainder of
/// its number behind the first serial, plus 1.
pub proof fn lemma_serial_after(last: u32, n: nat)
    requires
        n >= 1,
    ensures
        serial_after(last, n) == (last as int % MAX_SERIAL as int + n - 1) % (MAX_SERIAL as int)
            + 1,
        1 <= serial_after(last, n) <= MAX_SERIAL,
    decreases n,
{
    let m = MAX_SERIAL as int;
    let start = last as int % m;
    if n == 1 {
        assert(serial_after(last, 0) == last);
        assert(start % m == start) by (nonlinear_arith)
            requires
                start == last as int % m,
                m > 0,
        ;
    } else {
        lemma_serial_after(last, (n - 1) as nat);
        let previous = serial_after(last, (n - 1) as nat) as int;
        let k = start + n - 2;
        assert(previous == k % m + 1);
        assert((k % m + 1) % m + 1 == (k + 1) % m + 1) by (nonlinear_arith)
            requires
                m > 1,
                k >= 0,
        ;
    }
}

/// No serial is 0, and no two of `MAX_SERIAL` messages sent one after the
/// other have the same serial.
pub proof fn lemma_serials_do_not_collide(last: u32, i: nat, j: nat)
    requires
        1 <= i < j,
        j - i < MAX_SERIAL,
    ensures
        serial_after(last, i) != 0,
        serial_after(last, j) != 0,
        serial_after(last, i) != serial_after(last, j),
{
    let m = MAX_SERIAL as int;
    let start = last as int % m;
    lemma_serial_after(last, i);
    lemma_serial_after(last, j);
    let a = start + i - 1;
    let b = start + j - 1;
    assert(a % m != b % m) by (nonlinear_arith)
        requires
            m > 0,
            0 <= a < b,
            b - a < m,
    ;
}

/// A message: its header and its body.
pub type Message = (MessageHeader, Option<Variant>);

/// The mathematical value of a message.
pub type SpecMessage = (SpecMessageHeader, Option<SpecVariant>);

/// The mathematical value of the message `m`.
pub open spec fn message_view(m: Message) -> SpecMessage {
    (
        m.0@,
        match m.1 {
            Some(v) => Some(v@),
            None => None,
        },
    )
}

/// The mathematical value of a [`Client`].
pub struct ClientView {
    /// The connection.
    pub connection: ConnectionView,
    /// The serial of the last message sent, 0 where none was sent.
    pub last_serial: u32,
    /// The name of the client on the bus, once the bus has given it one.
    pub name: Option<Seq<char>>,
    /// The messages received that nobody has asked for yet, in the order
    /// in which they arrived.
    pub held: Seq<Message>,
}

/// A D-Bus client.
#[derive(Debug)]
pub struct Client {
    connection: Connection,
    last_serial: u32,
    name: Option<String>,
    received_messages: VecDeque<Message>,
}

impl View for Client {
    type V = ClientView;

    closed spec fn view(&self) -> ClientView {
        ClientView {
            connection: self.connection@,
            last_serial: self.last_serial,
            name: match self.name {
                Some(name) => Some(name@),
                None => None,
            },
            held: self.received_messages@,
        }
    }
}

/// The header that [`Client::send`] hands to the connection for the header
/// `h` that a caller gives: the serial is `serial`, and the name of the
/// client, where it has one, follows the fields as the sender.
pub open spec fn header_to_send(h: SpecMessageHeader, serial: u32, name: Option<Seq<char>>) -> SpecMessageHeader {
    SpecMessageHeader {
        serial,
        fields: match name {
            Some(name) => h.fields.push(SpecMessageHeaderField::Sender(name)),
            None => h.fields,
        },
        ..h
    }
}

/// The header of a call of the method `member` of the interface `interface`
/// on the object `path` of `destination`.
pub open spec fn method_call_header(
    destination: Seq<char>,
    path: Seq<char>,
    interface: Seq<char>,
    member: Seq<char>,
) -> SpecMessageHeader {
    SpecMessageHeader {
        message_type: SpecMessageType::MethodCall { member, path },
        flags: 0,
        body_len: 0,
        serial: 0,
        fields: seq![
            SpecMessageHeaderField::Destination(destination),
            SpecMessageHeaderField::Interface(interface),
        ],
    }
}

/// Whether the message with the header `h` is the reply to the method call
/// with the serial `serial`: a method return or an error with that reply
/// serial.
pub open spec fn is_reply_to(h: SpecMessageHeader, serial: u32) -> bool {
    match h.message_type {
        SpecMessageType::Error { name, reply_serial } => reply_serial == serial,
        SpecMessageType::MethodReturn { reply_serial } => reply_serial == serial,
        _ => false,
    }
}

/// The message that the bytes `input` start with.
pub open spec fn first_message(input: Seq<u8>) -> Option<SpecMessage> {
    match decode_message(input) {
        Ok((header, body, read)) => Some((header, body)),
        Err(_) => None,
    }
}

/// The bytes of the call of `org.freedesktop.DBus.Hello` that is the first
/// message of a client, in the byte order `e`.
pub open spec fn hello_message(e: crate::endian::Endianness) -> Option<Seq<u8>> {
    encode_message(
        header_to_send(
            method_call_header(
                "org.freedesktop.DBus"@,
                "/org/freedesktop/DBus"@,
                "org.freedesktop.DBus"@,
                "Hello"@,
            ),
            1,
            None,
        ),
        None,
        e,
    )
}

/// The body `b` of a message, as a predicate is given it.
pub open spec fn body_ref(b: &Option<Variant>) -> Option<&Variant> {
    match b {
        Some(v) => Some(v),
        None => None,
    }
}

/// What a predicate says of messages.
pub struct Verdict {
    /// The messages of which it says that they match.
    pub accepts: spec_fn(Message) -> bool,
    /// The messages of which it says that they do not match.
    pub rejects: spec_fn(Message) -> bool,
}

impl Verdict {
    /// Whether this verdict accepts the message `m`.
    pub open spec fn accept(self, m: Message) -> bool {
        (self.accepts)(m)
    }

    /// Whether this verdict rejects the message `m`.
    pub open spec fn reject(self, m: Message) -> bool {
        (self.rejects)(m)
    }
}

/// What the function `predicate` says of messages: it accepts a message
/// where it can return `true` for it, and rejects one where it can return
/// `false`.
pub open spec fn verdict_of<F: Fn(&MessageHeader, Option<&Variant>) -> bool>(
    predicate: F,
) -> Verdict {
    Verdict {
        accepts: |m: Message| call_ensures(predicate, (&m.0, body_ref(&m.1)), true),
        rejects: |m: Message| call_ensures(predicate, (&m.0, body_ref(&m.1)), false),
    }
}

/// The verdict that accepts the replies to the method call with the serial
/// `serial` and rejects every other message.
pub open spec fn reply_verdict(serial: u32) -> Verdict {
    Verdict {
        accepts: |m: Message| is_reply_to(m.0@, serial),
        rejects: |m: Message| !is_reply_to(m.0@, serial),
    }
}

/// Whether `v` rejects each of the first `n` messages of `held`.
pub open spec fn rejects_first(v: Verdict, held: Seq<Message>, n: int) -> bool {
    forall|j: int| 0 <= j < n ==> v.reject(#[trigger] held[j])
}

/// Whether a search that took the messages held from `before` to `after` and
/// returned `r` took the message at `i`: the first that `v` accepts.
pub open spec fn takes_held_at(
    v: Verdict,
    before: Seq<Message>,
    after: Seq<Message>,
    r: Result<Option<Message>, RecvError>,
    i: int,
) -> bool {
    &&& 0 <= i < before.len()
    &&& rejects_first(v, before, i)
    &&& v.accept(before[i])
    &&& r == Ok::<Option<Message>, RecvError>(Some(before[i]))
    &&& after == before.remove(i)
}

/// Whether reading messages from the bytes `input`, until `v` accepts one,
/// goes like this: `rejected` are the messages that were read and rejected,
/// in the order in which they were read, `outcome` is how it ended, and
/// `rest` are the bytes that were not read.
///
/// It ends with the message that `v` accepts, with nothing where the bytes
/// end before a message does, and with an error where the bytes are no
/// message.
pub open spec fn reads_until_match(
    v: Verdict,
    input: Seq<u8>,
    rejected: Seq<Message>,
    outcome: Result<Option<Message>, RecvError>,
    rest: Seq<u8>,
) -> bool
    decreases rejected.len(),
{
    match decode_message(input) {
        Ok((header, body, read)) => if rejected.len() == 0 {
            outcome matches Ok(Some(m)) && message_view(m) == (header, body) && v.accept(m)
                && rest == input.skip(read)
        } else {
            message_view(rejected[0]) == (header, body) && v.reject(rejected[0])
                && reads_until_match(v, input.skip(read), rejected.drop_first(), outcome, rest)
        },
        Err(DecodeError::EndOfInput) => rejected.len() == 0 && (outcome matches Ok(None) && rest
            == input),
        Err(e) => rejected.len() == 0 && (outcome matches Err(RecvError::Deserialize(err)) && err@
            == e && rest == input),
    }
}

/// Whether reading messages from the bytes `input` reads the messages
/// `rejected`, each of which `v` rejects, and leaves the bytes `rest`.
pub open spec fn reads_rejected(v: Verdict, input: Seq<u8>, rejected: Seq<Message>, rest: Seq<u8>) -> bool
    decreases rejected.len(),
{
    if rejected.len() == 0 {
        rest == input
    } else {
        match decode_message(input) {
            Ok((header, body, read)) => message_view(rejected[0]) == (header, body) && v.reject(rejected[0]) && reads_rejected(
                v,
                input.skip(read),
                rejected.drop_first(),
                rest,
            ),
            Err(_) => false,
        }
    }
}

/// Reading one more message that is rejected.
pub proof fn lemma_reads_one_more(
    v: Verdict,
    input: Seq<u8>,
    rejected: Seq<Message>,
    here: Seq<u8>,
    m: Message,
)
    requires
        reads_rejected(v, input, rejected, here),
        decode_message(here) matches Ok((header, body, read)) && message_view(m) == (header, body),
        v.reject(m),
    ensures
        reads_rejected(
            v,
            input,
            rejected.push(m),
            here.skip(message_len(here)),
        ),
    decreases rejected.len(),
{
    let longer = rejected.push(m);
    let rest = here.skip(message_len(here));
    if rejected.len() == 0 {
        assert(here == input);
        assert(longer.drop_first() =~= Seq::<Message>::empty());
        assert(longer[0] == m);
        assert(reads_rejected(v, input.skip(message_len(input)), longer.drop_first(), rest));
    } else {
        let read = message_len(input);
        lemma_reads_one_more(v, input.skip(read), rejected.drop_first(), here, m);
        assert(longer.drop_first() =~= rejected.drop_first().push(m));
        assert(longer[0] == rejected[0]);
        assert(reads_rejected(v, input.skip(read), longer.drop_first(), rest));
    }
}

/// Reading rejected messages and then reading to an end is reading to that
/// end with those messages rejected.
pub proof fn lemma_reads_to_end(
    v: Verdict,
    input: Seq<u8>,
    rejected: Seq<Message>,
    here: Seq<u8>,
    outcome: Result<Option<Message>, RecvError>,
    rest: Seq<u8>,
)
    requires
        reads_rejected(v, input, rejected, here),
        reads_until_match(v, here, Seq::empty(), outcome, rest),
    ensures
        reads_until_match(v, input, rejected, outcome, rest),
    decreases rejected.len(),
{
    if rejected.len() > 0 {
        let read = message_len(input);
        lemma_reads_to_end(v, input.skip(read), rejected.drop_first(), here, outcome, rest);
    }
}

/// What holds of reading under a verdict holds under every verdict that
/// accepts and rejects at least the same messages.
pub proof fn lemma_reads_under_wider_verdict(
    v: Verdict,
    w: Verdict,
    input: Seq<u8>,
    rejected: Seq<Message>,
    outcome: Result<Option<Message>, RecvError>,
    rest: Seq<u8>,
)
    requires
        reads_until_match(v, input, rejected, outcome, rest),
        forall|m: Message| #[trigger] v.accept(m) ==> w.accept(m),
        forall|m: Message| #[trigger] v.reject(m) ==> w.reject(m),
    ensures
        reads_until_match(w, input, rejected, outcome, rest),
    decreases rejected.len(),
{
    if rejected.len() > 0 {
        let read = message_len(input);
        lemma_reads_under_wider_verdict(
            v,
            w,
            input.skip(read),
            rejected.drop_first(),
            outcome,
            rest,
        );
    }
}

/// Whether a client that went from `before` to `after` and returned `r`
/// received a message that `v` accepts: the first of the messages held that
/// `v` accepts, which leaves them, or else the first of the messages of the
/// connection that `v` accepts, in which case the messages read before it
/// are put behind the messages held, in the order in which they arrived.
pub open spec fn receives_matching(
    v: Verdict,
    before: ClientView,
    after: ClientView,
    r: Result<Option<Message>, RecvError>,
) -> bool {
    &&& after.last_serial == before.last_serial
    &&& after.name == before.name
    &&& after.connection.output == before.connection.output
    &&& after.connection.write_endianness == before.connection.write_endianness
    &&& after.connection.server_guid == before.connection.server_guid
    &&& if exists|i: int| takes_held_at(v, before.held, after.held, r, i) {
        after.connection == before.connection
    } else {
        &&& rejects_first(v, before.held, before.held.len() as int)
        &&& before.held.len() <= after.held.len()
        &&& after.held.take(before.held.len() as int) == before.held
        &&& reads_until_match(
            v,
            before.connection.input,
            after.held.skip(before.held.len() as int),
            r,
            after.connection.input,
        )
    }
}

/// Whether a client that went from `before` to `after` and returned `r`
/// received a message: the first of the messages held, which leaves them,
/// or else, where none is held, the next message of the connection.
pub open spec fn receives(
    before: ClientView,
    after: ClientView,
    r: Result<Option<Message>, RecvError>,
) -> bool {
    &&& after.last_serial == before.last_serial
    &&& after.name == before.name
    &&& if before.held.len() > 0 {
        &&& r == Ok::<Option<Message>, RecvError>(Some(before.held[0]))
        &&& after.held == before.held.drop_first()
        &&& after.connection == before.connection
    } else {
        &&& after.held == before.held
        &&& reads_new(before.connection, after.connection, r)
    }
}

/// The outcome of a method call whose reply is the message `m`: the body of
/// a method return, and the error that an error message stands for.
pub open spec fn reply_outcome(m: Message) -> Result<Option<Variant>, MethodCallError> {
    match m.0.message_type {
        MessageType::Error { name, reply_serial } => Err(MethodCallError::Error(name, m.1)),
        _ => Ok(m.1),
    }
}

/// The outcome of waiting for the reply to a method call, where the search
/// for the reply ended in `found`.
pub open spec fn method_call_outcome(found: Result<Option<Message>, RecvError>) -> Result<
    Option<Option<Variant>>,
    MethodCallError,
> {
    match found {
        Ok(Some(m)) => match reply_outcome(m) {
            Ok(body) => Ok(Some(body)),
            Err(err) => Err(err),
        },
        Ok(None) => Ok(None),
        Err(err) => Err(MethodCallError::RecvResponse(err)),
    }
}

/// A message that was rejected while a later one was accepted is held, and
/// is the next message to be received: where no message was held, and one
/// message was read before the one that `v` accepts, the message returned
/// is the second message of the connection, and the message that is
/// received next is the first one, after which none is held.
pub proof fn lemma_rejected_message_is_next(
    v: Verdict,
    before: ClientView,
    middle: ClientView,
    after: ClientView,
    second: Message,
    next: Result<Option<Message>, RecvError>,
)
    requires
        before.held.len() == 0,
        receives_matching(v, before, middle, Ok(Some(second))),
        middle.held.len() == 1,
        receives(middle, after, next),
    ensures
        next == Ok::<Option<Message>, RecvError>(Some(middle.held[0])),
        after.held.len() == 0,
        v.reject(middle.held[0]),
        v.accept(second),
        first_message(before.connection.input) == Some(message_view(middle.held[0])),
        first_message(before.connection.input.skip(message_len(before.connection.input))) == Some(
            message_view(second),
        ),
{
    let r = Ok::<Option<Message>, RecvError>(Some(second));
    assert(!(exists|i: int| takes_held_at(v, before.held, middle.held, r, i)));
    let rejected = middle.held.skip(0);
    let input = before.connection.input;
    assert(rejected =~= middle.held);
    assert(rejected.drop_first() =~= Seq::<Message>::empty());
    assert(reads_until_match(v, input, rejected, r, middle.connection.input));
    assert(reads_until_match(
        v,
        input.skip(message_len(input)),
        rejected.drop_first(),
        r,
        middle.connection.input,
    ));
}

/// Where a verdict rejects every message held, no message held is taken,
/// whatever the search returns.
pub proof fn lemma_no_held_taken(
    v: Verdict,
    before: Seq<Message>,
    after: Seq<Message>,
    r: Result<Option<Message>, RecvError>,
)
    requires
        before.len() <= after.len(),
    ensures
        !(exists|i: int| takes_held_at(v, before, after, r, i)),
{
    assert forall|i: int| !takes_held_at(v, before, after, r, i) by {
        if 0 <= i < before.len() {
            assert(before.remove(i).len() == before.len() - 1);
        }
    }
}

/// What holds of receiving under a verdict holds under every verdict that
/// accepts and rejects at least the same messages, where that verdict
/// never accepts and rejects the same message.
pub proof fn lemma_receives_under_wider_verdict(
    v: Verdict,
    w: Verdict,
    before: ClientView,
    after: ClientView,
    r: Result<Option<Message>, RecvError>,
)
    requires
        receives_matching(v, before, after, r),
        forall|m: Message| #[trigger] v.accept(m) ==> w.accept(m),
        forall|m: Message| #[trigger] v.reject(m) ==> w.reject(m),
        forall|m: Message| !(#[trigger] w.accept(m) && w.reject(m)),
    ensures
        receives_matching(w, before, after, r),
{
    if exists|i: int| takes_held_at(v, before.held, after.held, r, i) {
        let i = choose|i: int| takes_held_at(v, before.held, after.held, r, i);
        assert(takes_held_at(w, before.held, after.held, r, i));
    } else {
        assert forall|i: int| !takes_held_at(w, before.held, after.held, r, i) by {
            if 0 <= i < before.held.len() {
                assert(v.reject(before.held[i]));
            }
        }
        lemma_reads_under_wider_verdict(
            v,
            w,
            before.connection.input,
            after.held.skip(before.held.len() as int),
            r,
            after.connection.input,
        );
    }
}

/// Whether a client that waited for the reply to the call of
/// `org.freedesktop.DBus.Hello`, found `found` and went from `middle` to
/// `after` with the result `r` did what it should: where the reply is a
/// method return whose body stands for a string, the string is from then
/// on the name of the client; in every other case the name stays as it
/// was, and the result says why.
pub open spec fn hello_outcome(
    middle: ClientView,
    found: Result<Option<Message>, RecvError>,
    after: ClientView,
    r: Result<bool, CreateClientError>,
) -> bool {
    match method_call_outcome(found) {
        Ok(None) => r == Ok::<bool, CreateClientError>(false) && after == middle,
        Ok(Some(None)) => r == Err::<bool, CreateClientError>(
            CreateClientError::Hello(MethodCallError::UnexpectedResponse(None)),
        ) && after == middle,
        Ok(Some(Some(body))) => match body@.as_text() {
            Some(name) => r == Ok::<bool, CreateClientError>(true) && after == (ClientView {
                name: Some(name),
                ..middle
            }),
            None => r matches Err(
                CreateClientError::Hello(MethodCallError::UnexpectedResponse(Some(_))),
            ) && after == middle,
        },
        Err(err) => r == Err::<bool, CreateClientError>(CreateClientError::Hello(err)) && after
            == middle,
    }
}

impl Client {
    /// A client that uses the given connection to a message bus.
    ///
    /// It sends the call of `org.freedesktop.DBus.Hello`, the first message
    /// of the client, whose serial is 1. The bus replies with the name that
    /// it gives the client: [`Client::complete_hello`] takes the reply.
    pub fn new(connection: Connection) -> (r: Result<Self, CreateClientError>)
        ensures
            match hello_message(connection@.write_endianness) {
                Some(bytes) => r matches Ok(client) && client@ == (ClientView {
                    connection: ConnectionView {
                        output: connection@.output + bytes,
                        ..connection@
                    },
                    last_serial: 1,
                    name: None,
                    held: Seq::empty(),
                }),
                None => r == Err::<Client, CreateClientError>(
                    CreateClientError::Hello(
                        MethodCallError::SendRequest(
                            SendError::Serialize(SerializeError::ExceedsNumericLimits),
                        ),
                    ),
                ),
            },
    {
        let mut client = Client {
            connection,
            last_serial: 0,
            name: None,
            received_messages: VecDeque::new(),
        };
        match client.method_call(
            "org.freedesktop.DBus",
            ObjectPath("/org/freedesktop/DBus".to_string()),
            "org.freedesktop.DBus",
            "Hello",
            None,
        ) {
            Ok(_) => Ok(client),
            Err(err) => Err(CreateClientError::Hello(err)),
        }
    }

    /// Takes the reply to the call of `org.freedesktop.DBus.Hello`, whose
    /// body is the name that the bus gives the client, and stores the name.
    ///
    /// `Ok(false)` says that the reply has not arrived yet.
    pub fn complete_hello(&mut self) -> (r: Result<bool, CreateClientError>)
        ensures
            final(self)@.last_serial == old(self)@.last_serial,
            exists|found: Result<Option<Message>, RecvError>, middle: ClientView|
                #![trigger receives_matching(reply_verdict(1), old(self)@, middle, found)]
                receives_matching(reply_verdict(1), old(self)@, middle, found) && hello_outcome(
                    middle,
                    found,
                    final(self)@,
                    r,
                ),
    {
        let reply = self.method_call_reply(1);
        let ghost middle = self@;
        let ghost found = choose|found: Result<Option<Message>, RecvError>|
            receives_matching(reply_verdict(1), old(self)@, middle, found) && reply
                == method_call_outcome(found);
        let r = match reply {
            Ok(None) => Ok(false),
            Ok(Some(None)) => Err(
                CreateClientError::Hello(MethodCallError::UnexpectedResponse(None)),
            ),
            Ok(Some(Some(body))) => {
                match body.into_string() {
                    Ok(name) => {
                        self.name = Some(name);
                        Ok(true)
                    },
                    Err(err) => Err(
                        CreateClientError::Hello(MethodCallError::UnexpectedResponse(Some(err))),
                    ),
                }
            },
            Err(err) => Err(CreateClientError::Hello(err)),
        };
        assert(hello_outcome(middle, found, self@, r));
        r
    }

    /// The name of the client on the bus, once it has one.
    pub fn name(&self) -> (r: Option<&String>)
        ensures
            match self@.name {
                Some(name) => r matches Some(s) && s@ == name,
                None => r is None,
            },
    {
        self.name.as_ref()
    }

    /// Overrides the name of this client. The given name will be used as
    /// the sender of the messages instead of the name that the bus gave.
    pub fn set_name(&mut self, name: String)
        ensures
            final(self)@ == (ClientView { name: Some(name@), ..old(self)@ }),
    {
        self.name = Some(name);
    }

    /// Sends a message with the given header and body.
    ///
    /// The serial of the header is overwritten with the serial that follows
    /// the one of the last message sent. The sender, the header fields that
    /// the message type must have and, with a body, the field of its
    /// signature are put in by this function and must not be given by the
    /// caller.
    ///
    /// Returns the serial of the message.
    pub fn send(&mut self, header: &mut MessageHeader, body: Option<&Variant>) -> (r: Result<
        u32,
        SendError,
    >)
        ensures
            final(self)@.last_serial == next_serial(old(self)@.last_serial),
            final(self)@.name == old(self)@.name,
            final(self)@.held == old(self)@.held,
            final(header)@ == header_as_written(
                header_to_send(old(header)@, final(self)@.last_serial, old(self)@.name),
                body_of(body),
                encode_body(body_of(body), old(self)@.connection.write_endianness),
            ),
            match encode_message(
                header_to_send(old(header)@, final(self)@.last_serial, old(self)@.name),
                body_of(body),
                old(self)@.connection.write_endianness,
            ) {
                Some(bytes) => r == Ok::<u32, SendError>(final(self)@.last_serial) && final(self)@.connection == (ConnectionView {
                    output: old(self)@.connection.output + bytes,
                    ..old(self)@.connection
                }),
                None => r == Err::<u32, SendError>(
                    SendError::Serialize(SerializeError::ExceedsNumericLimits),
                ) && final(self)@.connection == old(self)@.connection,
            },
    {
        // The serial rolls over to 1 rather than 0.
        self.last_serial = self.last_serial % MAX_SERIAL + 1;
        header.serial = self.last_serial;
        let ghost before = field_views(header.fields@);
        match &self.name {
            Some(name) => {
                header.fields.push(MessageHeaderField::Sender(name.clone()));
                assert(field_views(header.fields@) =~= before.push(
                    SpecMessageHeaderField::Sender(name@),
                ));
            },
            None => {},
        }
        match self.connection.send(header, body) {
            Ok(()) => Ok(self.last_serial),
            Err(err) => Err(err),
        }
    }

    /// Sends the call of the method `member` of the interface `interface`
    /// on the object `path` of `destination`, with the parameters
    /// `parameters`.
    ///
    /// If the method has no parameters, `parameters` is `None`. If it has
    /// more than one, `parameters` is a `Variant::Tuple` of them.
    ///
    /// Returns the serial of the call: [`Client::method_call_reply`] takes
    /// the reply to it.
    pub fn method_call(
        &mut self,
        destination: &str,
        path: ObjectPath,
        interface: &str,
        member: &str,
        parameters: Option<&Variant>,
    ) -> (r: Result<u32, MethodCallError>)
        ensures
            final(self)@.last_serial == next_serial(old(self)@.last_serial),
            final(self)@.name == old(self)@.name,
            final(self)@.held == old(self)@.held,
            match encode_message(
                header_to_send(
                    method_call_header(destination@, path@, interface@, member@),
                    final(self)@.last_serial,
                    old(self)@.name,
                ),
                body_of(parameters),
                old(self)@.connection.write_endianness,
            ) {
                Some(bytes) => r == Ok::<u32, MethodCallError>(final(self)@.last_serial) && final(self)@.connection == (ConnectionView {
                    output: old(self)@.connection.output + bytes,
                    ..old(self)@.connection
                }),
                None => r == Err::<u32, MethodCallError>(
                    MethodCallError::SendRequest(
                        SendError::Serialize(SerializeError::ExceedsNumericLimits),
                    ),
                ) && final(self)@.connection == old(self)@.connection,
            },
    {
        let mut fields: Vec<MessageHeaderField> = Vec::new();
        fields.push(MessageHeaderField::Destination(destination.to_string()));
        fields.push(MessageHeaderField::Interface(interface.to_string()));
        let mut request_header = MessageHeader {
            message_type: MessageType::MethodCall { member: member.to_string(), path },
            flags: MessageFlags(crate::message_flags::NONE),
            body_len: 0,
            serial: 0,
            fields,
        };
        assert(field_views(request_header.fields@) =~= seq![
            SpecMessageHeaderField::Destination(destination@),
            SpecMessageHeaderField::Interface(interface@),
        ]);
        match self.send(&mut request_header, parameters) {
            Ok(serial) => Ok(serial),
            Err(err) => Err(MethodCallError::SendRequest(err)),
        }
    }

    /// Takes the reply to the method call with the serial `serial`: the body
    /// of the method return, or the error that the error message stands
    /// for.
    ///
    /// Messages that arrive before the reply are held, and will be returned
    /// from later calls of [`Client::recv`] or [`Client::recv_matching`].
    /// `Ok(None)` says that the reply has not arrived yet.
    pub fn method_call_reply(&mut self, serial: u32) -> (r: Result<
        Option<Option<Variant>>,
        MethodCallError,
    >)
        ensures
            exists|found: Result<Option<Message>, RecvError>|
                #![trigger receives_matching(reply_verdict(serial), old(self)@, final(self)@, found)]
                receives_matching(reply_verdict(serial), old(self)@, final(self)@, found) && r
                    == method_call_outcome(found),
    {
        let is_reply = |header: &MessageHeader, body: Option<&Variant>| -> (matching: bool)
            ensures
                matching == is_reply_to(header@, serial),
            {
                match &header.message_type {
                    MessageType::Error { name: _, reply_serial } => *reply_serial == serial,
                    MessageType::MethodReturn { reply_serial } => *reply_serial == serial,
                    _ => false,
                }
            };
        let found = self.recv_matching(is_reply);
        proof {
            lemma_receives_under_wider_verdict(
                verdict_of(is_reply),
                reply_verdict(serial),
                old(self)@,
                self@,
                found,
            );
        }
        Client::reply_of(found)
    }

    /// The outcome of waiting for the reply to a method call, where the
    /// search for the reply ended in `found`.
    pub fn reply_of(found: Result<Option<Message>, RecvError>) -> (r: Result<
        Option<Option<Variant>>,
        MethodCallError,
    >)
        ensures
            r == method_call_outcome(found),
    {
        match found {
            Ok(Some(response)) => {
                let (header, body) = response;
                match header.message_type {
                    MessageType::Error { name, reply_serial: _ } => Err(
                        MethodCallError::Error(name, body),
                    ),
                    _ => Ok(Some(body)),
                }
            },
            Ok(None) => Ok(None),
            Err(err) => Err(MethodCallError::RecvResponse(err)),
        }
    }

    /// Receives a message from the message bus: the first of the messages
    /// held, else the next one of the connection.
    ///
    /// `Ok(None)` says that no message is held and none has arrived.
    pub fn recv(&mut self) -> (r: Result<Option<Message>, RecvError>)
        ensures
            receives(old(self)@, final(self)@, r),
    {
        match self.received_messages.pop_front() {
            Some(message) => {
                assert(self.received_messages@ =~= old(self).received_messages@.drop_first());
                Ok(Some(message))
            },
            None => self.recv_new(),
        }
    }

    /// Receives a message from the message bus that satisfies the given
    /// predicate: the first of the messages held that does, else the first
    /// of the messages of the connection that does.
    ///
    /// Messages that do not match the predicate are not discarded. The
    /// messages of the connection that do not match are put behind the
    /// messages held, in the order in which they arrived, and will be
    /// returned from later calls of [`Client::recv`] or `recv_matching`.
    ///
    /// `Ok(None)` says that no message that has arrived matches.
    pub fn recv_matching<F: Fn(&MessageHeader, Option<&Variant>) -> bool>(
        &mut self,
        predicate: F,
    ) -> (r: Result<Option<Message>, RecvError>)
        requires
            forall|h: &MessageHeader, b: Option<&Variant>| call_requires(predicate, (h, b)),
        ensures
            receives_matching(verdict_of(predicate), old(self)@, final(self)@, r),
    {
        let ghost v = verdict_of(predicate);
        let mut i: usize = 0;
        while i < self.received_messages.len()
            invariant
                *self == *old(self),
                v == verdict_of(predicate),
                i <= self.received_messages@.len(),
                forall|h: &MessageHeader, b: Option<&Variant>| call_requires(predicate, (h, b)),
                rejects_first(v, self.received_messages@, i as int),
            decreases self.received_messages.len() - i,
        {
            let matching = {
                let held = &self.received_messages[i];
                predicate(&held.0, held.1.as_ref())
            };
            if matching {
                match self.received_messages.remove(i) {
                    Some(found) => {
                        assert(takes_held_at(
                            v,
                            old(self)@.held,
                            self@.held,
                            Ok::<Option<Message>, RecvError>(Some(found)),
                            i as int,
                        ));
                        return Ok(Some(found));
                    },
                    None => {},
                }
            }
            i += 1;
        }
        let ghost held = self.received_messages@;
        let ghost input = self.connection@.input;
        proof {
            assert(held.take(held.len() as int) =~= held);
            assert(held.skip(held.len() as int) =~= Seq::<Message>::empty());
        }
        loop
            invariant
                held == old(self)@.held,
                input == old(self)@.connection.input,
                v == verdict_of(predicate),
                self.last_serial == old(self).last_serial,
                self.name == old(self).name,
                self.connection@.output == old(self)@.connection.output,
                self.connection@.write_endianness == old(self)@.connection.write_endianness,
                self.connection@.server_guid == old(self)@.connection.server_guid,
                forall|h: &MessageHeader, b: Option<&Variant>| call_requires(predicate, (h, b)),
                rejects_first(v, held, held.len() as int),
                held.len() <= self.received_messages@.len(),
                self.received_messages@.take(held.len() as int) == held,
                reads_rejected(
                    v,
                    input,
                    self.received_messages@.skip(held.len() as int),
                    self.connection@.input,
                ),
            decreases self.connection@.input.len(),
        {
            let ghost here = self.connection@.input;
            let ghost rejected = self.received_messages@.skip(held.len() as int);
            let next = self.connection.recv();
            let message = match next {
                Ok(Some(message)) => message,
                other => {
                    proof {
                        assert(reads_until_match(
                            v,
                            here,
                            Seq::<Message>::empty(),
                            other,
                            self.connection@.input,
                        ));
                        lemma_reads_to_end(v, input, rejected, here, other, self.connection@.input);
                        lemma_no_held_taken(v, held, self.received_messages@, other);
                    }
                    return other;
                },
            };
            if predicate(&message.0, message.1.as_ref()) {
                proof {
                    let outcome = Ok::<Option<Message>, RecvError>(Some(message));
                    assert(reads_until_match(
                        v,
                        here,
                        Seq::<Message>::empty(),
                        outcome,
                        self.connection@.input,
                    ));
                    lemma_reads_to_end(v, input, rejected, here, outcome, self.connection@.input);
                    lemma_no_held_taken(v, held, self.received_messages@, outcome);
                }
                return Ok(Some(message));
            }
            self.received_messages.push_back(message);
            proof {
                assert(self.received_messages@.skip(held.len() as int) =~= rejected.push(message));
                assert(self.received_messages@.take(held.len() as int) =~= held);
                lemma_reads_one_more(v, input, rejected, here, message);
            }
        }
    }

    /// Receives the next message of the connection.
    fn recv_new(&mut self) -> (r: Result<Option<Message>, RecvError>)
        ensures
            final(self)@.last_serial == old(self)@.last_serial,
            final(self)@.name == old(self)@.name,
            final(self)@.held == old(self)@.held,
            reads_new(old(self)@.connection, final(self)@.connection, r),
    {
        self.connection.recv()
    }

    /// Takes the bytes `data` that were read from the socket.
    ///
    /// A read of no bytes says that the stream has ended: it is an error.
    pub fn feed(&mut self, data: &[u8]) -> (r: Result<(), RecvError>)
        ensures
            final(self)@.last_serial == old(self)@.last_serial,
            final(self)@.name == old(self)@.name,
            final(self)@.held == old(self)@.held,
            data@.len() > 0 ==> r is Ok && final(self)@.connection == (ConnectionView {
                input: old(self)@.connection.input + data@,
                ..old(self)@.connection
            }),
            data@.len() == 0 ==> r == Err::<(), RecvError>(
                RecvError::Io(crate::conn::IoError::UnexpectedEof),
            ) && final(self)@.connection == old(self)@.connection,
    {
        self.connection.feed(data)
    }

    /// The bytes to write to the socket. The client then has nothing left
    /// to send.
    pub fn take_output(&mut self) -> (r: Vec<u8>)
        ensures
            r@ == old(self)@.connection.output,
            final(self)@ == (ClientView {
                connection: ConnectionView { output: Seq::empty(), ..old(self)@.connection },
                ..old(self)@
            }),
    {
        self.connection.take_output()
    }
}

} // verus!
