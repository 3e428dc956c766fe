//! Object paths, file descriptor indices, and signatures on the wire.

use crate::de::{DeserializeError, Deserializer};
use crate::ser::{SerializeError, Serializer};
use crate::signature::Signature;
use crate::signature_text::signature_text;
use crate::text::{decimal_string, lossy_text};
use crate::wire::{
    decode_signature, decode_string, decode_u32, encode_signature, encode_string, encode_uint,
};
use vstd::prelude::*;

verus! {

/// An object path. On the wire it is laid out as a string.
#[derive(Debug, PartialEq, Eq)]
pub struct ObjectPath(pub String);

impl View for ObjectPath {
    type V = Seq<char>;

    open spec fn view(&self) -> Seq<char> {
        self.0@
    }
}

impl Clone for ObjectPath {
    fn clone(&self) -> (r: Self)
        ensures
            r@ == self@,
    {
        ObjectPath(self.0.clone())
    }
}

impl ObjectPath {
    pub fn deserialize(deserializer: &mut Deserializer<'_>) -> (r: Result<Self, DeserializeError>)
        ensures
            final(deserializer)@.buf == old(deserializer)@.buf,
            final(deserializer)@.endianness == old(deserializer)@.endianness,
            match decode_string(
                old(deserializer)@.buf,
                old(deserializer)@.pos,
                old(deserializer)@.endianness,
            ) {
                Ok((chars, p)) => r matches Ok(path) && path@ == chars && final(deserializer)@.pos
                    == p,
                Err(e) => r matches Err(err) && err@ == e && final(deserializer)@.pos == old(deserializer)@.pos,
            },
    {
        match deserializer.deserialize_string() {
            Ok(s) => Ok(ObjectPath(s)),
            Err(err) => Err(err),
        }
    }

    /// This object path, which owns its text.
    pub fn into_owned(self) -> (r: ObjectPath)
        ensures
            r == self,
    {
        self
    }

    pub fn serialize(&self, serializer: &mut Serializer) -> (r: Result<(), SerializeError>)
        requires
            old(serializer)@.wf(),
        ensures
            match encode_string(self@, old(serializer)@.pos(), old(serializer)@.endianness) {
                Some(bytes) => r is Ok && final(serializer)@ == old(serializer)@.with(bytes),
                None => r is Err && final(serializer)@ == old(serializer)@,
            },
    {
        serializer.serialize_string(self.0.as_str())
    }
}

/// An index into an array of file descriptors that travels beside a message.
#[derive(Clone, Copy, Debug, Default, PartialEq, Eq, Structural)]
pub struct UnixFd(pub u32);

impl UnixFd {
    pub fn deserialize(deserializer: &mut Deserializer<'_>) -> (r: Result<Self, DeserializeError>)
        ensures
            final(deserializer)@.buf == old(deserializer)@.buf,
            final(deserializer)@.endianness == old(deserializer)@.endianness,
            match decode_u32(
                old(deserializer)@.buf,
                old(deserializer)@.pos,
                old(deserializer)@.endianness,
            ) {
                Ok((v, p)) => r == Ok::<UnixFd, DeserializeError>(UnixFd(v))
                    && final(deserializer)@.pos == p,
                Err(e) => r matches Err(err) && err@ == e && final(deserializer)@.pos == old(deserializer)@.pos,
            },
    {
        match deserializer.deserialize_u32() {
            Ok(v) => Ok(UnixFd(v)),
            Err(err) => Err(err),
        }
    }

    pub fn serialize(self, serializer: &mut Serializer)
        requires
            old(serializer)@.wf(),
        ensures
            final(serializer)@ == old(serializer)@.with(
                encode_uint(self.0 as nat, 4, old(serializer)@.pos(), old(serializer)@.endianness),
            ),
    {
        serializer.serialize_u32(self.0);
    }
}

/// A count that is written as a 32-bit number.
#[derive(Clone, Copy, Debug)]
pub struct UsizeAsU32(pub usize);

impl UsizeAsU32 {
    /// Writes the count, where it fits in 32 bits.
    pub fn serialize(self, serializer: &mut Serializer) -> (r: Result<(), SerializeError>)
        requires
            old(serializer)@.wf(),
        ensures
            self.0 <= u32::MAX ==> r is Ok && final(serializer)@ == old(serializer)@.with(
                encode_uint(self.0 as nat, 4, old(serializer)@.pos(), old(serializer)@.endianness),
            ),
            self.0 > u32::MAX ==> r is Err && final(serializer)@ == old(serializer)@,
    {
        if self.0 > u32::MAX as usize {
            return Err(SerializeError::ExceedsNumericLimits);
        }
        serializer.serialize_u32(self.0 as u32);
        Ok(())
    }
}

impl Signature {
    /// Reads a signature: a count of one byte, that many bytes of text, and
    /// a zero byte.
    pub fn deserialize(deserializer: &mut Deserializer<'_>) -> (r: Result<Self, DeserializeError>)
        ensures
            final(deserializer)@.buf == old(deserializer)@.buf,
            final(deserializer)@.endianness == old(deserializer)@.endianness,
            match decode_signature(old(deserializer)@.buf, old(deserializer)@.pos) {
                Ok((s, p)) => r matches Ok(sig) && sig@ == s && final(deserializer)@.pos == p,
                Err(e) => r matches Err(err) && err@ == e && final(deserializer)@.pos == old(deserializer)@.pos,
            },
    {
        let start = deserializer.pos();
        let r = Signature::read(deserializer);
        if r.is_err() {
            deserializer.seek(start);
        }
        r
    }

    /// Reads a signature. Where it fails, the position is where the read
    /// ended.
    fn read(deserializer: &mut Deserializer<'_>) -> (r: Result<Self, DeserializeError>)
        ensures
            final(deserializer)@.buf == old(deserializer)@.buf,
            final(deserializer)@.endianness == old(deserializer)@.endianness,
            match decode_signature(old(deserializer)@.buf, old(deserializer)@.pos) {
                Ok((s, p)) => r matches Ok(sig) && sig@ == s && final(deserializer)@.pos == p,
                Err(e) => r matches Err(err) && err@ == e,
            },
    {
        let ghost buf = deserializer@.buf;
        let ghost start = deserializer@.pos;
        let len = match deserializer.deserialize_u8() {
            Ok(len) => len,
            Err(err) => {
                return Err(err);
            },
        };
        let mut text: Vec<u8> = Vec::new();
        let mut i: u8 = 0;
        while i < len
            invariant
                i <= len,
                buf == old(deserializer)@.buf,
                start == old(deserializer)@.pos,
                0 <= start < buf.len(),
                buf[start] == len,
                deserializer@.buf == buf,
                deserializer@.endianness == old(deserializer)@.endianness,
                deserializer@.pos == start + 1 + i,
                start + 1 + i <= buf.len(),
                text@ == buf.subrange(start + 1, start + 1 + i),
            decreases len - i,
        {
            let b = match deserializer.deserialize_u8() {
                Ok(b) => b,
                Err(err) => {
                    return Err(err);
                },
            };
            text.push(b);
            i += 1;
            assert(text@ =~= buf.subrange(start + 1, start + 1 + i));
        }
        let nul = match deserializer.deserialize_u8() {
            Ok(nul) => nul,
            Err(err) => {
                return Err(err);
            },
        };
        if nul != 0 {
            return Err(
                DeserializeError::InvalidValue {
                    expected: "0x00",
                    actual: decimal_string(nul as u32),
                },
            );
        }
        match Signature::parse_bytes(text.as_slice()) {
            Ok(signature) => Ok(signature),
            Err(()) => Err(
                DeserializeError::InvalidValue { expected: "a signature", actual: lossy_text(&text) },
            ),
        }
    }

    /// Writes this signature: the count of the bytes of its text, the text,
    /// and a zero byte.
    pub fn serialize(&self, serializer: &mut Serializer) -> (r: Result<(), SerializeError>)
        requires
            old(serializer)@.wf(),
        ensures
            match encode_signature(self@) {
                Some(bytes) => r is Ok && final(serializer)@ == old(serializer)@.with(bytes),
                None => r is Err && final(serializer)@ == old(serializer)@,
            },
    {
        let mut text: Vec<u8> = Vec::new();
        self.write_text(&mut text);
        assert(text@ =~= signature_text(self@));
        if text.len() > u8::MAX as usize {
            return Err(SerializeError::ExceedsNumericLimits);
        }
        let ghost before = serializer@;
        serializer.serialize_u8(text.len() as u8);
        let mut i: usize = 0;
        while i < text.len()
            invariant
                i <= text@.len(),
                before.wf(),
                serializer@ == before.with(seq![text@.len() as u8] + text@.take(i as int)),
            decreases text.len() - i,
        {
            serializer.serialize_u8(text[i]);
            i += 1;
            assert(serializer@.buf =~= before.buf + (seq![text@.len() as u8] + text@.take(
                i as int,
            )));
        }
        serializer.serialize_u8(0);
        assert(text@.take(text@.len() as int) =~= text@);
        assert(serializer@.buf =~= before.buf + (seq![text@.len() as u8] + text@ + seq![0u8]));
        Ok(())
    }
}

} // verus!
