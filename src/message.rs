//! Messages of the protocol and their place in canonical bytes: a message,
//! an optional message and a list of messages each contribute their
//! protobuf wire encoding.
use vstd::prelude::*;
use vstd::utf8::encode_utf8;
use crate::checksum::{Hashable, NeuromancerError};

verus! {

/// A reference to a job, in text form.
pub struct Identifier {
    pub uuid: String,
}

/// The children of a job, with a checksum over them.
pub struct RunIdentifiers {
    pub run_ids: Vec<Identifier>,
    pub checksum: Vec<u8>,
}

/// The protobuf varint encoding of a number: seven bits per byte, least
/// significant group first, the high bit set on every byte but the last.
pub open spec fn varint(n: nat) -> Seq<u8>
    decreases n,
{
    if n < 128 {
        seq![n as u8]
    } else {
        seq![((n % 128) + 128) as u8] + varint(n / 128)
    }
}

/// The wire encoding of a string field: its key (tag and the
/// length-delimited wire type), the byte length, then the UTF-8 bytes.
pub open spec fn string_field(tag: nat, value: Seq<char>) -> Seq<u8> {
    varint(tag * 8 + 2) + varint(encode_utf8(value).len()) + encode_utf8(value)
}

/// The largest field tag that protobuf admits.
pub const MAX_TAG: u32 = 536870911;

/// Relies on `prost::encoding::string::encode`: the key of the field as a
/// varint, the byte length as a varint, then the bytes.
#[verifier::external_body]
fn encode_string_field(tag: u32, value: &String) -> (r: Vec<u8>)
    requires
        1 <= tag <= MAX_TAG,
    ensures
        r@ == string_field(tag as nat, value@),
{
    let mut buf: Vec<u8> = Vec::new();
    prost::encoding::string::encode(tag, value, &mut buf);
    buf
}

/// A message of the protocol with its protobuf wire encoding.
pub trait NeuromancerMessage {
    spec fn wire_bytes(&self) -> Seq<u8>;

    fn encode(&self) -> (r: Vec<u8>)
        ensures
            r@ == self.wire_bytes(),
    ;
}

/// A job identifier is a message with one string field, `uuid`, tag 1; an
/// empty string is the default and is left out.
impl NeuromancerMessage for Identifier {
    open spec fn wire_bytes(&self) -> Seq<u8> {
        if self.uuid@.len() == 0 {
            Seq::empty()
        } else {
            string_field(1, self.uuid@)
        }
    }

    fn encode(&self) -> (r: Vec<u8>) {
        if self.uuid.as_str().is_empty() {
            Vec::new()
        } else {
            encode_string_field(1, &self.uuid)
        }
    }
}

/// Appends the wire encoding of a message, or of each message, to a buffer.
pub trait EncodeIntoBuffer {
    spec fn buffer_bytes(&self) -> Seq<u8>;

    fn encode_into_buffer(&self, buffer: &mut Vec<u8>) -> (r: Result<(), NeuromancerError>)
        ensures
            r is Ok,
            final(buffer)@ == old(buffer)@ + self.buffer_bytes(),
    ;
}

impl<T: NeuromancerMessage> EncodeIntoBuffer for T {
    open spec fn buffer_bytes(&self) -> Seq<u8> {
        self.wire_bytes()
    }

    fn encode_into_buffer(&self, buffer: &mut Vec<u8>) -> (r: Result<(), NeuromancerError>) {
        let mut result = self.encode();
        buffer.append(&mut result);
        Ok(())
    }
}

impl<T: NeuromancerMessage> EncodeIntoBuffer for Option<T> {
    open spec fn buffer_bytes(&self) -> Seq<u8> {
        match self {
            Some(message) => message.wire_bytes(),
            None => Seq::empty(),
        }
    }

    fn encode_into_buffer(&self, buffer: &mut Vec<u8>) -> (r: Result<(), NeuromancerError>) {
        match self {
            Some(message) => {
                let mut result = message.encode();
                buffer.append(&mut result);
            },
            None => {
                assert(buffer@ =~= buffer@ + Seq::<u8>::empty());
            },
        }
        Ok(())
    }
}

/// The wire encodings of a list of messages, one after the other.
pub open spec fn concat_wire<T: NeuromancerMessage>(items: Seq<T>) -> Seq<u8>
    decreases items.len(),
{
    if items.len() == 0 {
        Seq::empty()
    } else {
        concat_wire(items.drop_last()) + items.last().wire_bytes()
    }
}

impl<T: NeuromancerMessage> EncodeIntoBuffer for Vec<T> {
    open spec fn buffer_bytes(&self) -> Seq<u8> {
        concat_wire(self@)
    }

    fn encode_into_buffer(&self, buffer: &mut Vec<u8>) -> (r: Result<(), NeuromancerError>) {
        let ghost start = buffer@;
        let mut i: usize = 0;
        while i < self.len()
            invariant
                i <= self@.len(),
                buffer@ == start + concat_wire(self@.subrange(0, i as int)),
            decreases self@.len() - i,
        {
            proof {
                assert(self@.subrange(0, i + 1).drop_last() == self@.subrange(0, i as int));
            }
            let mut result = self[i].encode();
            buffer.append(&mut result);
            proof {
                assert(buffer@ =~= start + concat_wire(self@.subrange(0, i + 1)));
            }
            i = i + 1;
        }
        proof {
            assert(self@.subrange(0, self@.len() as int) == self@);
        }
        Ok(())
    }
}

impl Hashable for RunIdentifiers {
    open spec fn encoding_fails(&self) -> bool {
        false
    }

    open spec fn encoding_error(&self) -> NeuromancerError {
        NeuromancerError::ProtobufEncode
    }

    /// The wire encodings of the identifiers; the checksum field is left out.
    open spec fn canonical_bytes(&self) -> Seq<u8> {
        concat_wire(self.run_ids@)
    }

    fn bytes(&self) -> (r: Result<Vec<u8>, NeuromancerError>) {
        let mut result: Vec<u8> = Vec::new();
        let _ = self.run_ids.encode_into_buffer(&mut result);
        Ok(result)
    }
}

/// A command for an executor: the run it belongs to and the program to run.
pub struct ExecutionCommand {
    pub run_id: Option<Identifier>,
    pub program: Vec<u8>,
}

impl Hashable for ExecutionCommand {
    open spec fn encoding_fails(&self) -> bool {
        false
    }

    open spec fn encoding_error(&self) -> NeuromancerError {
        NeuromancerError::ProtobufEncode
    }

    open spec fn canonical_bytes(&self) -> Seq<u8> {
        self.run_id.buffer_bytes() + self.program@
    }

    fn bytes(&self) -> (r: Result<Vec<u8>, NeuromancerError>) {
        let mut result: Vec<u8> = Vec::new();
        let _ = self.run_id.encode_into_buffer(&mut result);
        let mut program = vstd::slice::slice_to_vec(self.program.as_slice());
        result.append(&mut program);
        Ok(result)
    }
}

/// The output of a reduction within a run.
pub struct ReductionResult {
    pub run_id: Option<Identifier>,
    pub output: String,
}

impl Hashable for ReductionResult {
    open spec fn encoding_fails(&self) -> bool {
        false
    }

    open spec fn encoding_error(&self) -> NeuromancerError {
        NeuromancerError::ProtobufEncode
    }

    open spec fn canonical_bytes(&self) -> Seq<u8> {
        self.run_id.buffer_bytes() + encode_utf8(self.output@)
    }

    fn bytes(&self) -> (r: Result<Vec<u8>, NeuromancerError>) {
        let mut result: Vec<u8> = Vec::new();
        let _ = self.run_id.encode_into_buffer(&mut result);
        let mut output = vstd::slice::slice_to_vec(self.output.as_str().as_bytes());
        result.append(&mut output);
        Ok(result)
    }
}

} // verus!
