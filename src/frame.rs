use vstd::prelude::*;
use vstd::slice::{slice_subrange, slice_to_vec};

use crate::checksum::{checksum, modbus_crc};
use crate::function::{command_code, function_command, Command, Function};

verus! {

/// A 16-bit value as two bytes, high byte first.
pub open spec fn be_bytes(v: u16) -> Seq<u8> {
    seq![(v / 256) as u8, (v % 256) as u8]
}

/// A 16-bit value as two bytes, low byte first.
pub open spec fn le_bytes(v: u16) -> Seq<u8> {
    seq![(v % 256) as u8, (v / 256) as u8]
}

/// The 16-bit value whose low byte is `lo` and whose high byte is `hi`.
pub open spec fn le_value(lo: u8, hi: u8) -> u16 {
    (lo as int + 256 * (hi as int)) as u16
}

/// A sequence of 16-bit words, each high byte first.
pub open spec fn be_words(words: Seq<u16>) -> Seq<u8>
    decreases words.len(),
{
    if words.len() == 0 {
        Seq::empty()
    } else {
        be_words(words.drop_last()) + be_bytes(words.last())
    }
}

/// The bytes a checksum covers: device address, function code, payload.
pub open spec fn header(device_address: u8, function_code: u8, data: Seq<u8>) -> Seq<u8> {
    seq![device_address, function_code] + data
}

/// The complete wire form of a frame: its header, then the checksum of that
/// header low byte first.
pub open spec fn framed(device_address: u8, function_code: u8, data: Seq<u8>) -> Seq<u8> {
    let h = header(device_address, function_code, data);
    h + le_bytes(modbus_crc(h))
}

/// The abstract content of a frame.
pub ghost struct FrameView {
    pub device_address: u8,
    pub function_code: u8,
    pub data: Seq<u8>,
    pub checksum: u16,
}

/// The bytes a frame occupies on the wire, with the checksum it carries.
pub open spec fn wire(f: FrameView) -> Seq<u8> {
    header(f.device_address, f.function_code, f.data) + le_bytes(f.checksum)
}

/// Why a received byte sequence is not a frame.
#[derive(Clone, Copy, Debug, PartialEq, Eq, Structural)]
pub enum DecodeError {
    /// Shorter than the four bytes of an empty-payload frame.
    MalformedFrameError,
    /// The transmitted checksum differs from the one recomputed over the header.
    ChecksumError,
}

/// What decoding `bytes` yields.
pub open spec fn decoded(bytes: Seq<u8>) -> Result<FrameView, DecodeError> {
    if bytes.len() < 4 {
        Err(DecodeError::MalformedFrameError)
    } else {
        let n = bytes.len();
        let sent = le_value(bytes[n - 2], bytes[n - 1]);
        if sent != modbus_crc(bytes.subrange(0, n - 2)) {
            Err(DecodeError::ChecksumError)
        } else {
            Ok(
                FrameView {
                    device_address: bytes[0],
                    function_code: bytes[1],
                    data: bytes.subrange(2, n - 2),
                    checksum: sent,
                },
            )
        }
    }
}

/// One unit of wire-level exchange.
#[derive(Debug)]
pub struct Frame {
    pub device_address: u8,
    pub function_code: u8,
    pub data: Vec<u8>,
    pub checksum: u16,
}

impl View for Frame {
    type V = FrameView;

    open spec fn view(&self) -> FrameView {
        FrameView {
            device_address: self.device_address,
            function_code: self.function_code,
            data: self.data@,
            checksum: self.checksum,
        }
    }
}

fn push_all(out: &mut Vec<u8>, bytes: &[u8])
    ensures
        final(out)@ == old(out)@ + bytes@,
{
    let mut i: usize = 0;
    while i < bytes.len()
        invariant
            i <= bytes@.len(),
            out@ == old(out)@ + bytes@.subrange(0, i as int),
        decreases bytes@.len() - i,
    {
        out.push(bytes[i]);
        i = i + 1;
        assert(bytes@.subrange(0, i as int) == bytes@.subrange(0, i - 1) + seq![bytes@[i - 1]]);
    }
    assert(bytes@.subrange(0, i as int) == bytes@);
}

impl Frame {
    /// A frame carrying `data`, with the checksum of its header.
    pub fn new(device_address: u8, function_code: u8, data: Vec<u8>) -> (r: Frame)
        ensures
            r@ == (FrameView {
                device_address,
                function_code,
                data: data@,
                checksum: modbus_crc(header(device_address, function_code, data@)),
            }),
    {
        let mut h: Vec<u8> = Vec::new();
        h.push(device_address);
        h.push(function_code);
        push_all(&mut h, data.as_slice());
        assert(h@ == header(device_address, function_code, data@));
        let sum = checksum(h.as_slice());
        Frame { device_address, function_code, data, checksum: sum }
    }

    /// The bytes of this frame in transmission order, checksum low byte first.
    pub fn serialize(&self) -> (r: Vec<u8>)
        ensures
            r@ == wire(self@),
    {
        let mut out: Vec<u8> = Vec::new();
        out.push(self.device_address);
        out.push(self.function_code);
        push_all(&mut out, self.data.as_slice());
        out.push((self.checksum % 256) as u8);
        out.push((self.checksum / 256) as u8);
        assert(out@ == wire(self@));
        out
    }
}

/// The wire bytes of a frame with the given header fields and payload.
pub fn encode(device_address: u8, function_code: u8, payload: &[u8]) -> (r: Vec<u8>)
    ensures
        r@ == framed(device_address, function_code, payload@),
{
    Frame::new(device_address, function_code, slice_to_vec(payload)).serialize()
}

proof fn lemma_le_value_of_le_bytes(v: u16)
    ensures
        le_value(le_bytes(v)[0], le_bytes(v)[1]) == v,
{
}

/// Parses and checks a received byte sequence.
pub fn decode(bytes: &[u8]) -> (r: Result<Frame, DecodeError>)
    ensures
        match r {
            Ok(f) => decoded(bytes@) == Ok::<FrameView, DecodeError>(f@),
            Err(e) => decoded(bytes@) == Err::<FrameView, DecodeError>(e),
        },
        bytes@.len() < 4 ==> r is Err && r->Err_0 == DecodeError::MalformedFrameError,
{
    let n = bytes.len();
    if n < 4 {
        return Err(DecodeError::MalformedFrameError);
    }
    let sent: u16 = bytes[n - 2] as u16 + 256 * (bytes[n - 1] as u16);
    let computed = checksum(slice_subrange(bytes, 0, n - 2));
    if sent != computed {
        return Err(DecodeError::ChecksumError);
    }
    let data = slice_to_vec(slice_subrange(bytes, 2, n - 2));
    Ok(Frame { device_address: bytes[0], function_code: bytes[1], data, checksum: sent })
}

/// Decoding what `encode` produced succeeds and gives back the address, the
/// function code and the payload that went in, with the checksum of the header.
pub proof fn lemma_round_trip(device_address: u8, function_code: u8, payload: Seq<u8>)
    ensures
        decoded(framed(device_address, function_code, payload)) == Ok::<FrameView, DecodeError>(
            FrameView {
                device_address,
                function_code,
                data: payload,
                checksum: modbus_crc(header(device_address, function_code, payload)),
            },
        ),
{
    let h = header(device_address, function_code, payload);
    let w = framed(device_address, function_code, payload);
    let n = w.len();
    lemma_le_value_of_le_bytes(modbus_crc(h));
    assert(w.subrange(0, n - 2) == h);
    assert(w.subrange(2, n - 2) == payload);
}

/// The payload of a register operation: the register address, then each
/// word, all high byte first.
pub fn register_payload(register_address: u16, words: &[u16]) -> (r: Vec<u8>)
    ensures
        r@ == be_bytes(register_address) + be_words(words@),
{
    let mut out: Vec<u8> = Vec::new();
    out.push((register_address / 256) as u8);
    out.push((register_address % 256) as u8);
    let mut i: usize = 0;
    while i < words.len()
        invariant
            i <= words@.len(),
            out@ == be_bytes(register_address) + be_words(words@.subrange(0, i as int)),
        decreases words@.len() - i,
    {
        let w = words[i];
        out.push((w / 256) as u8);
        out.push((w % 256) as u8);
        i = i + 1;
        assert(words@.subrange(0, i as int).drop_last() == words@.subrange(0, i - 1));
    }
    assert(words@.subrange(0, i as int) == words@);
    out
}

/// The frame of `command` sent to `device_address`, addressing the register at
/// `register_address`: for a read the words are the register count, for a
/// write the values to store.
pub fn encode_command(device_address: u8, command: Command, register_address: u16, words: &[u16]) -> (r:
    Vec<u8>)
    ensures
        r@ == framed(
            device_address,
            command_code(command),
            be_bytes(register_address) + be_words(words@),
        ),
{
    let payload = register_payload(register_address, words);
    encode(device_address, command.code(), payload.as_slice())
}

/// The frame of a single-register request: the register count for a read, the
/// value to store for a write.
pub fn encode_request(device_address: u8, function: &Function, word: u16) -> (r: Vec<u8>)
    ensures
        r@ == framed(
            device_address,
            command_code(function_command(function.function_type)),
            be_bytes(function.register.address) + be_bytes(word),
        ),
{
    let words: Vec<u16> = vec![word];
    proof {
        assert(words@.drop_last() == Seq::<u16>::empty());
        assert(words@.last() == word);
        assert(be_words(Seq::<u16>::empty()) == Seq::<u8>::empty());
        assert(Seq::<u8>::empty() + be_bytes(word) == be_bytes(word));
        assert(be_words(words@) == be_bytes(word));
    }
    encode_command(
        device_address,
        function.function_type.command(),
        function.register.address,
        words.as_slice(),
    )
}

/// Flipping one bit of a frame's checksum field is always detected: the frame
/// is then rejected with a checksum error.
pub proof fn lemma_checksum_field_flip_detected(
    device_address: u8,
    function_code: u8,
    payload: Seq<u8>,
    k: int,
    bit: u8,
)
    requires
        0 <= k < 2,
        bit < 8,
    ensures
        ({
            let w = framed(device_address, function_code, payload);
            let i = w.len() - 2 + k;
            decoded(w.update(i, w[i] ^ (1u8 << bit))) == Err::<FrameView, DecodeError>(
                DecodeError::ChecksumError,
            )
        }),
{
    let h = header(device_address, function_code, payload);
    let w = framed(device_address, function_code, payload);
    let n = w.len();
    let i = n - 2 + k;
    let x = w[i];
    let y = x ^ (1u8 << bit);
    let v = w.update(i, y);
    assert(y != x) by (bit_vector)
        requires
            y == x ^ (1u8 << bit),
            bit < 8,
    ;
    assert(v.subrange(0, n - 2) == h);
    lemma_le_value_of_le_bytes(modbus_crc(h));
    assert(le_value(v[n - 2], v[n - 1]) != modbus_crc(h));
}

/// Every sequence shorter than four bytes is rejected as malformed.
pub proof fn lemma_short_input_malformed(bytes: Seq<u8>)
    requires
        bytes.len() < 4,
    ensures
        decoded(bytes) == Err::<FrameView, DecodeError>(DecodeError::MalformedFrameError),
{
}

} // verus!
