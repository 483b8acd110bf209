//! The framing of discovery messages.
//!
//! A message is a 13-byte header followed by a payload:
//! `Magic (4, LE) | Type (1) | Length (4, LE) | CRC32 (4, LE) | Payload`.
use vstd::prelude::*;
use crate::error::DiscoverError;
use crate::error::frame_error_text;

verus! {

/// Protocol magic number, "SDSC" (Simple Discover Service Code).
pub const PROTOCOL_MAGIC: u32 = 0x53445343;

/// Message type of a discovery request.
pub const MSG_TYPE_REQUEST: u8 = 0;

/// Message type of a discovery response.
pub const MSG_TYPE_RESPONSE: u8 = 1;

/// Length of the header: Magic(4) + Type(1) + Length(4) + CRC32(4).
pub const PROTOCOL_HEADER_SIZE: usize = 13;

/// One step of the reflected CRC-32 register with the IEEE polynomial
/// (`0xEDB88320`): shift right, and fold the polynomial in when a one fell out.
pub open spec fn crc32_shift(c: u32) -> u32 {
    if c & 1 == 1 {
        (c >> 1u32) ^ 0xEDB88320u32
    } else {
        c >> 1u32
    }
}

/// The register after feeding it the byte `b`: eight steps on `c ^ b`.
pub open spec fn crc32_update_byte(c: u32, b: u8) -> u32 {
    crc32_shift(
        crc32_shift(
            crc32_shift(
                crc32_shift(
                    crc32_shift(crc32_shift(crc32_shift(crc32_shift(c ^ (b as u32))))),
                ),
            ),
        ),
    )
}

/// The register after feeding it `data`, from the initial value `0xFFFFFFFF`.
pub open spec fn crc32_register(data: Seq<u8>) -> u32
    decreases data.len(),
{
    if data.len() == 0 {
        0xFFFFFFFFu32
    } else {
        crc32_update_byte(crc32_register(data.drop_last()), data.last())
    }
}

/// The CRC-32 (IEEE) checksum of `data`: the final register, inverted.
pub open spec fn crc32_ieee(data: Seq<u8>) -> u32 {
    crc32_register(data) ^ 0xFFFFFFFFu32
}

/// Calls `crc32fast::hash`, which computes CRC-32 (IEEE). The contract claims
/// the standard definition, `crc32_ieee`: the reflected register with
/// polynomial `0xEDB88320`, started at `0xFFFFFFFF` and inverted at the end
/// (the crate's tables are built from that polynomial, and its update inverts
/// the state before and after).
#[verifier::external_body]
fn calculate_crc32(data: &[u8]) -> (crc: u32)
    ensures
        crc == crc32_ieee(data@),
{
    crc32fast::hash(data)
}

/// The checksum of no bytes is 0.
pub proof fn lemma_crc32_empty()
    ensures
        crc32_ieee(Seq::empty()) == 0,
{
    assert(0xFFFFFFFFu32 ^ 0xFFFFFFFFu32 == 0u32) by (bit_vector);
}

/// The standard check value of CRC-32 (IEEE): the checksum of the ASCII
/// digits `123456789` is `0xCBF43926`.
pub proof fn lemma_crc32_check_value()
    ensures
        crc32_ieee(seq![0x31u8, 0x32, 0x33, 0x34, 0x35, 0x36, 0x37, 0x38, 0x39]) == 0xCBF43926u32,
{
    let s = seq![0x31u8, 0x32, 0x33, 0x34, 0x35, 0x36, 0x37, 0x38, 0x39];
    assert(crc32_update_byte(0xFFFFFFFFu32, 0x31u8) == 0x7c231048u32) by (bit_vector);
    assert(crc32_update_byte(0x7c231048u32, 0x32u8) == 0xb0acbb32u32) by (bit_vector);
    assert(crc32_update_byte(0xb0acbb32u32, 0x33u8) == 0x77b79c2du32) by (bit_vector);
    assert(crc32_update_byte(0x77b79c2du32, 0x34u8) == 0x641c1f5cu32) by (bit_vector);
    assert(crc32_update_byte(0x641c1f5cu32, 0x35u8) == 0x340ac5e3u32) by (bit_vector);
    assert(crc32_update_byte(0x340ac5e3u32, 0x36u8) == 0xf68d2c9eu32) by (bit_vector);
    assert(crc32_update_byte(0xf68d2c9eu32, 0x37u8) == 0xaffc9660u32) by (bit_vector);
    assert(crc32_update_byte(0xaffc9660u32, 0x38u8) == 0x651f2550u32) by (bit_vector);
    assert(crc32_update_byte(0x651f2550u32, 0x39u8) == 0x340bc6d9u32) by (bit_vector);
    assert(0x340bc6d9u32 ^ 0xFFFFFFFFu32 == 0xCBF43926u32) by (bit_vector);
    assert(crc32_register(s.take(0)) == 0xFFFFFFFFu32);
    assert(s.take(1).drop_last() =~= s.take(0));
    assert(crc32_register(s.take(1)) == 0x7c231048u32);
    assert(s.take(2).drop_last() =~= s.take(1));
    assert(crc32_register(s.take(2)) == 0xb0acbb32u32);
    assert(s.take(3).drop_last() =~= s.take(2));
    assert(crc32_register(s.take(3)) == 0x77b79c2du32);
    assert(s.take(4).drop_last() =~= s.take(3));
    assert(crc32_register(s.take(4)) == 0x641c1f5cu32);
    assert(s.take(5).drop_last() =~= s.take(4));
    assert(crc32_register(s.take(5)) == 0x340ac5e3u32);
    assert(s.take(6).drop_last() =~= s.take(5));
    assert(crc32_register(s.take(6)) == 0xf68d2c9eu32);
    assert(s.take(7).drop_last() =~= s.take(6));
    assert(crc32_register(s.take(7)) == 0xaffc9660u32);
    assert(s.take(8).drop_last() =~= s.take(7));
    assert(crc32_register(s.take(8)) == 0x651f2550u32);
    assert(s.take(9).drop_last() =~= s.take(8));
    assert(s.take(9) =~= s);
    assert(crc32_register(s) == 0x340bc6d9u32);
}

/// The four little-endian bytes of `x`.
pub open spec fn le32(x: u32) -> Seq<u8> {
    seq![(x & 0xff) as u8, ((x >> 8u32) & 0xff) as u8, ((x >> 16u32) & 0xff) as u8, ((x >> 24u32) & 0xff) as u8]
}

/// The number whose little-endian bytes are `b0, b1, b2, b3`.
pub open spec fn from_le32(b0: u8, b1: u8, b2: u8, b3: u8) -> u32 {
    (b0 as u32) | ((b1 as u32) << 8u32) | ((b2 as u32) << 16u32) | ((b3 as u32) << 24u32)
}

/// The little-endian number held by the four bytes of `buf` from `at` on.
pub open spec fn u32_at(buf: Seq<u8>, at: int) -> u32 {
    from_le32(buf[at], buf[at + 1], buf[at + 2], buf[at + 3])
}

/// Reading back the little-endian bytes of a number gives the number.
pub proof fn lemma_le32_value_roundtrip(x: u32)
    ensures
        from_le32(le32(x)[0], le32(x)[1], le32(x)[2], le32(x)[3]) == x,
{
    assert(from_le32((x & 0xff) as u8, ((x >> 8u32) & 0xff) as u8, ((x >> 16u32) & 0xff) as u8, ((x >> 24u32) & 0xff) as u8) == x) by (bit_vector);
}

/// The little-endian bytes of the number read from four bytes are those bytes.
pub proof fn lemma_le32_bytes_roundtrip(b0: u8, b1: u8, b2: u8, b3: u8)
    ensures
        le32(from_le32(b0, b1, b2, b3)) =~= seq![b0, b1, b2, b3],
{
    let x = from_le32(b0, b1, b2, b3);
    assert(((x & 0xff) as u8) == b0 && (((x >> 8u32) & 0xff) as u8) == b1
        && (((x >> 16u32) & 0xff) as u8) == b2 && (((x >> 24u32) & 0xff) as u8) == b3) by (bit_vector)
        requires x == from_le32(b0, b1, b2, b3);
}


/// The bytes of a message of type `msg_type` that carries `payload`.
pub open spec fn frame_bytes(msg_type: u8, payload: Seq<u8>) -> Seq<u8> {
    le32(PROTOCOL_MAGIC) + seq![msg_type] + le32(payload.len() as u32) + le32(crc32_ieee(payload))
        + payload
}

/// Why a datagram is not a well-formed message.
#[derive(Debug, Clone, Copy, PartialEq, Eq)]
pub enum FrameError {
    /// Fewer bytes than a header holds.
    TooShort { len: usize },
    /// The first four bytes are not the protocol magic.
    BadMagic { magic: u32 },
    /// The header announces more payload than the datagram holds.
    Incomplete { available: usize, needed: u32 },
    /// The payload's checksum differs from the one in the header.
    CrcMismatch { expected: u32, actual: u32 },
}

/// A well-formed message: its type and its payload.
#[derive(Debug)]
pub struct Frame {
    pub msg_type: u8,
    pub payload: Vec<u8>,
}

/// What a datagram decodes to: its type and payload, or why it is refused.
pub open spec fn frame_of(buf: Seq<u8>) -> Result<(u8, Seq<u8>), FrameError> {
    if buf.len() < PROTOCOL_HEADER_SIZE {
        Err(FrameError::TooShort { len: buf.len() as usize })
    } else if u32_at(buf, 0) != PROTOCOL_MAGIC {
        Err(FrameError::BadMagic { magic: u32_at(buf, 0) })
    } else if buf.len() - PROTOCOL_HEADER_SIZE < u32_at(buf, 5) {
        Err(
            FrameError::Incomplete {
                available: (buf.len() - PROTOCOL_HEADER_SIZE) as usize,
                needed: u32_at(buf, 5),
            },
        )
    } else {
        let payload = buf.subrange(
            PROTOCOL_HEADER_SIZE as int,
            PROTOCOL_HEADER_SIZE + u32_at(buf, 5),
        );
        if crc32_ieee(payload) != u32_at(buf, 9) {
            Err(FrameError::CrcMismatch { expected: u32_at(buf, 9), actual: crc32_ieee(payload) })
        } else {
            Ok((buf[4], payload))
        }
    }
}

fn push_le32(buf: &mut Vec<u8>, x: u32)
    ensures
        final(buf)@ == old(buf)@ + le32(x),
{
    buf.push((x & 0xff) as u8);
    buf.push(((x >> 8u32) & 0xff) as u8);
    buf.push(((x >> 16u32) & 0xff) as u8);
    buf.push(((x >> 24u32) & 0xff) as u8);
    assert(final(buf)@ =~= old(buf)@ + le32(x));
}

fn read_le32(buf: &[u8], at: usize) -> (x: u32)
    requires
        at + 4 <= buf@.len(),
    ensures
        x == u32_at(buf@, at as int),
{
    (buf[at] as u32) | ((buf[at + 1] as u32) << 8u32) | ((buf[at + 2] as u32) << 16u32) | ((
    buf[at + 3] as u32) << 24u32)
}

/// Builds the message of type `msg_type` that carries `payload`.
pub fn encode_frame(msg_type: u8, payload: &[u8]) -> (buf: Vec<u8>)
    requires
        payload@.len() <= u32::MAX,
    ensures
        buf@ == frame_bytes(msg_type, payload@),
{
    let crc = calculate_crc32(payload);
    let mut buf: Vec<u8> = Vec::with_capacity(PROTOCOL_HEADER_SIZE);
    push_le32(&mut buf, PROTOCOL_MAGIC);
    buf.push(msg_type);
    push_le32(&mut buf, payload.len() as u32);
    push_le32(&mut buf, crc);
    let ghost header = buf@;
    let mut i: usize = 0;
    while i < payload.len()
        invariant
            i <= payload@.len(),
            buf@ == header + payload@.subrange(0, i as int),
        decreases payload@.len() - i,
    {
        buf.push(payload[i]);
        i = i + 1;
        assert(buf@ =~= header + payload@.subrange(0, i as int));
    }
    assert(payload@.subrange(0, payload@.len() as int) =~= payload@);
    buf
}

/// Checks the header and the checksum of a datagram and takes out its type
/// and payload.
pub fn decode_frame(buffer: &[u8]) -> (res: Result<Frame, FrameError>)
    ensures
        match res {
            Ok(f) => frame_of(buffer@) == Ok::<(u8, Seq<u8>), FrameError>((f.msg_type, f.payload@)),
            Err(e) => frame_of(buffer@) == Err::<(u8, Seq<u8>), FrameError>(e),
        },
{
    if buffer.len() < PROTOCOL_HEADER_SIZE {
        return Err(FrameError::TooShort { len: buffer.len() });
    }
    let magic = read_le32(buffer, 0);
    if magic != PROTOCOL_MAGIC {
        return Err(FrameError::BadMagic { magic });
    }
    let msg_type = buffer[4];
    let length = read_le32(buffer, 5);
    let expected_crc = read_le32(buffer, 9);
    let available = buffer.len() - PROTOCOL_HEADER_SIZE;
    if (available as u64) < (length as u64) {
        return Err(FrameError::Incomplete { available, needed: length });
    }
    let end = PROTOCOL_HEADER_SIZE + length as usize;
    let payload = &buffer[PROTOCOL_HEADER_SIZE..end];
    let actual_crc = calculate_crc32(payload);
    if actual_crc != expected_crc {
        return Err(FrameError::CrcMismatch { expected: expected_crc, actual: actual_crc });
    }
    let mut bytes: Vec<u8> = Vec::with_capacity(payload.len());
    let mut i: usize = 0;
    while i < payload.len()
        invariant
            i <= payload@.len(),
            bytes@ == payload@.subrange(0, i as int),
        decreases payload@.len() - i,
    {
        bytes.push(payload[i]);
        i = i + 1;
        assert(bytes@ =~= payload@.subrange(0, i as int));
    }
    assert(payload@.subrange(0, payload@.len() as int) =~= payload@);
    Ok(Frame { msg_type, payload: bytes })
}

/// Law: a message decodes to the type and the payload it was built from.
pub proof fn lemma_decode_encoded_frame(msg_type: u8, payload: Seq<u8>)
    requires
        payload.len() <= u32::MAX,
    ensures
        frame_of(frame_bytes(msg_type, payload)) == Ok::<(u8, Seq<u8>), FrameError>(
            (msg_type, payload),
        ),
{
    let buf = frame_bytes(msg_type, payload);
    let len = payload.len() as u32;
    lemma_le32_value_roundtrip(PROTOCOL_MAGIC);
    lemma_le32_value_roundtrip(len);
    lemma_le32_value_roundtrip(crc32_ieee(payload));
    assert(buf.len() == PROTOCOL_HEADER_SIZE + payload.len());
    assert(u32_at(buf, 0) == PROTOCOL_MAGIC);
    assert(u32_at(buf, 5) == len);
    assert(u32_at(buf, 9) == crc32_ieee(payload));
    assert(buf.subrange(PROTOCOL_HEADER_SIZE as int, PROTOCOL_HEADER_SIZE + len) =~= payload);
}

/// Law: the bytes that a datagram's message occupies are exactly the message
/// built from the type and payload it decodes to; a message has one encoding.
pub proof fn lemma_decoded_frame_is_prefix(buf: Seq<u8>)
    ensures
        frame_of(buf) matches Ok((t, p)) ==> buf.subrange(
            0,
            PROTOCOL_HEADER_SIZE + p.len(),
        ) == frame_bytes(t, p),
{
    if let Ok((t, p)) = frame_of(buf) {
        let len = u32_at(buf, 5);
        assert(p.len() == len);
        lemma_le32_bytes_roundtrip(buf[0], buf[1], buf[2], buf[3]);
        lemma_le32_bytes_roundtrip(buf[5], buf[6], buf[7], buf[8]);
        lemma_le32_bytes_roundtrip(buf[9], buf[10], buf[11], buf[12]);
        assert(buf.subrange(0, PROTOCOL_HEADER_SIZE + p.len()) =~= frame_bytes(t, p));
    }
}

/// Law: a datagram is accepted only when its payload is as long as the header
/// says and its checksum is the one in the header.
pub proof fn lemma_accepted_frame_is_checked(buf: Seq<u8>)
    ensures
        frame_of(buf) matches Ok((_, p)) ==> {
            &&& buf.len() >= PROTOCOL_HEADER_SIZE + p.len()
            &&& p.len() == u32_at(buf, 5)
            &&& crc32_ieee(p) == u32_at(buf, 9)
            &&& u32_at(buf, 0) == PROTOCOL_MAGIC
        },
{
}

/// What `serde_json::from_slice::<serde_json::Value>` refuses the bytes with:
/// nothing when it accepts them as one JSON document, else the text of its
/// error.
pub uninterp spec fn json_parse_error(bytes: Seq<u8>) -> Option<Seq<char>>;

/// Whether `serde_json::from_slice` accepts the bytes as one JSON document.
pub open spec fn json_document(bytes: Seq<u8>) -> bool {
    json_parse_error(bytes) is None
}

/// Calls `serde_json::from_slice::<serde_json::Value>` on the bytes. The
/// contract claims that its outcome (success, or the text of its error) is a
/// function of the bytes alone, named `json_parse_error`; of the parsed value
/// it says nothing.
#[verifier::external_body]
pub(crate) fn check_json(bytes: &[u8]) -> (res: Result<(), String>)
    ensures
        match res {
            Ok(()) => json_parse_error(bytes@) is None,
            Err(text) => json_parse_error(bytes@) == Some(text@),
        },
{
    match serde_json::from_slice::<serde_json::Value>(bytes) {
        Ok(_) => Ok(()),
        Err(err) => Err(err.to_string()),
    }
}

/// The payloads a message may carry: none, or one JSON document.
pub open spec fn payload_acceptable(payload: Seq<u8>) -> bool {
    payload.len() == 0 || json_document(payload)
}

/// What a datagram is taken as: the type and payload of a well-formed message
/// whose payload is empty or JSON, or nothing.
pub open spec fn message_of(buf: Seq<u8>) -> Option<(u8, Seq<u8>)> {
    match frame_of(buf) {
        Ok((t, p)) => if payload_acceptable(p) {
            Some((t, p))
        } else {
            None
        },
        Err(_) => None,
    }
}

/// The text of the error that a datagram is refused with: what is wrong with
/// its frame, or why its payload is not JSON.
pub open spec fn decode_error_text(buf: Seq<u8>) -> Seq<char> {
    match frame_of(buf) {
        Err(e) => frame_error_text(e),
        Ok((_, p)) => match json_parse_error(p) {
            Some(reason) => "Failed to parse JSON: "@ + reason,
            None => Seq::empty(),
        },
    }
}

/// Whether `buf` holds at least the whole message that its header announces.
pub open spec fn holds_whole_message(buf: Seq<u8>) -> bool {
    buf.len() >= PROTOCOL_HEADER_SIZE && buf.len() - PROTOCOL_HEADER_SIZE >= u32_at(buf, 5)
}

/// Law: bytes that follow the message a buffer announces do not change what
/// it decodes to, nor the error it is refused with; so a message that
/// arrives with others stuck behind it is read as if it came alone.
pub proof fn lemma_trailing_bytes_ignored(buf: Seq<u8>, extra: Seq<u8>)
    requires
        holds_whole_message(buf),
    ensures
        frame_of(buf + extra) == frame_of(buf),
        message_of(buf + extra) == message_of(buf),
        decode_error_text(buf + extra) == decode_error_text(buf),
{
    let b2 = buf + extra;
    assert(forall|i: int| 0 <= i < buf.len() ==> #[trigger] b2[i] == buf[i]);
    assert(u32_at(b2, 0) == u32_at(buf, 0));
    assert(u32_at(b2, 5) == u32_at(buf, 5));
    assert(u32_at(b2, 9) == u32_at(buf, 9));
    let end = PROTOCOL_HEADER_SIZE + u32_at(buf, 5);
    assert(b2.subrange(PROTOCOL_HEADER_SIZE as int, end) =~= buf.subrange(
        PROTOCOL_HEADER_SIZE as int,
        end,
    ));
    assert(b2[4] == buf[4]);
}

/// Decodes a datagram: checks its header, its checksum and that its payload
/// is empty or a JSON document.
pub fn decode_message(buffer: &[u8]) -> (res: Result<Frame, DiscoverError>)
    ensures
        match res {
            Ok(f) => message_of(buffer@) == Some((f.msg_type, f.payload@)),
            Err(DiscoverError::Protocol(m)) => message_of(buffer@) is None && m@
                == decode_error_text(buffer@),
            Err(_) => false,
        },
        frame_of(buffer@) matches Ok((t, p)) ==> (p.len() == 0 || json_parse_error(p) is None
            <==> (res matches Ok(f) && f.msg_type == t && f.payload@ == p)),
{
    match decode_frame(buffer) {
        Err(e) => Err(DiscoverError::Protocol(e.describe())),
        Ok(frame) => {
            if frame.payload.len() == 0 {
                Ok(frame)
            } else {
                match check_json(frame.payload.as_slice()) {
                    Ok(()) => Ok(frame),
                    Err(reason) => {
                        let mut m = String::new();
                        m.append("Failed to parse JSON: ");
                        m.append(reason.as_str());
                        Err(DiscoverError::Protocol(m))
                    },
                }
            }
        },
    }
}

/// The bytes of a discovery request: a message of type request with no payload.
pub open spec fn request_bytes() -> Seq<u8> {
    frame_bytes(MSG_TYPE_REQUEST, Seq::empty())
}

/// The bytes of a discovery response that carries `custom` (the JSON text of
/// the server's custom data), or no payload when there is none.
pub open spec fn response_bytes(custom: Option<Seq<u8>>) -> Seq<u8> {
    match custom {
        Some(data) => frame_bytes(MSG_TYPE_RESPONSE, data),
        None => frame_bytes(MSG_TYPE_RESPONSE, Seq::empty()),
    }
}

/// The bytes of a message with no payload: the magic, the type, length 0
/// and checksum 0.
pub proof fn lemma_empty_frame_bytes(msg_type: u8)
    ensures
        frame_bytes(msg_type, Seq::empty()) == seq![0x43u8, 0x53, 0x44, 0x53, msg_type, 0, 0, 0, 0, 0, 0, 0, 0],
{
    lemma_crc32_empty();
    assert(le32(PROTOCOL_MAGIC) =~= seq![0x43u8, 0x53, 0x44, 0x53]) by {
        let m = PROTOCOL_MAGIC;
        assert((m & 0xff) as u8 == 0x43u8 && ((m >> 8u32) & 0xff) as u8 == 0x53u8 && ((m >> 16u32)
            & 0xff) as u8 == 0x44u8 && ((m >> 24u32) & 0xff) as u8 == 0x53u8) by (bit_vector)
            requires
                m == 0x53445343u32,
        ;
    }
    assert(le32(0) =~= seq![0u8, 0, 0, 0]) by {
        let z = 0u32;
        assert((z & 0xff) as u8 == 0u8 && ((z >> 8u32) & 0xff) as u8 == 0u8 && ((z >> 16u32)
            & 0xff) as u8 == 0u8 && ((z >> 24u32) & 0xff) as u8 == 0u8) by (bit_vector)
            requires
                z == 0u32,
        ;
    }
    assert(Seq::<u8>::empty().len() as u32 == 0u32);
    assert(frame_bytes(msg_type, Seq::empty()) =~= seq![0x43u8, 0x53, 0x44, 0x53, msg_type, 0, 0, 0, 0, 0, 0, 0, 0]);
}

/// Encodes a discovery request.
pub fn encode_request() -> (buf: Vec<u8>)
    ensures
        buf@ == request_bytes(),
        buf@ == seq![0x43u8, 0x53, 0x44, 0x53, 0, 0, 0, 0, 0, 0, 0, 0, 0],
{
    proof {
        lemma_empty_frame_bytes(MSG_TYPE_REQUEST);
    }
    let empty: [u8; 0] = [];
    let buf = encode_frame(MSG_TYPE_REQUEST, empty.as_slice());
    assert(empty@ =~= Seq::<u8>::empty());
    buf
}

/// Encodes a discovery response; its payload is the JSON text of the custom
/// data, or empty when there is none.
pub fn encode_response(custom_data: Option<&[u8]>) -> (buf: Vec<u8>)
    requires
        custom_data matches Some(d) ==> d@.len() <= u32::MAX,
    ensures
        buf@ == response_bytes(
            match custom_data {
                Some(d) => Some(d@),
                None => None,
            },
        ),
        custom_data is None ==> buf@ == seq![0x43u8, 0x53, 0x44, 0x53, 1, 0, 0, 0, 0, 0, 0, 0, 0],
{
    proof {
        lemma_empty_frame_bytes(MSG_TYPE_RESPONSE);
    }
    match custom_data {
        Some(data) => encode_frame(MSG_TYPE_RESPONSE, data),
        None => {
            let empty: [u8; 0] = [];
            let buf = encode_frame(MSG_TYPE_RESPONSE, empty.as_slice());
            assert(empty@ =~= Seq::<u8>::empty());
            buf
        },
    }
}

} // verus!
