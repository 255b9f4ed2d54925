//! The bytes of a frame on the wire: numbers, the header, and the masking of payloads.
//!
//! A frame starts with a byte that holds the final flag and the opcode, and a byte that holds the
//! mask flag and a length specifier. A specifier up to 125 is the payload's length; 126 and 127
//! announce that the length follows on two or on eight bytes, most significant byte first. A
//! masked frame then has its key of four bytes. The payload comes last.

use vstd::arithmetic::power::pow;
use vstd::prelude::*;

verus! {

/// The largest payload that is accepted from the peer, in bytes.
pub const MAX_PAYLOAD_SIZE: u64 = 2_000_000;

/// The number that a run of bytes writes, most significant byte first.
pub open spec fn be_value(bytes: Seq<u8>) -> nat
    decreases bytes.len(),
{
    if bytes.len() == 0 {
        0
    } else {
        be_value(bytes.drop_last()) * 256 + bytes.last() as nat
    }
}

/// `n` written on `count` bytes, most significant byte first. Higher digits are cut off.
pub open spec fn be_bytes(n: nat, count: nat) -> Seq<u8>
    decreases count,
{
    if count == 0 {
        Seq::empty()
    } else {
        be_bytes(n / 256, (count - 1) as nat).push((n % 256) as u8)
    }
}

/// 256 to the power of `count`: the first number that does not fit on `count` bytes.
pub open spec fn pow256(count: nat) -> nat
    decreases count,
{
    if count == 0 {
        1
    } else {
        256 * pow256((count - 1) as nat)
    }
}

/// Why the bytes at the front of a buffer are refused.
pub enum Refusal {
    /// The mask flag is set, which a server never does.
    Masked,
    /// The announced payload is larger than `MAX_PAYLOAD_SIZE`.
    TooLarge,
}

/// What the front of a buffer amounts to.
#[verifier::ext_equal]
pub enum Front {
    /// Not all bytes of the first frame have arrived.
    Incomplete,
    /// The first frame must not be read.
    Refused(Refusal),
    /// The first frame is there, and takes `size` bytes in all.
    Whole { fin: bool, opcode: u8, payload: Seq<u8>, size: nat },
}

/// How many bytes a length specifier announces for the length itself.
pub open spec fn extended_len(specifier: u8) -> nat {
    if specifier == 126 {
        2
    } else if specifier == 127 {
        8
    } else {
        0
    }
}

/// The payload length that a specifier and the bytes announced by it stand for.
pub open spec fn announced_len(specifier: u8, extended: Seq<u8>) -> nat {
    if specifier == 126 || specifier == 127 {
        be_value(extended)
    } else {
        specifier as nat
    }
}

/// Reads the front of a buffer as a frame from a server.
pub open spec fn front(bytes: Seq<u8>) -> Front {
    if bytes.len() < 2 {
        Front::Incomplete
    } else if bytes[1] >= 128 {
        Front::Refused(Refusal::Masked)
    } else {
        let header = 2 + extended_len(bytes[1]);
        if bytes.len() < header {
            Front::Incomplete
        } else {
            let len = announced_len(bytes[1], bytes.subrange(2, header as int));
            if len > MAX_PAYLOAD_SIZE {
                Front::Refused(Refusal::TooLarge)
            } else if bytes.len() < header + len {
                Front::Incomplete
            } else {
                Front::Whole {
                    fin: bytes[0] >= 128,
                    opcode: bytes[0] % 16,
                    payload: bytes.subrange(header as int, (header + len) as int),
                    size: header + len,
                }
            }
        }
    }
}

/// The length field of a frame: the mask flag, the specifier and the length that it announces.
/// The two-byte form ends one short of what two bytes can hold.
pub open spec fn length_field(len: nat, masked: bool) -> Seq<u8> {
    let flag: int = if masked {
        128
    } else {
        0
    };
    if len <= 125 {
        seq![(flag + len) as u8]
    } else if len < 65535 {
        seq![(flag + 126) as u8] + be_bytes(len, 2)
    } else {
        seq![(flag + 127) as u8] + be_bytes(len, 8)
    }
}

/// A payload with each byte combined by exclusive or with the key, byte after byte, in turns.
pub open spec fn masked(payload: Seq<u8>, key: Seq<u8>) -> Seq<u8> {
    Seq::new(payload.len(), |i: int| payload[i] ^ key[i % 4])
}

/// The bytes of a frame that a client sends.
pub open spec fn client_frame(first: u8, body: Seq<u8>, key: Seq<u8>) -> Seq<u8> {
    seq![first] + length_field(body.len(), true) + key + masked(body, key)
}

/// The bytes of a frame that a server sends.
pub open spec fn server_frame(first: u8, body: Seq<u8>) -> Seq<u8> {
    seq![first] + length_field(body.len(), false) + body
}

/// What the front of a buffer holds, as executable values.
#[derive(Debug)]
pub enum ReadFront {
    /// Not all bytes of the first frame have arrived.
    Incomplete,
    /// The mask flag is set.
    Masked,
    /// The announced payload is larger than `MAX_PAYLOAD_SIZE`.
    TooLarge,
    /// The length specifier is none.
    BadSpecifier,
    /// The first frame, and the number of bytes that it takes.
    Whole { fin: bool, opcode: u8, payload: Vec<u8>, size: usize },
}

/// The length that a specifier stands for, as executable values.
#[derive(Debug, Clone, Copy, PartialEq, Eq, Structural)]
pub enum AnnouncedLength {
    /// The bytes of the length have not arrived.
    Incomplete,
    /// The payload's length, and that of the header before it.
    Known { len: u64, header: usize },
    /// The specifier is over 127, which no seven bits can be.
    BadSpecifier,
}

/// Reads the number written by `bytes[from..to]`, most significant byte first.
pub fn read_be(bytes: &[u8], from: usize, to: usize) -> (value: u64)
    requires
        from <= to <= bytes@.len(),
        to - from <= 8,
    ensures
        value == be_value(bytes@.subrange(from as int, to as int)),
{
    let mut value: u64 = 0;
    let mut i: usize = from;
    proof {
        assert(bytes@.subrange(from as int, from as int) =~= Seq::empty());
    }
    while i < to
        invariant
            from <= i <= to <= bytes@.len(),
            to - from <= 8,
            value == be_value(bytes@.subrange(from as int, i as int)),
            value < pow256((i - from) as nat),
        decreases to - i,
    {
        proof {
            let next = bytes@.subrange(from as int, i + 1);
            assert(next.drop_last() =~= bytes@.subrange(from as int, i as int));
            lemma_pow256_up_to_8((i + 1 - from) as nat);
            assert(pow256((i + 1 - from) as nat) == 256 * pow256((i - from) as nat));
        }
        value = value * 256 + bytes[i] as u64;
        i = i + 1;
    }
    value
}

/// Appends `n` on `count` bytes, most significant byte first.
pub fn push_be(out: &mut Vec<u8>, n: u64, count: usize)
    ensures
        final(out)@ == old(out)@ + be_bytes(n as nat, count as nat),
    decreases count,
{
    if count > 0 {
        push_be(out, n / 256, count - 1);
        out.push((n % 256) as u8);
    }
}

/// The payload length that a frame header announces, given the specifier in its second byte.
pub fn announced_length(bytes: &[u8], specifier: u8) -> (r: AnnouncedLength)
    requires
        bytes@.len() >= 2,
    ensures
        r is BadSpecifier <==> specifier > 127,
        r is Incomplete <==> specifier <= 127 && bytes@.len() < 2 + extended_len(specifier),
        r matches AnnouncedLength::Known { len, header } ==> {
            &&& header == 2 + extended_len(specifier)
            &&& len == announced_len(specifier, bytes@.subrange(2, header as int))
        },
{
    if specifier <= 125 {
        AnnouncedLength::Known { len: specifier as u64, header: 2 }
    } else if specifier == 126 {
        if bytes.len() < 4 {
            return AnnouncedLength::Incomplete;
        }
        AnnouncedLength::Known { len: read_be(bytes, 2, 4), header: 4 }
    } else if specifier == 127 {
        if bytes.len() < 10 {
            return AnnouncedLength::Incomplete;
        }
        AnnouncedLength::Known { len: read_be(bytes, 2, 10), header: 10 }
    } else {
        AnnouncedLength::BadSpecifier
    }
}

/// Reads the front of a buffer as a frame from a server.
pub fn read_front(bytes: &[u8]) -> (r: ReadFront)
    ensures
        r !is BadSpecifier,
        r is Incomplete <==> front(bytes@) is Incomplete,
        r is Masked <==> front(bytes@) == Front::Refused(Refusal::Masked),
        r is TooLarge <==> front(bytes@) == Front::Refused(Refusal::TooLarge),
        r matches ReadFront::Whole { fin, opcode, payload, size } ==> front(bytes@)
            == (Front::Whole { fin, opcode, payload: payload@, size: size as nat }),
        r matches ReadFront::Whole { fin, opcode, payload, size } ==> size <= bytes@.len() && opcode
            < 16 && payload@.len() <= MAX_PAYLOAD_SIZE,
{
    if bytes.len() < 2 {
        return ReadFront::Incomplete;
    }
    let first: u8 = bytes[0];
    let second: u8 = bytes[1];
    proof {
        lemma_header_bits(first);
        lemma_header_bits(second);
    }
    let fin: bool = first & 0b10000000u8 != 0;
    let opcode: u8 = first & 0b00001111u8;
    let is_masked: bool = second & 0b10000000u8 != 0;
    let specifier: u8 = second & 0b01111111u8;
    if is_masked {
        return ReadFront::Masked;
    }
    match announced_length(bytes, specifier) {
        AnnouncedLength::Incomplete => ReadFront::Incomplete,
        AnnouncedLength::BadSpecifier => ReadFront::BadSpecifier,
        AnnouncedLength::Known { len, header } => {
            if len > MAX_PAYLOAD_SIZE {
                return ReadFront::TooLarge;
            }
            let len: usize = len as usize;
            if bytes.len() - header < len {
                return ReadFront::Incomplete;
            }
            let payload: Vec<u8> = vstd::slice::slice_to_vec(
                vstd::slice::slice_subrange(bytes, header, header + len),
            );
            ReadFront::Whole { fin, opcode, payload, size: header + len }
        },
    }
}

/// Masks a payload in place. Masking twice with one key gives the payload back.
pub fn mask(payload: &mut Vec<u8>, key: &Vec<u8>)
    requires
        key@.len() == 4,
    ensures
        final(payload)@ == masked(old(payload)@, key@),
        final(payload)@.len() == old(payload)@.len(),
        forall|i: int|
            0 <= i < old(payload)@.len() ==> #[trigger] final(payload)@[i] == old(payload)@[i]
                ^ key@[i % 4],
{
    let ghost before = payload@;
    let mut i: usize = 0;
    while i < payload.len()
        invariant
            key@.len() == 4,
            i <= payload@.len(),
            payload@.len() == before.len(),
            forall|j: int| 0 <= j < i ==> payload@[j] == before[j] ^ key@[j % 4],
            forall|j: int| i <= j < before.len() ==> payload@[j] == before[j],
        decreases payload@.len() - i,
    {
        let byte: u8 = payload[i] ^ key[i % 4];
        payload.set(i, byte);
        i = i + 1;
    }
    assert(payload@ =~= masked(before, key@));
}

proof fn lemma_header_bits(b: u8)
    ensures
        b & 0b10000000u8 != 0 <==> b >= 128,
        b & 0b00001111u8 == b % 16,
        b < 128 ==> b & 0b01111111u8 == b,
{
    assert(b & 0b10000000u8 != 0 <==> b >= 128) by (bit_vector);
    assert(b & 0b00001111u8 == b % 16) by (bit_vector);
    assert(b < 128 ==> b & 0b01111111u8 == b) by (bit_vector);
}

proof fn lemma_pow256_up_to_8(count: nat)
    requires
        count <= 8,
    ensures
        pow256(count) <= 0x1_0000_0000_0000_0000,
{
    reveal_with_fuel(pow256, 9);
}

proof fn lemma_be_bytes_len(n: nat, count: nat)
    ensures
        be_bytes(n, count).len() == count,
    decreases count,
{
    if count > 0 {
        lemma_be_bytes_len(n / 256, (count - 1) as nat);
    }
}

/// A length field takes at most nine bytes, and its first byte holds the mask flag.
pub proof fn lemma_length_field(len: nat, masked: bool)
    ensures
        1 <= length_field(len, masked).len() <= 9,
        masked <==> length_field(len, masked)[0] >= 128,
{
    lemma_be_bytes_len(len, 2);
    lemma_be_bytes_len(len, 8);
}

/// A number that fits on `count` bytes is read back from the bytes that it was written on.
pub proof fn law_be_bytes_read_back(n: nat, count: nat)
    requires
        n < pow256(count),
    ensures
        be_bytes(n, count).len() == count,
        be_value(be_bytes(n, count)) == n,
    decreases count,
{
    lemma_be_bytes_len(n, count);
    if count > 0 {
        law_be_bytes_read_back(n / 256, (count - 1) as nat);
        let bytes = be_bytes(n, count);
        assert(bytes.drop_last() =~= be_bytes(n / 256, (count - 1) as nat));
        assert(bytes.last() == (n % 256) as u8);
    }
}

/// Masking is its own inverse: a payload masked twice with one key is the payload.
pub proof fn law_mask_twice(payload: Seq<u8>, key: Seq<u8>)
    requires
        key.len() == 4,
    ensures
        masked(masked(payload, key), key) == payload,
{
    assert forall|i: int| 0 <= i < payload.len() implies masked(masked(payload, key), key)[i]
        == payload[i] by {
        let a = payload[i];
        let k = key[i % 4];
        assert((a ^ k) ^ k == a) by (bit_vector);
    }
    assert(masked(masked(payload, key), key) =~= payload);
}

/// The receiver of a frame from a client finds the key right before the payload, and by it the
/// payload itself.
pub proof fn law_client_payload_is_recovered(first: u8, body: Seq<u8>, key: Seq<u8>)
    requires
        key.len() == 4,
    ensures
        ({
            let sent = client_frame(first, body, key);
            let start = sent.len() - body.len();
            &&& sent[0] == first
            &&& sent.subrange(1, start - 4) == length_field(body.len(), true)
            &&& sent.subrange(start - 4, start as int) == key
            &&& masked(sent.skip(start as int), sent.subrange(start - 4, start as int)) == body
        }),
{
    let sent = client_frame(first, body, key);
    let start = sent.len() - body.len();
    law_mask_twice(body, key);
    assert(sent.subrange(1, start - 4) =~= length_field(body.len(), true));
    assert(sent.subrange(start - 4, start as int) =~= key);
    assert(sent.skip(start as int) =~= masked(body, key));
}

/// A number is written to the base of 256, the most significant digit first: each byte is the digit
/// of its place.
pub proof fn law_bytes_are_digits(n: nat, count: nat)
    ensures
        be_bytes(n, count).len() == count,
        forall|i: int|
            0 <= i < count ==> #[trigger] be_bytes(n, count)[i] == (n as int / pow(
                256,
                (count - 1 - i) as nat,
            )) % 256,
    decreases count,
{
    lemma_be_bytes_len(n, count);
    if count > 0 {
        let shorter = be_bytes(n / 256, (count - 1) as nat);
        law_bytes_are_digits(n / 256, (count - 1) as nat);
        assert forall|i: int| 0 <= i < count implies #[trigger] be_bytes(n, count)[i] == (n as int
            / pow(256, (count - 1 - i) as nat)) % 256 by {
            vstd::arithmetic::power::lemma_pow0(256);
            if i < count - 1 {
                let lower = pow(256, (count - 2 - i) as nat);
                assert(be_bytes(n, count)[i] == shorter[i]);
                vstd::arithmetic::power::lemma_pow_positive(256, (count - 2 - i) as nat);
                assert(pow(256, (count - 1 - i) as nat) == 256 * lower) by {
                    reveal(pow);
                }
                vstd::arithmetic::div_mod::lemma_div_denominator(n as int, 256, lower);
            }
        }
    }
}

/// The first of a run of bytes counts for as much as there are bytes behind it, each a digit to the
/// base of 256.
pub proof fn law_first_byte_counts_most(first: u8, rest: Seq<u8>)
    ensures
        be_value(seq![first] + rest) == first * pow(256, rest.len()) + be_value(rest),
    decreases rest.len(),
{
    let all = seq![first] + rest;
    if rest.len() == 0 {
        vstd::arithmetic::power::lemma_pow0(256);
        assert(all.drop_last() =~= Seq::empty());
        reveal_with_fuel(be_value, 2);
    } else {
        law_first_byte_counts_most(first, rest.drop_last());
        assert(all.drop_last() =~= seq![first] + rest.drop_last());
        let lower = pow(256, (rest.len() - 1) as nat);
        assert(pow(256, rest.len()) == 256 * lower) by {
            reveal(pow);
        }
        assert(first * (256 * lower) == (first * lower) * 256) by (nonlinear_arith);
    }
}

/// Two bytes write a number of two digits.
pub proof fn lemma_be_value_of_two(bytes: Seq<u8>)
    requires
        bytes.len() == 2,
    ensures
        be_value(bytes) == bytes[0] * 256 + bytes[1],
{
    reveal_with_fuel(be_value, 3);
}

/// Eight bytes write a number of eight digits.
proof fn lemma_be_value_of_eight(bytes: Seq<u8>)
    requires
        bytes.len() == 8,
    ensures
        be_value(bytes) == bytes[0] * 0x100_0000_0000_0000 + bytes[1] * 0x1_0000_0000_0000 + bytes[2]
            * 0x100_0000_0000 + bytes[3] * 0x1_0000_0000 + bytes[4] * 0x100_0000 + bytes[5]
            * 0x1_0000 + bytes[6] * 0x100 + bytes[7],
{
    reveal_with_fuel(be_value, 9);
}

/// A payload goes out combined with the key by exclusive or: each byte that is sent, combined with
/// the byte of the key whose turn it is, is the byte of the payload. The key stands right before the
/// payload, and its four bytes take turns.
pub proof fn law_sent_bytes_unmask(first: u8, body: Seq<u8>, key: Seq<u8>)
    requires
        key.len() == 4,
    ensures
        ({
            let sent = client_frame(first, body, key);
            let start = sent.len() - body.len();
            &&& start >= 6
            &&& forall|i: int| 0 <= i < 4 ==> sent[start - 4 + i] == #[trigger] key[i]
            &&& forall|i: int|
                0 <= i < body.len() ==> sent[start + i] ^ sent[start - 4 + i % 4]
                    == #[trigger] body[i]
        }),
{
    let sent = client_frame(first, body, key);
    let start = sent.len() - body.len();
    lemma_length_field(body.len(), true);
    assert forall|i: int| 0 <= i < body.len() implies sent[start + i] ^ sent[start - 4 + i % 4]
        == #[trigger] body[i] by {
        let a = body[i];
        let k = key[i % 4];
        assert((a ^ k) ^ k == a) by (bit_vector);
        assert(sent[start + i] == a ^ k);
        assert(sent[start - 4 + i % 4] == k);
    }
}

/// The header that a client sends: its first byte, the mask flag with the length of the payload on
/// one byte, or on two or eight bytes behind a specifier, and nothing else before the key.
pub proof fn law_sent_header_tells_the_length(first: u8, body: Seq<u8>, key: Seq<u8>)
    requires
        key.len() == 4,
        body.len() <= u64::MAX,
    ensures
        ({
            let sent = client_frame(first, body, key);
            let len = body.len();
            &&& sent[0] == first
            &&& len <= 125 ==> sent.len() == 6 + len && sent[1] == 128 + len
            &&& 126 <= len <= 65534 ==> sent.len() == 8 + len && sent[1] == 254 && sent[2] * 256
                + sent[3] == len
            &&& len >= 65535 ==> sent.len() == 14 + len && sent[1] == 255 && sent[2]
                * 0x100_0000_0000_0000 + sent[3] * 0x1_0000_0000_0000 + sent[4] * 0x100_0000_0000
                + sent[5] * 0x1_0000_0000 + sent[6] * 0x100_0000 + sent[7] * 0x1_0000 + sent[8]
                * 0x100 + sent[9] == len
        }),
{
    let sent = client_frame(first, body, key);
    let len = body.len();
    assert(pow256(2) == 65536 && pow256(8) == 0x1_0000_0000_0000_0000) by {
        reveal_with_fuel(pow256, 9);
    }
    if len > 125 && len < 65535 {
        law_be_bytes_read_back(len, 2);
        lemma_be_value_of_two(be_bytes(len, 2));
        assert(sent.subrange(2, 4) =~= be_bytes(len, 2));
    } else if len >= 65535 {
        let digits = be_bytes(len, 8);
        law_be_bytes_read_back(len, 8);
        lemma_be_value_of_eight(digits);
        assert forall|i: int| 0 <= i < 8 implies sent[2 + i] == #[trigger] digits[i] by {}
    }
}

/// How a buffer is read whose first frame announces its length in the specifier itself: as soon as
/// so many bytes follow the header they are the payload.
pub proof fn law_short_frame_is_read(bytes: Seq<u8>)
    requires
        bytes.len() >= 2,
        bytes[1] <= 125,
    ensures
        front(bytes) is Incomplete <==> bytes.len() < 2 + bytes[1],
        bytes.len() >= 2 + bytes[1] ==> front(bytes) == (Front::Whole {
            fin: bytes[0] >= 128,
            opcode: bytes[0] % 16,
            payload: bytes.subrange(2, 2 + bytes[1]),
            size: (2 + bytes[1]) as nat,
        }),
{
}

/// How a buffer is read whose first frame announces its length on two bytes.
pub proof fn law_medium_frame_is_read(bytes: Seq<u8>)
    requires
        bytes.len() >= 4,
        bytes[1] == 126,
    ensures
        ({
            let len = bytes[2] * 256 + bytes[3];
            &&& front(bytes) is Incomplete <==> bytes.len() < 4 + len
            &&& bytes.len() >= 4 + len ==> front(bytes) == (Front::Whole {
                fin: bytes[0] >= 128,
                opcode: bytes[0] % 16,
                payload: bytes.subrange(4, 4 + len),
                size: (4 + len) as nat,
            })
        }),
{
    lemma_be_value_of_two(bytes.subrange(2, 4));
}

/// How a buffer is read whose first frame announces its length on eight bytes. Two million bytes
/// are the most that is read.
pub proof fn law_long_frame_is_read(bytes: Seq<u8>)
    requires
        bytes.len() >= 10,
        bytes[1] == 127,
    ensures
        ({
            let len = bytes[2] * 0x100_0000_0000_0000 + bytes[3] * 0x1_0000_0000_0000 + bytes[4]
                * 0x100_0000_0000 + bytes[5] * 0x1_0000_0000 + bytes[6] * 0x100_0000 + bytes[7]
                * 0x1_0000 + bytes[8] * 0x100 + bytes[9];
            &&& front(bytes) == Front::Refused(Refusal::TooLarge) <==> len > 2_000_000
            &&& front(bytes) is Incomplete <==> len <= 2_000_000 && bytes.len() < 10 + len
            &&& len <= 2_000_000 && bytes.len() >= 10 + len ==> front(bytes) == (Front::Whole {
                fin: bytes[0] >= 128,
                opcode: bytes[0] % 16,
                payload: bytes.subrange(10, 10 + len),
                size: (10 + len) as nat,
            })
        }),
{
    let digits = bytes.subrange(2, 10);
    lemma_be_value_of_eight(digits);
    assert forall|i: int| 0 <= i < 8 implies bytes[2 + i] == #[trigger] digits[i] by {}
}

/// What the front of a buffer is before the length is known: a mask flag is refused as soon as it
/// has arrived, and otherwise the header is waited for.
pub proof fn law_header_is_waited_for(bytes: Seq<u8>)
    ensures
        bytes.len() < 2 ==> front(bytes) is Incomplete,
        bytes.len() >= 2 ==> (bytes[1] >= 128 <==> front(bytes) == Front::Refused(Refusal::Masked)),
        2 <= bytes.len() < 4 && bytes[1] == 126 ==> front(bytes) is Incomplete,
        2 <= bytes.len() < 10 && bytes[1] == 127 ==> front(bytes) is Incomplete,
{
}

/// Whatever a client sends is refused when it is read as a frame from a server: the mask flag is
/// always set.
pub proof fn law_client_frames_are_masked(first: u8, body: Seq<u8>, key: Seq<u8>, rest: Seq<u8>)
    requires
        key.len() == 4,
    ensures
        front(client_frame(first, body, key) + rest) == Front::Refused(Refusal::Masked),
{
    let bytes = client_frame(first, body, key) + rest;
    lemma_length_field(body.len(), true);
    assert(bytes[1] == length_field(body.len(), true)[0]);
}

/// A frame from a server is read back whole, whatever follows it: the flag, the opcode, the
/// payload, and where the next frame starts.
pub proof fn law_server_frame_read_back(first: u8, body: Seq<u8>, rest: Seq<u8>)
    requires
        body.len() <= MAX_PAYLOAD_SIZE,
    ensures
        front(server_frame(first, body) + rest) == (Front::Whole {
            fin: first >= 128,
            opcode: first % 16,
            payload: body,
            size: server_frame(first, body).len(),
        }),
{
    let len = body.len();
    let field = length_field(len, false);
    let bytes = server_frame(first, body) + rest;
    assert(pow256(2) == 65536 && pow256(8) == 0x1_0000_0000_0000_0000) by {
        reveal_with_fuel(pow256, 9);
    }
    if len <= 125 {
        assert(bytes.subrange(2, (2 + len) as int) =~= body);
    } else if len < 65535 {
        law_be_bytes_read_back(len, 2);
        assert(bytes.subrange(2, 4) =~= be_bytes(len, 2));
        assert(bytes.subrange(4, (4 + len) as int) =~= body);
    } else {
        law_be_bytes_read_back(len, 8);
        assert(bytes.subrange(2, 10) =~= be_bytes(len, 8));
        assert(bytes.subrange(10, (10 + len) as int) =~= body);
    }
    assert(bytes[0] == first);
    assert(bytes[1] == field[0]);
}

/// Bytes that arrive later change nothing about what was already there: a whole frame stays the
/// frame that it was, and a refused one stays refused.
pub proof fn law_front_is_stable(bytes: Seq<u8>, more: Seq<u8>)
    requires
        front(bytes) !is Incomplete,
    ensures
        front(bytes + more) == front(bytes),
{
    let all = bytes + more;
    if bytes[1] < 128 {
        let header = 2 + extended_len(bytes[1]);
        assert(all.subrange(2, header as int) =~= bytes.subrange(2, header as int));
        let len = announced_len(bytes[1], bytes.subrange(2, header as int));
        if len <= MAX_PAYLOAD_SIZE {
            assert(all.subrange(header as int, (header + len) as int) =~= bytes.subrange(
                header as int,
                (header + len) as int,
            ));
        }
    }
}

} // verus!
