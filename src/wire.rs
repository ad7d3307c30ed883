use vstd::prelude::*;
use vstd::string::StringSliceAdditionalSpecFns;
use vstd::utf8::{decode_utf8, encode_utf8, valid_utf8};
use crate::bytes::{append, to_vec};
use crate::handshake_message::Message;

verus! {

/// Wire type of a varint field.
pub const WIRE_VARINT: u8 = 0;

/// Wire type of a 64-bit field.
pub const WIRE_FIXED64: u8 = 1;

/// Wire type of a length-delimited field.
pub const WIRE_LEN: u8 = 2;

/// Wire type of a 32-bit field.
pub const WIRE_FIXED32: u8 = 5;

/// Marks a field number that the message does not define.
pub const WIRE_UNKNOWN: u8 = 255;

/// Largest key a field may carry.
pub const MAX_KEY: u64 = 0xffff_ffff;

/// A frame that is not a well-formed encoding of the expected record.
#[derive(Debug, Clone, Copy, PartialEq, Eq, Structural)]
pub enum WireError {
    Decode,
}

/// Base-128 varint encoding, least significant group first.
pub open spec fn varint(v: nat) -> Seq<u8>
    decreases v,
{
    if v < 128 {
        seq![v as u8]
    } else {
        seq![(v % 128 + 128) as u8] + varint(v / 128)
    }
}

/// Encoding of a length-delimited field; an empty value is left out.
pub open spec fn bytes_field(number: nat, b: Seq<u8>) -> Seq<u8> {
    if b.len() == 0 {
        Seq::empty()
    } else {
        varint(number * 8 + 2) + varint(b.len()) + b
    }
}

/// Encoding of a nested message field, present even when empty.
pub open spec fn message_field(number: nat, b: Seq<u8>) -> Seq<u8> {
    varint(number * 8 + 2) + varint(b.len()) + b
}

/// Encoding of a varint field; zero is left out.
pub open spec fn u64_field(number: nat, v: u64) -> Seq<u8> {
    if v == 0 {
        Seq::empty()
    } else {
        varint(number * 8) + varint(v as nat)
    }
}

/// Reads a varint at `pos` of at most `10 - used` more bytes: value and next position.
pub open spec fn varint_from(b: Seq<u8>, pos: int, used: nat) -> Option<(nat, int)>
    decreases 10 - used,
{
    if pos < 0 || pos >= b.len() || used >= 10 {
        None
    } else if b[pos] < 128 {
        Some((b[pos] as nat, pos + 1))
    } else {
        match varint_from(b, pos + 1, used + 1) {
            Some((v, p)) => Some((((b[pos] - 128) + 128 * v) as nat, p)),
            None => None,
        }
    }
}

/// Reads a varint at `pos` that fits in 64 bits.
pub open spec fn read_varint(b: Seq<u8>, pos: int) -> Option<(u64, int)> {
    match varint_from(b, pos, 0) {
        Some((v, p)) => if v <= u64::MAX {
            Some((v as u64, p))
        } else {
            None
        },
        None => None,
    }
}

/// One field of an encoded record: its number and wire type, its varint value
/// (or its length), and the range of its payload; `end` is where the next field starts.
#[derive(Clone, Copy)]
pub struct Field {
    pub number: u64,
    pub wire: u8,
    pub value: u64,
    pub start: usize,
    pub end: usize,
}

/// The field that starts at `pos`, if one does.
pub open spec fn field_at(b: Seq<u8>, pos: int) -> Option<Field> {
    match read_varint(b, pos) {
        None => None,
        Some((key, p1)) => if key > MAX_KEY || key / 8 == 0 {
            None
        } else {
            let number = key / 8;
            let wire = key % 8;
            if wire == WIRE_VARINT {
                match read_varint(b, p1) {
                    Some((v, p2)) => Some(
                        Field { number, wire: 0, value: v, start: p1 as usize, end: p2 as usize },
                    ),
                    None => None,
                }
            } else if wire == WIRE_LEN {
                match read_varint(b, p1) {
                    Some((len, p2)) => if p2 + len <= b.len() {
                        Some(
                            Field {
                                number,
                                wire: 2,
                                value: len,
                                start: p2 as usize,
                                end: (p2 + len) as usize,
                            },
                        )
                    } else {
                        None
                    },
                    None => None,
                }
            } else if wire == WIRE_FIXED64 {
                if p1 + 8 <= b.len() {
                    Some(Field { number, wire: 1, value: 0, start: p1 as usize, end: (p1 + 8) as usize })
                } else {
                    None
                }
            } else if wire == WIRE_FIXED32 {
                if p1 + 4 <= b.len() {
                    Some(Field { number, wire: 5, value: 0, start: p1 as usize, end: (p1 + 4) as usize })
                } else {
                    None
                }
            } else {
                None
            }
        },
    }
}

/// Scans the fields from `pos` to the end, keeping the last occurrence of each
/// field number the record defines (`expected[n]` is its wire type); a field of
/// a defined number with another wire type fails, other numbers are skipped.
pub open spec fn scan(b: Seq<u8>, pos: int, expected: Seq<u8>, slots: Seq<Option<Field>>) -> Option<
    Seq<Option<Field>>,
>
    decreases b.len() - pos,
{
    if pos < 0 || pos >= b.len() {
        Some(slots)
    } else {
        match field_at(b, pos) {
            None => None,
            Some(f) => if f.end <= pos || f.end > b.len() {
                None
            } else if f.number < expected.len() && f.number < slots.len() && expected[f.number as int]
                != WIRE_UNKNOWN {
                if f.wire != expected[f.number as int] {
                    None
                } else {
                    scan(b, f.end as int, expected, slots.update(f.number as int, Some(f)))
                }
            } else {
                scan(b, f.end as int, expected, slots)
            },
        }
    }
}

/// The fields of a whole record.
pub open spec fn fields_of(b: Seq<u8>, expected: Seq<u8>) -> Option<Seq<Option<Field>>> {
    scan(b, 0, expected, Seq::new(expected.len(), |i: int| None))
}

/// Payload of a length-delimited slot (empty when absent).
pub open spec fn slot_bytes(b: Seq<u8>, s: Option<Field>) -> Seq<u8> {
    match s {
        Some(f) => b.subrange(f.start as int, f.end as int),
        None => Seq::empty(),
    }
}

/// Value of a varint slot (zero when absent).
pub open spec fn slot_u64(s: Option<Field>) -> u64 {
    match s {
        Some(f) => f.value,
        None => 0,
    }
}

/// Appends the varint encoding of `v`.
pub fn put_varint(out: &mut Vec<u8>, v: u64)
    ensures
        final(out)@ == old(out)@ + varint(v as nat),
{
    let ghost start = out@;
    let mut x: u64 = v;
    while x >= 128
        invariant
            out@ + varint(x as nat) == start + varint(v as nat),
        decreases x,
    {
        let ghost before = out@;
        out.push((x % 128 + 128) as u8);
        assert(varint(x as nat) == seq![(x % 128 + 128) as u8] + varint((x / 128) as nat));
        assert(out@ + varint((x / 128) as nat) =~= before + varint(x as nat));
        x = x / 128;
    }
    out.push(x as u8);
    assert(varint(x as nat) == seq![x as u8]);
    assert(out@ =~= start + varint(v as nat));
}

/// Appends a length-delimited field (nothing for an empty value).
pub fn put_bytes_field(out: &mut Vec<u8>, number: u8, b: &[u8])
    requires
        1 <= number <= 15,
    ensures
        final(out)@ == old(out)@ + bytes_field(number as nat, b@),
{
    if b.len() == 0 {
        assert(old(out)@ + Seq::<u8>::empty() =~= old(out)@);
        return;
    }
    let ghost start = out@;
    put_varint(out, (number as u64) * 8 + 2);
    put_varint(out, b.len() as u64);
    append(out, b);
    assert(out@ =~= start + (varint(number as nat * 8 + 2) + varint(b@.len()) + b@));
}

/// Appends a nested message field.
pub fn put_message_field(out: &mut Vec<u8>, number: u8, b: &[u8])
    requires
        1 <= number <= 15,
    ensures
        final(out)@ == old(out)@ + message_field(number as nat, b@),
{
    let ghost start = out@;
    put_varint(out, (number as u64) * 8 + 2);
    put_varint(out, b.len() as u64);
    append(out, b);
    assert(out@ =~= start + (varint(number as nat * 8 + 2) + varint(b@.len()) + b@));
}

/// Appends a varint field (nothing for zero).
pub fn put_u64_field(out: &mut Vec<u8>, number: u8, v: u64)
    requires
        1 <= number <= 15,
    ensures
        final(out)@ == old(out)@ + u64_field(number as nat, v),
{
    if v == 0 {
        assert(old(out)@ + Seq::<u8>::empty() =~= old(out)@);
        return;
    }
    let ghost start = out@;
    put_varint(out, (number as u64) * 8);
    put_varint(out, v);
    assert(out@ =~= start + (varint(number as nat * 8) + varint(v as nat)));
}

/// Reads a varint at `pos`.
pub fn get_varint(b: &[u8], pos: usize) -> (r: Option<(u64, usize)>)
    ensures
        match read_varint(b@, pos as int) {
            Some((v, p)) => r == Some((v, p as usize)),
            None => r is None,
        },
{
    if pos >= b.len() {
        return None;
    }
    let mut acc: u128 = 0;
    let mut mul: u128 = 1;
    let mut p: usize = pos;
    let mut used: usize = 0;
    let ghost k: nat = 0;
    while p < b.len() && used < 10
        invariant
            pos <= p <= b@.len(),
            used == p - pos,
            used <= 10,
            mul == pow128(used as nat),
            acc < mul,
            varint_from(b@, pos as int, 0) == match varint_from(b@, p as int, used as nat) {
                Some((v, q)) => Some(((acc + mul * v) as nat, q)),
                None => None::<(nat, int)>,
            },
        decreases 10 - used,
    {
        let byte = b[p];
        proof {
            lemma_pow128_bound(used as nat);
        }
        if byte < 128 {
            assert(mul * (byte as u128) <= 0x8000000000000000 * 128) by (nonlinear_arith)
                requires byte < 128, mul <= 0x8000000000000000;
            let prod: u128 = mul * (byte as u128);
            let total: u128 = acc + prod;
            if total > u64::MAX as u128 {
                return None;
            }
            return Some((total as u64, p + 1));
        }
        proof {
            let low: nat = (byte - 128) as nat;
            match varint_from(b@, p + 1, (used + 1) as nat) {
                Some((v, q)) => {
                    assert(acc + mul * (low + 128 * v) == (acc + mul * low) + (mul * 128) * v) by (nonlinear_arith);
                },
                None => {},
            }
            assert(acc + mul * low < mul * 128) by (nonlinear_arith)
                requires acc < mul, low < 128;
            assert(mul * 128 <= 0x8000000000000000 * 128) by (nonlinear_arith)
                requires mul <= 0x8000000000000000;
        }
        acc = acc + mul * ((byte - 128) as u128);
        mul = mul * 128;
        p = p + 1;
        used = used + 1;
    }
    None
}

/// 128 to the power `n`.
pub open spec fn pow128(n: nat) -> nat
    decreases n,
{
    if n == 0 {
        1
    } else {
        128 * pow128((n - 1) as nat)
    }
}

proof fn lemma_pow128_bound(n: nat)
    requires
        n < 10,
    ensures
        1 <= pow128(n) <= 0x8000000000000000,
{
    lemma_pow128_monotone(n, 9);
    reveal_with_fuel(pow128, 10);
    assert(pow128(9) == 0x8000000000000000);
}

proof fn lemma_pow128_monotone(n: nat, m: nat)
    requires
        n <= m,
    ensures
        1 <= pow128(n) <= pow128(m),
    decreases m,
{
    if n < m {
        lemma_pow128_monotone(n, (m - 1) as nat);
    } else if n > 0 {
        lemma_pow128_monotone((n - 1) as nat, (n - 1) as nat);
    }
}

proof fn lemma_varint_from_bounds(b: Seq<u8>, pos: int, used: nat)
    ensures
        varint_from(b, pos, used) matches Some((v, p)) ==> 0 <= pos < p <= b.len(),
    decreases 10 - used,
{
    if 0 <= pos < b.len() && used < 10 && b[pos] >= 128 {
        lemma_varint_from_bounds(b, pos + 1, used + 1);
    }
}

proof fn lemma_field_at_bounds(b: Seq<u8>, pos: int)
    requires
        b.len() <= usize::MAX,
    ensures
        field_at(b, pos) matches Some(f) ==> pos < f.start <= f.end <= b.len() && 1 <= f.number,
{
    lemma_varint_from_bounds(b, pos, 0);
    match read_varint(b, pos) {
        Some((key, p1)) => {
            lemma_varint_from_bounds(b, p1, 0);
        },
        None => {},
    }
}

/// Every slot that is filled lies within `b`.
pub open spec fn slots_in(b: Seq<u8>, slots: Seq<Option<Field>>) -> bool {
    forall|i: int| 0 <= i < slots.len() ==> (#[trigger] slots[i] matches Some(f) ==> f.start <= f.end <= b.len())
}

proof fn lemma_scan_in(b: Seq<u8>, pos: int, expected: Seq<u8>, slots: Seq<Option<Field>>)
    requires
        slots_in(b, slots),
        b.len() <= usize::MAX,
    ensures
        scan(b, pos, expected, slots) matches Some(s) ==> slots_in(b, s) && s.len() == slots.len(),
    decreases b.len() - pos,
{
    if 0 <= pos < b.len() {
        lemma_field_at_bounds(b, pos);
        match field_at(b, pos) {
            Some(f) => {
                if f.end > pos && f.end <= b.len() {
                    if f.number < expected.len() && f.number < slots.len() && expected[f.number as int]
                        != WIRE_UNKNOWN {
                        let s2 = slots.update(f.number as int, Some(f));
                        assert(slots_in(b, s2));
                        lemma_scan_in(b, f.end as int, expected, s2);
                    } else {
                        lemma_scan_in(b, f.end as int, expected, slots);
                    }
                }
            },
            None => {},
        }
    }
}

/// Reads the field that starts at `pos`.
pub fn get_field(b: &[u8], pos: usize) -> (r: Option<Field>)
    ensures
        r == field_at(b@, pos as int),
{
    let blen = b.len();
    assert(b@.len() == blen);
    proof {
        lemma_varint_from_bounds(b@, pos as int, 0);
    }
    let (key, p1) = match get_varint(b, pos) {
        Some(x) => x,
        None => return None,
    };
    if key > MAX_KEY || key / 8 == 0 {
        return None;
    }
    let number = key / 8;
    let wire = key % 8;
    proof {
        lemma_varint_from_bounds(b@, p1 as int, 0);
    }
    if wire == 0 {
        match get_varint(b, p1) {
            Some((v, p2)) => Some(Field { number, wire: 0, value: v, start: p1, end: p2 }),
            None => None,
        }
    } else if wire == 2 {
        match get_varint(b, p1) {
            Some((len, p2)) => if len <= (b.len() - p2) as u64 {
                Some(Field { number, wire: 2, value: len, start: p2, end: p2 + len as usize })
            } else {
                None
            },
            None => None,
        }
    } else if wire == 1 {
        if b.len() >= 8 && p1 <= b.len() - 8 {
            Some(Field { number, wire: 1, value: 0, start: p1, end: p1 + 8 })
        } else {
            None
        }
    } else if wire == 5 {
        if b.len() >= 4 && p1 <= b.len() - 4 {
            Some(Field { number, wire: 5, value: 0, start: p1, end: p1 + 4 })
        } else {
            None
        }
    } else {
        None
    }
}

/// Scans a whole record; `expected[n]` is the wire type of field `n`, or
/// `WIRE_UNKNOWN` for a number the record does not define.
pub fn scan_fields(b: &[u8], expected: &[u8]) -> (r: Option<Vec<Option<Field>>>)
    ensures
        match fields_of(b@, expected@) {
            Some(s) => r matches Some(v) && v@ == s,
            None => r is None,
        },
        r matches Some(v) ==> slots_in(b@, v@) && v@.len() == expected@.len(),
{
    let mut slots: Vec<Option<Field>> = Vec::new();
    while slots.len() < expected.len()
        invariant
            slots@.len() <= expected@.len(),
            forall|i: int| 0 <= i < slots@.len() ==> slots@[i] is None,
        decreases expected@.len() - slots@.len(),
    {
        slots.push(None);
    }
    assert(slots@ =~= Seq::new(expected@.len(), |i: int| None::<Field>));
    let blen = b.len();
    assert(b@.len() == blen);
    proof {
        lemma_scan_in(b@, 0, expected@, slots@);
    }
    let mut pos: usize = 0;
    while pos < b.len()
        invariant
            fields_of(b@, expected@) == scan(b@, pos as int, expected@, slots@),
            slots@.len() == expected@.len(),
            slots_in(b@, slots@),
            pos <= b@.len(),
        decreases b@.len() - pos,
    {
        let f = match get_field(b, pos) {
            Some(f) => f,
            None => return None,
        };
        if f.end <= pos || f.end > b.len() {
            return None;
        }
        if f.number < expected.len() as u64 && f.number < slots.len() as u64 && expected[f.number as usize]
            != WIRE_UNKNOWN {
            if f.wire != expected[f.number as usize] {
                return None;
            }
            proof {
                lemma_field_at_bounds(b@, pos as int);
            }
            slots[f.number as usize] = Some(f);
        }
        pos = f.end;
    }
    proof {
        lemma_scan_in(b@, pos as int, expected@, slots@);
    }
    Some(slots)
}

/// The payload of a slot, copied (empty when absent).
fn slot_payload(b: &[u8], s: &Option<Field>) -> (r: Vec<u8>)
    requires
        s matches Some(f) ==> f.start <= f.end <= b@.len(),
    ensures
        r@ == slot_bytes(b@, *s),
{
    match s {
        Some(f) => to_vec(vstd::slice::slice_subrange(b, f.start, f.end)),
        None => Vec::new(),
    }
}

/// The varint value of a slot (zero when absent).
fn slot_value(s: &Option<Field>) -> (r: u64)
    ensures
        r == slot_u64(*s),
{
    match s {
        Some(f) => f.value,
        None => 0,
    }
}

/// Relies on String::from_utf8: the string exactly when the bytes are valid UTF-8.
#[verifier::external_body]
fn utf8_string(b: &[u8]) -> (r: Option<String>)
    ensures
        r is Some <==> valid_utf8(b@),
        r matches Some(s) ==> s@ == decode_utf8(b@),
{
    String::from_utf8(b.to_vec()).ok()
}

/// Plaintext chat record.
#[derive(Clone, Debug, PartialEq)]
pub struct ChatMessage {
    pub username: String,
    pub content: String,
    pub timestamp: u64,
    pub identity_id: Vec<u8>,
}

/// Encrypted, signed chat frame.
#[derive(Clone, Debug, PartialEq)]
pub struct EncryptedMessage {
    pub sender: Vec<u8>,
    pub nonce: Vec<u8>,
    pub ciphertext: Vec<u8>,
    pub timestamp: u64,
    pub signature: Vec<u8>,
    pub identity_id: Vec<u8>,
    pub identity_proof: Vec<u8>,
    pub pq_signature: Vec<u8>,
}

/// First handshake message, initiator to responder.
#[derive(Clone, Debug, PartialEq)]
pub struct HandshakeInit {
    pub peer_id: Vec<u8>,
    pub x25519_pk: Vec<u8>,
    pub pq_pk: Vec<u8>,
    pub signature: Vec<u8>,
    pub verify_key: Vec<u8>,
}

/// Second handshake message, responder to initiator.
#[derive(Clone, Debug, PartialEq)]
pub struct HandshakeResp {
    pub peer_id: Vec<u8>,
    pub x25519_pk: Vec<u8>,
    pub pq_ct: Vec<u8>,
    pub signature: Vec<u8>,
    pub verify_key: Vec<u8>,
}

pub open spec fn chat_bytes(username: Seq<char>, content: Seq<char>, timestamp: u64, identity_id: Seq<u8>) -> Seq<u8> {
    bytes_field(1, encode_utf8(username)) + bytes_field(2, encode_utf8(content)) + u64_field(3, timestamp)
        + bytes_field(4, identity_id)
}

pub open spec fn chat_encoding(m: ChatMessage) -> Seq<u8> {
    chat_bytes(m.username@, m.content@, m.timestamp, m.identity_id@)
}

pub open spec fn encrypted_encoding(m: EncryptedMessage) -> Seq<u8> {
    bytes_field(1, m.sender@) + bytes_field(2, m.nonce@) + bytes_field(3, m.ciphertext@) + u64_field(
        4,
        m.timestamp,
    ) + bytes_field(5, m.signature@) + bytes_field(6, m.identity_id@) + bytes_field(7, m.identity_proof@)
        + bytes_field(8, m.pq_signature@)
}

pub open spec fn init_encoding(m: HandshakeInit) -> Seq<u8> {
    bytes_field(1, m.peer_id@) + bytes_field(2, m.x25519_pk@) + bytes_field(3, m.pq_pk@) + bytes_field(
        4,
        m.signature@,
    ) + bytes_field(5, m.verify_key@)
}

pub open spec fn resp_encoding(m: HandshakeResp) -> Seq<u8> {
    bytes_field(1, m.peer_id@) + bytes_field(2, m.x25519_pk@) + bytes_field(3, m.pq_ct@) + bytes_field(
        4,
        m.signature@,
    ) + bytes_field(5, m.verify_key@)
}

pub open spec fn chat_layout() -> Seq<u8> {
    seq![WIRE_UNKNOWN, WIRE_LEN, WIRE_LEN, WIRE_VARINT, WIRE_LEN]
}

pub open spec fn encrypted_layout() -> Seq<u8> {
    seq![WIRE_UNKNOWN, WIRE_LEN, WIRE_LEN, WIRE_LEN, WIRE_VARINT, WIRE_LEN, WIRE_LEN, WIRE_LEN, WIRE_LEN]
}

pub open spec fn handshake_layout() -> Seq<u8> {
    seq![WIRE_UNKNOWN, WIRE_LEN, WIRE_LEN, WIRE_LEN, WIRE_LEN, WIRE_LEN]
}

/// A decoded chat record: username, content, timestamp, identity id.
pub open spec fn chat_decoding(b: Seq<u8>) -> Option<(Seq<char>, Seq<char>, u64, Seq<u8>)> {
    match fields_of(b, chat_layout()) {
        None => None,
        Some(s) => {
            let u = slot_bytes(b, s[1]);
            let c = slot_bytes(b, s[2]);
            if valid_utf8(u) && valid_utf8(c) {
                Some((decode_utf8(u), decode_utf8(c), slot_u64(s[3]), slot_bytes(b, s[4])))
            } else {
                None
            }
        },
    }
}

/// The fields of a decoded encrypted frame, in field order (timestamp apart).
pub open spec fn encrypted_decoding(b: Seq<u8>) -> Option<(Seq<Seq<u8>>, u64)> {
    match fields_of(b, encrypted_layout()) {
        None => None,
        Some(s) => Some(
            (
                seq![
                    slot_bytes(b, s[1]),
                    slot_bytes(b, s[2]),
                    slot_bytes(b, s[3]),
                    slot_bytes(b, s[5]),
                    slot_bytes(b, s[6]),
                    slot_bytes(b, s[7]),
                    slot_bytes(b, s[8]),
                ],
                slot_u64(s[4]),
            ),
        ),
    }
}

/// The five byte fields of a decoded handshake message, in field order.
pub open spec fn handshake_decoding(b: Seq<u8>) -> Option<Seq<Seq<u8>>> {
    match fields_of(b, handshake_layout()) {
        None => None,
        Some(s) => Some(
            seq![
                slot_bytes(b, s[1]),
                slot_bytes(b, s[2]),
                slot_bytes(b, s[3]),
                slot_bytes(b, s[4]),
                slot_bytes(b, s[5]),
            ],
        ),
    }
}

impl ChatMessage {
    pub fn encode_to_vec(&self) -> (r: Vec<u8>)
        ensures
            r@ == chat_encoding(*self),
    {
        let mut out: Vec<u8> = Vec::new();
        put_bytes_field(&mut out, 1, self.username.as_str().as_bytes());
        put_bytes_field(&mut out, 2, self.content.as_str().as_bytes());
        put_u64_field(&mut out, 3, self.timestamp);
        put_bytes_field(&mut out, 4, self.identity_id.as_slice());
        assert(out@ =~= chat_encoding(*self));
        out
    }

    pub fn decode(b: &[u8]) -> (r: Result<ChatMessage, WireError>)
        ensures
            match chat_decoding(b@) {
                Some(t) => r matches Ok(m) && m.username@ == t.0 && m.content@ == t.1 && m.timestamp == t.2
                    && m.identity_id@ == t.3,
                None => r == Err::<ChatMessage, WireError>(WireError::Decode),
            },
    {
        let layout: [u8; 5] = [WIRE_UNKNOWN, WIRE_LEN, WIRE_LEN, WIRE_VARINT, WIRE_LEN];
        assert(layout@ =~= chat_layout());
        let slots = match scan_fields(b, &layout) {
            Some(s) => s,
            None => return Err(WireError::Decode),
        };
        let u = slot_payload(b, &slots[1]);
        let c = slot_payload(b, &slots[2]);
        let username = match utf8_string(u.as_slice()) {
            Some(s) => s,
            None => return Err(WireError::Decode),
        };
        let content = match utf8_string(c.as_slice()) {
            Some(s) => s,
            None => return Err(WireError::Decode),
        };
        Ok(ChatMessage {
            username,
            content,
            timestamp: slot_value(&slots[3]),
            identity_id: slot_payload(b, &slots[4]),
        })
    }
}

impl EncryptedMessage {
    pub fn encode_to_vec(&self) -> (r: Vec<u8>)
        ensures
            r@ == encrypted_encoding(*self),
    {
        let mut out: Vec<u8> = Vec::new();
        put_bytes_field(&mut out, 1, self.sender.as_slice());
        put_bytes_field(&mut out, 2, self.nonce.as_slice());
        put_bytes_field(&mut out, 3, self.ciphertext.as_slice());
        put_u64_field(&mut out, 4, self.timestamp);
        put_bytes_field(&mut out, 5, self.signature.as_slice());
        put_bytes_field(&mut out, 6, self.identity_id.as_slice());
        put_bytes_field(&mut out, 7, self.identity_proof.as_slice());
        put_bytes_field(&mut out, 8, self.pq_signature.as_slice());
        assert(out@ =~= encrypted_encoding(*self));
        out
    }

    pub fn decode(b: &[u8]) -> (r: Result<EncryptedMessage, WireError>)
        ensures
            match encrypted_decoding(b@) {
                Some((f, t)) => r matches Ok(m) && m.sender@ == f[0] && m.nonce@ == f[1] && m.ciphertext@
                    == f[2] && m.timestamp == t && m.signature@ == f[3] && m.identity_id@ == f[4]
                    && m.identity_proof@ == f[5] && m.pq_signature@ == f[6],
                None => r == Err::<EncryptedMessage, WireError>(WireError::Decode),
            },
    {
        let layout: [u8; 9] = [
            WIRE_UNKNOWN,
            WIRE_LEN,
            WIRE_LEN,
            WIRE_LEN,
            WIRE_VARINT,
            WIRE_LEN,
            WIRE_LEN,
            WIRE_LEN,
            WIRE_LEN,
        ];
        assert(layout@ =~= encrypted_layout());
        let slots = match scan_fields(b, &layout) {
            Some(s) => s,
            None => return Err(WireError::Decode),
        };
        Ok(EncryptedMessage {
            sender: slot_payload(b, &slots[1]),
            nonce: slot_payload(b, &slots[2]),
            ciphertext: slot_payload(b, &slots[3]),
            timestamp: slot_value(&slots[4]),
            signature: slot_payload(b, &slots[5]),
            identity_id: slot_payload(b, &slots[6]),
            identity_proof: slot_payload(b, &slots[7]),
            pq_signature: slot_payload(b, &slots[8]),
        })
    }
}

impl HandshakeInit {
    pub fn encode_to_vec(&self) -> (r: Vec<u8>)
        ensures
            r@ == init_encoding(*self),
    {
        let mut out: Vec<u8> = Vec::new();
        put_bytes_field(&mut out, 1, self.peer_id.as_slice());
        put_bytes_field(&mut out, 2, self.x25519_pk.as_slice());
        put_bytes_field(&mut out, 3, self.pq_pk.as_slice());
        put_bytes_field(&mut out, 4, self.signature.as_slice());
        put_bytes_field(&mut out, 5, self.verify_key.as_slice());
        assert(out@ =~= init_encoding(*self));
        out
    }

    pub fn decode(b: &[u8]) -> (r: Result<HandshakeInit, WireError>)
        ensures
            match handshake_decoding(b@) {
                Some(f) => r matches Ok(m) && m.peer_id@ == f[0] && m.x25519_pk@ == f[1] && m.pq_pk@ == f[2]
                    && m.signature@ == f[3] && m.verify_key@ == f[4],
                None => r == Err::<HandshakeInit, WireError>(WireError::Decode),
            },
    {
        let layout: [u8; 6] = [WIRE_UNKNOWN, WIRE_LEN, WIRE_LEN, WIRE_LEN, WIRE_LEN, WIRE_LEN];
        assert(layout@ =~= handshake_layout());
        let slots = match scan_fields(b, &layout) {
            Some(s) => s,
            None => return Err(WireError::Decode),
        };
        Ok(HandshakeInit {
            peer_id: slot_payload(b, &slots[1]),
            x25519_pk: slot_payload(b, &slots[2]),
            pq_pk: slot_payload(b, &slots[3]),
            signature: slot_payload(b, &slots[4]),
            verify_key: slot_payload(b, &slots[5]),
        })
    }
}

impl HandshakeResp {
    pub fn encode_to_vec(&self) -> (r: Vec<u8>)
        ensures
            r@ == resp_encoding(*self),
    {
        let mut out: Vec<u8> = Vec::new();
        put_bytes_field(&mut out, 1, self.peer_id.as_slice());
        put_bytes_field(&mut out, 2, self.x25519_pk.as_slice());
        put_bytes_field(&mut out, 3, self.pq_ct.as_slice());
        put_bytes_field(&mut out, 4, self.signature.as_slice());
        put_bytes_field(&mut out, 5, self.verify_key.as_slice());
        assert(out@ =~= resp_encoding(*self));
        out
    }

    pub fn decode(b: &[u8]) -> (r: Result<HandshakeResp, WireError>)
        ensures
            match handshake_decoding(b@) {
                Some(f) => r matches Ok(m) && m.peer_id@ == f[0] && m.x25519_pk@ == f[1] && m.pq_ct@ == f[2]
                    && m.signature@ == f[3] && m.verify_key@ == f[4],
                None => r == Err::<HandshakeResp, WireError>(WireError::Decode),
            },
    {
        let layout: [u8; 6] = [WIRE_UNKNOWN, WIRE_LEN, WIRE_LEN, WIRE_LEN, WIRE_LEN, WIRE_LEN];
        assert(layout@ =~= handshake_layout());
        let slots = match scan_fields(b, &layout) {
            Some(s) => s,
            None => return Err(WireError::Decode),
        };
        Ok(HandshakeResp {
            peer_id: slot_payload(b, &slots[1]),
            x25519_pk: slot_payload(b, &slots[2]),
            pq_ct: slot_payload(b, &slots[3]),
            signature: slot_payload(b, &slots[4]),
            verify_key: slot_payload(b, &slots[5]),
        })
    }
}

/// A handshake message as it travels: an Init, a Resp, or nothing.
#[derive(Clone, Debug, PartialEq)]
pub struct HandshakeMessage {
    pub message: Option<Message>,
}

pub open spec fn handshake_message_encoding(m: HandshakeMessage) -> Seq<u8> {
    match m.message {
        None => Seq::empty(),
        Some(Message::Init(i)) => message_field(1, init_encoding(i)),
        Some(Message::Resp(r)) => message_field(2, resp_encoding(r)),
    }
}

pub open spec fn envelope_layout() -> Seq<u8> {
    seq![WIRE_UNKNOWN, WIRE_LEN, WIRE_LEN]
}

/// Whether the Resp alternative is the one that counts (the later of the two wins).
pub open spec fn resp_wins(s: Seq<Option<Field>>) -> bool {
    s[2] is Some && (s[1] is None || s[2]->Some_0.start > s[1]->Some_0.start)
}

/// A decoded handshake message: none, or whether it is an Init with its five fields.
pub open spec fn handshake_message_decoding(b: Seq<u8>) -> Option<Option<(bool, Seq<Seq<u8>>)>> {
    match fields_of(b, envelope_layout()) {
        None => None,
        Some(s) => if resp_wins(s) {
            match handshake_decoding(slot_bytes(b, s[2])) {
                Some(f) => Some(Some((false, f))),
                None => None,
            }
        } else if s[1] is Some {
            match handshake_decoding(slot_bytes(b, s[1])) {
                Some(f) => Some(Some((true, f))),
                None => None,
            }
        } else {
            Some(None)
        },
    }
}

impl HandshakeMessage {
    pub fn encode_to_vec(&self) -> (r: Vec<u8>)
        ensures
            r@ == handshake_message_encoding(*self),
    {
        let mut out: Vec<u8> = Vec::new();
        match &self.message {
            None => {},
            Some(Message::Init(i)) => {
                let inner = i.encode_to_vec();
                put_message_field(&mut out, 1, inner.as_slice());
            },
            Some(Message::Resp(r)) => {
                let inner = r.encode_to_vec();
                put_message_field(&mut out, 2, inner.as_slice());
            },
        }
        assert(out@ =~= handshake_message_encoding(*self));
        out
    }

    pub fn decode_from_bytes(b: &[u8]) -> (r: Result<HandshakeMessage, WireError>)
        ensures
            match handshake_message_decoding(b@) {
                None => r == Err::<HandshakeMessage, WireError>(WireError::Decode),
                Some(None) => r matches Ok(m) && m.message is None,
                Some(Some((true, f))) => r matches Ok(m) && m.message matches Some(Message::Init(i))
                    && i.peer_id@ == f[0] && i.x25519_pk@ == f[1] && i.pq_pk@ == f[2] && i.signature@ == f[3]
                    && i.verify_key@ == f[4],
                Some(Some((false, f))) => r matches Ok(m) && m.message matches Some(Message::Resp(x))
                    && x.peer_id@ == f[0] && x.x25519_pk@ == f[1] && x.pq_ct@ == f[2] && x.signature@ == f[3]
                    && x.verify_key@ == f[4],
            },
    {
        let layout: [u8; 3] = [WIRE_UNKNOWN, WIRE_LEN, WIRE_LEN];
        assert(layout@ =~= envelope_layout());
        let slots = match scan_fields(b, &layout) {
            Some(s) => s,
            None => return Err(WireError::Decode),
        };
        let take_resp = match (&slots[1], &slots[2]) {
            (_, None) => false,
            (None, Some(_)) => true,
            (Some(i), Some(x)) => x.start > i.start,
        };
        if take_resp {
            let inner = slot_payload(b, &slots[2]);
            match HandshakeResp::decode(inner.as_slice()) {
                Ok(x) => Ok(HandshakeMessage { message: Some(Message::Resp(x)) }),
                Err(e) => Err(e),
            }
        } else if slots[1].is_some() {
            let inner = slot_payload(b, &slots[1]);
            match HandshakeInit::decode(inner.as_slice()) {
                Ok(i) => Ok(HandshakeMessage { message: Some(Message::Init(i)) }),
                Err(e) => Err(e),
            }
        } else {
            Ok(HandshakeMessage { message: None })
        }
    }
}

proof fn lemma_varint_len(v: nat, k: nat)
    requires
        k >= 1,
        v < pow128(k),
    ensures
        1 <= varint(v).len() <= k,
    decreases v,
{
    if v >= 128 {
        assert(k >= 2) by {
            if k == 1 {
                reveal_with_fuel(pow128, 2);
            }
        }
        assert(v / 128 < pow128((k - 1) as nat)) by (nonlinear_arith)
            requires v < pow128(k), pow128(k) == 128 * pow128((k - 1) as nat);
        lemma_varint_len(v / 128, (k - 1) as nat);
    }
}

proof fn lemma_varint_read(b: Seq<u8>, pos: int, v: nat, used: nat)
    requires
        0 <= pos,
        pos + varint(v).len() <= b.len(),
        b.subrange(pos, pos + varint(v).len()) == varint(v),
        varint(v).len() + used <= 10,
    ensures
        varint_from(b, pos, used) == Some((v, pos + varint(v).len())),
    decreases v,
{
    let e = varint(v);
    assert(b[pos] == e[0]);
    if v >= 128 {
        let rest = varint(v / 128);
        assert(e == seq![(v % 128 + 128) as u8] + rest);
        assert(b.subrange(pos + 1, pos + 1 + rest.len()) =~= rest) by {
            assert forall|i: int| 0 <= i < rest.len() implies b.subrange(pos + 1, pos + 1 + rest.len())[i] == rest[i] by {
                assert(b[pos + 1 + i] == b.subrange(pos, pos + e.len())[1 + i]);
                assert(e[1 + i] == rest[i]);
            }
        }
        lemma_varint_read(b, pos + 1, v / 128, used + 1);
        assert(v == v % 128 + 128 * (v / 128)) by (nonlinear_arith);
    }
}

/// The varint encoding of a 64-bit value reads back as that value.
proof fn lemma_read_varint_u64(b: Seq<u8>, pos: int, v: u64)
    requires
        0 <= pos,
        pos + varint(v as nat).len() <= b.len(),
        b.subrange(pos, pos + varint(v as nat).len()) == varint(v as nat),
    ensures
        read_varint(b, pos) == Some((v, pos + varint(v as nat).len())),
        1 <= varint(v as nat).len() <= 10,
{
    assert(pow128(10) == 0x400000000000000000) by {
        reveal_with_fuel(pow128, 11);
    }
    lemma_varint_len(v as nat, 10);
    lemma_varint_read(b, pos, v as nat, 0);
}

/// Scanning over an encoded length-delimited field records it (when not empty)
/// and moves past it.
proof fn lemma_scan_bytes_field(
    b: Seq<u8>,
    pos: int,
    layout: Seq<u8>,
    slots: Seq<Option<Field>>,
    number: nat,
    payload: Seq<u8>,
)
    requires
        1 <= number <= 15,
        number < layout.len(),
        number < slots.len(),
        layout[number as int] == WIRE_LEN,
        0 <= pos,
        b.len() <= usize::MAX,
        payload.len() <= u64::MAX,
        pos + bytes_field(number, payload).len() <= b.len(),
        b.subrange(pos, pos + bytes_field(number, payload).len()) == bytes_field(number, payload),
    ensures
        payload.len() == 0 ==> bytes_field(number, payload).len() == 0,
        payload.len() > 0 ==> ({
            let f = bytes_field(number, payload);
            let start = pos + f.len() - payload.len();
            &&& scan(b, pos, layout, slots) == scan(
                b,
                pos + f.len(),
                layout,
                slots.update(
                    number as int,
                    Some(
                        Field {
                            number: number as u64,
                            wire: 2,
                            value: payload.len() as u64,
                            start: start as usize,
                            end: (pos + f.len()) as usize,
                        },
                    ),
                ),
            )
            &&& b.subrange(start, pos + f.len()) == payload
        }),
{
    if payload.len() > 0 {
        let f = bytes_field(number, payload);
        let key: u64 = (number * 8 + 2) as u64;
        let kv = varint(key as nat);
        let lv = varint(payload.len());
        assert(kv == seq![key as u8]);
        assert(f == kv + lv + payload);
        let sub = b.subrange(pos, pos + f.len());
        assert(b.subrange(pos, pos + 1) =~= kv) by {
            assert(b[pos] == sub[0]);
        }
        lemma_read_varint_u64(b, pos, key);
        assert(key / 8 == number && key % 8 == 2);
        assert(b.subrange(pos + 1, pos + 1 + lv.len()) =~= lv) by {
            assert forall|i: int| 0 <= i < lv.len() implies b.subrange(pos + 1, pos + 1 + lv.len())[i] == lv[i] by {
                assert(b[pos + 1 + i] == sub[1 + i]);
                assert(f[1 + i] == lv[i]);
            }
        }
        lemma_read_varint_u64(b, pos + 1, payload.len() as u64);
        let start = pos + 1 + lv.len();
        assert(b.subrange(start, pos + f.len()) =~= payload) by {
            assert forall|i: int| 0 <= i < payload.len() implies b.subrange(start, pos + f.len())[i] == payload[i] by {
                assert(b[start + i] == sub[1 + lv.len() + i]);
                assert(f[1 + lv.len() + i] == payload[i]);
            }
        }
    }
}

/// Scanning over an encoded varint field records it (when not zero) and moves past it.
proof fn lemma_scan_u64_field(
    b: Seq<u8>,
    pos: int,
    layout: Seq<u8>,
    slots: Seq<Option<Field>>,
    number: nat,
    v: u64,
)
    requires
        1 <= number <= 15,
        number < layout.len(),
        number < slots.len(),
        layout[number as int] == WIRE_VARINT,
        0 <= pos,
        b.len() <= usize::MAX,
        pos + u64_field(number, v).len() <= b.len(),
        b.subrange(pos, pos + u64_field(number, v).len()) == u64_field(number, v),
    ensures
        v == 0 ==> u64_field(number, v).len() == 0,
        v != 0 ==> ({
            let f = u64_field(number, v);
            scan(b, pos, layout, slots) == scan(
                b,
                pos + f.len(),
                layout,
                slots.update(
                    number as int,
                    Some(
                        Field {
                            number: number as u64,
                            wire: 0,
                            value: v,
                            start: (pos + 1) as usize,
                            end: (pos + f.len()) as usize,
                        },
                    ),
                ),
            )
        }),
{
    if v != 0 {
        let f = u64_field(number, v);
        let key: u64 = (number * 8) as u64;
        let kv = varint(key as nat);
        let vv = varint(v as nat);
        assert(kv == seq![key as u8]);
        assert(f == kv + vv);
        let sub = b.subrange(pos, pos + f.len());
        assert(b.subrange(pos, pos + 1) =~= kv) by {
            assert(b[pos] == sub[0]);
        }
        lemma_read_varint_u64(b, pos, key);
        assert(key / 8 == number && key % 8 == 0);
        assert(b.subrange(pos + 1, pos + 1 + vv.len()) =~= vv) by {
            assert forall|i: int| 0 <= i < vv.len() implies b.subrange(pos + 1, pos + 1 + vv.len())[i] == vv[i] by {
                assert(b[pos + 1 + i] == sub[1 + i]);
                assert(f[1 + i] == vv[i]);
            }
        }
        lemma_read_varint_u64(b, pos + 1, v);
    }
}

/// The slots after scanning an encoded length-delimited field at `pos`.
#[verifier::opaque]
pub open spec fn after_bytes_field(pos: int, slots: Seq<Option<Field>>, number: nat, payload: Seq<u8>) -> Seq<Option<Field>> {
    let f = bytes_field(number, payload);
    if payload.len() == 0 {
        slots
    } else {
        slots.update(
            number as int,
            Some(
                Field {
                    number: number as u64,
                    wire: 2,
                    value: payload.len() as u64,
                    start: (pos + f.len() - payload.len()) as usize,
                    end: (pos + f.len()) as usize,
                },
            ),
        )
    }
}

/// The slots after scanning an encoded varint field at `pos`.
#[verifier::opaque]
pub open spec fn after_u64_field(pos: int, slots: Seq<Option<Field>>, number: nat, v: u64) -> Seq<Option<Field>> {
    let f = u64_field(number, v);
    if v == 0 {
        slots
    } else {
        slots.update(
            number as int,
            Some(
                Field {
                    number: number as u64,
                    wire: 0,
                    value: v,
                    start: (pos + 1) as usize,
                    end: (pos + f.len()) as usize,
                },
            ),
        )
    }
}

proof fn lemma_step_bytes(
    b: Seq<u8>,
    pos: int,
    layout: Seq<u8>,
    slots: Seq<Option<Field>>,
    number: nat,
    payload: Seq<u8>,
)
    requires
        1 <= number <= 15,
        number < layout.len(),
        number < slots.len(),
        layout[number as int] == WIRE_LEN,
        0 <= pos,
        b.len() <= usize::MAX,
        pos + bytes_field(number, payload).len() <= b.len(),
        b.subrange(pos, pos + bytes_field(number, payload).len()) == bytes_field(number, payload),
        slots[number as int] is None,
    ensures
        scan(b, pos, layout, slots) == scan(
            b,
            pos + bytes_field(number, payload).len(),
            layout,
            after_bytes_field(pos, slots, number, payload),
        ),
        slot_bytes(b, after_bytes_field(pos, slots, number, payload)[number as int]) == payload,
        after_bytes_field(pos, slots, number, payload).len() == slots.len(),
        forall|i: int|
            0 <= i < slots.len() && i != number ==> #[trigger] after_bytes_field(pos, slots, number, payload)[i]
                == slots[i],
        slots_in(b, slots) ==> slots_in(b, after_bytes_field(pos, slots, number, payload)),
{
    reveal(after_bytes_field);
    if payload.len() > 0 {
        assert(payload.len() <= bytes_field(number, payload).len());
    }
    lemma_scan_bytes_field(b, pos, layout, slots, number, payload);
    if payload.len() == 0 {
        assert(payload =~= Seq::<u8>::empty());
    }
}

proof fn lemma_step_u64(
    b: Seq<u8>,
    pos: int,
    layout: Seq<u8>,
    slots: Seq<Option<Field>>,
    number: nat,
    v: u64,
)
    requires
        1 <= number <= 15,
        number < layout.len(),
        number < slots.len(),
        layout[number as int] == WIRE_VARINT,
        0 <= pos,
        b.len() <= usize::MAX,
        pos + u64_field(number, v).len() <= b.len(),
        b.subrange(pos, pos + u64_field(number, v).len()) == u64_field(number, v),
        slots[number as int] is None,
    ensures
        scan(b, pos, layout, slots) == scan(
            b,
            pos + u64_field(number, v).len(),
            layout,
            after_u64_field(pos, slots, number, v),
        ),
        slot_u64(after_u64_field(pos, slots, number, v)[number as int]) == v,
        after_u64_field(pos, slots, number, v).len() == slots.len(),
        forall|i: int|
            0 <= i < slots.len() && i != number ==> #[trigger] after_u64_field(pos, slots, number, v)[i] == slots[i],
{
    reveal(after_u64_field);
    lemma_scan_u64_field(b, pos, layout, slots, number, v);
}

/// The encoding of the five byte fields of a handshake record.
pub open spec fn five_fields(p: Seq<Seq<u8>>) -> Seq<u8> {
    bytes_field(1, p[0]) + bytes_field(2, p[1]) + bytes_field(3, p[2]) + bytes_field(4, p[3]) + bytes_field(5, p[4])
}

#[verifier::rlimit(60)]
proof fn lemma_five_fields(p: Seq<Seq<u8>>)
    requires
        p.len() == 5,
        five_fields(p).len() <= usize::MAX,
    ensures
        handshake_decoding(five_fields(p)) == Some(p),
{
    let b = five_fields(p);
    let l = handshake_layout();
    let f1 = bytes_field(1, p[0]);
    let f2 = bytes_field(2, p[1]);
    let f3 = bytes_field(3, p[2]);
    let f4 = bytes_field(4, p[3]);
    let f5 = bytes_field(5, p[4]);
    let q1 = f1.len() as int;
    let q2 = q1 + f2.len();
    let q3 = q2 + f3.len();
    let q4 = q3 + f4.len();
    let q5 = q4 + f5.len();
    assert(b.subrange(0, q1) =~= f1);
    assert(b.subrange(q1, q2) =~= f2);
    assert(b.subrange(q2, q3) =~= f3);
    assert(b.subrange(q3, q4) =~= f4);
    assert(b.subrange(q4, q5) =~= f5);
    let s0 = Seq::new(l.len(), |i: int| None::<Field>);
    lemma_step_bytes(b, 0, l, s0, 1, p[0]);
    let s1 = after_bytes_field(0, s0, 1, p[0]);
    lemma_step_bytes(b, q1, l, s1, 2, p[1]);
    let s2 = after_bytes_field(q1, s1, 2, p[1]);
    lemma_step_bytes(b, q2, l, s2, 3, p[2]);
    let s3 = after_bytes_field(q2, s2, 3, p[2]);
    lemma_step_bytes(b, q3, l, s3, 4, p[3]);
    let s4 = after_bytes_field(q3, s3, 4, p[3]);
    lemma_step_bytes(b, q4, l, s4, 5, p[4]);
    let s5 = after_bytes_field(q4, s4, 5, p[4]);
    assert(q5 == b.len());
    assert(fields_of(b, l) == Some(s5));
    assert(s5[1] == s1[1] && s5[2] == s2[2] && s5[3] == s3[3] && s5[4] == s4[4]);
    assert(slot_bytes(b, s5[1]) == p[0]);
    assert(slot_bytes(b, s5[2]) == p[1]);
    assert(slot_bytes(b, s5[3]) == p[2]);
    assert(slot_bytes(b, s5[4]) == p[3]);
    assert(slot_bytes(b, s5[5]) == p[4]);
    assert(handshake_decoding(b).unwrap() =~= p);
}

/// Round trip: decoding the encoding of an Init gives back its fields.
pub proof fn lemma_init_round_trip(m: HandshakeInit)
    requires
        init_encoding(m).len() <= usize::MAX,
    ensures
        handshake_decoding(init_encoding(m)) == Some(
            seq![m.peer_id@, m.x25519_pk@, m.pq_pk@, m.signature@, m.verify_key@],
        ),
{
    let p = seq![m.peer_id@, m.x25519_pk@, m.pq_pk@, m.signature@, m.verify_key@];
    assert(five_fields(p) == init_encoding(m));
    lemma_five_fields(p);
}

/// Round trip: decoding the encoding of a Resp gives back its fields.
pub proof fn lemma_resp_round_trip(m: HandshakeResp)
    requires
        resp_encoding(m).len() <= usize::MAX,
    ensures
        handshake_decoding(resp_encoding(m)) == Some(
            seq![m.peer_id@, m.x25519_pk@, m.pq_ct@, m.signature@, m.verify_key@],
        ),
{
    let p = seq![m.peer_id@, m.x25519_pk@, m.pq_ct@, m.signature@, m.verify_key@];
    assert(five_fields(p) == resp_encoding(m));
    lemma_five_fields(p);
}

/// Round trip: decoding the encoding of a chat record gives back its fields.
pub proof fn lemma_chat_round_trip(username: Seq<char>, content: Seq<char>, timestamp: u64, identity_id: Seq<u8>)
    requires
        chat_bytes(username, content, timestamp, identity_id).len() <= usize::MAX,
    ensures
        chat_decoding(chat_bytes(username, content, timestamp, identity_id)) == Some(
            (username, content, timestamp, identity_id),
        ),
{
    let b = chat_bytes(username, content, timestamp, identity_id);
    let l = chat_layout();
    let u = encode_utf8(username);
    let c = encode_utf8(content);
    let f1 = bytes_field(1, u);
    let f2 = bytes_field(2, c);
    let f3 = u64_field(3, timestamp);
    let f4 = bytes_field(4, identity_id);
    let q1 = f1.len() as int;
    let q2 = q1 + f2.len();
    let q3 = q2 + f3.len();
    let q4 = q3 + f4.len();
    assert(b.subrange(0, q1) =~= f1);
    assert(b.subrange(q1, q2) =~= f2);
    assert(b.subrange(q2, q3) =~= f3);
    assert(b.subrange(q3, q4) =~= f4);
    let s0 = Seq::new(l.len(), |i: int| None::<Field>);
    lemma_step_bytes(b, 0, l, s0, 1, u);
    let s1 = after_bytes_field(0, s0, 1, u);
    lemma_step_bytes(b, q1, l, s1, 2, c);
    let s2 = after_bytes_field(q1, s1, 2, c);
    lemma_step_u64(b, q2, l, s2, 3, timestamp);
    let s3 = after_u64_field(q2, s2, 3, timestamp);
    lemma_step_bytes(b, q3, l, s3, 4, identity_id);
    let s4 = after_bytes_field(q3, s3, 4, identity_id);
    assert(q4 == b.len());
    assert(fields_of(b, l) == Some(s4));
    vstd::utf8::encode_utf8_valid_utf8(username);
    vstd::utf8::encode_utf8_valid_utf8(content);
    vstd::utf8::encode_utf8_decode_utf8(username);
    vstd::utf8::encode_utf8_decode_utf8(content);
}

proof fn lemma_piece(pre: Seq<u8>, f: Seq<u8>, post: Seq<u8>)
    ensures
        (pre + f + post).subrange(pre.len() as int, (pre.len() + f.len()) as int) == f,
{
    assert((pre + f + post).subrange(pre.len() as int, (pre.len() + f.len()) as int) =~= f);
}

/// The encoding of an encrypted frame's seven byte fields and its timestamp.
pub open spec fn frame_fields(p: Seq<Seq<u8>>, t: u64) -> Seq<u8> {
    bytes_field(1, p[0]) + bytes_field(2, p[1]) + bytes_field(3, p[2]) + u64_field(4, t) + bytes_field(5, p[3])
        + bytes_field(6, p[4]) + bytes_field(7, p[5]) + bytes_field(8, p[6])
}

proof fn lemma_eight_pieces(
    f1: Seq<u8>,
    f2: Seq<u8>,
    f3: Seq<u8>,
    f4: Seq<u8>,
    f5: Seq<u8>,
    f6: Seq<u8>,
    f7: Seq<u8>,
    f8: Seq<u8>,
)
    ensures
        ({
            let b = f1 + f2 + f3 + f4 + f5 + f6 + f7 + f8;
            let q1 = f1.len() as int;
            let q2 = q1 + f2.len();
            let q3 = q2 + f3.len();
            let q4 = q3 + f4.len();
            let q5 = q4 + f5.len();
            let q6 = q5 + f6.len();
            let q7 = q6 + f7.len();
            let q8 = q7 + f8.len();
            &&& b.subrange(0, q1) == f1
            &&& b.subrange(q1, q2) == f2
            &&& b.subrange(q2, q3) == f3
            &&& b.subrange(q3, q4) == f4
            &&& b.subrange(q4, q5) == f5
            &&& b.subrange(q5, q6) == f6
            &&& b.subrange(q6, q7) == f7
            &&& b.subrange(q7, q8) == f8
            &&& q8 == b.len()
        }),
{
    let b = f1 + f2 + f3 + f4 + f5 + f6 + f7 + f8;
    lemma_piece(Seq::empty(), f1, f2 + f3 + f4 + f5 + f6 + f7 + f8);
    assert(b =~= Seq::<u8>::empty() + f1 + (f2 + f3 + f4 + f5 + f6 + f7 + f8));
    lemma_piece(f1, f2, f3 + f4 + f5 + f6 + f7 + f8);
    assert(b =~= f1 + f2 + (f3 + f4 + f5 + f6 + f7 + f8));
    lemma_piece(f1 + f2, f3, f4 + f5 + f6 + f7 + f8);
    assert(b =~= (f1 + f2) + f3 + (f4 + f5 + f6 + f7 + f8));
    lemma_piece(f1 + f2 + f3, f4, f5 + f6 + f7 + f8);
    assert(b =~= (f1 + f2 + f3) + f4 + (f5 + f6 + f7 + f8));
    lemma_piece(f1 + f2 + f3 + f4, f5, f6 + f7 + f8);
    assert(b =~= (f1 + f2 + f3 + f4) + f5 + (f6 + f7 + f8));
    lemma_piece(f1 + f2 + f3 + f4 + f5, f6, f7 + f8);
    assert(b =~= (f1 + f2 + f3 + f4 + f5) + f6 + (f7 + f8));
    lemma_piece(f1 + f2 + f3 + f4 + f5 + f6, f7, f8);
    assert(b =~= (f1 + f2 + f3 + f4 + f5 + f6) + f7 + f8);
    lemma_piece(f1 + f2 + f3 + f4 + f5 + f6 + f7, f8, Seq::empty());
    assert(b =~= (f1 + f2 + f3 + f4 + f5 + f6 + f7) + f8 + Seq::<u8>::empty());
}

#[verifier::rlimit(100)]
proof fn lemma_frame_fields(p: Seq<Seq<u8>>, t: u64)
    requires
        p.len() == 7,
        frame_fields(p, t).len() <= usize::MAX,
    ensures
        encrypted_decoding(frame_fields(p, t)) == Some((p, t)),
{
    let b = frame_fields(p, t);
    let l = encrypted_layout();
    lemma_eight_pieces(
        bytes_field(1, p[0]),
        bytes_field(2, p[1]),
        bytes_field(3, p[2]),
        u64_field(4, t),
        bytes_field(5, p[3]),
        bytes_field(6, p[4]),
        bytes_field(7, p[5]),
        bytes_field(8, p[6]),
    );
    let q1 = bytes_field(1, p[0]).len() as int;
    let q2 = q1 + bytes_field(2, p[1]).len();
    let q3 = q2 + bytes_field(3, p[2]).len();
    let q4 = q3 + u64_field(4, t).len();
    let q5 = q4 + bytes_field(5, p[3]).len();
    let q6 = q5 + bytes_field(6, p[4]).len();
    let q7 = q6 + bytes_field(7, p[5]).len();
    let s0 = Seq::new(l.len(), |i: int| None::<Field>);
    lemma_step_bytes(b, 0, l, s0, 1, p[0]);
    let s1 = after_bytes_field(0, s0, 1, p[0]);
    lemma_step_bytes(b, q1, l, s1, 2, p[1]);
    let s2 = after_bytes_field(q1, s1, 2, p[1]);
    lemma_step_bytes(b, q2, l, s2, 3, p[2]);
    let s3 = after_bytes_field(q2, s2, 3, p[2]);
    lemma_step_u64(b, q3, l, s3, 4, t);
    let s4 = after_u64_field(q3, s3, 4, t);
    lemma_step_bytes(b, q4, l, s4, 5, p[3]);
    let s5 = after_bytes_field(q4, s4, 5, p[3]);
    lemma_step_bytes(b, q5, l, s5, 6, p[4]);
    let s6 = after_bytes_field(q5, s5, 6, p[4]);
    lemma_step_bytes(b, q6, l, s6, 7, p[5]);
    let s7 = after_bytes_field(q6, s6, 7, p[5]);
    lemma_step_bytes(b, q7, l, s7, 8, p[6]);
    let s8 = after_bytes_field(q7, s7, 8, p[6]);
    assert(fields_of(b, l) == Some(s8));
    assert(encrypted_decoding(b).unwrap().0 =~= p);
}

/// Round trip: decoding the encoding of an encrypted frame gives back its fields.
pub proof fn lemma_encrypted_round_trip(m: EncryptedMessage)
    requires
        encrypted_encoding(m).len() <= usize::MAX,
    ensures
        encrypted_decoding(encrypted_encoding(m)) == Some(
            (
                seq![
                    m.sender@,
                    m.nonce@,
                    m.ciphertext@,
                    m.signature@,
                    m.identity_id@,
                    m.identity_proof@,
                    m.pq_signature@,
                ],
                m.timestamp,
            ),
        ),
{
    let p = seq![
        m.sender@,
        m.nonce@,
        m.ciphertext@,
        m.signature@,
        m.identity_id@,
        m.identity_proof@,
        m.pq_signature@,
    ];
    assert(frame_fields(p, m.timestamp) == encrypted_encoding(m));
    lemma_frame_fields(p, m.timestamp);
}

} // verus!
