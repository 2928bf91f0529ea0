//! Process-unique 128-bit identifiers: a lowercase-hex value type and a
//! generator whose state keeps a monotonic timestamp and an 80-bit counter.

use vstd::prelude::*;
use vstd::arithmetic::mul::lemma_mul_inequality;
use vstd::arithmetic::div_mod::lemma_fundamental_div_mod;
use vstd::string::StrSliceExecFns;
use rand::Rng;

verus! {

// ============================================================
// Little-endian byte strings as unsigned integers
// ============================================================

/// 256^n: the weight of byte `n` in a little-endian byte string.
pub open spec fn pow256(n: nat) -> nat
    decreases n,
{
    if n == 0 {
        1
    } else {
        256 * pow256((n - 1) as nat)
    }
}

/// The value of the first `n` bytes of `s`, read as a little-endian
/// unsigned integer.
pub open spec fn le_val_upto(s: Seq<u8>, n: int) -> nat
    decreases n,
{
    if n <= 0 {
        0
    } else {
        (le_val_upto(s, n - 1) + s[n - 1] * pow256((n - 1) as nat)) as nat
    }
}

/// The value of a byte string read as a little-endian unsigned integer.
pub open spec fn le_val(s: Seq<u8>) -> nat {
    le_val_upto(s, s.len() as int)
}

/// A little-endian byte string is bounded by 256 to the power of its length.
proof fn lemma_le_val_upto_bound(s: Seq<u8>, n: int)
    requires
        0 <= n <= s.len(),
    ensures
        le_val_upto(s, n) < pow256(n as nat),
    decreases n,
{
    if n > 0 {
        lemma_le_val_upto_bound(s, n - 1);
        lemma_mul_inequality(s[n - 1] as int, 255, pow256((n - 1) as nat) as int);
    }
}

/// The value of a 10-byte little-endian string, written out.
proof fn lemma_le_val_10(s: Seq<u8>)
    requires
        s.len() == 10,
    ensures
        le_val(s) == s[0] + s[1] * 0x100 + s[2] * 0x10000 + s[3] * 0x1000000 + s[4] * 0x100000000
            + s[5] * 0x10000000000 + s[6] * 0x1000000000000 + s[7] * 0x100000000000000 + s[8]
            * 0x10000000000000000 + s[9] * 0x1000000000000000000,
{
    reveal_with_fuel(pow256, 11);
    assert(pow256(0) == 1 && pow256(1) == 0x100 && pow256(2) == 0x10000 && pow256(3) == 0x1000000
        && pow256(4) == 0x100000000 && pow256(5) == 0x10000000000 && pow256(6) == 0x1000000000000
        && pow256(7) == 0x100000000000000 && pow256(8) == 0x10000000000000000 && pow256(9)
        == 0x1000000000000000000);
    reveal_with_fuel(le_val_upto, 11);
    assert(le_val_upto(s, 0) == 0);
    assert(le_val_upto(s, 1) == le_val_upto(s, 0) + s[0] * pow256(0));
    assert(le_val_upto(s, 2) == le_val_upto(s, 1) + s[1] * pow256(1));
    assert(le_val_upto(s, 3) == le_val_upto(s, 2) + s[2] * pow256(2));
    assert(le_val_upto(s, 4) == le_val_upto(s, 3) + s[3] * pow256(3));
    assert(le_val_upto(s, 5) == le_val_upto(s, 4) + s[4] * pow256(4));
    assert(le_val_upto(s, 6) == le_val_upto(s, 5) + s[5] * pow256(5));
    assert(le_val_upto(s, 7) == le_val_upto(s, 6) + s[6] * pow256(6));
    assert(le_val_upto(s, 8) == le_val_upto(s, 7) + s[7] * pow256(7));
    assert(le_val_upto(s, 9) == le_val_upto(s, 8) + s[8] * pow256(8));
    assert(le_val_upto(s, 10) == le_val_upto(s, 9) + s[9] * pow256(9));
}

/// The value of a 6-byte little-endian string, written out.
proof fn lemma_le_val_6(s: Seq<u8>)
    requires
        s.len() == 6,
    ensures
        le_val(s) == s[0] + s[1] * 0x100 + s[2] * 0x10000 + s[3] * 0x1000000 + s[4] * 0x100000000
            + s[5] * 0x10000000000,
{
    reveal_with_fuel(pow256, 7);
    assert(pow256(0) == 1 && pow256(1) == 0x100 && pow256(2) == 0x10000 && pow256(3) == 0x1000000
        && pow256(4) == 0x100000000 && pow256(5) == 0x10000000000);
    reveal_with_fuel(le_val_upto, 7);
    assert(le_val_upto(s, 0) == 0);
    assert(le_val_upto(s, 1) == le_val_upto(s, 0) + s[0] * pow256(0));
    assert(le_val_upto(s, 2) == le_val_upto(s, 1) + s[1] * pow256(1));
    assert(le_val_upto(s, 3) == le_val_upto(s, 2) + s[2] * pow256(2));
    assert(le_val_upto(s, 4) == le_val_upto(s, 3) + s[3] * pow256(3));
    assert(le_val_upto(s, 5) == le_val_upto(s, 4) + s[4] * pow256(4));
    assert(le_val_upto(s, 6) == le_val_upto(s, 5) + s[5] * pow256(5));
}

/// Equal little-endian values of equal length come from equal bytes.
proof fn lemma_le_val_upto_injective(s: Seq<u8>, t: Seq<u8>, n: int)
    requires
        0 <= n <= s.len(),
        n <= t.len(),
        le_val_upto(s, n) == le_val_upto(t, n),
    ensures
        forall|k: int| 0 <= k < n ==> s[k] == t[k],
    decreases n,
{
    if n > 0 {
        lemma_le_val_upto_bound(s, n - 1);
        lemma_le_val_upto_bound(t, n - 1);
        let p = pow256((n - 1) as nat) as int;
        let a = le_val_upto(s, n - 1) as int;
        let b = le_val_upto(t, n - 1) as int;
        let x = s[n - 1] as int;
        let y = t[n - 1] as int;
        assert(a + x * p == b + y * p);
        if x != y {
            assert(false) by (nonlinear_arith)
                requires
                    a + x * p == b + y * p,
                    0 <= a < p,
                    0 <= b < p,
                    x != y,
            ;
        }
        lemma_le_val_upto_injective(s, t, n - 1);
    }
}

/// Law: a little-endian value determines its bytes; two byte strings of
/// one length with the same value are the same string.
pub proof fn lemma_le_val_injective(s: Seq<u8>, t: Seq<u8>)
    requires
        s.len() == t.len(),
        le_val(s) == le_val(t),
    ensures
        s =~= t,
{
    lemma_le_val_upto_injective(s, t, s.len() as int);
}

// ============================================================
// The identifier value type and its text form
// ============================================================

/// A 16-byte opaque identifier.
///
/// Layout: bytes `[0, 10)` hold an 80-bit little-endian sequence field;
/// bytes `[10, 16)` hold the low 48 bits of the generation timestamp,
/// little-endian (a 16-bit low part followed by a 32-bit high part, which
/// together are the 6 low-order bytes of the timestamp).
#[derive(Debug, Clone, Copy, PartialEq, Eq)]
pub struct Uint128(pub [u8; 16]);

impl View for Uint128 {
    type V = Seq<u8>;

    open spec fn view(&self) -> Seq<u8> {
        self.0@
    }
}

/// Recoverable failures of `Uint128::from_text`.
#[derive(Debug, Clone, Copy, PartialEq, Eq)]
pub enum ParseError {
    /// The text is not exactly 32 characters long.
    WrongLength,
    /// Some character of the text is not a hexadecimal digit.
    InvalidHex,
}

/// Whether a character is a hexadecimal digit (either case accepted).
pub open spec fn is_hex_digit(c: char) -> bool {
    (48 <= c as u32 && c as u32 <= 57)  // '0' ..= '9'
    || (97 <= c as u32 && c as u32 <= 102)  // 'a' ..= 'f'
    || (65 <= c as u32 && c as u32 <= 70)  // 'A' ..= 'F'
}

/// The value of a hexadecimal digit character.
pub open spec fn hex_digit_val(c: char) -> u8 {
    if 48 <= c as u32 && c as u32 <= 57 {
        (c as u32 - 48) as u8
    } else if 97 <= c as u32 && c as u32 <= 102 {
        (c as u32 - 87) as u8
    } else {
        (c as u32 - 55) as u8
    }
}

/// The lowercase hexadecimal digit character for a value below 16.
pub open spec fn hex_char(v: u8) -> char {
    if v < 10 {
        (v + 48) as char
    } else {
        (v + 87) as char
    }
}

/// The canonical text of a byte string: two lowercase hexadecimal digits
/// per byte, byte 0 first, high nibble first.
pub open spec fn hex_encoding(bytes: Seq<u8>) -> Seq<char> {
    Seq::new(2 * bytes.len(), |i: int| if i % 2 == 0 {
        hex_char(bytes[i / 2] / 16)
    } else {
        hex_char(bytes[i / 2] % 16)
    })
}

/// Whether every character of a text is a hexadecimal digit.
pub open spec fn all_hex(s: Seq<char>) -> bool {
    forall|i: int| 0 <= i < s.len() ==> is_hex_digit(s[i])
}

/// The bytes denoted by a text of hexadecimal digits, two per byte.
pub open spec fn hex_decoding(s: Seq<char>) -> Seq<u8> {
    Seq::new(s.len() / 2, |i: int| (16 * hex_digit_val(s[2 * i]) + hex_digit_val(
        s[2 * i + 1],
    )) as u8)
}

/// The digit characters the encoding produces are hexadecimal digits, and
/// reading one back yields the nibble it was made from.
pub proof fn lemma_hex_char_val(v: u8)
    requires
        v < 16,
    ensures
        is_hex_digit(hex_char(v)),
        hex_digit_val(hex_char(v)) == v,
{
    if v < 10 {
        assert(hex_char(v) as u32 == v + 48);
    } else {
        assert(hex_char(v) as u32 == v + 87);
    }
}

/// Law (round trip): decoding the canonical encoding of any 16-byte
/// identifier yields exactly the original bytes, and the encoding is a
/// 32-character hexadecimal text, so `from_text` accepts it.
pub proof fn lemma_round_trip(id: Uint128)
    ensures
        hex_encoding(id@).len() == 32,
        all_hex(hex_encoding(id@)),
        hex_decoding(hex_encoding(id@)) =~= id@,
{
    let cs = hex_encoding(id@);
    assert forall|i: int| 0 <= i < cs.len() implies is_hex_digit(cs[i]) by {
        if i % 2 == 0 {
            lemma_hex_char_val(id@[i / 2] / 16);
        } else {
            lemma_hex_char_val(id@[i / 2] % 16);
        }
    }
    assert forall|i: int| 0 <= i < 16 implies hex_decoding(cs)[i] == id@[i] by {
        let b = id@[i];
        lemma_hex_char_val(b / 16);
        lemma_hex_char_val(b % 16);
        assert(cs[2 * i] == hex_char(b / 16));
        assert(cs[2 * i + 1] == hex_char(b % 16));
    }
}

/// The hexadecimal digit for a value below 16, lowercase.
fn hex_char_of(v: u8) -> (c: char)
    requires
        v < 16,
    ensures
        c == hex_char(v),
{
    if v < 10 {
        (v + 48) as char
    } else {
        (v + 87) as char
    }
}

/// The value of a character as a hexadecimal digit, or `None` when it is
/// not one.
fn hex_val_of(c: char) -> (r: Option<u8>)
    ensures
        r is Some <==> is_hex_digit(c),
        r is Some ==> r->Some_0 == hex_digit_val(c) && hex_digit_val(c) < 16,
{
    let v = c as u32;
    if 48 <= v && v <= 57 {
        Some((v - 48) as u8)
    } else if 97 <= v && v <= 102 {
        Some((v - 87) as u8)
    } else if 65 <= v && v <= 70 {
        Some((v - 55) as u8)
    } else {
        None
    }
}

impl Uint128 {
    /// The canonical text of this identifier: exactly 32 lowercase
    /// hexadecimal characters, two per byte, byte 0 first.
    pub fn to_text(&self) -> (r: String)
        ensures
            r@ == hex_encoding(self@),
            r@.len() == 32,
    {
        let mut out = String::new();
        let mut i: usize = 0;
        while i < 16
            invariant
                0 <= i <= 16,
                out@.len() == 2 * i,
                forall|k: int| 0 <= k < 2 * i ==> out@[k] == hex_encoding(self@)[k],
            decreases 16 - i,
        {
            let b = self.0[i];
            let c1 = hex_char_of(b / 16);
            let c2 = hex_char_of(b % 16);
            push_char(&mut out, c1);
            push_char(&mut out, c2);
            i += 1;
        }
        proof {
            assert(out@ =~= hex_encoding(self@));
        }
        out
    }

    /// Parse the canonical text form. Succeeds exactly on texts of 32
    /// hexadecimal digits; `WrongLength` reports any other length, and
    /// `InvalidHex` a non-digit character in a 32-character text.
    pub fn from_text(s: &str) -> (r: Result<Uint128, ParseError>)
        ensures
            s@.len() != 32 ==> r == Err::<Uint128, ParseError>(ParseError::WrongLength),
            s@.len() == 32 && !all_hex(s@) ==> r == Err::<Uint128, ParseError>(
                ParseError::InvalidHex,
            ),
            s@.len() == 32 && all_hex(s@) ==> (r matches Ok(x) && x@ == hex_decoding(s@)),
    {
        let n = s.unicode_len();
        if n != 32 {
            return Err(ParseError::WrongLength);
        }
        let mut bytes: [u8; 16] = [0; 16];
        let mut i: usize = 0;
        while i < 16
            invariant
                0 <= i <= 16,
                s@.len() == 32,
                forall|k: int| 0 <= k < 2 * i ==> is_hex_digit(s@[k]),
                forall|k: int| 0 <= k < i ==> bytes@[k] == hex_decoding(s@)[k],
            decreases 16 - i,
        {
            let c1 = s.get_char(2 * i);
            let c2 = s.get_char(2 * i + 1);
            let v1 = match hex_val_of(c1) {
                Some(v) => v,
                None => {
                    return Err(ParseError::InvalidHex);
                },
            };
            let v2 = match hex_val_of(c2) {
                Some(v) => v,
                None => {
                    return Err(ParseError::InvalidHex);
                },
            };
            bytes[i] = 16 * v1 + v2;
            i += 1;
        }
        proof {
            assert(Uint128(bytes)@ =~= hex_decoding(s@));
        }
        Ok(Uint128(bytes))
    }

    /// The 48-bit timestamp recorded in this identifier: the value of
    /// bytes `[10, 16)` read little-endian.
    pub fn timestamp_part(&self) -> (r: u64)
        ensures
            r as nat == timestamp_field(self@),
    {
        let b = &self.0;
        let r: u64 = (b[10] as u64) + (b[11] as u64) * 0x100 + (b[12] as u64) * 0x10000 + (
        b[13] as u64) * 0x1000000 + (b[14] as u64) * 0x100000000 + (b[15] as u64) * 0x10000000000;
        proof {
            let s = self@.subrange(10, 16);
            assert(s.len() == 6);
            assert(s[0] == b@[10] && s[1] == b@[11] && s[2] == b@[12] && s[3] == b@[13] && s[4]
                == b@[14] && s[5] == b@[15]);
            lemma_le_val_6(s);
        }
        r
    }

    /// The 80-bit sequence recorded in this identifier, as its low 64
    /// bits and high 16 bits: bytes `[0, 10)` read little-endian.
    pub fn sequence_parts(&self) -> (r: (u64, u16))
        ensures
            r.0 as nat + (r.1 as nat) * 0x10000000000000000 == sequence_field(self@),
    {
        let mut b: [u8; 10] = [0; 10];
        let mut i: usize = 0;
        while i < 10
            invariant
                0 <= i <= 10,
                forall|k: int| 0 <= k < i ==> b@[k] == self@[k],
            decreases 10 - i,
        {
            b[i] = self.0[i];
            i += 1;
        }
        proof {
            assert(b@ =~= self@.subrange(0, 10));
        }
        le10_parts(&b)
    }
}

impl core::str::FromStr for Uint128 {
    type Err = ParseError;

    fn from_str(s: &str) -> Result<Self, Self::Err> {
        Uint128::from_text(s)
    }
}

// ============================================================
// The generator
// ============================================================

/// Non-recoverable generator failures: when one arises, no identifier can
/// be produced without breaking uniqueness, so callers must not retry.
#[derive(Debug, Clone, Copy, PartialEq, Eq)]
pub enum FatalError {
    /// The wall clock could not provide a reading.
    ClockFailure,
    /// The 80-bit sequence counter reached its maximum within one
    /// timestamp bucket and would wrap to a reused value.
    SequenceOverflow,
}

/// The generator state: the most recently retained timestamp (nanoseconds
/// since the epoch, never decreasing) and the 80-bit sequence counter as
/// 10 little-endian bytes.
pub struct IdState {
    pub last_timestamp: u128,
    pub last_random: [u8; 10],
}

impl IdState {
    /// A fresh state: timestamp zero, sequence zero.
    pub fn new() -> (r: Self)
        ensures
            r.last_timestamp == 0,
            r.last_random@ =~= Seq::new(10, |i: int| 0u8),
    {
        IdState { last_timestamp: 0, last_random: [0; 10] }
    }
}

/// The largest value the 80-bit sequence field can hold.
pub open spec fn seq_field_max() -> nat {
    0xffff_ffff_ffff_ffff_ffff
}

/// The low 48 bits of a timestamp: all the identifier records of it.
pub open spec fn truncated(ts: u128) -> nat {
    (ts as nat) % 0x1000000000000
}

/// The timestamp a generation step retains: the wall-clock reading when
/// it advanced strictly past the stored timestamp, else the stored one.
pub open spec fn step_timestamp(st: IdState, now: u128) -> u128 {
    if now > st.last_timestamp {
        now
    } else {
        st.last_timestamp
    }
}

/// The sequence bytes a generation step starts from: freshly reseeded
/// when the timestamp advances, else the stored bytes.
pub open spec fn step_sequence_start(st: IdState, now: u128, reseed: Seq<u8>) -> Seq<u8> {
    if now > st.last_timestamp {
        reseed
    } else {
        st.last_random@
    }
}

/// The 80-bit sequence field of an identifier's bytes.
pub open spec fn sequence_field(id: Seq<u8>) -> nat {
    le_val(id.subrange(0, 10))
}

/// The 48-bit timestamp field of an identifier's bytes.
pub open spec fn timestamp_field(id: Seq<u8>) -> nat {
    le_val(id.subrange(10, 16))
}

/// One successful generation step: the relation `next_id` establishes
/// between the state it read and the state it wrote, with `id` the bytes
/// of the identifier returned.
pub open spec fn generation_step(
    pre: IdState,
    now: u128,
    reseed: Seq<u8>,
    post: IdState,
    id: Seq<u8>,
) -> bool {
    &&& le_val(step_sequence_start(pre, now, reseed)) != seq_field_max()
    &&& post.last_timestamp == step_timestamp(pre, now)
    &&& le_val(post.last_random@) == le_val(step_sequence_start(pre, now, reseed)) + 1
    &&& id.len() == 16
    &&& id.subrange(0, 10) == post.last_random@
    &&& timestamp_field(id) == truncated(post.last_timestamp)
}

/// Some clock reading and some reseed value make this a generation step:
/// what `generate_id` can say of its step without fixing what the clock
/// and the random source returned.
pub open spec fn some_generation_step(pre: IdState, post: IdState, id: Seq<u8>) -> bool {
    exists|now: u128, reseed: Seq<u8>| generation_step(pre, now, reseed, post, id)
}

/// Split 10 little-endian bytes into the low 64 and high 16 bits of the
/// 80-bit value they hold.
fn le10_parts(b: &[u8; 10]) -> (r: (u64, u16))
    ensures
        r.0 as nat + (r.1 as nat) * 0x10000000000000000 == le_val(b@),
{
    let low: u64 = (b[0] as u64) + (b[1] as u64) * 0x100 + (b[2] as u64) * 0x10000 + (b[3] as u64)
        * 0x1000000 + (b[4] as u64) * 0x100000000 + (b[5] as u64) * 0x10000000000 + (b[6] as u64)
        * 0x1000000000000 + (b[7] as u64) * 0x100000000000000;
    let high: u16 = (b[8] as u16) + (b[9] as u16) * 0x100;
    proof {
        lemma_le_val_10(b@);
    }
    (low, high)
}

/// Store the low 64 and high 16 bits of an 80-bit value as 10
/// little-endian bytes.
fn le10_bytes(low: u64, high: u16) -> (r: [u8; 10])
    ensures
        le_val(r@) == low as nat + (high as nat) * 0x10000000000000000,
{
    let mut r: [u8; 10] = [0; 10];
    r[0] = (low & 0xff) as u8;
    r[1] = ((low >> 8) & 0xff) as u8;
    r[2] = ((low >> 16) & 0xff) as u8;
    r[3] = ((low >> 24) & 0xff) as u8;
    r[4] = ((low >> 32) & 0xff) as u8;
    r[5] = ((low >> 40) & 0xff) as u8;
    r[6] = ((low >> 48) & 0xff) as u8;
    r[7] = ((low >> 56) & 0xff) as u8;
    r[8] = (high & 0xff) as u8;
    r[9] = ((high >> 8) & 0xff) as u8;
    proof {
        assert((low & 0xff) < 256 && ((low >> 8) & 0xff) < 256 && ((low >> 16) & 0xff) < 256 && ((
        low >> 24) & 0xff) < 256 && ((low >> 32) & 0xff) < 256 && ((low >> 40) & 0xff) < 256 && ((
        low >> 48) & 0xff) < 256 && ((low >> 56) & 0xff) < 256) by (bit_vector);
        assert((high & 0xff) < 256 && ((high >> 8) & 0xff) < 256) by (bit_vector);
        assert(low == (low & 0xff) + ((low >> 8) & 0xff) * 0x100 + ((low >> 16) & 0xff) * 0x10000
            + ((low >> 24) & 0xff) * 0x1000000 + ((low >> 32) & 0xff) * 0x100000000 + ((low >> 40)
            & 0xff) * 0x10000000000 + ((low >> 48) & 0xff) * 0x1000000000000 + ((low >> 56) & 0xff)
            * 0x100000000000000) by (bit_vector);
        assert(high == (high & 0xff) + ((high >> 8) & 0xff) * 0x100) by (bit_vector);
        lemma_le_val_10(r@);
    }
    r
}

/// Compose the identifier bytes: the sequence bytes in `[0, 10)`, the low
/// 48 bits of the timestamp little-endian in `[10, 16)`.
fn compose_id(seq_bytes: &[u8; 10], timestamp: u128) -> (r: [u8; 16])
    ensures
        r@.len() == 16,
        r@.subrange(0, 10) == seq_bytes@,
        timestamp_field(r@) == truncated(timestamp),
{
    let mut id: [u8; 16] = [0; 16];
    let mut i: usize = 0;
    while i < 10
        invariant
            0 <= i <= 10,
            forall|k: int| 0 <= k < i ==> id@[k] == seq_bytes@[k],
        decreases 10 - i,
    {
        id[i] = seq_bytes[i];
        i += 1;
    }
    let t: u64 = (timestamp % 0x1000000000000) as u64;
    id[10] = (t & 0xff) as u8;
    id[11] = ((t >> 8) & 0xff) as u8;
    id[12] = ((t >> 16) & 0xff) as u8;
    id[13] = ((t >> 24) & 0xff) as u8;
    id[14] = ((t >> 32) & 0xff) as u8;
    id[15] = ((t >> 40) & 0xff) as u8;
    proof {
        assert((t & 0xff) < 256 && ((t >> 8) & 0xff) < 256 && ((t >> 16) & 0xff) < 256 && ((t
            >> 24) & 0xff) < 256 && ((t >> 32) & 0xff) < 256 && ((t >> 40) & 0xff) < 256)
            by (bit_vector);
        assert(t < 0x1000000000000 ==> t == (t & 0xff) + ((t >> 8) & 0xff) * 0x100 + ((t >> 16)
            & 0xff) * 0x10000 + ((t >> 24) & 0xff) * 0x1000000 + ((t >> 32) & 0xff) * 0x100000000
            + ((t >> 40) & 0xff) * 0x10000000000) by (bit_vector);
        let s = id@.subrange(10, 16);
        assert(s.len() == 6);
        assert(s[0] == id@[10] && s[1] == id@[11] && s[2] == id@[12] && s[3] == id@[13] && s[4]
            == id@[14] && s[5] == id@[15]);
        lemma_le_val_6(s);
        assert(id@.subrange(0, 10) =~= seq_bytes@);
    }
    id
}

/// One generation step over an explicit clock reading and reseed value.
///
/// When `now` is strictly past the stored timestamp, the timestamp
/// advances to `now` and the counter restarts from `reseed`; otherwise
/// both are retained. The (possibly reseeded) counter is then
/// incremented by one, and the identifier composed from the new counter
/// and the retained timestamp. A counter already at its maximum would
/// wrap to a reused value, so the step fails instead and leaves the
/// counter as it was.
pub fn next_id(state: &mut IdState, now: u128, reseed: [u8; 10]) -> (r: Result<Uint128, FatalError>)
    ensures
        final(state).last_timestamp == step_timestamp(*old(state), now),
        le_val(step_sequence_start(*old(state), now, reseed@)) == seq_field_max() ==> (
            r == Err::<Uint128, FatalError>(FatalError::SequenceOverflow)
            && final(state).last_random@ == step_sequence_start(*old(state), now, reseed@)
        ),
        le_val(step_sequence_start(*old(state), now, reseed@)) != seq_field_max() ==> (
            r matches Ok(id)
            && generation_step(*old(state), now, reseed@, *final(state), id@)
        ),
{
    let timestamp: u128;
    if now > state.last_timestamp {
        state.last_timestamp = now;
        state.last_random = reseed;
        timestamp = now;
    } else {
        timestamp = state.last_timestamp;
    }
    let (low0, high0) = le10_parts(&state.last_random);
    let mut low: u64 = 0;
    let mut high: u16 = high0;
    if low0 == 0xffff_ffff_ffff_ffff {
        if high0 == 0xffff {
            return Err(FatalError::SequenceOverflow);
        }
        high = high0 + 1;
    } else {
        low = low0 + 1;
    }
    let seq_bytes = le10_bytes(low, high);
    state.last_random = seq_bytes;
    let id = compose_id(&seq_bytes, timestamp);
    Ok(Uint128(id))
}

/// Produce a fresh identifier from the wall clock.
///
/// Reads the clock, advances the state by one generation step, and
/// composes the identifier outside any further bookkeeping. The retained
/// timestamp never decreases, whatever the clock returns; a clock failure
/// leaves the state untouched; and as long as the timestamp bucket does
/// not change, each successful call increments the sequence by exactly
/// one.
pub fn generate_id(state: &mut IdState) -> (r: Result<Uint128, FatalError>)
    ensures
        old(state).last_timestamp <= final(state).last_timestamp,
        r == Err::<Uint128, FatalError>(FatalError::ClockFailure) ==> *final(state) == *old(state),
        r == Err::<Uint128, FatalError>(FatalError::SequenceOverflow) ==> le_val(
            final(state).last_random@,
        ) == seq_field_max(),
        r matches Ok(id) ==> (id@.len() == 16 && id@.subrange(0, 10) == final(state).last_random@
            && timestamp_field(id@) == truncated(final(state).last_timestamp)),
        r matches Ok(id) ==> some_generation_step(*old(state), *final(state), id@),
        (r matches Ok(id) && final(state).last_timestamp == old(state).last_timestamp) ==> le_val(
            final(state).last_random@,
        ) == le_val(old(state).last_random@) + 1,
{
    let now = match clock_now_nanos() {
        Some(n) => n,
        None => {
            return Err(FatalError::ClockFailure);
        },
    };
    let reseed: [u8; 10] = if now > state.last_timestamp {
        fresh_random_bytes()
    } else {
        [0; 10]
    };
    let r = next_id(state, now, reseed);
    proof {
        if r is Ok {
            assert(generation_step(*old(state), now, reseed@, *state, (r->Ok_0)@));
        }
    }
    r
}

// ============================================================
// Laws of the generator
// ============================================================

/// The order a run of successful generation steps follows: the timestamp
/// never goes back, and while it stands still neither does the sequence.
pub open spec fn follows(s1: IdState, s2: IdState) -> bool {
    ||| s1.last_timestamp < s2.last_timestamp
    ||| (s1.last_timestamp == s2.last_timestamp && le_val(s1.last_random@) <= le_val(
        s2.last_random@,
    ))
}

/// Law (monotonic progress): a successful generation step never moves the
/// timestamp backwards, and while the timestamp stands still the sequence
/// advances by exactly one — so every state of a run follows the one
/// before it.
pub proof fn lemma_step_monotone(pre: IdState, now: u128, reseed: Seq<u8>, post: IdState, id: Seq<u8>)
    requires
        generation_step(pre, now, reseed, post, id),
    ensures
        pre.last_timestamp <= post.last_timestamp,
        post.last_timestamp == pre.last_timestamp ==> le_val(post.last_random@) == le_val(
            pre.last_random@,
        ) + 1,
        follows(pre, post),
{
}

/// The run order is transitive, so it holds between any two states of a
/// run of steps, however many steps apart.
pub proof fn lemma_follows_transitive(a: IdState, b: IdState, c: IdState)
    requires
        follows(a, b),
        follows(b, c),
    ensures
        follows(a, c),
{
}

/// Timestamps that differ by less than 2^48 nanoseconds have different
/// low 48 bits.
proof fn lemma_truncation_separates(t1: u128, t2: u128)
    requires
        t1 < t2,
        t2 - t1 < 0x1000000000000,
    ensures
        truncated(t1) != truncated(t2),
{
    let m: int = 0x1000000000000;
    if truncated(t1) == truncated(t2) {
        lemma_fundamental_div_mod(t1 as int, m);
        lemma_fundamental_div_mod(t2 as int, m);
        let q1 = t1 as int / m;
        let q2 = t2 as int / m;
        assert(t2 - t1 == m * (q2 - q1));
        assert(q2 - q1 >= 1) by (nonlinear_arith)
            requires
                m * (q2 - q1) > 0,
                m > 0,
        ;
        lemma_mul_inequality(1, q2 - q1, m);
    }
}

/// Law (uniqueness): two identifiers from successful generation steps of
/// one run are distinct, provided the second step starts from a state
/// that follows where the first ended — which `lemma_step_monotone` and
/// `lemma_follows_transitive` show holds across any number of intervening
/// steps — and the two retained timestamps lie within one
/// 2^48-nanosecond window. Identifiers record only the low 48 bits of the
/// timestamp, so timestamps a full window apart may collide; within a
/// window the pair (timestamp, sequence) is unique and pins the bytes.
pub proof fn lemma_generated_ids_distinct(
    pre1: IdState,
    now1: u128,
    rs1: Seq<u8>,
    post1: IdState,
    id1: Seq<u8>,
    pre2: IdState,
    now2: u128,
    rs2: Seq<u8>,
    post2: IdState,
    id2: Seq<u8>,
)
    requires
        generation_step(pre1, now1, rs1, post1, id1),
        generation_step(pre2, now2, rs2, post2, id2),
        follows(post1, pre2),
        post2.last_timestamp - post1.last_timestamp < 0x1000000000000,
    ensures
        id1 != id2,
{
    assert(sequence_field(id1) == le_val(post1.last_random@));
    assert(sequence_field(id2) == le_val(post2.last_random@));
    if post2.last_timestamp == post1.last_timestamp {
        assert(pre2.last_timestamp == post1.last_timestamp);
        assert(le_val(pre2.last_random@) >= le_val(post1.last_random@));
        assert(!(now2 > pre2.last_timestamp));
        assert(le_val(post2.last_random@) == le_val(pre2.last_random@) + 1);
        assert(sequence_field(id1) != sequence_field(id2));
    } else {
        lemma_truncation_separates(post1.last_timestamp, post2.last_timestamp);
        assert(timestamp_field(id1) != timestamp_field(id2));
    }
}

/// Law (uniqueness at the clock-driven entry): the same distinctness,
/// stated over what `generate_id` ensures of its steps, with the clock
/// readings and reseed values left existential.
pub proof fn lemma_generate_ids_distinct(
    pre1: IdState,
    post1: IdState,
    id1: Seq<u8>,
    pre2: IdState,
    post2: IdState,
    id2: Seq<u8>,
)
    requires
        some_generation_step(pre1, post1, id1),
        some_generation_step(pre2, post2, id2),
        follows(post1, pre2),
        post2.last_timestamp - post1.last_timestamp < 0x1000000000000,
    ensures
        id1 != id2,
{
    let (now1, rs1) = choose|now: u128, reseed: Seq<u8>| generation_step(
        pre1,
        now,
        reseed,
        post1,
        id1,
    );
    let (now2, rs2) = choose|now: u128, reseed: Seq<u8>| generation_step(
        pre2,
        now,
        reseed,
        post2,
        id2,
    );
    lemma_generated_ids_distinct(pre1, now1, rs1, post1, id1, pre2, now2, rs2, post2, id2);
}

/// Law (monotonic timestamp field): of two identifiers from successful
/// generation steps whose retained timestamps both lie below 2^48 — that
/// is, before the 48-bit field first wraps — the one generated later
/// never records the smaller timestamp.
pub proof fn lemma_timestamp_field_monotone(
    pre1: IdState,
    now1: u128,
    rs1: Seq<u8>,
    post1: IdState,
    id1: Seq<u8>,
    pre2: IdState,
    now2: u128,
    rs2: Seq<u8>,
    post2: IdState,
    id2: Seq<u8>,
)
    requires
        generation_step(pre1, now1, rs1, post1, id1),
        generation_step(pre2, now2, rs2, post2, id2),
        post1.last_timestamp <= post2.last_timestamp,
        post2.last_timestamp < 0x1000000000000,
    ensures
        timestamp_field(id1) <= timestamp_field(id2),
{
}

/// Law (sequence progression): of two consecutive successful generation
/// steps whose identifiers record the same timestamp — the second read of
/// the clock having stayed within one 2^48-nanosecond window — the second
/// sequence field is exactly the first plus one.
pub proof fn lemma_sequence_progression(
    pre: IdState,
    now1: u128,
    rs1: Seq<u8>,
    mid: IdState,
    id1: Seq<u8>,
    now2: u128,
    rs2: Seq<u8>,
    post: IdState,
    id2: Seq<u8>,
)
    requires
        generation_step(pre, now1, rs1, mid, id1),
        generation_step(mid, now2, rs2, post, id2),
        timestamp_field(id1) == timestamp_field(id2),
        post.last_timestamp - mid.last_timestamp < 0x1000000000000,
    ensures
        sequence_field(id2) == sequence_field(id1) + 1,
{
    if post.last_timestamp != mid.last_timestamp {
        assert(mid.last_timestamp < post.last_timestamp);
        lemma_truncation_separates(mid.last_timestamp, post.last_timestamp);
        assert(false);
    }
    assert(!(now2 > mid.last_timestamp));
}

// ============================================================
// Trusted interface to the outside world
// ============================================================

/// Relies on std's `SystemTime::now`, `duration_since` and `as_nanos`:
/// the wall clock, as whole nanoseconds since the Unix epoch, or `None`
/// when the clock reads earlier than the epoch. Nothing is promised of
/// the value: the state update is verified for every reading.
#[verifier::external_body]
fn clock_now_nanos() -> (r: Option<u128>) {
    match std::time::SystemTime::now().duration_since(std::time::UNIX_EPOCH) {
        Ok(d) => Some(d.as_nanos()),
        Err(_) => None,
    }
}

/// Relies on `rand::rng` and `Rng::fill_bytes`: 10 bytes from the
/// thread-local cryptographically strong generator. Nothing is promised
/// of their values: the generator is correct for every reseed.
#[verifier::external_body]
fn fresh_random_bytes() -> (r: [u8; 10]) {
    let mut b = [0u8; 10];
    rand::rng().fill_bytes(&mut b);
    b
}

/// Relies on `String::push`: appends the given character at the end.
#[verifier::external_body]
fn push_char(s: &mut String, c: char)
    ensures
        final(s)@ == old(s)@.push(c),
{
    s.push(c);
}

} // verus!
