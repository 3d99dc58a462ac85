use vstd::prelude::*;

verus! {

use vstd::string::StringSliceAdditionalSpecFns;

/// Length of a room code, in bytes. Codes are exactly this many characters
/// drawn from `A`..`Z` and `0`..`9`, so bytes and characters coincide.
pub const ROOM_CODE_LENGTH: usize = 4;

/// Number of distinct characters a room code may use: 26 letters and 10 digits.
pub const CODE_CHARSET_SIZE: usize = 36;

/// Number of distinct room codes: `CODE_CHARSET_SIZE` to the power `ROOM_CODE_LENGTH`.
pub const CODE_SPACE_SIZE: usize = 1_679_616;

/// A room's public four-character handle.
///
/// The four bytes are the ASCII characters of the code, most significant
/// first. Codes the server generates satisfy [`RoomCode::wf`]; codes parsed
/// from client input are only guaranteed to have the right length.
#[derive(Clone, Copy, PartialEq, Eq, Structural, Debug, Hash, PartialOrd, Ord)]
pub struct RoomCode {
    pub b0: u8,
    pub b1: u8,
    pub b2: u8,
    pub b3: u8,
}

/// True when `b` is the ASCII code of one of the 36 characters a generated
/// room code may use (`A`..`Z` are 65..90, `0`..`9` are 48..57).
pub open spec fn valid_code_byte(b: u8) -> bool {
    (65 <= b && b <= 90) || (48 <= b && b <= 57)
}

impl RoomCode {
    /// The code's bytes in order.
    pub open spec fn bytes(self) -> Seq<u8> {
        seq![self.b0, self.b1, self.b2, self.b3]
    }

    /// All four bytes come from the generation charset.
    pub open spec fn wf(self) -> bool {
        valid_code_byte(self.b0) && valid_code_byte(self.b1) && valid_code_byte(self.b2)
            && valid_code_byte(self.b3)
    }
}

/// The ASCII byte standing at position `d` of the charset `A..Z0..9`.
pub open spec fn spec_byte_of_digit(d: int) -> int {
    if d < 26 {
        65 + d
    } else {
        48 + (d - 26)
    }
}

/// The charset position of the ASCII byte `b`; inverse of `spec_byte_of_digit`.
pub open spec fn spec_digit_of_byte(b: int) -> int {
    if 65 <= b && b <= 90 {
        b - 65
    } else {
        26 + (b - 48)
    }
}

pub proof fn lemma_byte_digit_inverse(d: int)
    requires
        0 <= d < 36,
    ensures
        valid_code_byte(spec_byte_of_digit(d) as u8),
        spec_digit_of_byte(spec_byte_of_digit(d)) == d,
{
}

/// Picks the charset byte standing at position `d`.
pub fn byte_of_digit(d: u8) -> (b: u8)
    requires
        d < 36,
    ensures
        b == spec_byte_of_digit(d as int),
        valid_code_byte(b),
{
    if d < 26 {
        65 + d
    } else {
        48 + (d - 26)
    }
}

/// Parses a client-supplied room code. Succeeds exactly on four-byte input,
/// as the protocol demands; anything shorter or longer is rejected.
pub fn string_to_code(s: &str) -> (r: Result<RoomCode, ()>)
    ensures
        match r {
            Ok(c) => s.spec_bytes().len() == 4 && c.bytes() == s.spec_bytes(),
            Err(_) => s.spec_bytes().len() != 4,
        },
{
    let b = s.as_bytes();
    if b.len() != ROOM_CODE_LENGTH {
        Err(())
    } else {
        let c = RoomCode { b0: b[0], b1: b[1], b2: b[2], b3: b[3] };
        proof {
            assert(c.bytes() =~= s.spec_bytes());
        }
        Ok(c)
    }
}

/// Relies on `String::from_utf8`: ASCII bytes are valid UTF-8 and decode to
/// one character per byte with the same code point.
#[verifier::external_body]
fn string_from_ascii(bytes: Vec<u8>) -> (r: String)
    requires
        forall|i: int| 0 <= i < bytes@.len() ==> bytes@[i] < 128,
    ensures
        r@.len() == bytes@.len(),
        forall|i: int| 0 <= i < bytes@.len() ==> r@[i] == bytes@[i] as char,
{
    String::from_utf8(bytes).unwrap_or_default()
}

/// Renders a well-formed room code as its four-character string.
pub fn code_to_string(code: &RoomCode) -> (s: String)
    requires
        code.wf(),
    ensures
        s@.len() == 4,
        forall|i: int| 0 <= i < 4 ==> s@[i] == code.bytes()[i] as char,
{
    let mut bytes: Vec<u8> = Vec::new();
    bytes.push(code.b0);
    bytes.push(code.b1);
    bytes.push(code.b2);
    bytes.push(code.b3);
    proof {
        assert(forall|i: int| 0 <= i < bytes@.len() ==> bytes@[i] == code.bytes()[i]);
    }
    string_from_ascii(bytes)
}

/// Relies on `fastrand::usize`: a sample of the given non-empty range.
#[verifier::external_body]
fn random_below(bound: usize) -> (r: usize)
    requires
        1 <= bound,
    ensures
        r < bound,
{
    fastrand::usize(0..bound)
}

/// Draws a fresh four-character code uniformly from the charset.
pub fn generate_room_id() -> (c: RoomCode)
    ensures
        c.wf(),
{
    let d0 = random_below(CODE_CHARSET_SIZE);
    let d1 = random_below(CODE_CHARSET_SIZE);
    let d2 = random_below(CODE_CHARSET_SIZE);
    let d3 = random_below(CODE_CHARSET_SIZE);
    RoomCode {
        b0: byte_of_digit(d0 as u8),
        b1: byte_of_digit(d1 as u8),
        b2: byte_of_digit(d2 as u8),
        b3: byte_of_digit(d3 as u8),
    }
}

/// The position of a well-formed code in the lexicographic enumeration of
/// the whole code space.
pub open spec fn index_of_code(c: RoomCode) -> int {
    spec_digit_of_byte(c.b0 as int) * 46656 + spec_digit_of_byte(c.b1 as int) * 1296
        + spec_digit_of_byte(c.b2 as int) * 36 + spec_digit_of_byte(c.b3 as int)
}

/// Builds the `v`-th code of the enumeration; inverse of `index_of_code`.
pub fn code_of_index(v: usize) -> (c: RoomCode)
    requires
        v < 1_679_616,
    ensures
        c.wf(),
        index_of_code(c) == v,
{
    let d0 = v / 46656;
    let r0 = v % 46656;
    let d1 = r0 / 1296;
    let r1 = r0 % 1296;
    let d2 = r1 / 36;
    let d3 = r1 % 36;
    let c = RoomCode {
        b0: byte_of_digit(d0 as u8),
        b1: byte_of_digit(d1 as u8),
        b2: byte_of_digit(d2 as u8),
        b3: byte_of_digit(d3 as u8),
    };
    proof {
        lemma_byte_digit_inverse(d0 as int);
        lemma_byte_digit_inverse(d1 as int);
        lemma_byte_digit_inverse(d2 as int);
        lemma_byte_digit_inverse(d3 as int);
    }
    c
}

proof fn lemma_mixed_radix_unique(a0: int, a1: int, a2: int, a3: int, b0: int, b1: int, b2: int, b3: int)
    requires
        0 <= a0 < 36,
        0 <= a1 < 36,
        0 <= a2 < 36,
        0 <= a3 < 36,
        0 <= b0 < 36,
        0 <= b1 < 36,
        0 <= b2 < 36,
        0 <= b3 < 36,
        a0 * 46656 + a1 * 1296 + a2 * 36 + a3 == b0 * 46656 + b1 * 1296 + b2 * 36 + b3,
    ensures
        a0 == b0,
        a1 == b1,
        a2 == b2,
        a3 == b3,
{
    assert(a1 * 1296 + a2 * 36 + a3 < 46656);
    assert(b1 * 1296 + b2 * 36 + b3 < 46656);
    assert(a0 == b0);
    assert(a2 * 36 + a3 < 1296);
    assert(b2 * 36 + b3 < 1296);
    assert(a1 == b1);
    assert(a2 == b2);
}

/// Every valid charset byte is recovered from its digit.
proof fn lemma_digit_byte_inverse(b: int)
    requires
        valid_code_byte(b as u8),
        0 <= b < 256,
    ensures
        0 <= spec_digit_of_byte(b) < 36,
        spec_byte_of_digit(spec_digit_of_byte(b)) == b,
{
}

/// Distinct well-formed codes stand at distinct enumeration positions.
pub proof fn lemma_code_of_index_injective(c1: RoomCode, c2: RoomCode)
    requires
        c1.wf(),
        c2.wf(),
        index_of_code(c1) == index_of_code(c2),
    ensures
        c1 == c2,
{
    lemma_digit_byte_inverse(c1.b0 as int);
    lemma_digit_byte_inverse(c1.b1 as int);
    lemma_digit_byte_inverse(c1.b2 as int);
    lemma_digit_byte_inverse(c1.b3 as int);
    lemma_digit_byte_inverse(c2.b0 as int);
    lemma_digit_byte_inverse(c2.b1 as int);
    lemma_digit_byte_inverse(c2.b2 as int);
    lemma_digit_byte_inverse(c2.b3 as int);
    lemma_mixed_radix_unique(
        spec_digit_of_byte(c1.b0 as int),
        spec_digit_of_byte(c1.b1 as int),
        spec_digit_of_byte(c1.b2 as int),
        spec_digit_of_byte(c1.b3 as int),
        spec_digit_of_byte(c2.b0 as int),
        spec_digit_of_byte(c2.b1 as int),
        spec_digit_of_byte(c2.b2 as int),
        spec_digit_of_byte(c2.b3 as int),
    );
}

} // verus!
