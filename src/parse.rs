//! Framing primitives: booleans, optional values, length-prefixed bytes and
//! strings, and the handshake's next-state field.
//!
//! Each parser reads from the front of its input and returns the bytes after
//! what it read together with the value.
use vstd::prelude::*;
use vstd::string::StringSliceAdditionalSpecFns;
use vstd::utf8::valid_utf8;

use crate::state::ConnectionState;
use crate::varint::{varint, varint_outcome, VarintOutcome};

verus! {

/// Why a parser did not produce a value.
#[derive(Debug, Clone, Copy, PartialEq, Eq)]
pub enum ParseError {
    /// More bytes are needed; the caller retries once they have arrived.
    Incomplete,
    /// A varint still had its continuation bit set on its last allowed byte.
    VarintOverflow,
    /// A boolean byte other than 0 or 1.
    InvalidBoolean(u8),
    /// A length-prefixed string that is not valid UTF-8.
    InvalidUtf8,
    /// A string longer than its field allows; the declared length.
    StringTooLong(u32),
    /// A handshake asked for a next state other than 1 (status) or 2 (login).
    InvalidNextState(u32),
    /// A packet id that the current state does not know.
    UnknownPacketId(u32),
    /// A numeric field outside the values its enumeration defines.
    InvalidEnumValue(u32),
    /// An identifier that breaks the identifier grammar.
    InvalidIdentifier,
    /// Slot data carrying an NBT compound, which this server does not read.
    UnsupportedNbt,
    /// A packet body with bytes left over after its last field.
    TrailingBytes,
}

/// The remaining input after consuming `n` bytes of `s`.
pub open spec fn after(s: Seq<u8>, n: int) -> Seq<u8> {
    s.subrange(n, s.len() as int)
}

/// `rest` is what remains of `input` after a parser consumed a prefix.
pub open spec fn is_suffix(input: Seq<u8>, rest: Seq<u8>) -> bool {
    &&& rest.len() <= input.len()
    &&& rest == after(input, input.len() - rest.len())
}

/// How many bytes of `input` a parser consumed, given what it left.
pub open spec fn consumed(input: Seq<u8>, rest: Seq<u8>) -> nat {
    (input.len() - rest.len()) as nat
}

/// Parsers chain: what the second leaves of what the first left is a suffix
/// of the input, and the consumed counts add up.
pub proof fn lemma_suffix_trans(a: Seq<u8>, b: Seq<u8>, c: Seq<u8>)
    requires
        is_suffix(a, b),
        is_suffix(b, c),
    ensures
        is_suffix(a, c),
        consumed(a, c) == consumed(a, b) + consumed(b, c),
{
    assert(c =~= after(a, a.len() - c.len()));
}

/// What follows `n` bytes of `s` starts with `s[n]`.
pub proof fn lemma_after_index(s: Seq<u8>, n: int, j: int)
    requires
        0 <= n,
        0 <= j,
        n + j < s.len(),
    ensures
        after(s, n)[j] == s[n + j],
        after(after(s, n), j + 1) =~= after(s, n + j + 1),
{
}

/// `r`, the result of a parser run on `input`, agrees with `expected`: the
/// same error, or the same value with as many bytes consumed.
pub open spec fn parses_to<T>(
    input: Seq<u8>,
    r: Result<(&[u8], T), ParseError>,
    expected: Result<(T, nat), ParseError>,
) -> bool {
    match r {
        Ok((rest, v)) => is_suffix(input, rest@) && expected == Ok::<(T, nat), ParseError>(
            (v, consumed(input, rest@)),
        ),
        Err(e) => expected == Err::<(T, nat), ParseError>(e),
    }
}

/// A boolean byte: 0 is false, 1 is true.
pub open spec fn spec_boolean(s: Seq<u8>) -> Result<bool, ParseError> {
    if s.len() == 0 {
        Err(ParseError::Incomplete)
    } else if s[0] == 0 {
        Ok(false)
    } else if s[0] == 1 {
        Ok(true)
    } else {
        Err(ParseError::InvalidBoolean(s[0]))
    }
}

/// Reads a boolean byte.
pub fn boolean(i: &[u8]) -> (r: Result<(&[u8], bool), ParseError>)
    ensures
        match r {
            Ok((rest, b)) => spec_boolean(i@) == Ok::<bool, ParseError>(b) && rest@ == after(
                i@,
                1,
            ),
            Err(e) => spec_boolean(i@) == Err::<bool, ParseError>(e),
        },
{
    if i.len() == 0 {
        return Err(ParseError::Incomplete);
    }
    let v = i[0];
    let (_, rest) = i.split_at(1);
    if v == 0 {
        Ok((rest, false))
    } else if v == 1 {
        Ok((rest, true))
    } else {
        Err(ParseError::InvalidBoolean(v))
    }
}

/// Reads a boolean flag and, when it is set, the value `parser` reads after it.
pub fn maybe<'a, T, P: FnOnce(&'a [u8]) -> Result<(&'a [u8], T), ParseError>>(
    i: &'a [u8],
    parser: P,
) -> (r: Result<(&'a [u8], Option<T>), ParseError>)
    requires
        forall|s: &'a [u8]| #[trigger] parser.requires((s,)),
    ensures
        match spec_boolean(i@) {
            Err(e) => r == Err::<(&'a [u8], Option<T>), ParseError>(e),
            Ok(false) => r matches Ok((rest, None)) && rest@ == after(i@, 1),
            Ok(true) => exists|s: &'a [u8]|
                {
                    &&& s@ == after(i@, 1)
                    &&& match r {
                        Ok((rest, Some(v))) => parser.ensures((s,), Ok((rest, v))),
                        Ok((_, None)) => false,
                        Err(e) => parser.ensures((s,), Err(e)),
                    }
                },
        },
{
    let (i, b) = match boolean(i) {
        Ok(x) => x,
        Err(e) => return Err(e),
    };
    if b {
        match parser(i) {
            Ok((rest, v)) => Ok((rest, Some(v))),
            Err(e) => Err(e),
        }
    } else {
        Ok((i, None))
    }
}

/// A varint length `L` followed by `L` bytes: the bytes and the size of the
/// whole field.
pub open spec fn spec_var_bytes(s: Seq<u8>) -> Result<(Seq<u8>, nat), ParseError> {
    match varint_outcome(s, 32) {
        VarintOutcome::Overflow => Err(ParseError::VarintOverflow),
        VarintOutcome::Incomplete => Err(ParseError::Incomplete),
        VarintOutcome::Value { bits, len } => if s.len() - len < bits {
            Err(ParseError::Incomplete)
        } else {
            Ok((s.subrange(len as int, len + bits as int), len + bits))
        },
    }
}

/// Reads a varint-length-prefixed byte string. A frame on the wire has the
/// same shape.
pub fn var_bytes(i: &[u8]) -> (r: Result<(&[u8], &[u8]), ParseError>)
    ensures
        match r {
            Ok((rest, data)) => {
                &&& spec_var_bytes(i@) == Ok::<(Seq<u8>, nat), ParseError>(
                    (data@, consumed(i@, rest@)),
                )
                &&& is_suffix(i@, rest@)
            },
            Err(e) => spec_var_bytes(i@) == Err::<(Seq<u8>, nat), ParseError>(e),
        },
{
    let (i2, len) = match varint::<u32>(i) {
        Ok(x) => x,
        Err(e) => return Err(e),
    };
    let n = i.len() - i2.len();
    if i2.len() < len as usize {
        return Err(ParseError::Incomplete);
    }
    let data = &i[n..n + len as usize];
    let (_, rest) = i.split_at(n + len as usize);
    Ok((rest, data))
}

/// The longest string, in bytes, that [`var_str`] reads.
pub const DEFAULT_MAX_STRING_LENGTH: u32 = 32767;

/// A varint length `L` followed by `L` bytes of UTF-8, where `L` may not
/// exceed `max`: the bytes and the size of the whole field.
pub open spec fn spec_var_str(s: Seq<u8>, max: nat) -> Result<(Seq<u8>, nat), ParseError> {
    match varint_outcome(s, 32) {
        VarintOutcome::Overflow => Err(ParseError::VarintOverflow),
        VarintOutcome::Incomplete => Err(ParseError::Incomplete),
        VarintOutcome::Value { bits, len } => {
            if bits > max {
                Err(ParseError::StringTooLong(bits as u32))
            } else if s.len() - len < bits {
                Err(ParseError::Incomplete)
            } else if !valid_utf8(s.subrange(len as int, len + bits as int)) {
                Err(ParseError::InvalidUtf8)
            } else {
                Ok((s.subrange(len as int, len + bits as int), len + bits))
            }
        },
    }
}

/// Relies on `std::str::from_utf8`: it succeeds exactly on valid UTF-8, and
/// the string it returns has the given bytes.
#[verifier::external_body]
fn utf8_str(b: &[u8]) -> (r: Option<&str>)
    ensures
        r is Some <==> valid_utf8(b@),
        r matches Some(s) ==> s.spec_bytes() == b@,
{
    std::str::from_utf8(b).ok()
}

/// Reads a varint-length-prefixed UTF-8 string of at most 32767 bytes.
pub fn var_str(i: &[u8]) -> (r: Result<(&[u8], &str), ParseError>)
    ensures
        match r {
            Ok((rest, st)) => {
                &&& spec_var_str(i@, DEFAULT_MAX_STRING_LENGTH as nat) == Ok::<
                    (Seq<u8>, nat),
                    ParseError,
                >((st.spec_bytes(), consumed(i@, rest@)))
                &&& is_suffix(i@, rest@)
            },
            Err(e) => spec_var_str(i@, DEFAULT_MAX_STRING_LENGTH as nat) == Err::<
                (Seq<u8>, nat),
                ParseError,
            >(e),
        },
{
    var_str_with_max_length(i, DEFAULT_MAX_STRING_LENGTH)
}

/// Reads a varint-length-prefixed UTF-8 string of at most `max_length`
/// bytes.
pub fn var_str_with_max_length(i: &[u8], max_length: u32) -> (r: Result<(&[u8], &str), ParseError>)
    ensures
        match r {
            Ok((rest, st)) => {
                &&& spec_var_str(i@, max_length as nat) == Ok::<(Seq<u8>, nat), ParseError>(
                    (st.spec_bytes(), consumed(i@, rest@)),
                )
                &&& is_suffix(i@, rest@)
            },
            Err(e) => spec_var_str(i@, max_length as nat) == Err::<(Seq<u8>, nat), ParseError>(e),
        },
{
    let (i2, len) = match varint::<u32>(i) {
        Ok(x) => x,
        Err(e) => return Err(e),
    };
    let n = i.len() - i2.len();
    if len > max_length {
        return Err(ParseError::StringTooLong(len));
    }
    let take = len;
    if i2.len() < take as usize {
        return Err(ParseError::Incomplete);
    }
    let data = &i[n..n + take as usize];
    match utf8_str(data) {
        Some(st) => {
            let (_, rest) = i.split_at(n + take as usize);
            Ok((rest, st))
        },
        None => Err(ParseError::InvalidUtf8),
    }
}

/// The state a handshake asks for: 1 is status, 2 is login.
pub open spec fn spec_connection_state(s: Seq<u8>) -> Result<(ConnectionState, nat), ParseError> {
    match varint_outcome(s, 32) {
        VarintOutcome::Overflow => Err(ParseError::VarintOverflow),
        VarintOutcome::Incomplete => Err(ParseError::Incomplete),
        VarintOutcome::Value { bits, len } => if bits == 1 {
            Ok((ConnectionState::Status, len))
        } else if bits == 2 {
            Ok((ConnectionState::Login, len))
        } else {
            Err(ParseError::InvalidNextState(bits as u32))
        },
    }
}

/// Reads the next-state field of a handshake.
pub fn connection_state(i: &[u8]) -> (r: Result<(&[u8], ConnectionState), ParseError>)
    ensures
        match r {
            Ok((rest, st)) => {
                &&& spec_connection_state(i@) == Ok::<(ConnectionState, nat), ParseError>(
                    (st, consumed(i@, rest@)),
                )
                &&& is_suffix(i@, rest@)
            },
            Err(e) => spec_connection_state(i@) == Err::<(ConnectionState, nat), ParseError>(e),
        },
{
    let (rest, v) = match varint::<u32>(i) {
        Ok(x) => x,
        Err(e) => return Err(e),
    };
    if v == 1 {
        Ok((rest, ConnectionState::Status))
    } else if v == 2 {
        Ok((rest, ConnectionState::Login))
    } else {
        Err(ParseError::InvalidNextState(v))
    }
}

/// The big-endian value of `s`.
pub open spec fn be_value(s: Seq<u8>) -> nat
    decreases s.len(),
{
    if s.len() == 0 {
        0
    } else {
        be_value(s.drop_last()) * 256 + s.last() as nat
    }
}

/// `256^n`.
pub open spec fn pow256(n: nat) -> nat
    decreases n,
{
    if n == 0 {
        1
    } else {
        256 * pow256((n - 1) as nat)
    }
}

pub proof fn lemma_be_value_bound(s: Seq<u8>)
    ensures
        be_value(s) < pow256(s.len()),
    decreases s.len(),
{
    if s.len() > 0 {
        lemma_be_value_bound(s.drop_last());
        let a = be_value(s.drop_last());
        let p = pow256((s.len() - 1) as nat);
        assert(a * 256 + s.last() < p * 256) by (nonlinear_arith)
            requires
                a < p,
                s.last() < 256,
        ;
    }
}

/// Reads an unsigned big-endian integer of `n` bytes.
fn be_uint(i: &[u8], n: usize) -> (r: Result<(&[u8], u64), ParseError>)
    requires
        n <= 8,
    ensures
        match r {
            Ok((rest, v)) => i@.len() >= n && v == be_value(i@.subrange(0, n as int)) && rest@
                == after(i@, n as int),
            Err(e) => i@.len() < n && e == ParseError::Incomplete,
        },
{
    if i.len() < n {
        return Err(ParseError::Incomplete);
    }
    let mut v: u64 = 0;
    let mut k: usize = 0;
    while k < n
        invariant
            k <= n <= 8,
            n <= i@.len(),
            v == be_value(i@.subrange(0, k as int)),
        decreases n - k,
    {
        proof {
            lemma_be_value_bound(i@.subrange(0, k as int));
            reveal_with_fuel(pow256, 9);
            assert(pow256(k as nat) <= pow256(7)) by {
                lemma_pow256_mono(k as nat, 7);
            }
            assert(i@.subrange(0, k + 1).drop_last() =~= i@.subrange(0, k as int));
        }
        v = v * 256 + i[k] as u64;
        k = k + 1;
    }
    let (_, rest) = i.split_at(n);
    Ok((rest, v))
}

proof fn lemma_pow256_mono(a: nat, b: nat)
    requires
        a <= b,
    ensures
        pow256(a) <= pow256(b),
    decreases b,
{
    if a < b {
        lemma_pow256_mono(a, (b - 1) as nat);
    }
}

/// Reads one byte.
pub fn be_u8(i: &[u8]) -> (r: Result<(&[u8], u8), ParseError>)
    ensures
        match r {
            Ok((rest, v)) => i@.len() >= 1 && v == i@[0] && rest@ == after(i@, 1),
            Err(e) => i@.len() < 1 && e == ParseError::Incomplete,
        },
{
    if i.len() < 1 {
        return Err(ParseError::Incomplete);
    }
    let v = i[0];
    let (_, rest) = i.split_at(1);
    Ok((rest, v))
}

/// Reads a big-endian `u16`.
pub fn be_u16(i: &[u8]) -> (r: Result<(&[u8], u16), ParseError>)
    ensures
        match r {
            Ok((rest, v)) => i@.len() >= 2 && v == be_value(i@.subrange(0, 2)) && rest@ == after(i@, 2),
            Err(e) => i@.len() < 2 && e == ParseError::Incomplete,
        },
{
    let (rest, v) = match be_uint(i, 2) {
        Ok(x) => x,
        Err(e) => return Err(e),
    };
    proof {
        lemma_be_value_bound(i@.subrange(0, 2));
        reveal_with_fuel(pow256, 3);
    }
    Ok((rest, v as u16))
}

/// Reads a big-endian `u32`.
pub fn be_u32(i: &[u8]) -> (r: Result<(&[u8], u32), ParseError>)
    ensures
        match r {
            Ok((rest, v)) => i@.len() >= 4 && v == be_value(i@.subrange(0, 4)) && rest@ == after(i@, 4),
            Err(e) => i@.len() < 4 && e == ParseError::Incomplete,
        },
{
    let (rest, v) = match be_uint(i, 4) {
        Ok(x) => x,
        Err(e) => return Err(e),
    };
    proof {
        lemma_be_value_bound(i@.subrange(0, 4));
        reveal_with_fuel(pow256, 5);
    }
    Ok((rest, v as u32))
}

/// Reads a big-endian `u64`.
pub fn be_u64(i: &[u8]) -> (r: Result<(&[u8], u64), ParseError>)
    ensures
        match r {
            Ok((rest, v)) => i@.len() >= 8 && v == be_value(i@.subrange(0, 8)) && rest@ == after(i@, 8),
            Err(e) => i@.len() < 8 && e == ParseError::Incomplete,
        },
{
    be_uint(i, 8)
}

/// Reads a big-endian two's-complement `i16`.
pub fn be_i16(i: &[u8]) -> (r: Result<(&[u8], i16), ParseError>)
    ensures
        match r {
            Ok((rest, v)) => {
                &&& i@.len() >= 2
                &&& v == signed_of(be_value(i@.subrange(0, 2)), 0x1_0000)
                &&& rest@ == after(i@, 2)
            },
            Err(e) => i@.len() < 2 && e == ParseError::Incomplete,
        },
{
    let (rest, v) = match be_u16(i) {
        Ok(x) => x,
        Err(e) => return Err(e),
    };
    let s: i16 = if v >= 0x8000 {
        (v as i32 - 0x1_0000) as i16
    } else {
        v as i16
    };
    Ok((rest, s))
}

/// The two's-complement reading of the bit pattern `v` of a `2^k`-valued type
/// whose modulus is `m`.
pub open spec fn signed_of(v: nat, m: nat) -> int {
    if v >= m / 2 {
        v - m
    } else {
        v as int
    }
}

} // verus!
