//! Data types that packets carry: packed block positions, angles,
//! identifiers, arms and hands, block faces and inventory slots.
use vstd::prelude::*;
use vstd::arithmetic::div_mod::*;
use vstd::string::*;
use vstd::utf8::*;

use crate::parse::{
    after, be_u64, be_u8, boolean, consumed, is_suffix, lemma_after_index, lemma_suffix_trans,
    parses_to, signed_of, spec_boolean,
    spec_var_str, var_str, ParseError, DEFAULT_MAX_STRING_LENGTH,
};
use crate::varint::{varint, varint_outcome, VarintOutcome};

verus! {

broadcast use vstd::string::group_string_axioms, vstd::utf8::group_utf8_lib;

/// A block position packed into one 64-bit word: x in the top 26 bits, then z
/// in the next 26, then y in the low 12, each in two's complement.
#[derive(Clone, Copy, PartialEq, Eq, Debug)]
pub struct Position(pub u64);

/// The word that packs `(x, y, z)`.
pub open spec fn pack_spec(x: int, y: int, z: int) -> nat {
    let xr = if x < 0 { x + 0x400_0000 } else { x };
    let zr = if z < 0 { z + 0x400_0000 } else { z };
    let yr = if y < 0 { y + 0x1000 } else { y };
    (xr * 0x40_0000_0000 + zr * 0x1000 + yr) as nat
}

/// The coordinate ranges a packed position can hold.
pub open spec fn position_in_range(x: int, y: int, z: int) -> bool {
    &&& -0x200_0000 <= x < 0x200_0000
    &&& -0x800 <= y < 0x800
    &&& -0x200_0000 <= z < 0x200_0000
}

impl Position {
    pub open spec fn spec_x(self) -> int {
        signed_of(self.0 as nat / 0x40_0000_0000, 0x400_0000)
    }

    pub open spec fn spec_z(self) -> int {
        signed_of((self.0 as nat / 0x1000) % 0x400_0000, 0x400_0000)
    }

    pub open spec fn spec_y(self) -> int {
        signed_of(self.0 as nat % 0x1000, 0x1000)
    }

    /// Packs three coordinates.
    pub fn new(x: i32, y: i16, z: i32) -> (r: Position)
        requires
            position_in_range(x as int, y as int, z as int),
        ensures
            r.0 as nat == pack_spec(x as int, y as int, z as int),
            r.spec_x() == x,
            r.spec_y() == y,
            r.spec_z() == z,
    {
        let xr: u64 = if x < 0 {
            (x as i64 + 0x400_0000) as u64
        } else {
            x as u64
        };
        let zr: u64 = if z < 0 {
            (z as i64 + 0x400_0000) as u64
        } else {
            z as u64
        };
        let yr: u64 = if y < 0 {
            (y as i32 + 0x1000) as u64
        } else {
            y as u64
        };
        proof {
            lemma_unpack(xr as int, zr as int, yr as int);
        }
        Position(xr * 0x40_0000_0000 + zr * 0x1000 + yr)
    }

    /// The x coordinate.
    pub fn x(self) -> (r: i32)
        ensures
            r == self.spec_x(),
    {
        let raw = self.0 / 0x40_0000_0000;
        if raw >= 0x200_0000 {
            raw as i32 - 0x400_0000
        } else {
            raw as i32
        }
    }

    /// The y coordinate.
    pub fn y(self) -> (r: i16)
        ensures
            r == self.spec_y(),
    {
        let raw = self.0 % 0x1000;
        if raw >= 0x800 {
            raw as i16 - 0x1000
        } else {
            raw as i16
        }
    }

    /// The z coordinate.
    pub fn z(self) -> (r: i32)
        ensures
            r == self.spec_z(),
    {
        let raw = (self.0 / 0x1000) % 0x400_0000;
        if raw >= 0x200_0000 {
            raw as i32 - 0x400_0000
        } else {
            raw as i32
        }
    }

    /// Reads a position as one big-endian 64-bit word.
    pub fn parse(i: &[u8]) -> (r: Result<(&[u8], Position), ParseError>)
        ensures
            match r {
                Ok((rest, p)) => i@.len() >= 8 && p.0 == crate::parse::be_value(
                    i@.subrange(0, 8),
                ) && rest@ == after(i@, 8),
                Err(e) => i@.len() < 8 && e == ParseError::Incomplete,
            },
    {
        match be_u64(i) {
            Ok((rest, v)) => Ok((rest, Position(v))),
            Err(e) => Err(e),
        }
    }
}

proof fn lemma_unpack(xr: int, zr: int, yr: int)
    requires
        0 <= xr < 0x400_0000,
        0 <= zr < 0x400_0000,
        0 <= yr < 0x1000,
    ensures
        ({
            let b = xr * 0x40_0000_0000 + zr * 0x1000 + yr;
            &&& 0 <= b < 0x1_0000_0000_0000_0000
            &&& b / 0x40_0000_0000 == xr
            &&& (b / 0x1000) % 0x400_0000 == zr
            &&& b % 0x1000 == yr
        }),
{
    let b = xr * 0x40_0000_0000 + zr * 0x1000 + yr;
    let low = zr * 0x1000 + yr;
    assert(0 <= low < 0x40_0000_0000) by (nonlinear_arith)
        requires
            0 <= zr < 0x400_0000,
            0 <= yr < 0x1000,
            low == zr * 0x1000 + yr,
    ;
    assert(0 <= b < 0x1_0000_0000_0000_0000) by (nonlinear_arith)
        requires
            0 <= xr < 0x400_0000,
            0 <= low < 0x40_0000_0000,
            b == xr * 0x40_0000_0000 + low,
    ;
    lemma_fundamental_div_mod_converse(b, 0x40_0000_0000, xr, low);
    lemma_fundamental_div_mod_converse(b, 0x1000, xr * 0x400_0000 + zr, yr);
    lemma_fundamental_div_mod_converse(xr * 0x400_0000 + zr, 0x400_0000, xr, zr);
}

/// Packing coordinates in range and reading them back gives the same
/// coordinates.
pub proof fn lemma_position_round_trip(x: int, y: int, z: int)
    requires
        position_in_range(x, y, z),
    ensures
        pack_spec(x, y, z) < 0x1_0000_0000_0000_0000,
        Position(pack_spec(x, y, z) as u64).spec_x() == x,
        Position(pack_spec(x, y, z) as u64).spec_y() == y,
        Position(pack_spec(x, y, z) as u64).spec_z() == z,
{
    let xr = if x < 0 { x + 0x400_0000 } else { x };
    let zr = if z < 0 { z + 0x400_0000 } else { z };
    let yr = if y < 0 { y + 0x1000 } else { y };
    lemma_unpack(xr, zr, yr);
}

/// A rotation in steps of 1/256 of a full turn.
#[derive(Clone, Copy, PartialEq, Eq, Debug)]
pub struct Angle(pub u8);

impl Angle {
    /// Reads an angle byte.
    pub fn parse(i: &[u8]) -> (r: Result<(&[u8], Angle), ParseError>)
        ensures
            match r {
                Ok((rest, a)) => i@.len() >= 1 && a.0 == i@[0] && rest@ == after(i@, 1),
                Err(e) => i@.len() < 1 && e == ParseError::Incomplete,
            },
    {
        match be_u8(i) {
            Ok((rest, v)) => Ok((rest, Angle(v))),
            Err(e) => Err(e),
        }
    }
}

/// The bytes a namespace may hold: digits, lower-case letters, `.`, `_`, `-`.
pub open spec fn namespace_byte(c: u8) -> bool {
    (0x30 <= c <= 0x39) || (0x61 <= c <= 0x7a) || c == 0x2e || c == 0x5f || c == 0x2d
}

/// The bytes a path may hold: those of a namespace and `/`.
pub open spec fn path_byte(c: u8) -> bool {
    namespace_byte(c) || c == 0x2f
}

/// The index of the first `x` in `s`, or the length of `s` if there is none.
pub open spec fn find_byte(s: Seq<u8>, x: u8) -> nat
    decreases s.len(),
{
    if s.len() == 0 || s[0] == x {
        0
    } else {
        1 + find_byte(s.drop_first(), x)
    }
}

/// The first byte of `s` that `ok` rejects.
pub open spec fn first_rejected(s: Seq<u8>, ok: spec_fn(u8) -> bool) -> Option<u8>
    decreases s.len(),
{
    if s.len() == 0 {
        None
    } else if !ok(s[0]) {
        Some(s[0])
    } else {
        first_rejected(s.drop_first(), ok)
    }
}

/// Splits the ASCII bytes `b` of an identifier into namespace and path.
pub open spec fn spec_identifier_bytes(b: Seq<u8>) -> Result<
    (Seq<u8>, Seq<u8>),
    ParseIdentifierError,
> {
    let k = find_byte(b, 0x3a);
    if k == b.len() {
        Err(ParseIdentifierError::ExpectedSeparator)
    } else {
        let ns = b.subrange(0, k as int);
        let path = b.subrange(k as int + 1, b.len() as int);
        if let Some(c) = first_rejected(ns, |c: u8| namespace_byte(c)) {
            Err(ParseIdentifierError::InvalidCharacterInNamespace(c as char))
        } else if let Some(c) = first_rejected(path, |c: u8| path_byte(c)) {
            Err(ParseIdentifierError::InvalidCharacterInPath(c as char))
        } else if ns.len() == 0 {
            Err(ParseIdentifierError::EmptyNamespace)
        } else if path.len() == 0 {
            Err(ParseIdentifierError::EmptyPath)
        } else {
            Ok((ns, path))
        }
    }
}

/// What parsing the text `s` as an identifier gives: its namespace and path
/// bytes, or the first rule it breaks.
pub open spec fn spec_identifier(s: Seq<char>) -> Result<(Seq<u8>, Seq<u8>), ParseIdentifierError> {
    if !is_ascii_chars(s) {
        Err(ParseIdentifierError::NotAscii)
    } else {
        spec_identifier_bytes(encode_utf8(s))
    }
}

/// `b` is `namespace:path` with exactly one `:`, both halves non-empty and
/// every byte allowed in its half.
pub open spec fn well_formed_identifier(b: Seq<u8>) -> bool {
    exists|k: int|
        {
            &&& 0 < k < b.len() - 1
            &&& b[k] == 0x3a
            &&& forall|i: int| 0 <= i < k ==> namespace_byte(#[trigger] b[i])
            &&& forall|i: int| k < i < b.len() ==> path_byte(#[trigger] b[i])
        }
}

/// Why text is not an identifier.
#[derive(Debug, Clone, Copy, PartialEq, Eq)]
pub enum ParseIdentifierError {
    InvalidCharacterInNamespace(char),
    InvalidCharacterInPath(char),
    NotAscii,
    ExpectedSeparator,
    EmptyNamespace,
    EmptyPath,
}

/// An identifier borrowed from the text it was parsed from.
#[derive(Debug, Clone, PartialEq, Eq)]
pub struct IdentifierRef<'a> {
    pub namespace: &'a str,
    pub path: &'a str,
}

/// An owned identifier.
#[derive(Debug, Clone, PartialEq, Eq)]
pub struct Identifier {
    pub namespace: String,
    pub path: String,
}

/// Whether `c` may not appear in a namespace.
fn invalid_namespace_char(c: &u8) -> (r: bool)
    ensures
        r == !namespace_byte(*c),
{
    let c = *c;
    !((0x30 <= c && c <= 0x39) || (0x61 <= c && c <= 0x7a) || c == 0x2e || c == 0x5f || c == 0x2d)
}

/// Whether `c` may not appear in a path.
fn invalid_path_char(c: &u8) -> (r: bool)
    ensures
        r == !path_byte(*c),
{
    invalid_namespace_char(c) && *c != 0x2f
}

proof fn lemma_find_byte(s: Seq<u8>, x: u8, k: int)
    requires
        0 <= k <= s.len(),
        forall|j: int| 0 <= j < k ==> s[j] != x,
        k == s.len() || s[k] == x,
    ensures
        find_byte(s, x) == k,
    decreases k,
{
    if k > 0 {
        lemma_find_byte(s.drop_first(), x, k - 1);
    }
}

proof fn lemma_first_rejected(s: Seq<u8>, ok: spec_fn(u8) -> bool, k: int)
    requires
        0 <= k <= s.len(),
        forall|j: int| 0 <= j < k ==> ok(s[j]),
    ensures
        k == s.len() ==> first_rejected(s, ok) is None,
        k < s.len() && !ok(s[k]) ==> first_rejected(s, ok) == Some(s[k]),
    decreases k,
{
    if k > 0 {
        lemma_first_rejected(s.drop_first(), ok, k - 1);
    }
}

proof fn lemma_first_rejected_none(s: Seq<u8>, ok: spec_fn(u8) -> bool)
    ensures
        first_rejected(s, ok) is None <==> forall|j: int| 0 <= j < s.len() ==> ok(#[trigger] s[j]),
    decreases s.len(),
{
    if s.len() > 0 {
        lemma_first_rejected_none(s.drop_first(), ok);
        if first_rejected(s, ok) is None {
            assert forall|j: int| 0 <= j < s.len() implies ok(#[trigger] s[j]) by {
                if j > 0 {
                    assert(s[j] == s.drop_first()[j - 1]);
                }
            }
        }
        if forall|j: int| 0 <= j < s.len() ==> ok(#[trigger] s[j]) {
            assert(ok(s[0]));
            assert forall|j: int| 0 <= j < s.drop_first().len() implies ok(
                #[trigger] s.drop_first()[j],
            ) by {
                assert(s.drop_first()[j] == s[j + 1]);
            }
        }
    }
}

/// Finds the first byte of `b[from..to]` that may not appear in a namespace
/// (or, with `path`, in a path).
fn first_invalid(b: &[u8], from: usize, to: usize, path: bool) -> (r: Option<u8>)
    requires
        from <= to <= b@.len(),
    ensures
        path ==> r == first_rejected(b@.subrange(from as int, to as int), |c: u8| path_byte(c)),
        !path ==> r == first_rejected(
            b@.subrange(from as int, to as int),
            |c: u8| namespace_byte(c),
        ),
{
    let ghost s = b@.subrange(from as int, to as int);
    let ghost ok = if path {
        |c: u8| path_byte(c)
    } else {
        |c: u8| namespace_byte(c)
    };
    let mut k: usize = from;
    while k < to
        invariant
            from <= k <= to <= b@.len(),
            s == b@.subrange(from as int, to as int),
            ok == (if path {
                |c: u8| path_byte(c)
            } else {
                |c: u8| namespace_byte(c)
            }),
            forall|j: int| 0 <= j < k - from ==> ok(#[trigger] s[j]),
        decreases to - k,
    {
        let bad = if path {
            invalid_path_char(&b[k])
        } else {
            invalid_namespace_char(&b[k])
        };
        if bad {
            proof {
                assert(s[k - from] == b@[k as int]);
                lemma_first_rejected(s, ok, k - from);
            }
            return Some(b[k]);
        }
        assert(s[k - from] == b@[k as int]);
        k = k + 1;
    }
    proof {
        lemma_first_rejected(s, ok, k - from);
    }
    None
}

impl<'a> IdentifierRef<'a> {
    /// Parses `namespace:path`.
    pub fn try_from(value: &'a str) -> (r: Result<IdentifierRef<'a>, ParseIdentifierError>)
        ensures
            match r {
                Ok(id) => spec_identifier(value@) == Ok::<
                    (Seq<u8>, Seq<u8>),
                    ParseIdentifierError,
                >((id.namespace.spec_bytes(), id.path.spec_bytes())),
                Err(e) => spec_identifier(value@) == Err::<
                    (Seq<u8>, Seq<u8>),
                    ParseIdentifierError,
                >(e),
            },
    {
        if !value.is_ascii() {
            return Err(ParseIdentifierError::NotAscii);
        }
        let b = value.as_bytes();
        proof {
            is_ascii_chars_encode_utf8(value@);
        }
        let n = b.len();
        let mut k: usize = 0;
        while k < n && b[k] != 0x3a
            invariant
                k <= n == b@.len(),
                forall|j: int| 0 <= j < k ==> b@[j] != 0x3a,
            decreases n - k,
        {
            k = k + 1;
        }
        proof {
            lemma_find_byte(b@, 0x3a, k as int);
        }
        if k == n {
            return Err(ParseIdentifierError::ExpectedSeparator);
        }
        assert(b@.subrange(0, k as int).len() == k);
        if let Some(c) = first_invalid(b, 0, k, false) {
            return Err(ParseIdentifierError::InvalidCharacterInNamespace(c as char));
        }
        if let Some(c) = first_invalid(b, k + 1, n, true) {
            return Err(ParseIdentifierError::InvalidCharacterInPath(c as char));
        }
        if k == 0 {
            return Err(ParseIdentifierError::EmptyNamespace);
        }
        if k + 1 == n {
            return Err(ParseIdentifierError::EmptyPath);
        }
        let namespace = value.substring_ascii(0, k);
        let path = value.substring_ascii(k + 1, n);
        proof {
            is_ascii_chars_encode_utf8(namespace@);
            is_ascii_chars_encode_utf8(path@);
            assert(namespace.spec_bytes() =~= b@.subrange(0, k as int));
            assert(path.spec_bytes() =~= b@.subrange(k + 1, n as int));
        }
        Ok(IdentifierRef { namespace, path })
    }

    /// Copies the identifier into owned strings.
    pub fn to_owned(&self) -> (r: Identifier)
        ensures
            r.namespace@ == self.namespace@,
            r.path@ == self.path@,
    {
        Identifier { namespace: self.namespace.to_owned(), path: self.path.to_owned() }
    }

    /// Reads an identifier sent as a length-prefixed string.
    pub fn parse(i: &'a [u8]) -> (r: Result<(&'a [u8], IdentifierRef<'a>), ParseError>)
        ensures
            match r {
                Ok((rest, id)) => {
                    &&& is_suffix(i@, rest@)
                    &&& spec_var_str(i@, DEFAULT_MAX_STRING_LENGTH as nat) matches Ok((b, n))
                    &&& n == consumed(i@, rest@)
                    &&& spec_identifier(decode_utf8(b)) == Ok::<
                        (Seq<u8>, Seq<u8>),
                        ParseIdentifierError,
                    >((id.namespace.spec_bytes(), id.path.spec_bytes()))
                },
                Err(ParseError::InvalidIdentifier) => spec_var_str(
                    i@,
                    DEFAULT_MAX_STRING_LENGTH as nat,
                ) matches Ok((b, _)) && spec_identifier(decode_utf8(b)) is Err,
                Err(e) => spec_var_str(i@, DEFAULT_MAX_STRING_LENGTH as nat) == Err::<
                    (Seq<u8>, nat),
                    ParseError,
                >(e),
            },
    {
        let (rest, s) = match var_str(i) {
            Ok(x) => x,
            Err(e) => return Err(e),
        };
        proof {
            encode_utf8_decode_utf8(s@);
        }
        match IdentifierRef::try_from(s) {
            Ok(id) => Ok((rest, id)),
            Err(_) => Err(ParseError::InvalidIdentifier),
        }
    }
}

impl Identifier {
    /// Borrows the identifier.
    pub fn as_ref(&self) -> (r: IdentifierRef<'_>)
        ensures
            r.namespace@ == self.namespace@,
            r.path@ == self.path@,
    {
        IdentifierRef { namespace: self.namespace.as_str(), path: self.path.as_str() }
    }

    /// Parses `namespace:path` into an owned identifier.
    pub fn try_from(value: &str) -> (r: Result<Identifier, ParseIdentifierError>)
        ensures
            match r {
                Ok(id) => spec_identifier(value@) == Ok::<
                    (Seq<u8>, Seq<u8>),
                    ParseIdentifierError,
                >((encode_utf8(id.namespace@), encode_utf8(id.path@))),
                Err(e) => spec_identifier(value@) == Err::<
                    (Seq<u8>, Seq<u8>),
                    ParseIdentifierError,
                >(e),
            },
    {
        match IdentifierRef::try_from(value) {
            Ok(id) => Ok(id.to_owned()),
            Err(e) => Err(e),
        }
    }

    /// Reads an identifier sent as a length-prefixed string.
    pub fn parse(i: &[u8]) -> (r: Result<(&[u8], Identifier), ParseError>)
        ensures
            match r {
                Ok((rest, id)) => {
                    &&& is_suffix(i@, rest@)
                    &&& spec_var_str(i@, DEFAULT_MAX_STRING_LENGTH as nat) matches Ok((b, n))
                    &&& n == consumed(i@, rest@)
                    &&& spec_identifier(decode_utf8(b)) == Ok::<
                        (Seq<u8>, Seq<u8>),
                        ParseIdentifierError,
                    >((encode_utf8(id.namespace@), encode_utf8(id.path@)))
                },
                Err(ParseError::InvalidIdentifier) => spec_var_str(
                    i@,
                    DEFAULT_MAX_STRING_LENGTH as nat,
                ) matches Ok((b, _)) && spec_identifier(decode_utf8(b)) is Err,
                Err(e) => spec_var_str(i@, DEFAULT_MAX_STRING_LENGTH as nat) == Err::<
                    (Seq<u8>, nat),
                    ParseError,
                >(e),
            },
    {
        match IdentifierRef::parse(i) {
            Ok((rest, id)) => Ok((rest, id.to_owned())),
            Err(e) => Err(e),
        }
    }
}

/// An identifier parses exactly when it is well formed, and then its
/// namespace, a `:` and its path give back the text it was parsed from.
pub proof fn lemma_identifier_grammar(b: Seq<u8>)
    ensures
        spec_identifier_bytes(b) is Ok <==> well_formed_identifier(b),
        spec_identifier_bytes(b) matches Ok((ns, path)) ==> ns + seq![0x3au8] + path == b,
{
    let k = find_byte(b, 0x3a);
    lemma_find_byte_facts(b, 0x3a);
    if k < b.len() {
        let ns = b.subrange(0, k as int);
        let path = b.subrange(k as int + 1, b.len() as int);
        lemma_first_rejected_none(ns, |c: u8| namespace_byte(c));
        lemma_first_rejected_none(path, |c: u8| path_byte(c));
        assert(ns + seq![0x3au8] + path =~= b);
        if well_formed_identifier(b) {
            let j = choose|j: int|
                {
                    &&& 0 < j < b.len() - 1
                    &&& b[j] == 0x3a
                    &&& forall|i: int| 0 <= i < j ==> namespace_byte(#[trigger] b[i])
                    &&& forall|i: int| j < i < b.len() ==> path_byte(#[trigger] b[i])
                };
            assert(!namespace_byte(b[j]));
            assert(j == k) by {
                if k < j {
                    assert(namespace_byte(b[k as int]));
                } else if j < k {
                    assert(b[j] != 0x3a);
                }
            }
            assert forall|i: int| 0 <= i < ns.len() implies namespace_byte(#[trigger] ns[i]) by {
                assert(ns[i] == b[i]);
            }
            assert forall|i: int| 0 <= i < path.len() implies path_byte(#[trigger] path[i]) by {
                assert(path[i] == b[k + 1 + i]);
            }
        }
        if spec_identifier_bytes(b) is Ok {
            assert forall|i: int| 0 <= i < k implies namespace_byte(#[trigger] b[i]) by {
                assert(ns[i] == b[i]);
            }
            assert forall|i: int| k < i < b.len() implies path_byte(#[trigger] b[i]) by {
                assert(path[i - k - 1] == b[i]);
            }
        }
    } else {
        if well_formed_identifier(b) {
            let j = choose|j: int|
                {
                    &&& 0 < j < b.len() - 1
                    &&& b[j] == 0x3a
                    &&& forall|i: int| 0 <= i < j ==> namespace_byte(#[trigger] b[i])
                    &&& forall|i: int| j < i < b.len() ==> path_byte(#[trigger] b[i])
                };
            assert(b[j] != 0x3a);
        }
    }
}

proof fn lemma_find_byte_facts(s: Seq<u8>, x: u8)
    ensures
        find_byte(s, x) <= s.len(),
        forall|j: int| 0 <= j < find_byte(s, x) ==> s[j] != x,
        find_byte(s, x) < s.len() ==> s[find_byte(s, x) as int] == x,
    decreases s.len(),
{
    if s.len() > 0 && s[0] != x {
        lemma_find_byte_facts(s.drop_first(), x);
        assert forall|j: int| 0 <= j < find_byte(s, x) implies s[j] != x by {
            if j > 0 {
                assert(s[j] == s.drop_first()[j - 1]);
            }
        }
    }
}

/// Which arm a player uses as the main one.
#[derive(Debug, Clone, Copy, PartialEq, Eq, Structural)]
pub enum Arm {
    Left,
    Right,
}

/// Which hand an action uses.
#[derive(Debug, Clone, Copy, PartialEq, Eq, Structural)]
pub enum Hand {
    Mainhand,
    Offhand,
}

/// A face of a block.
#[derive(Debug, Clone, Copy, PartialEq, Eq, Structural)]
pub enum Direction {
    Bottom,
    Top,
    North,
    South,
    West,
    East,
}

/// The variant of a two-valued enumeration sent as a varint: 0 or 1.
pub open spec fn spec_binary_choice(s: Seq<u8>) -> Result<(bool, nat), ParseError> {
    match varint_outcome(s, 32) {
        VarintOutcome::Overflow => Err(ParseError::VarintOverflow),
        VarintOutcome::Incomplete => Err(ParseError::Incomplete),
        VarintOutcome::Value { bits, len } => if bits == 0 {
            Ok((false, len))
        } else if bits == 1 {
            Ok((true, len))
        } else {
            Err(ParseError::InvalidEnumValue(bits as u32))
        },
    }
}

/// Reads a varint that must be 0 or 1; true for 1.
fn binary_choice(i: &[u8]) -> (r: Result<(&[u8], bool), ParseError>)
    ensures
        match r {
            Ok((rest, b)) => spec_binary_choice(i@) == Ok::<(bool, nat), ParseError>(
                (b, consumed(i@, rest@)),
            ) && is_suffix(i@, rest@),
            Err(e) => spec_binary_choice(i@) == Err::<(bool, nat), ParseError>(e),
        },
{
    let (rest, v) = match varint::<u32>(i) {
        Ok(x) => x,
        Err(e) => return Err(e),
    };
    if v == 0 {
        Ok((rest, false))
    } else if v == 1 {
        Ok((rest, true))
    } else {
        Err(ParseError::InvalidEnumValue(v))
    }
}

impl Arm {
    /// Reads an arm: varint 0 is left, 1 is right.
    pub fn parse(i: &[u8]) -> (r: Result<(&[u8], Arm), ParseError>)
        ensures
            match r {
                Ok((rest, a)) => spec_binary_choice(i@) == Ok::<(bool, nat), ParseError>(
                    (a == Arm::Right, consumed(i@, rest@)),
                ) && is_suffix(i@, rest@),
                Err(e) => spec_binary_choice(i@) == Err::<(bool, nat), ParseError>(e),
            },
    {
        match binary_choice(i) {
            Ok((rest, false)) => Ok((rest, Arm::Left)),
            Ok((rest, true)) => Ok((rest, Arm::Right)),
            Err(e) => Err(e),
        }
    }
}

impl Hand {
    /// Reads a hand: varint 0 is the main hand, 1 the off hand.
    pub fn parse(i: &[u8]) -> (r: Result<(&[u8], Hand), ParseError>)
        ensures
            match r {
                Ok((rest, h)) => spec_binary_choice(i@) == Ok::<(bool, nat), ParseError>(
                    (h == Hand::Offhand, consumed(i@, rest@)),
                ) && is_suffix(i@, rest@),
                Err(e) => spec_binary_choice(i@) == Err::<(bool, nat), ParseError>(e),
            },
    {
        match binary_choice(i) {
            Ok((rest, false)) => Ok((rest, Hand::Mainhand)),
            Ok((rest, true)) => Ok((rest, Hand::Offhand)),
            Err(e) => Err(e),
        }
    }
}

/// The face numbered `v`: bottom, top, north, south, west, east.
pub open spec fn direction_of(v: u8) -> Option<Direction> {
    if v == 0 {
        Some(Direction::Bottom)
    } else if v == 1 {
        Some(Direction::Top)
    } else if v == 2 {
        Some(Direction::North)
    } else if v == 3 {
        Some(Direction::South)
    } else if v == 4 {
        Some(Direction::West)
    } else if v == 5 {
        Some(Direction::East)
    } else {
        None
    }
}

impl Direction {
    /// Reads a face as one byte from 0 to 5.
    pub fn parse(i: &[u8]) -> (r: Result<(&[u8], Direction), ParseError>)
        ensures
            match r {
                Ok((rest, d)) => i@.len() >= 1 && direction_of(i@[0]) == Some(d) && rest@
                    == after(i@, 1),
                Err(ParseError::Incomplete) => i@.len() == 0,
                Err(ParseError::InvalidEnumValue(v)) => i@.len() >= 1 && v == i@[0] as u32
                    && direction_of(i@[0]) is None,
                Err(_) => false,
            },
    {
        let (rest, v) = match be_u8(i) {
            Ok(x) => x,
            Err(e) => return Err(e),
        };
        if v == 0 {
            Ok((rest, Direction::Bottom))
        } else if v == 1 {
            Ok((rest, Direction::Top))
        } else if v == 2 {
            Ok((rest, Direction::North))
        } else if v == 3 {
            Ok((rest, Direction::South))
        } else if v == 4 {
            Ok((rest, Direction::West))
        } else if v == 5 {
            Ok((rest, Direction::East))
        } else {
            Err(ParseError::InvalidEnumValue(v as u32))
        }
    }
}

/// Extra item data carried as an NBT compound.
#[derive(Clone, Debug, PartialEq, Eq)]
pub struct SlotNbt {
    pub damage: i32,
    pub unbreakable: bool,
}

/// An item stack in an inventory slot.
#[derive(Clone, Debug, PartialEq, Eq)]
pub struct SlotData {
    pub id: u32,
    pub count: u8,
    pub nbt: Option<SlotNbt>,
}

/// What a slot holds: nothing, or an item stack.
pub type Slot = Option<SlotData>;

/// An item stack: varint id, count byte, and an NBT tag that must be the
/// empty tag (a single zero byte).
pub open spec fn spec_slot_data(s: Seq<u8>) -> Result<(SlotData, nat), ParseError> {
    match varint_outcome(s, 32) {
        VarintOutcome::Overflow => Err(ParseError::VarintOverflow),
        VarintOutcome::Incomplete => Err(ParseError::Incomplete),
        VarintOutcome::Value { bits, len } => if s.len() < len + 2 {
            Err(ParseError::Incomplete)
        } else if s[len as int + 1] != 0 {
            Err(ParseError::UnsupportedNbt)
        } else {
            Ok((SlotData { id: bits as u32, count: s[len as int], nbt: None }, len + 2))
        },
    }
}

/// A slot: a presence flag followed, when set, by an item stack.
pub open spec fn spec_slot(s: Seq<u8>) -> Result<(Slot, nat), ParseError> {
    match spec_boolean(s) {
        Err(e) => Err(e),
        Ok(false) => Ok((None, 1)),
        Ok(true) => match spec_slot_data(after(s, 1)) {
            Ok((d, n)) => Ok((Some(d), n + 1)),
            Err(e) => Err(e),
        },
    }
}

impl SlotData {
    /// Reads an item stack.
    pub fn parse(i: &[u8]) -> (r: Result<(&[u8], SlotData), ParseError>)
        ensures
            parses_to(i@, r, spec_slot_data(i@)),
    {
        let (i2, id) = match varint::<u32>(i) {
            Ok(x) => x,
            Err(e) => return Err(e),
        };
        let (i3, count) = match be_u8(i2) {
            Ok(x) => x,
            Err(e) => return Err(e),
        };
        let (rest, tag) = match be_u8(i3) {
            Ok(x) => x,
            Err(e) => return Err(e),
        };
        proof {
            let n = consumed(i@, i2@) as int;
            lemma_after_index(i@, n, 0);
            lemma_after_index(i@, n, 1);
            assert(i3@ =~= after(i@, n + 1));
            if i3@.len() >= 1 {
                assert(rest@ =~= after(i@, n + 2));
            }
        }
        if tag != 0 {
            return Err(ParseError::UnsupportedNbt);
        }
        Ok((rest, SlotData { id, count, nbt: None }))
    }
}

/// Reads a slot.
pub fn parse_slot(i: &[u8]) -> (r: Result<(&[u8], Slot), ParseError>)
    ensures
        parses_to(i@, r, spec_slot(i@)),
{
    match boolean(i) {
        Ok((rest, false)) => Ok((rest, None)),
        Ok((rest, true)) => match SlotData::parse(rest) {
            Ok((rest2, s)) => {
                proof {
                    lemma_suffix_trans(i@, rest@, rest2@);
                }
                Ok((rest2, Some(s)))
            },
            Err(e) => Err(e),
        },
        Err(e) => Err(e),
    }
}

} // verus!
