//! Variable-length integers: seven payload bits per byte, least significant
//! group first, with the high bit of each byte set while more bytes follow.
//!
//! Every integer type of 16 bits or more implements [`VarInt`]; signed types
//! are written as their two's-complement bit pattern.
use vstd::prelude::*;
use vstd::arithmetic::div_mod::*;

use crate::parse::{is_suffix, ParseError};

verus! {

/// The widths, in bits, that varints are defined for.
pub open spec fn valid_width(w: nat) -> bool {
    w == 16 || w == 32 || w == 64 || w == 128
}

/// `2^w` for each valid width.
pub open spec fn modulus(w: nat) -> nat {
    if w == 16 {
        0x1_0000
    } else if w == 32 {
        0x1_0000_0000
    } else if w == 64 {
        0x1_0000_0000_0000_0000
    } else {
        0x1_0000_0000_0000_0000_0000_0000_0000_0000nat
    }
}

/// The largest number of bytes a varint of width `w` may take: `ceil(w / 7)`.
pub open spec fn max_size_of(w: nat) -> nat {
    if w == 16 {
        3
    } else if w == 32 {
        5
    } else if w == 64 {
        10
    } else {
        19
    }
}

/// `128^k`.
pub open spec fn pow128(k: nat) -> nat
    decreases k,
{
    if k == 0 {
        1
    } else {
        128 * pow128((k - 1) as nat)
    }
}

/// The seven-bit payloads of `s`, least significant group first.
pub open spec fn payload_value(s: Seq<u8>) -> nat
    decreases s.len(),
{
    if s.len() == 0 {
        0
    } else {
        (s[0] % 128) as nat + 128 * payload_value(s.drop_first())
    }
}

/// How many bytes at the start of `s` have their continuation bit set.
pub open spec fn continued_prefix(s: Seq<u8>) -> nat
    decreases s.len(),
{
    if s.len() == 0 || s[0] < 0x80 {
        0
    } else {
        1 + continued_prefix(s.drop_first())
    }
}

/// The shortest encoding of the natural number `v`.
pub open spec fn encode_spec(v: nat) -> Seq<u8>
    decreases v,
{
    if v < 128 {
        seq![v as u8]
    } else {
        seq![(v % 128 + 128) as u8] + encode_spec(v / 128)
    }
}

/// What reading a varint of width `w` from the front of `s` gives.
pub enum VarintOutcome {
    /// A complete varint of `len` bytes whose bit pattern is `bits`.
    Value { bits: nat, len: nat },
    /// `s` ends before the varint does.
    Incomplete,
    /// The varint runs past the largest size for its width.
    Overflow,
}

pub open spec fn varint_outcome(s: Seq<u8>, w: nat) -> VarintOutcome {
    let k = continued_prefix(s);
    if k >= max_size_of(w) {
        VarintOutcome::Overflow
    } else if k == s.len() {
        VarintOutcome::Incomplete
    } else {
        VarintOutcome::Value {
            bits: payload_value(s.subrange(0, k as int + 1)) % modulus(w),
            len: k + 1,
        }
    }
}

/// An integer type that can be read and written as a varint.
pub trait VarInt: Sized + Copy {
    /// The width of the type in bits.
    spec fn width() -> nat;

    /// The two's-complement bit pattern of the value, as a natural number.
    spec fn spec_bits(&self) -> nat;

    proof fn lemma_width()
        ensures
            valid_width(Self::width()),
    ;

    proof fn lemma_bits(x: Self)
        ensures
            valid_width(Self::width()),
            x.spec_bits() < modulus(Self::width()),
    ;

    proof fn lemma_bits_injective(x: Self, y: Self)
        ensures
            x.spec_bits() == y.spec_bits() ==> x == y,
    ;

    fn bit_width() -> (r: u32)
        ensures
            r as nat == Self::width(),
    ;

    fn to_bits(&self) -> (r: u128)
        ensures
            r as nat == self.spec_bits(),
    ;

    fn from_bits(b: u128) -> (r: Self)
        requires
            b < modulus(Self::width()),
        ensures
            r.spec_bits() == b as nat,
    ;
}

impl VarInt for u16 {
    open spec fn width() -> nat {
        16
    }

    open spec fn spec_bits(&self) -> nat {
        *self as nat
    }

    proof fn lemma_width() {
    }

    proof fn lemma_bits(x: Self) {
    }

    proof fn lemma_bits_injective(x: Self, y: Self) {
    }

    fn bit_width() -> (r: u32) {
        16
    }

    fn to_bits(&self) -> (r: u128) {
        *self as u128
    }

    fn from_bits(b: u128) -> (r: Self) {
        b as u16
    }
}

impl VarInt for u32 {
    open spec fn width() -> nat {
        32
    }

    open spec fn spec_bits(&self) -> nat {
        *self as nat
    }

    proof fn lemma_width() {
    }

    proof fn lemma_bits(x: Self) {
    }

    proof fn lemma_bits_injective(x: Self, y: Self) {
    }

    fn bit_width() -> (r: u32) {
        32
    }

    fn to_bits(&self) -> (r: u128) {
        *self as u128
    }

    fn from_bits(b: u128) -> (r: Self) {
        b as u32
    }
}

impl VarInt for u64 {
    open spec fn width() -> nat {
        64
    }

    open spec fn spec_bits(&self) -> nat {
        *self as nat
    }

    proof fn lemma_width() {
    }

    proof fn lemma_bits(x: Self) {
    }

    proof fn lemma_bits_injective(x: Self, y: Self) {
    }

    fn bit_width() -> (r: u32) {
        64
    }

    fn to_bits(&self) -> (r: u128) {
        *self as u128
    }

    fn from_bits(b: u128) -> (r: Self) {
        b as u64
    }
}

impl VarInt for u128 {
    open spec fn width() -> nat {
        128
    }

    open spec fn spec_bits(&self) -> nat {
        *self as nat
    }

    proof fn lemma_width() {
    }

    proof fn lemma_bits(x: Self) {
    }

    proof fn lemma_bits_injective(x: Self, y: Self) {
    }

    fn bit_width() -> (r: u32) {
        128
    }

    fn to_bits(&self) -> (r: u128) {
        *self
    }

    fn from_bits(b: u128) -> (r: Self) {
        b
    }
}

impl VarInt for i16 {
    open spec fn width() -> nat {
        16
    }

    open spec fn spec_bits(&self) -> nat {
        if *self < 0 {
            (*self + 0x1_0000) as nat
        } else {
            *self as nat
        }
    }

    proof fn lemma_width() {
    }

    proof fn lemma_bits(x: Self) {
    }

    proof fn lemma_bits_injective(x: Self, y: Self) {
    }

    fn bit_width() -> (r: u32) {
        16
    }

    fn to_bits(&self) -> (r: u128) {
        if *self < 0 {
            0xffff - ((-(*self + 1)) as u128)
        } else {
            *self as u128
        }
    }

    fn from_bits(b: u128) -> (r: Self) {
        if b >= 0x8000 {
            -(((0xffff - b) as i16)) - 1
        } else {
            b as i16
        }
    }
}

impl VarInt for i32 {
    open spec fn width() -> nat {
        32
    }

    open spec fn spec_bits(&self) -> nat {
        if *self < 0 {
            (*self + 0x1_0000_0000) as nat
        } else {
            *self as nat
        }
    }

    proof fn lemma_width() {
    }

    proof fn lemma_bits(x: Self) {
    }

    proof fn lemma_bits_injective(x: Self, y: Self) {
    }

    fn bit_width() -> (r: u32) {
        32
    }

    fn to_bits(&self) -> (r: u128) {
        if *self < 0 {
            0xffff_ffff - ((-(*self + 1)) as u128)
        } else {
            *self as u128
        }
    }

    fn from_bits(b: u128) -> (r: Self) {
        if b >= 0x8000_0000 {
            -(((0xffff_ffff - b) as i32)) - 1
        } else {
            b as i32
        }
    }
}

impl VarInt for i64 {
    open spec fn width() -> nat {
        64
    }

    open spec fn spec_bits(&self) -> nat {
        if *self < 0 {
            (*self + 0x1_0000_0000_0000_0000) as nat
        } else {
            *self as nat
        }
    }

    proof fn lemma_width() {
    }

    proof fn lemma_bits(x: Self) {
    }

    proof fn lemma_bits_injective(x: Self, y: Self) {
    }

    fn bit_width() -> (r: u32) {
        64
    }

    fn to_bits(&self) -> (r: u128) {
        if *self < 0 {
            0xffff_ffff_ffff_ffff - ((-(*self + 1)) as u128)
        } else {
            *self as u128
        }
    }

    fn from_bits(b: u128) -> (r: Self) {
        if b >= 0x8000_0000_0000_0000 {
            -(((0xffff_ffff_ffff_ffff - b) as i64)) - 1
        } else {
            b as i64
        }
    }
}

impl VarInt for i128 {
    open spec fn width() -> nat {
        128
    }

    open spec fn spec_bits(&self) -> nat {
        if *self < 0 {
            (*self + 0x1_0000_0000_0000_0000_0000_0000_0000_0000int) as nat
        } else {
            *self as nat
        }
    }

    proof fn lemma_width() {
    }

    proof fn lemma_bits(x: Self) {
    }

    proof fn lemma_bits_injective(x: Self, y: Self) {
    }

    fn bit_width() -> (r: u32) {
        128
    }

    fn to_bits(&self) -> (r: u128) {
        if *self < 0 {
            u128::MAX - ((-(*self + 1)) as u128)
        } else {
            *self as u128
        }
    }

    fn from_bits(b: u128) -> (r: Self) {
        if b >= 0x8000_0000_0000_0000_0000_0000_0000_0000 {
            -(((u128::MAX - b) as i128)) - 1
        } else {
            b as i128
        }
    }
}

/// The largest size of a varint of the given width.
fn max_size_for(w: u32) -> (r: usize)
    requires
        valid_width(w as nat),
    ensures
        r as nat == max_size_of(w as nat),
{
    if w == 16 {
        3
    } else if w == 32 {
        5
    } else if w == 64 {
        10
    } else {
        19
    }
}

/// Appends the seven payload bits `p` below `acc`, keeping `w` bits.
fn shift_in(acc: u128, p: u8, w: u32) -> (r: u128)
    requires
        valid_width(w as nat),
        acc < modulus(w as nat),
        p < 128,
    ensures
        r as nat == (acc * 128 + p) % (modulus(w as nat) as int),
        r < modulus(w as nat),
{
    if w == 128 {
        let t = acc.wrapping_mul(128);
        proof {
            let m: int = 0x1_0000_0000_0000_0000_0000_0000_0000_0000int;
            let x: int = acc * 128;
            assert(t == x % m);
            assert(m == 128 * 0x200_0000_0000_0000_0000_0000_0000_0000);
            lemma_mod_mod(x, 128, 0x200_0000_0000_0000_0000_0000_0000_0000);
            lemma_mod_multiples_basic(acc as int, 128);
            assert(t % 128 == 0);
            assert(t + p < m) by (nonlinear_arith)
                requires
                    t % 128 == 0,
                    0 <= t < m,
                    m == 128 * 0x200_0000_0000_0000_0000_0000_0000_0000,
                    0 <= p < 128,
            ;
            lemma_add_mod_noop(x, p as int, m);
            lemma_mod_twice(x, m);
            lemma_small_mod((p as int) as nat, m as nat);
            lemma_small_mod((t + p) as nat, m as nat);
        }
        t + p as u128
    } else {
        let m: u128 = if w == 16 {
            0x1_0000
        } else if w == 32 {
            0x1_0000_0000
        } else {
            0x1_0000_0000_0000_0000
        };
        (acc * 128 + p as u128) % m
    }
}

proof fn lemma_continued_prefix(s: Seq<u8>, k: int)
    requires
        0 <= k <= s.len(),
        forall|j: int| 0 <= j < k ==> s[j] >= 0x80,
    ensures
        continued_prefix(s) >= k,
        (k == s.len() || s[k] < 0x80) ==> continued_prefix(s) == k,
    decreases k,
{
    if k > 0 {
        lemma_continued_prefix(s.drop_first(), k - 1);
    }
}

proof fn lemma_payload_step(s: Seq<u8>, i: int, n: int)
    requires
        0 <= i < n <= s.len(),
    ensures
        payload_value(s.subrange(i, n)) == (s[i] % 128) as nat + 128 * payload_value(
            s.subrange(i + 1, n),
        ),
{
    assert(s.subrange(i, n).drop_first() =~= s.subrange(i + 1, n));
}

/// Reads a varint from the front of `input`, returning the bytes after it and
/// its value.
pub fn varint<V: VarInt>(input: &[u8]) -> (r: Result<(&[u8], V), ParseError>)
    ensures
        match r {
            Ok((rest, v)) => {
                &&& varint_outcome(input@, V::width()) == (VarintOutcome::Value {
                    bits: v.spec_bits(),
                    len: (input@.len() - rest@.len()) as nat,
                })
                &&& is_suffix(input@, rest@)
            },
            Err(ParseError::Incomplete) => varint_outcome(input@, V::width())
                is Incomplete,
            Err(ParseError::VarintOverflow) => varint_outcome(input@, V::width()) is Overflow,
            Err(_) => false,
        },
{
    let w = V::bit_width();
    proof {
        V::lemma_width();
    }
    let max = max_size_for(w);
    let mut k: usize = 0;
    while k < input.len() && k < max && input[k] >= 0x80
        invariant
            k <= input@.len(),
            k <= max,
            forall|j: int| 0 <= j < k ==> input@[j] >= 0x80,
        decreases input@.len() - k,
    {
        k = k + 1;
    }
    proof {
        lemma_continued_prefix(input@, k as int);
    }
    if k >= max {
        return Err(ParseError::VarintOverflow);
    }
    if k == input.len() {
        return Err(ParseError::Incomplete);
    }
    let n = k + 1;
    let mut acc: u128 = 0;
    let mut i: usize = n;
    assert(input@.subrange(n as int, n as int) =~= Seq::<u8>::empty());
    while i > 0
        invariant
            i <= n,
            n <= input@.len(),
            valid_width(w as nat),
            acc < modulus(w as nat),
            acc as nat == payload_value(input@.subrange(i as int, n as int)) % modulus(w as nat),
        decreases i,
    {
        i = i - 1;
        proof {
            lemma_payload_step(input@, i as int, n as int);
            let rest: int = payload_value(input@.subrange(i as int + 1, n as int)) as int;
            let m = modulus(w as nat) as int;
            lemma_add_mod_noop((input@[i as int] % 128) as int, 128 * rest, m);
            lemma_mul_mod_noop_right(128, rest as int, m);
            lemma_add_mod_noop((input@[i as int] % 128) as int, 128 * (rest % m), m);
            lemma_mod_twice((input@[i as int] % 128) as int, m);
        }
        acc = shift_in(acc, input[i] % 128, w);
    }
    let (_, rest) = input.split_at(n);
    Ok((rest, V::from_bits(acc)))
}

proof fn lemma_encode_facts(v: nat, rest: Seq<u8>)
    ensures
        encode_spec(v).len() >= 1,
        payload_value(encode_spec(v)) == v,
        continued_prefix(encode_spec(v) + rest) == encode_spec(v).len() - 1,
        (encode_spec(v) + rest).subrange(0, encode_spec(v).len() as int) == encode_spec(v),
        forall|i: int| 0 <= i < encode_spec(v).len() - 1 ==> encode_spec(v)[i] >= 0x80,
        encode_spec(v)[encode_spec(v).len() - 1] < 0x80,
    decreases v,
{
    let e = encode_spec(v);
    assert((e + rest).subrange(0, e.len() as int) =~= e);
    if v < 128 {
        assert(e.drop_first() =~= Seq::<u8>::empty());
        assert((e + rest).drop_first() =~= rest);
        assert(payload_value(e) == (e[0] % 128) as nat + 128 * payload_value(e.drop_first()));
        assert(payload_value(Seq::<u8>::empty()) == 0);
    } else {
        let tail = encode_spec(v / 128);
        lemma_encode_facts(v / 128, rest);
        assert(e.drop_first() =~= tail);
        assert((e + rest).drop_first() =~= tail + rest);
        lemma_fundamental_div_mod(v as int, 128);
        assert(e[0] % 128 == v % 128);
        assert(payload_value(e) == (e[0] % 128) as nat + 128 * payload_value(e.drop_first()));
        assert(payload_value(e) == v % 128 + 128 * (v / 128));
        assert forall|i: int| 0 <= i < e.len() - 1 implies e[i] >= 0x80 by {
            if i > 0 {
                assert(e[i] == tail[i - 1]);
            }
        }
    }
}

proof fn lemma_encode_len(v: nat, k: nat)
    requires
        k >= 1,
        v < pow128(k),
    ensures
        encode_spec(v).len() <= k,
    decreases k,
{
    if v >= 128 {
        assert(k >= 2) by {
            if k == 1 {
                assert(pow128(1) == 128 * pow128(0));
            }
        }
        assert(v / 128 < pow128((k - 1) as nat)) by {
            lemma_div_by_multiple_is_strongly_ordered(v as int, pow128(k) as int, pow128((k - 1) as nat) as int, 128);
        }
        lemma_encode_len(v / 128, (k - 1) as nat);
    }
}

/// An encoding never takes more bytes than its width allows.
pub proof fn lemma_encode_fits(v: nat, w: nat)
    requires
        valid_width(w),
        v < modulus(w),
    ensures
        encode_spec(v).len() <= max_size_of(w),
{
    reveal_with_fuel(pow128, 20);
    assert(pow128(3) == 0x20_0000);
    assert(pow128(5) == 0x8_0000_0000);
    assert(pow128(10) == 0x40_0000_0000_0000_0000);
    assert(pow128(19) == 0x20_0000_0000_0000_0000_0000_0000_0000_0000nat);
    lemma_encode_len(v, max_size_of(w));
}

/// Appends the varint encoding of `v` to `buf`.
pub fn serialize_and_append<V: VarInt>(v: V, buf: &mut Vec<u8>)
    ensures
        final(buf)@ == old(buf)@ + encode_spec(v.spec_bits()),
{
    let mut x: u128 = v.to_bits();
    let ghost start = old(buf)@;
    while x >= 128
        invariant
            start + encode_spec(v.spec_bits()) == buf@ + encode_spec(x as nat),
        decreases x,
    {
        assert(encode_spec(x as nat) == seq![(x % 128 + 128) as u8] + encode_spec(x as nat / 128));
        buf.push((x % 128 + 128) as u8);
        assert(buf@ + encode_spec((x / 128) as nat) =~= start + encode_spec(v.spec_bits()));
        x = x / 128;
    }
    buf.push(x as u8);
    assert(buf@ =~= start + encode_spec(v.spec_bits()));
}

/// The varint encoding of `v`.
pub fn serialize_to_bytes<V: VarInt>(v: V) -> (r: Vec<u8>)
    ensures
        r@ == encode_spec(v.spec_bits()),
{
    let mut buf: Vec<u8> = Vec::new();
    serialize_and_append(v, &mut buf);
    assert(buf@ =~= encode_spec(v.spec_bits()));
    buf
}

/// Reading back what [`serialize_and_append`] wrote gives the same value and
/// consumes exactly the bytes written, whatever follows them; the encoding
/// never takes more bytes than the width allows.
pub proof fn lemma_varint_round_trip<V: VarInt>(x: V, rest: Seq<u8>)
    ensures
        encode_spec(x.spec_bits()).len() <= max_size_of(V::width()),
        varint_outcome(encode_spec(x.spec_bits()) + rest, V::width()) == (VarintOutcome::Value {
            bits: x.spec_bits(),
            len: encode_spec(x.spec_bits()).len(),
        }),
        forall|y: V| #[trigger] y.spec_bits() == x.spec_bits() ==> y == x,
{
    V::lemma_bits(x);
    let e = encode_spec(x.spec_bits());
    lemma_encode_facts(x.spec_bits(), rest);
    lemma_encode_fits(x.spec_bits(), V::width());
    lemma_small_mod(x.spec_bits(), modulus(V::width()));
    assert forall|y: V| #[trigger] y.spec_bits() == x.spec_bits() implies y == x by {
        V::lemma_bits_injective(x, y);
    }
}

/// Every proper prefix of an encoding reads as incomplete, never as an error.
pub proof fn lemma_varint_prefix_incomplete<V: VarInt>(x: V, m: nat)
    requires
        m < encode_spec(x.spec_bits()).len(),
    ensures
        varint_outcome(encode_spec(x.spec_bits()).subrange(0, m as int), V::width())
            is Incomplete,
{
    V::lemma_bits(x);
    let e = encode_spec(x.spec_bits());
    lemma_encode_facts(x.spec_bits(), Seq::empty());
    lemma_encode_fits(x.spec_bits(), V::width());
    let p = e.subrange(0, m as int);
    lemma_continued_prefix(p, m as int);
}

} // verus!
