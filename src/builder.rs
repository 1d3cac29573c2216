//! Composes outbound packets: a packet id followed by its fields.
use vstd::prelude::*;
use vstd::string::*;

use crate::varint::{encode_spec, serialize_and_append, VarInt};

verus! {

broadcast use vstd::string::group_string_axioms;

/// The `n` low bytes of `v`, most significant first.
pub open spec fn be_bytes(v: nat, n: nat) -> Seq<u8>
    decreases n,
{
    if n == 0 {
        Seq::empty()
    } else {
        be_bytes(v / 256, (n - 1) as nat).push((v % 256) as u8)
    }
}

pub proof fn lemma_be_bytes_len(v: nat, n: nat)
    ensures
        be_bytes(v, n).len() == n,
    decreases n,
{
    if n > 0 {
        lemma_be_bytes_len(v / 256, (n - 1) as nat);
    }
}

/// A varint length followed by the bytes themselves.
pub open spec fn var_data_bytes(b: Seq<u8>) -> Seq<u8> {
    encode_spec(b.len()) + b
}

/// A packet under construction: its id as a varint, then the fields added so
/// far.
#[derive(Debug)]
pub struct ResponseBuilder {
    data: Vec<u8>,
}

impl View for ResponseBuilder {
    type V = Seq<u8>;

    closed spec fn view(&self) -> Seq<u8> {
        self.data@
    }
}

/// Appends the `n` low bytes of `v`, most significant first.
fn push_be(buf: &mut Vec<u8>, v: u128, n: usize)
    requires
        n <= 16,
    ensures
        final(buf)@ == old(buf)@ + be_bytes(v as nat, n as nat),
    decreases n,
{
    if n > 0 {
        push_be(buf, v / 256, n - 1);
        buf.push((v % 256) as u8);
        assert(final(buf)@ =~= old(buf)@ + be_bytes(v as nat, n as nat));
    } else {
        assert(final(buf)@ =~= old(buf)@ + be_bytes(v as nat, n as nat));
    }
}

impl ResponseBuilder {
    /// Starts a packet with the given id.
    pub fn new(packet_id: u32) -> (r: Self)
        ensures
            r@ == encode_spec(packet_id as nat),
    {
        let mut data: Vec<u8> = Vec::new();
        serialize_and_append(packet_id, &mut data);
        assert(data@ =~= encode_spec(packet_id as nat));
        ResponseBuilder { data }
    }

    /// The bytes of the packet so far.
    pub fn data(&self) -> (r: &[u8])
        ensures
            r@ == self@,
    {
        self.data.as_slice()
    }

    /// Takes the bytes of the packet.
    pub fn into_bytes(self) -> (r: Vec<u8>)
        ensures
            r@ == self@,
    {
        self.data
    }

    /// Appends one field.
    pub fn add<T: ToResponseField>(&mut self, t: T) -> (r: &mut Self)
        requires
            t.writable(),
        ensures
            (*r)@ == old(self)@ + t.field_bytes(),
            *final(self) == *final(r),
    {
        t.to_request_field(self);
        self
    }

    /// Appends a varint count followed by each field.
    pub fn add_many<T: ToResponseField>(&mut self, ts: &[T]) -> (r: &mut Self)
        requires
            ts@.len() <= u32::MAX,
            forall|i: int| 0 <= i < ts@.len() ==> (#[trigger] ts@[i]).writable(),
        ensures
            (*r)@ == old(self)@ + encode_spec(ts@.len()) + fields_bytes(ts@),
            *final(self) == *final(r),
    {
        serialize_and_append(ts.len() as u32, &mut self.data);
        let ghost start = self@;
        let mut k: usize = 0;
        while k < ts.len()
            invariant
                k <= ts@.len(),
                forall|i: int| 0 <= i < ts@.len() ==> (#[trigger] ts@[i]).writable(),
                self@ == start + fields_bytes(ts@.subrange(0, k as int)),
            decreases ts@.len() - k,
        {
            ts[k].to_request_field(self);
            proof {
                let s = ts@.subrange(0, k + 1);
                assert(s.drop_last() =~= ts@.subrange(0, k as int));
                assert(self@ =~= start + fields_bytes(s));
            }
            k = k + 1;
        }
        assert(ts@.subrange(0, k as int) =~= ts@);
        self
    }

    /// Appends a varint.
    pub fn varint<V: VarInt>(&mut self, v: V) -> (r: &mut Self)
        ensures
            (*r)@ == old(self)@ + encode_spec(v.spec_bits()),
            *final(self) == *final(r),
    {
        serialize_and_append(v, &mut self.data);
        self
    }

    /// Appends bytes as they are.
    pub fn raw_data(&mut self, b: &[u8]) -> (r: &mut Self)
        ensures
            (*r)@ == old(self)@ + b@,
            *final(self) == *final(r),
    {
        let ghost start = self@;
        let mut k: usize = 0;
        while k < b.len()
            invariant
                k <= b@.len(),
                self@ == start + b@.subrange(0, k as int),
            decreases b@.len() - k,
        {
            self.data.push(b[k]);
            assert(self@ =~= start + b@.subrange(0, k + 1));
            k = k + 1;
        }
        assert(b@.subrange(0, k as int) =~= b@);
        self
    }

    /// Appends a varint length followed by the bytes.
    pub fn var_data(&mut self, b: &[u8]) -> (r: &mut Self)
        requires
            b@.len() <= u32::MAX,
        ensures
            (*r)@ == old(self)@ + var_data_bytes(b@),
            *final(self) == *final(r),
    {
        serialize_and_append(b.len() as u32, &mut self.data);
        self.raw_data(b);
        assert(self@ =~= old(self)@ + var_data_bytes(b@));
        self
    }
}

/// The bytes of each field in turn.
pub open spec fn fields_bytes<T: ToResponseField>(ts: Seq<T>) -> Seq<u8>
    decreases ts.len(),
{
    if ts.len() == 0 {
        Seq::empty()
    } else {
        fields_bytes(ts.drop_last()) + ts.last().field_bytes()
    }
}

/// A value that can be written as a packet field.
pub trait ToResponseField {
    /// Whether the value fits its wire encoding (a length prefix fits in 32 bits).
    spec fn writable(&self) -> bool;

    /// The bytes the value is written as.
    spec fn field_bytes(&self) -> Seq<u8>;

    fn to_request_field(&self, builder: &mut ResponseBuilder)
        requires
            self.writable(),
        ensures
            final(builder)@ == old(builder)@ + self.field_bytes(),
    ;
}

impl ToResponseField for bool {
    open spec fn writable(&self) -> bool {
        true
    }

    open spec fn field_bytes(&self) -> Seq<u8> {
        seq![if *self { 1u8 } else { 0u8 }]
    }

    fn to_request_field(&self, builder: &mut ResponseBuilder) {
        builder.data.push(if *self { 1u8 } else { 0u8 });
        assert(builder@ =~= old(builder)@ + self.field_bytes());
    }
}

impl ToResponseField for u8 {
    open spec fn writable(&self) -> bool {
        true
    }

    open spec fn field_bytes(&self) -> Seq<u8> {
        seq![*self]
    }

    fn to_request_field(&self, builder: &mut ResponseBuilder) {
        builder.data.push(*self);
        assert(builder@ =~= old(builder)@ + self.field_bytes());
    }
}

impl ToResponseField for i8 {
    open spec fn writable(&self) -> bool {
        true
    }

    open spec fn field_bytes(&self) -> Seq<u8> {
        seq![(if *self < 0 { *self + 256 } else { *self as int }) as u8]
    }

    fn to_request_field(&self, builder: &mut ResponseBuilder) {
        let b: u8 = if *self < 0 {
            (*self as i16 + 256) as u8
        } else {
            *self as u8
        };
        builder.data.push(b);
        assert(builder@ =~= old(builder)@ + self.field_bytes());
    }
}

impl ToResponseField for u16 {
    open spec fn writable(&self) -> bool {
        true
    }

    open spec fn field_bytes(&self) -> Seq<u8> {
        be_bytes(*self as nat, 2)
    }

    fn to_request_field(&self, builder: &mut ResponseBuilder) {
        push_be(&mut builder.data, *self as u128, 2);
    }
}

impl ToResponseField for u32 {
    open spec fn writable(&self) -> bool {
        true
    }

    open spec fn field_bytes(&self) -> Seq<u8> {
        be_bytes(*self as nat, 4)
    }

    fn to_request_field(&self, builder: &mut ResponseBuilder) {
        push_be(&mut builder.data, *self as u128, 4);
    }
}

impl ToResponseField for u64 {
    open spec fn writable(&self) -> bool {
        true
    }

    open spec fn field_bytes(&self) -> Seq<u8> {
        be_bytes(*self as nat, 8)
    }

    fn to_request_field(&self, builder: &mut ResponseBuilder) {
        push_be(&mut builder.data, *self as u128, 8);
    }
}

impl ToResponseField for u128 {
    open spec fn writable(&self) -> bool {
        true
    }

    open spec fn field_bytes(&self) -> Seq<u8> {
        be_bytes(*self as nat, 16)
    }

    fn to_request_field(&self, builder: &mut ResponseBuilder) {
        push_be(&mut builder.data, *self, 16);
    }
}

impl ToResponseField for i16 {
    open spec fn writable(&self) -> bool {
        true
    }

    open spec fn field_bytes(&self) -> Seq<u8> {
        be_bytes(self.spec_bits(), 2)
    }

    fn to_request_field(&self, builder: &mut ResponseBuilder) {
        push_be(&mut builder.data, self.to_bits(), 2);
    }
}

impl ToResponseField for i32 {
    open spec fn writable(&self) -> bool {
        true
    }

    open spec fn field_bytes(&self) -> Seq<u8> {
        be_bytes(self.spec_bits(), 4)
    }

    fn to_request_field(&self, builder: &mut ResponseBuilder) {
        push_be(&mut builder.data, self.to_bits(), 4);
    }
}

impl ToResponseField for i64 {
    open spec fn writable(&self) -> bool {
        true
    }

    open spec fn field_bytes(&self) -> Seq<u8> {
        be_bytes(self.spec_bits(), 8)
    }

    fn to_request_field(&self, builder: &mut ResponseBuilder) {
        push_be(&mut builder.data, self.to_bits(), 8);
    }
}

impl ToResponseField for i128 {
    open spec fn writable(&self) -> bool {
        true
    }

    open spec fn field_bytes(&self) -> Seq<u8> {
        be_bytes(self.spec_bits(), 16)
    }

    fn to_request_field(&self, builder: &mut ResponseBuilder) {
        push_be(&mut builder.data, self.to_bits(), 16);
    }
}

impl<'a> ToResponseField for &'a str {
    open spec fn writable(&self) -> bool {
        self.spec_bytes().len() <= u32::MAX
    }

    open spec fn field_bytes(&self) -> Seq<u8> {
        var_data_bytes(self.spec_bytes())
    }

    fn to_request_field(&self, builder: &mut ResponseBuilder) {
        builder.var_data(self.as_bytes());
    }
}

impl<'a> ToResponseField for &'a String {
    open spec fn writable(&self) -> bool {
        encode_utf8_len(self@) <= u32::MAX
    }

    open spec fn field_bytes(&self) -> Seq<u8> {
        var_data_bytes(vstd::utf8::encode_utf8(self@))
    }

    fn to_request_field(&self, builder: &mut ResponseBuilder) {
        let s: &str = self.as_str();
        builder.var_data(s.as_bytes());
    }
}

/// The length of the UTF-8 encoding of `s`.
pub open spec fn encode_utf8_len(s: Seq<char>) -> nat {
    vstd::utf8::encode_utf8(s).len()
}

} // verus!
