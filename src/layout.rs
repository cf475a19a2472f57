//! The type descriptors and typed values that the codec transcodes.
use vstd::prelude::*;
use vstd::bytes::{spec_u128_from_le_bytes, spec_u128_to_le_bytes, u128_from_le_bytes, u128_to_le_bytes};
use vstd::slice::slice_subrange;

verus! {

/// Width in bytes of an account address.
pub const ADDRESS_LENGTH: usize = 32;

/// Shape of a value: scalars, vectors of one element layout, and structs
/// whose fields are identified by position alone.
#[derive(Debug, PartialEq, Eq)]
pub enum TypeLayout {
    Bool,
    U8,
    U16,
    U32,
    U64,
    U128,
    U256,
    Address,
    Signer,
    Vector(Box<TypeLayout>),
    Struct(Vec<TypeLayout>),
}

/// An unsigned 256-bit integer held as its low and high 128-bit halves.
#[derive(Clone, Copy, Debug, PartialEq, Eq, Structural)]
pub struct U256 {
    pub low: u128,
    pub high: u128,
}

/// A fixed-width account identifier.
#[derive(Clone, Copy, Debug, PartialEq, Eq)]
pub struct AccountAddress {
    pub bytes: [u8; 32],
}

/// A value tagged with its kind, mirroring `TypeLayout`.
#[derive(Debug, PartialEq, Eq)]
pub enum TypedValue {
    Bool(bool),
    U8(u8),
    U16(u16),
    U32(u32),
    U64(u64),
    U128(u128),
    U256(U256),
    Address(AccountAddress),
    Signer(AccountAddress),
    Vector(Vec<TypedValue>),
    Struct(Vec<TypedValue>),
}

impl U256 {
    /// The integer this value stands for.
    pub open spec fn value(self) -> nat {
        self.low as nat + self.high as nat * 0x1_0000_0000_0000_0000_0000_0000_0000_0000
    }
}

/// The 32 little-endian bytes of a 256-bit integer.
pub open spec fn u256_le_bytes(x: U256) -> Seq<u8> {
    spec_u128_to_le_bytes(x.low) + spec_u128_to_le_bytes(x.high)
}

/// The 256-bit integer whose little-endian bytes are `b` (32 of them).
pub open spec fn u256_from_le(b: Seq<u8>) -> U256 {
    U256 {
        low: spec_u128_from_le_bytes(b.subrange(0, 16)),
        high: spec_u128_from_le_bytes(b.subrange(16, 32)),
    }
}

/// Mathematical form of a `TypedValue`.
pub ghost enum ValueView {
    Bool(bool),
    U8(u8),
    U16(u16),
    U32(u32),
    U64(u64),
    U128(u128),
    U256(U256),
    Address(Seq<u8>),
    Signer(Seq<u8>),
    Vector(Seq<ValueView>),
    Struct(Seq<ValueView>),
}

/// The mathematical form of `v`.
pub open spec fn view_of(v: TypedValue) -> ValueView
    decreases v, 0nat,
{
    match v {
        TypedValue::Bool(b) => ValueView::Bool(b),
        TypedValue::U8(x) => ValueView::U8(x),
        TypedValue::U16(x) => ValueView::U16(x),
        TypedValue::U32(x) => ValueView::U32(x),
        TypedValue::U64(x) => ValueView::U64(x),
        TypedValue::U128(x) => ValueView::U128(x),
        TypedValue::U256(x) => ValueView::U256(x),
        TypedValue::Address(a) => ValueView::Address(a.bytes@),
        TypedValue::Signer(a) => ValueView::Signer(a.bytes@),
        TypedValue::Vector(vs) => ValueView::Vector(views_of(vs@)),
        TypedValue::Struct(vs) => ValueView::Struct(views_of(vs@)),
    }
}

/// The mathematical forms of `vs`, in order.
pub open spec fn views_of(vs: Seq<TypedValue>) -> Seq<ValueView>
    decreases vs, 1nat,
{
    if vs.len() == 0 {
        seq![]
    } else {
        views_of(vs.subrange(0, vs.len() - 1)).push(view_of(vs[vs.len() - 1]))
    }
}

impl View for TypedValue {
    type V = ValueView;

    open spec fn view(&self) -> ValueView {
        view_of(*self)
    }
}

/// Appending a value appends its view.
pub proof fn lemma_views_of_push(vs: Seq<TypedValue>, v: TypedValue)
    ensures
        views_of(vs.push(v)) == views_of(vs).push(view_of(v)),
{
    assert(vs.push(v).subrange(0, vs.len() as int) =~= vs);
}

/// `v` has the shape `l` describes, recursively.
pub open spec fn well_typed(v: ValueView, l: TypeLayout) -> bool
    decreases l, 0nat,
{
    match l {
        TypeLayout::Bool => v is Bool,
        TypeLayout::U8 => v is U8,
        TypeLayout::U16 => v is U16,
        TypeLayout::U32 => v is U32,
        TypeLayout::U64 => v is U64,
        TypeLayout::U128 => v is U128,
        TypeLayout::U256 => v is U256,
        TypeLayout::Address => v is Address && v->Address_0.len() == ADDRESS_LENGTH,
        TypeLayout::Signer => v is Signer && v->Signer_0.len() == ADDRESS_LENGTH,
        TypeLayout::Vector(e) => v is Vector && forall|i: int|
            0 <= i < v->Vector_0.len() ==> well_typed(#[trigger] v->Vector_0[i], *e),
        TypeLayout::Struct(ls) => v is Struct && well_typed_fields(v->Struct_0, ls@),
    }
}

/// Each of `vs` has the shape of the layout at its position.
pub open spec fn well_typed_fields(vs: Seq<ValueView>, ls: Seq<TypeLayout>) -> bool
    decreases ls, 1nat,
{
    vs.len() == ls.len() && forall|i: int| 0 <= i < ls.len() ==> well_typed(vs[i], #[trigger] ls[i])
}

impl U256 {
    /// The 32 little-endian bytes of this integer.
    pub fn to_le_bytes(&self) -> (r: Vec<u8>)
        ensures
            r@ == u256_le_bytes(*self),
    {
        let mut r = u128_to_le_bytes(self.low);
        let high = u128_to_le_bytes(self.high);
        let ghost start = r@;
        let mut i: usize = 0;
        while i < high.len()
            invariant
                i <= high@.len(),
                r@ == start + high@.subrange(0, i as int),
            decreases high@.len() - i,
        {
            r.push(high[i]);
            i = i + 1;
            assert(r@ =~= start + high@.subrange(0, i as int));
        }
        assert(high@.subrange(0, i as int) =~= high@);
        r
    }

    /// The integer whose 32 little-endian bytes are `b`.
    pub fn from_le_bytes(b: &[u8]) -> (r: U256)
        requires
            b@.len() == 32,
        ensures
            r == u256_from_le(b@),
    {
        U256 {
            low: u128_from_le_bytes(slice_subrange(b, 0, 16)),
            high: u128_from_le_bytes(slice_subrange(b, 16, 32)),
        }
    }
}

impl AccountAddress {
    /// The address made of `b`, which must be exactly `ADDRESS_LENGTH` bytes.
    pub fn from_bytes(b: &[u8]) -> (r: Option<AccountAddress>)
        ensures
            b@.len() == ADDRESS_LENGTH <==> r.is_some(),
            r matches Some(a) ==> a.bytes@ == b@,
    {
        if b.len() != ADDRESS_LENGTH {
            return None;
        }
        let mut bytes = [0u8; 32];
        let mut i: usize = 0;
        while i < ADDRESS_LENGTH
            invariant
                i <= ADDRESS_LENGTH,
                b@.len() == ADDRESS_LENGTH,
                forall|k: int| 0 <= k < i ==> bytes@[k] == b@[k],
            decreases ADDRESS_LENGTH - i,
        {
            bytes[i] = b[i];
            i = i + 1;
        }
        assert(bytes@ =~= b@);
        Some(AccountAddress { bytes })
    }

    /// The bytes of this address.
    pub fn as_slice(&self) -> (r: &[u8])
        ensures
            r@ == self.bytes@,
    {
        self.bytes.as_slice()
    }
}

} // verus!
