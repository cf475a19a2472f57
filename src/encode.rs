//! Layout-free encoder: turns a typed value into protobuf wire bytes.
use vstd::prelude::*;
use vstd::bytes::{spec_u128_to_le_bytes, u128_to_le_bytes};
use crate::layout::{TypedValue, u256_le_bytes};
use crate::wire::{
    varint_field_bytes, length_delimited_bytes, serialize_varint_field, serialize_length_delim,
    FIELD_NUMBER_LIMIT,
};

verus! {

/// Field numbers stay below the wire's limit: every struct inside `v` has
/// fewer than `FIELD_NUMBER_LIMIT` fields.
pub open spec fn encodable(v: TypedValue) -> bool
    decreases v,
{
    match v {
        TypedValue::Vector(vs) => forall|i: int| 0 <= i < vs@.len() ==> encodable(#[trigger] vs@[i]),
        TypedValue::Struct(vs) => vs@.len() < FIELD_NUMBER_LIMIT && forall|i: int|
            0 <= i < vs@.len() ==> encodable(#[trigger] vs@[i]),
        _ => true,
    }
}

/// Every value of `vs` is encodable.
pub open spec fn all_encodable(vs: Seq<TypedValue>) -> bool {
    forall|i: int| 0 <= i < vs.len() ==> encodable(#[trigger] vs[i])
}

/// The varint a Bool is sent as.
pub open spec fn bool_as_int(b: bool) -> nat {
    if b {
        1
    } else {
        0
    }
}

/// The bytes of a packed vector: one per Bool (0 or 1) or U8 element; elements of
/// other kinds, which a well-typed vector never mixes in, contribute nothing.
pub open spec fn packed_bytes(vs: Seq<TypedValue>) -> Seq<u8>
    decreases vs.len(),
{
    if vs.len() == 0 {
        seq![]
    } else {
        packed_bytes(vs.drop_last()) + match vs.last() {
            TypedValue::Bool(b) => seq![bool_as_int(b) as u8],
            TypedValue::U8(x) => seq![x],
            _ => seq![],
        }
    }
}

/// The bytes of `v` as field number `f` of a struct.
pub open spec fn enc_value(v: TypedValue, f: nat) -> Seq<u8>
    decreases v, 0nat,
{
    match v {
        TypedValue::Bool(b) => varint_field_bytes(f, bool_as_int(b)),
        TypedValue::U8(x) => varint_field_bytes(f, x as nat),
        TypedValue::U16(x) => varint_field_bytes(f, x as nat),
        TypedValue::U32(x) => varint_field_bytes(f, x as nat),
        TypedValue::U64(x) => varint_field_bytes(f, x as nat),
        TypedValue::U128(x) => length_delimited_bytes(f, spec_u128_to_le_bytes(x)),
        TypedValue::U256(x) => length_delimited_bytes(f, u256_le_bytes(x)),
        TypedValue::Address(a) => length_delimited_bytes(f, a.bytes@),
        TypedValue::Signer(a) => length_delimited_bytes(f, a.bytes@),
        TypedValue::Vector(vs) => enc_vector(vs@, f, true),
        TypedValue::Struct(vs) => length_delimited_bytes(f, enc_fields(vs@)),
    }
}

/// The bytes of a struct whose fields are `vs`, field `i` sent as number `i + 1`.
pub open spec fn enc_fields(vs: Seq<TypedValue>) -> Seq<u8>
    decreases vs, 1nat,
{
    if vs.len() == 0 {
        seq![]
    } else {
        enc_fields(vs.subrange(0, vs.len() - 1)) + enc_value(vs[vs.len() - 1], vs.len())
    }
}

/// Each element of `vs` as its own occurrence of field `f`.
pub open spec fn enc_each(vs: Seq<TypedValue>, f: nat) -> Seq<u8>
    decreases vs, 1nat,
{
    if vs.len() == 0 {
        seq![]
    } else {
        enc_each(vs.subrange(0, vs.len() - 1), f) + enc_value(vs[vs.len() - 1], f)
    }
}

/// Each inner vector of `vs` as its own occurrence of field `f`, in nested form;
/// elements that are not vectors contribute nothing.
pub open spec fn enc_inner_vectors(vs: Seq<TypedValue>, f: nat) -> Seq<u8>
    decreases vs, 1nat,
{
    if vs.len() == 0 {
        seq![]
    } else {
        enc_inner_vectors(vs.subrange(0, vs.len() - 1), f) + match vs[vs.len() - 1] {
            TypedValue::Vector(inner) => enc_vector(inner@, f, false),
            _ => seq![],
        }
    }
}

/// The bytes of vector `vs` sent as field `f`: directly as a struct field
/// (`top`), or as an element of an enclosing vector.
pub open spec fn enc_vector(vs: Seq<TypedValue>, f: nat, top: bool) -> Seq<u8>
    decreases vs, if top { 2nat } else { 3nat },
{
    if vs.len() == 0 {
        if top {
            seq![]
        } else {
            length_delimited_bytes(f, seq![])
        }
    } else {
        match vs[0] {
            TypedValue::Bool(_) | TypedValue::U8(_) => length_delimited_bytes(f, packed_bytes(vs)),
            TypedValue::Vector(_) if top => enc_inner_vectors(vs, f),
            _ => if top {
                enc_each(vs, f)
            } else {
                length_delimited_bytes(f, enc_vector(vs, 1, true))
            },
        }
    }
}

fn packed_vector_bytes(vec: &Vec<TypedValue>) -> (r: Vec<u8>)
    ensures
        r@ == packed_bytes(vec@),
{
    let mut bytes: Vec<u8> = Vec::new();
    let mut i: usize = 0;
    assert(vec@.subrange(0, 0) =~= Seq::<TypedValue>::empty());
    while i < vec.len()
        invariant
            i <= vec@.len(),
            bytes@ == packed_bytes(vec@.subrange(0, i as int)),
        decreases vec@.len() - i,
    {
        proof {
            let t = vec@.subrange(0, i + 1);
            assert(t.drop_last() =~= vec@.subrange(0, i as int));
        }
        match &vec[i] {
            TypedValue::Bool(b) => bytes.push(if *b { 1u8 } else { 0u8 }),
            TypedValue::U8(x) => bytes.push(*x),
            _ => {},
        }
        i = i + 1;
        assert(bytes@ =~= packed_bytes(vec@.subrange(0, i as int)));
    }
    assert(vec@.subrange(0, i as int) =~= vec@);
    bytes
}

fn proto_serialize_vector_value(vec: &Vec<TypedValue>, field_num: u32, top_level: bool, out: &mut Vec<u8>)
    requires
        all_encodable(vec@),
    ensures
        final(out)@ == old(out)@ + enc_vector(vec@, field_num as nat, top_level),
    decreases vec@, if top_level { 2nat } else { 3nat },
{
    if vec.len() == 0 {
        if !top_level {
            let empty: Vec<u8> = Vec::new();
            serialize_length_delim(field_num, empty.as_slice(), out);
            assert(empty@ =~= Seq::<u8>::empty());
        }
        return;
    }
    let first_packed = match &vec[0] {
        TypedValue::Bool(_) | TypedValue::U8(_) => true,
        _ => false,
    };
    let first_vector = match &vec[0] {
        TypedValue::Vector(_) => true,
        _ => false,
    };
    let ghost start = out@;
    if first_packed {
        let bytes = packed_vector_bytes(vec);
        serialize_length_delim(field_num, bytes.as_slice(), out);
    } else if first_vector && top_level {
        let mut i: usize = 0;
        assert(vec@.subrange(0, 0) =~= Seq::<TypedValue>::empty());
        while i < vec.len()
            invariant
                i <= vec@.len(),
                all_encodable(vec@),
                out@ == start + enc_inner_vectors(vec@.subrange(0, i as int), field_num as nat),
            decreases vec@.len() - i,
        {
            proof {
                let t = vec@.subrange(0, i + 1);
                assert(t.subrange(0, t.len() - 1) =~= vec@.subrange(0, i as int));
            }
            match &vec[i] {
                TypedValue::Vector(inner) => {
                    proof {
                        assert(encodable(vec@[i as int]));
                    }
                    proto_serialize_vector_value(inner, field_num, false, out);
                },
                _ => {},
            }
            i = i + 1;
            assert(out@ =~= start + enc_inner_vectors(vec@.subrange(0, i as int), field_num as nat));
        }
        assert(vec@.subrange(0, i as int) =~= vec@);
    } else if top_level {
        let mut i: usize = 0;
        assert(vec@.subrange(0, 0) =~= Seq::<TypedValue>::empty());
        while i < vec.len()
            invariant
                i <= vec@.len(),
                all_encodable(vec@),
                out@ == start + enc_each(vec@.subrange(0, i as int), field_num as nat),
            decreases vec@.len() - i,
        {
            proof {
                let t = vec@.subrange(0, i + 1);
                assert(t.subrange(0, t.len() - 1) =~= vec@.subrange(0, i as int));
            }
            proto_serialize_value(&vec[i], field_num, out);
            i = i + 1;
            assert(out@ =~= start + enc_each(vec@.subrange(0, i as int), field_num as nat));
        }
        assert(vec@.subrange(0, i as int) =~= vec@);
    } else {
        let mut wrapper: Vec<u8> = Vec::new();
        proto_serialize_vector_value(vec, 1, true, &mut wrapper);
        serialize_length_delim(field_num, wrapper.as_slice(), out);
    }
}

fn proto_serialize_value(value: &TypedValue, field_num: u32, out: &mut Vec<u8>)
    requires
        encodable(*value),
    ensures
        final(out)@ == old(out)@ + enc_value(*value, field_num as nat),
    decreases *value, 0nat,
{
    match value {
        TypedValue::Bool(v) => serialize_varint_field(field_num, if *v { 1 } else { 0 }, out),
        TypedValue::U8(v) => serialize_varint_field(field_num, *v as u64, out),
        TypedValue::U16(v) => serialize_varint_field(field_num, *v as u64, out),
        TypedValue::U32(v) => serialize_varint_field(field_num, *v as u64, out),
        TypedValue::U64(v) => serialize_varint_field(field_num, *v, out),
        TypedValue::U128(v) => {
            let bytes = u128_to_le_bytes(*v);
            serialize_length_delim(field_num, bytes.as_slice(), out);
        },
        TypedValue::U256(v) => {
            let bytes = v.to_le_bytes();
            serialize_length_delim(field_num, bytes.as_slice(), out);
        },
        TypedValue::Address(a) | TypedValue::Signer(a) => {
            serialize_length_delim(field_num, a.as_slice(), out);
        },
        TypedValue::Vector(v) => {
            proto_serialize_vector_value(v, field_num, true, out);
        },
        TypedValue::Struct(v) => {
            let bytes = proto_serialize(v);
            serialize_length_delim(field_num, bytes.as_slice(), out);
        },
    }
}

/// Encodes a struct whose fields are `value`, field `i` as field number `i + 1`.
/// A vector is encoded by the kind of its first element; elements of another
/// kind, which no well-typed value holds, are left out of packed vectors and of
/// vectors of vectors, and are otherwise encoded by their own kind.
pub fn proto_serialize(value: &Vec<TypedValue>) -> (r: Vec<u8>)
    requires
        value@.len() < FIELD_NUMBER_LIMIT,
        all_encodable(value@),
    ensures
        r@ == enc_fields(value@),
    decreases value@, 1nat,
{
    let mut res: Vec<u8> = Vec::new();
    let mut i: usize = 0;
    assert(value@.subrange(0, 0) =~= Seq::<TypedValue>::empty());
    while i < value.len()
        invariant
            i <= value@.len() < FIELD_NUMBER_LIMIT,
            all_encodable(value@),
            res@ == enc_fields(value@.subrange(0, i as int)),
        decreases value@.len() - i,
    {
        proof {
            let t = value@.subrange(0, i + 1);
            assert(t.subrange(0, t.len() - 1) =~= value@.subrange(0, i as int));
        }
        proto_serialize_value(&value[i], (i + 1) as u32, &mut res);
        i = i + 1;
        assert(res@ =~= enc_fields(value@.subrange(0, i as int)));
    }
    assert(value@.subrange(0, i as int) =~= value@);
    res
}

} // verus!
