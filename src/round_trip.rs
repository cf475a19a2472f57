//! Decoding what the encoder produced gives back the value.
use vstd::prelude::*;
use crate::wire::{
    varint_bytes, varint_value, varint_end_from, spec_read_varint, spec_read_tag,
    spec_read_length_delimited, spec_read_field, spec_scan, tag_bytes, varint_field_bytes,
    length_delimited_bytes, two_pow_64, pow128, WireType, WireValue, FIELD_NUMBER_LIMIT,
    stable_sort, insert_position,
};

use vstd::bytes::spec_u128_to_le_bytes;
use vstd::bytes::lemma_auto_spec_u128_to_from_le_bytes;
use crate::layout::{
    TypeLayout, TypedValue, ValueView, u256_le_bytes, view_of, views_of, well_typed,
    well_typed_fields,
};
use crate::decode::{
    MAX_NESTING_DEPTH, is_packed_kind, is_varint_kind, packed_view, decode_elem,
    decode_run, decode_field, decode_fields, decode_message,
};
use crate::encode::{
    encodable, all_encodable, bool_as_int, packed_bytes, enc_value, enc_fields, enc_each,
    enc_inner_vectors, enc_vector,
};

verus! {

proof fn lemma_varint_shape(x: nat, k: nat)
    requires
        1 <= k,
        x < pow128(k),
    ensures
        varint_bytes(x).len() <= k,
        varint_bytes(x).len() >= 1,
        varint_bytes(x)[varint_bytes(x).len() - 1] < 128,
        forall|j: int| 0 <= j < varint_bytes(x).len() - 1 ==> #[trigger] varint_bytes(x)[j] >= 128,
        varint_value(varint_bytes(x)) == x,
    decreases x,
{
    let b = varint_bytes(x);
    if x < 128 {
        assert(b.subrange(1, b.len() as int) =~= Seq::<u8>::empty());
        assert(b[0] == x);
        assert(varint_value(b) == (b[0] % 128) as nat + 128 * varint_value(b.subrange(1, b.len() as int)));
    } else {
        let t = varint_bytes(x / 128);
        assert(k >= 2) by {
            if k == 1 {
                assert(pow128(1) == 128 * pow128(0));
            }
        }
        assert(x / 128 < pow128((k - 1) as nat)) by {
            assert(pow128(k) == 128 * pow128((k - 1) as nat));
            assert(x / 128 < pow128((k - 1) as nat)) by (nonlinear_arith)
                requires
                    x < 128 * pow128((k - 1) as nat),
            ;
        }
        lemma_varint_shape(x / 128, (k - 1) as nat);
        assert(b =~= seq![(x % 128 + 128) as u8] + t);
        assert(b.subrange(1, b.len() as int) =~= t);
        assert forall|j: int| 0 <= j < b.len() - 1 implies #[trigger] b[j] >= 128 by {
            if j > 0 {
                assert(b[j] == t[j - 1]);
            }
        }
        assert(x == x % 128 + 128 * (x / 128));
        assert(b[0] % 128 == x % 128);
        assert(varint_value(b) == (b[0] % 128) as nat + 128 * varint_value(b.subrange(1, b.len() as int)));
    }
}

proof fn lemma_varint_end_scan(s: Seq<u8>, i: nat, n: nat)
    requires
        i < n <= 10,
        n <= s.len(),
        s[n - 1] < 128,
        forall|j: int| i <= j < n - 1 ==> s[j] >= 128,
    ensures
        varint_end_from(s, i) == Some(n),
    decreases n - i,
{
    if i + 1 < n {
        lemma_varint_end_scan(s, i + 1, n);
    }
}

/// A varint encoding read back gives the number and its length.
pub proof fn lemma_varint_round_trip(x: nat, rest: Seq<u8>)
    requires
        x < two_pow_64(),
    ensures
        spec_read_varint(varint_bytes(x) + rest) == Some((x as u64, varint_bytes(x).len())),
{
    reveal_with_fuel(pow128, 11);
    lemma_varint_shape(x, 10);
    let b = varint_bytes(x);
    let s = b + rest;
    assert forall|j: int| 0 <= j < b.len() - 1 implies s[j] >= 128 by {
        assert(b[j] >= 128);
    }
    lemma_varint_end_scan(s, 0, b.len());
    assert(s.subrange(0, b.len() as int) =~= b);
}

/// The tag of field number `f` read back: index `f - 1` and the wire type.
pub proof fn lemma_tag_round_trip(f: nat, w: nat, rest: Seq<u8>)
    requires
        1 <= f < FIELD_NUMBER_LIMIT,
        w == 0 || w == 2,
    ensures
        spec_read_tag(tag_bytes(f, w) + rest) == Some((
            (f - 1) as u32,
            if w == 0 { WireType::Varint } else { WireType::LengthDelimited },
            tag_bytes(f, w).len(),
        )),
{
    lemma_varint_round_trip(f * 8 + w, rest);
    assert((f * 8 + w) / 8 == f);
    assert((f * 8 + w) % 8 == w);
}

/// The entry a prefix contributes to the field list, followed by the rest's fields.
pub open spec fn prepend(
    entries: Seq<(u32, WireValue)>,
    rest: Option<Seq<(u32, WireValue)>>,
) -> Option<Seq<(u32, WireValue)>> {
    match rest {
        Some(r) => Some(entries + r),
        None => None,
    }
}

/// A varint field is read back as one entry.
pub proof fn lemma_scan_varint_field(f: nat, x: nat, rest: Seq<u8>)
    requires
        1 <= f < FIELD_NUMBER_LIMIT,
        x < two_pow_64(),
    ensures
        spec_scan(varint_field_bytes(f, x) + rest) == prepend(
            seq![((f - 1) as u32, WireValue::Varint(x as u64))],
            spec_scan(rest),
        ),
{
    let t = tag_bytes(f, 0);
    let v = varint_bytes(x);
    let s = varint_field_bytes(f, x) + rest;
    assert(s =~= t + (v + rest));
    lemma_tag_round_trip(f, 0, v + rest);
    assert(s.subrange(t.len() as int, s.len() as int) =~= v + rest);
    lemma_varint_round_trip(x, rest);
    assert(s.subrange((t.len() + v.len()) as int, s.len() as int) =~= rest);
    assert(spec_read_field(s) == Some(((f - 1) as u32, WireValue::Varint(x as u64), t.len() + v.len())));
    if let Some(r) = spec_scan(rest) {
        assert(seq![((f - 1) as u32, WireValue::Varint(x as u64))] + r =~= seq![((f - 1) as u32, WireValue::Varint(x as u64))] + r);
    }
}

/// A length-delimited field is read back as one entry.
pub proof fn lemma_scan_length_delimited_field(f: nat, p: Seq<u8>, rest: Seq<u8>)
    requires
        1 <= f < FIELD_NUMBER_LIMIT,
        p.len() < two_pow_64(),
    ensures
        spec_scan(length_delimited_bytes(f, p) + rest) == prepend(
            seq![((f - 1) as u32, WireValue::Bytes(p))],
            spec_scan(rest),
        ),
{
    let t = tag_bytes(f, 2);
    let v = varint_bytes(p.len());
    let s = length_delimited_bytes(f, p) + rest;
    assert(s =~= t + (v + (p + rest)));
    lemma_tag_round_trip(f, 2, v + (p + rest));
    let after_tag = s.subrange(t.len() as int, s.len() as int);
    assert(after_tag =~= v + (p + rest));
    lemma_varint_round_trip(p.len(), p + rest);
    assert(after_tag.subrange(v.len() as int, (v.len() + p.len()) as int) =~= p);
    assert(spec_read_length_delimited(after_tag) == Some((p, v.len() + p.len())));
    assert(s.subrange((t.len() + v.len() + p.len()) as int, s.len() as int) =~= rest);
}

/// Index on the wire of field number `f`.
pub open spec fn field_index(f: nat) -> u32 {
    (f - 1) as u32
}

/// The payload of a vector that is an element of an enclosing vector.
pub open spec fn nested_payload(vs: Seq<TypedValue>) -> Seq<u8> {
    if vs.len() == 0 {
        seq![]
    } else {
        match vs[0] {
            TypedValue::Bool(_) | TypedValue::U8(_) => packed_bytes(vs),
            _ => enc_vector(vs, 1, true),
        }
    }
}

/// The field entries that `v`, sent as field number `f`, contributes.
pub open spec fn entries_value(v: TypedValue, f: nat) -> Seq<(u32, WireValue)>
    decreases v, 0nat,
{
    let i = field_index(f);
    match v {
        TypedValue::Bool(b) => seq![(i, WireValue::Varint(bool_as_int(b) as u64))],
        TypedValue::U8(x) => seq![(i, WireValue::Varint(x as u64))],
        TypedValue::U16(x) => seq![(i, WireValue::Varint(x as u64))],
        TypedValue::U32(x) => seq![(i, WireValue::Varint(x as u64))],
        TypedValue::U64(x) => seq![(i, WireValue::Varint(x))],
        TypedValue::U128(x) => seq![(i, WireValue::Bytes(spec_u128_to_le_bytes(x)))],
        TypedValue::U256(x) => seq![(i, WireValue::Bytes(u256_le_bytes(x)))],
        TypedValue::Address(a) => seq![(i, WireValue::Bytes(a.bytes@))],
        TypedValue::Signer(a) => seq![(i, WireValue::Bytes(a.bytes@))],
        TypedValue::Vector(vs) => entries_vector(vs@, f),
        TypedValue::Struct(vs) => seq![(i, WireValue::Bytes(enc_fields(vs@)))],
    }
}

/// The field entries of a vector sent directly as struct field number `f`.
pub open spec fn entries_vector(vs: Seq<TypedValue>, f: nat) -> Seq<(u32, WireValue)>
    decreases vs, 2nat,
{
    if vs.len() == 0 {
        seq![]
    } else {
        match vs[0] {
            TypedValue::Bool(_) | TypedValue::U8(_) => seq![(field_index(f), WireValue::Bytes(packed_bytes(vs)))],
            TypedValue::Vector(_) => entries_inner(vs, f),
            _ => entries_each(vs, f),
        }
    }
}

/// The entries of the elements of `vs`, each its own occurrence of field `f`.
pub open spec fn entries_each(vs: Seq<TypedValue>, f: nat) -> Seq<(u32, WireValue)>
    decreases vs, 1nat,
{
    if vs.len() == 0 {
        seq![]
    } else {
        entries_each(vs.subrange(0, vs.len() - 1), f) + entries_value(vs[vs.len() - 1], f)
    }
}

/// The entries of the inner vectors of `vs`, each one occurrence of field `f`.
pub open spec fn entries_inner(vs: Seq<TypedValue>, f: nat) -> Seq<(u32, WireValue)>
    decreases vs.len(),
{
    if vs.len() == 0 {
        seq![]
    } else {
        entries_inner(vs.subrange(0, vs.len() - 1), f) + match vs[vs.len() - 1] {
            TypedValue::Vector(inner) => seq![(field_index(f), WireValue::Bytes(nested_payload(inner@)))],
            _ => seq![],
        }
    }
}

/// The entries of a struct whose fields are `vs`.
pub open spec fn entries_fields(vs: Seq<TypedValue>) -> Seq<(u32, WireValue)>
    decreases vs.len(),
{
    if vs.len() == 0 {
        seq![]
    } else {
        entries_fields(vs.subrange(0, vs.len() - 1)) + entries_value(vs[vs.len() - 1], vs.len())
    }
}

proof fn lemma_prepend_assoc(a: Seq<(u32, WireValue)>, b: Seq<(u32, WireValue)>, r: Option<Seq<(u32, WireValue)>>)
    ensures
        prepend(a, prepend(b, r)) == prepend(a + b, r),
        prepend(seq![], r) == r,
{
    if let Some(x) = r {
        assert(a + (b + x) =~= (a + b) + x);
        assert(Seq::<(u32, WireValue)>::empty() + x =~= x);
    }
}

proof fn lemma_nested_payload(vs: Seq<TypedValue>, f: nat)
    ensures
        enc_vector(vs, f, false) == length_delimited_bytes(f, nested_payload(vs)),
{
}

proof fn lemma_scan_value(v: TypedValue, f: nat, rest: Seq<u8>)
    requires
        encodable(v),
        1 <= f < FIELD_NUMBER_LIMIT,
        (enc_value(v, f) + rest).len() < two_pow_64(),
    ensures
        spec_scan(enc_value(v, f) + rest) == prepend(entries_value(v, f), spec_scan(rest)),
    decreases v, 0nat,
{
    match v {
        TypedValue::Bool(b) => lemma_scan_varint_field(f, bool_as_int(b), rest),
        TypedValue::U8(x) => lemma_scan_varint_field(f, x as nat, rest),
        TypedValue::U16(x) => lemma_scan_varint_field(f, x as nat, rest),
        TypedValue::U32(x) => lemma_scan_varint_field(f, x as nat, rest),
        TypedValue::U64(x) => lemma_scan_varint_field(f, x as nat, rest),
        TypedValue::U128(x) => lemma_scan_length_delimited_field(f, spec_u128_to_le_bytes(x), rest),
        TypedValue::U256(x) => lemma_scan_length_delimited_field(f, u256_le_bytes(x), rest),
        TypedValue::Address(a) => lemma_scan_length_delimited_field(f, a.bytes@, rest),
        TypedValue::Signer(a) => lemma_scan_length_delimited_field(f, a.bytes@, rest),
        TypedValue::Vector(vs) => lemma_scan_vector(vs@, f, rest),
        TypedValue::Struct(vs) => lemma_scan_length_delimited_field(f, enc_fields(vs@), rest),
    }
}

proof fn lemma_scan_vector(vs: Seq<TypedValue>, f: nat, rest: Seq<u8>)
    requires
        all_encodable(vs),
        1 <= f < FIELD_NUMBER_LIMIT,
        (enc_vector(vs, f, true) + rest).len() < two_pow_64(),
    ensures
        spec_scan(enc_vector(vs, f, true) + rest) == prepend(entries_vector(vs, f), spec_scan(rest)),
    decreases vs, 2nat,
{
    if vs.len() == 0 {
        assert(enc_vector(vs, f, true) + rest =~= rest);
        lemma_prepend_assoc(seq![], seq![], spec_scan(rest));
    } else {
        match vs[0] {
            TypedValue::Bool(_) | TypedValue::U8(_) => lemma_scan_length_delimited_field(f, packed_bytes(vs), rest),
            TypedValue::Vector(_) => lemma_scan_inner(vs, f, rest),
            _ => lemma_scan_each(vs, f, rest),
        }
    }
}

proof fn lemma_scan_each(vs: Seq<TypedValue>, f: nat, rest: Seq<u8>)
    requires
        all_encodable(vs),
        1 <= f < FIELD_NUMBER_LIMIT,
        (enc_each(vs, f) + rest).len() < two_pow_64(),
    ensures
        spec_scan(enc_each(vs, f) + rest) == prepend(entries_each(vs, f), spec_scan(rest)),
    decreases vs, 1nat,
{
    if vs.len() == 0 {
        assert(enc_each(vs, f) + rest =~= rest);
        lemma_prepend_assoc(seq![], seq![], spec_scan(rest));
    } else {
        let init = vs.subrange(0, vs.len() - 1);
        let last = vs[vs.len() - 1];
        assert(encodable(last));
        let tail = enc_value(last, f) + rest;
        assert(enc_each(vs, f) + rest =~= enc_each(init, f) + tail);
        lemma_scan_each(init, f, tail);
        lemma_scan_value(last, f, rest);
        lemma_prepend_assoc(entries_each(init, f), entries_value(last, f), spec_scan(rest));
    }
}

proof fn lemma_scan_inner(vs: Seq<TypedValue>, f: nat, rest: Seq<u8>)
    requires
        1 <= f < FIELD_NUMBER_LIMIT,
        (enc_inner_vectors(vs, f) + rest).len() < two_pow_64(),
    ensures
        spec_scan(enc_inner_vectors(vs, f) + rest) == prepend(entries_inner(vs, f), spec_scan(rest)),
    decreases vs.len(),
{
    if vs.len() == 0 {
        assert(enc_inner_vectors(vs, f) + rest =~= rest);
        lemma_prepend_assoc(seq![], seq![], spec_scan(rest));
    } else {
        let init = vs.subrange(0, vs.len() - 1);
        let last = vs[vs.len() - 1];
        match last {
            TypedValue::Vector(inner) => {
                let tail = enc_vector(inner@, f, false) + rest;
                assert(enc_inner_vectors(vs, f) + rest =~= enc_inner_vectors(init, f) + tail);
                lemma_scan_inner(init, f, tail);
                lemma_nested_payload(inner@, f);
                lemma_scan_length_delimited_field(f, nested_payload(inner@), rest);
                lemma_prepend_assoc(
                    entries_inner(init, f),
                    seq![(field_index(f), WireValue::Bytes(nested_payload(inner@)))],
                    spec_scan(rest),
                );
            },
            _ => {
                assert(enc_inner_vectors(vs, f) + rest =~= enc_inner_vectors(init, f) + rest);
                lemma_scan_inner(init, f, rest);
                assert(entries_inner(vs, f) =~= entries_inner(init, f));
            },
        }
    }
}

/// The field entries of an encoded struct are read back in order.
proof fn lemma_scan_fields(vs: Seq<TypedValue>, rest: Seq<u8>)
    requires
        all_encodable(vs),
        vs.len() < FIELD_NUMBER_LIMIT,
        (enc_fields(vs) + rest).len() < two_pow_64(),
    ensures
        spec_scan(enc_fields(vs) + rest) == prepend(entries_fields(vs), spec_scan(rest)),
    decreases vs.len(),
{
    if vs.len() == 0 {
        assert(enc_fields(vs) + rest =~= rest);
        lemma_prepend_assoc(seq![], seq![], spec_scan(rest));
    } else {
        let init = vs.subrange(0, vs.len() - 1);
        let last = vs[vs.len() - 1];
        assert(encodable(last));
        let tail = enc_value(last, vs.len()) + rest;
        assert(enc_fields(vs) + rest =~= enc_fields(init) + tail);
        lemma_scan_fields(init, tail);
        lemma_scan_value(last, vs.len(), rest);
        lemma_prepend_assoc(entries_fields(init), entries_value(last, vs.len()), spec_scan(rest));
    }
}

/// How many messages deep decoding a field of kind `l` nests below its own message.
pub open spec fn message_depth(l: TypeLayout) -> nat
    decreases l, 1nat,
{
    match l {
        TypeLayout::Struct(ls) => 1 + fields_depth(ls@),
        TypeLayout::Vector(e) => elem_depth(*e),
        _ => 0,
    }
}

/// How many messages deep decoding one vector element of kind `e` nests.
pub open spec fn elem_depth(e: TypeLayout) -> nat
    decreases e, 2nat,
{
    match e {
        TypeLayout::Vector(x) => if is_packed_kind(*x) {
            0
        } else {
            1 + message_depth(e)
        },
        _ => message_depth(e),
    }
}

/// The deepest nesting among fields of kinds `ls`.
pub open spec fn fields_depth(ls: Seq<TypeLayout>) -> nat
    decreases ls, 0nat,
{
    if ls.len() == 0 {
        0
    } else {
        let a = fields_depth(ls.subrange(0, ls.len() - 1));
        let b = message_depth(ls[ls.len() - 1]);
        if a >= b {
            a
        } else {
            b
        }
    }
}

proof fn lemma_fields_depth(ls: Seq<TypeLayout>)
    ensures
        forall|k: int| 0 <= k < ls.len() ==> message_depth(#[trigger] ls[k]) <= fields_depth(ls),
    decreases ls.len(),
{
    if ls.len() > 0 {
        let init = ls.subrange(0, ls.len() - 1);
        lemma_fields_depth(init);
        assert forall|k: int| 0 <= k < ls.len() implies message_depth(#[trigger] ls[k]) <= fields_depth(ls) by {
            if k < ls.len() - 1 {
                assert(ls[k] == init[k]);
            }
        }
    }
}

proof fn lemma_views_of_index(vs: Seq<TypedValue>)
    ensures
        views_of(vs).len() == vs.len(),
        forall|k: int| 0 <= k < vs.len() ==> #[trigger] views_of(vs)[k] == view_of(vs[k]),
    decreases vs.len(),
{
    if vs.len() > 0 {
        let init = vs.subrange(0, vs.len() - 1);
        lemma_views_of_index(init);
        assert forall|k: int| 0 <= k < vs.len() implies #[trigger] views_of(vs)[k] == view_of(vs[k]) by {
            if k < vs.len() - 1 {
                assert(vs[k] == init[k]);
            }
        }
    }
}

/// Entries are ordered by field index.
pub open spec fn index_ordered(s: Seq<(u32, WireValue)>) -> bool {
    forall|a: int, b: int| 0 <= a < b < s.len() ==> s[a].0 <= s[b].0
}

proof fn lemma_sort_ordered(s: Seq<(u32, WireValue)>)
    requires
        index_ordered(s),
    ensures
        stable_sort(s) == s,
    decreases s.len(),
{
    if s.len() > 0 {
        let init = s.drop_last();
        lemma_sort_ordered(init);
        if init.len() > 0 {
            assert(init.last().0 <= s.last().0);
        }
        assert(insert_position(init, s.last().0) == init.len());
        assert(init.insert(init.len() as int, s.last()) =~= s);
    }
}

proof fn lemma_packed(vs: Seq<TypedValue>, e: TypeLayout)
    requires
        is_packed_kind(e),
        forall|k: int| 0 <= k < vs.len() ==> well_typed(view_of(#[trigger] vs[k]), e),
    ensures
        packed_view(e, packed_bytes(vs)) == views_of(vs),
    decreases vs.len(),
{
    if vs.len() > 0 {
        let init = vs.subrange(0, vs.len() - 1);
        let last = vs[vs.len() - 1];
        assert forall|k: int| 0 <= k < init.len() implies well_typed(view_of(#[trigger] init[k]), e) by {
            assert(init[k] == vs[k]);
        }
        lemma_packed(init, e);
        assert(well_typed(view_of(last), e));
        assert(packed_view(e, packed_bytes(vs)) =~= packed_view(e, packed_bytes(init)).push(view_of(last)));
    } else {
        assert(packed_view(e, packed_bytes(vs)) =~= views_of(vs));
    }
}

/// A value that is not a vector contributes one entry.
proof fn lemma_single_entry(v: TypedValue, f: nat)
    requires
        !(v is Vector),
    ensures
        entries_value(v, f).len() == 1,
        entries_value(v, f)[0].0 == field_index(f),
{
}

proof fn lemma_entries_each_shape(vs: Seq<TypedValue>, f: nat)
    requires
        forall|k: int| 0 <= k < vs.len() ==> !(#[trigger] vs[k] is Vector),
    ensures
        entries_each(vs, f).len() == vs.len(),
        forall|k: int| 0 <= k < vs.len() ==> #[trigger] entries_each(vs, f)[k] == entries_value(vs[k], f)[0],
        forall|k: int| 0 <= k < vs.len() ==> (#[trigger] entries_each(vs, f)[k]).0 == field_index(f),
    decreases vs.len(),
{
    if vs.len() > 0 {
        let init = vs.subrange(0, vs.len() - 1);
        let last = vs[vs.len() - 1];
        assert forall|k: int| 0 <= k < init.len() implies !(#[trigger] init[k] is Vector) by {
            assert(init[k] == vs[k]);
        }
        lemma_entries_each_shape(init, f);
        lemma_single_entry(last, f);
        assert forall|k: int| 0 <= k < vs.len() implies #[trigger] entries_each(vs, f)[k] == entries_value(vs[k], f)[0] by {
            if k < vs.len() - 1 {
                assert(vs[k] == init[k]);
            }
        }
        assert forall|k: int| 0 <= k < vs.len() implies (#[trigger] entries_each(vs, f)[k]).0 == field_index(f) by {
            lemma_single_entry(vs[k], f);
        }
    }
}

proof fn lemma_entries_inner_shape(vs: Seq<TypedValue>, f: nat)
    requires
        forall|k: int| 0 <= k < vs.len() ==> #[trigger] vs[k] is Vector,
    ensures
        entries_inner(vs, f).len() == vs.len(),
        forall|k: int| 0 <= k < vs.len() ==> #[trigger] entries_inner(vs, f)[k] == (field_index(f), WireValue::Bytes(nested_payload(vs[k]->Vector_0@))),
    decreases vs.len(),
{
    if vs.len() > 0 {
        let init = vs.subrange(0, vs.len() - 1);
        assert forall|k: int| 0 <= k < init.len() implies #[trigger] init[k] is Vector by {
            assert(init[k] == vs[k]);
        }
        lemma_entries_inner_shape(init, f);
        assert forall|k: int| 0 <= k < vs.len() implies #[trigger] entries_inner(vs, f)[k] == (field_index(f), WireValue::Bytes(nested_payload(vs[k]->Vector_0@))) by {
            if k < vs.len() - 1 {
                assert(vs[k] == init[k]);
            }
        }
    }
}

/// Facts about the elements of a well-typed vector value of element kind `e`.
proof fn lemma_vector_elements(vs: Seq<TypedValue>, e: TypeLayout)
    requires
        forall|k: int| 0 <= k < views_of(vs).len() ==> well_typed(#[trigger] views_of(vs)[k], e),
    ensures
        forall|k: int| 0 <= k < vs.len() ==> well_typed(view_of(#[trigger] vs[k]), e),
        e is Vector ==> forall|k: int| 0 <= k < vs.len() ==> #[trigger] vs[k] is Vector,
        !(e is Vector) ==> forall|k: int| 0 <= k < vs.len() ==> !(#[trigger] vs[k] is Vector),
{
    lemma_views_of_index(vs);
    assert forall|k: int| 0 <= k < vs.len() implies well_typed(view_of(#[trigger] vs[k]), e) by {
        assert(views_of(vs)[k] == view_of(vs[k]));
    }
}

proof fn lemma_vector_well_typed(v: TypedValue, l: TypeLayout) -> (e: TypeLayout)
    requires
        v is Vector,
        well_typed(view_of(v), l),
    ensures
        l == TypeLayout::Vector(Box::new(e)),
        forall|k: int| 0 <= k < views_of(v->Vector_0@).len() ==> well_typed(#[trigger] views_of(v->Vector_0@)[k], e),
{
    let vs = v->Vector_0;
    assert(view_of(v) == ValueView::Vector(views_of(vs@)));
    assert(view_of(v)->Vector_0 == views_of(vs@));
    match l {
        TypeLayout::Vector(eb) => {
            let e = *eb;
            e
        },
        _ => {
            assert(false);
            TypeLayout::Bool
        },
    }
}

/// Every entry of a well-typed value sent as field `f` carries index `f - 1`.
proof fn lemma_entries_value_index(v: TypedValue, l: TypeLayout, f: nat)
    requires
        well_typed(view_of(v), l),
    ensures
        forall|k: int| 0 <= k < entries_value(v, f).len() ==> (#[trigger] entries_value(v, f)[k]).0 == field_index(f),
{
    if let TypedValue::Vector(vs) = v {
        let e = lemma_vector_well_typed(v, l);
        lemma_vector_elements(vs@, e);
        if vs@.len() > 0 {
            if is_packed_kind(e) {
            } else if e is Vector {
                lemma_entries_inner_shape(vs@, f);
            } else {
                lemma_entries_each_shape(vs@, f);
            }
        }
    } else {
        lemma_single_entry(v, f);
    }
}

proof fn lemma_entries_fields_split(vs: Seq<TypedValue>, ls: Seq<TypeLayout>, j: int)
    requires
        0 <= j <= vs.len(),
        vs.len() < FIELD_NUMBER_LIMIT,
        well_typed_fields(views_of(vs), ls),
    ensures
        entries_fields(vs).subrange(0, entries_fields(vs.subrange(0, j)).len() as int) == entries_fields(vs.subrange(0, j)),
        entries_fields(vs.subrange(0, j)).len() <= entries_fields(vs).len(),
        forall|k: int| entries_fields(vs.subrange(0, j)).len() <= k < entries_fields(vs).len() ==> (#[trigger] entries_fields(vs)[k]).0 >= j,
        index_ordered(entries_fields(vs)),
        forall|k: int| 0 <= k < entries_fields(vs).len() ==> (#[trigger] entries_fields(vs)[k]).0 < vs.len(),
    decreases vs.len(),
{
    lemma_views_of_index(vs);
    if vs.len() == 0 {
        assert(vs.subrange(0, j) =~= vs);
    } else {
        let n = vs.len();
        let init = vs.subrange(0, n - 1);
        let last = vs[n - 1];
        lemma_views_of_index(init);
        assert(well_typed_fields(views_of(init), ls.subrange(0, n - 1))) by {
            assert forall|i: int| 0 <= i < n - 1 implies well_typed(views_of(init)[i], #[trigger] ls.subrange(0, n - 1)[i]) by {
                assert(views_of(init)[i] == view_of(vs[i]));
                assert(views_of(vs)[i] == view_of(vs[i]));
            }
        }
        assert(well_typed(view_of(last), ls[n - 1])) by {
            assert(views_of(vs)[n - 1] == view_of(last));
        }
        lemma_entries_value_index(last, ls[n - 1], n as nat);
        let a = entries_fields(init);
        let b = entries_value(last, n as nat);
        assert(entries_fields(vs) == a + b);
        assert(field_index(n as nat) == n - 1);
        assert(forall|k: int| 0 <= k < b.len() ==> (#[trigger] b[k]).0 == n - 1);
        if j == n {
            assert(vs.subrange(0, j) =~= vs);
            assert(entries_fields(vs).subrange(0, entries_fields(vs).len() as int) =~= entries_fields(vs));
            lemma_entries_fields_split(init, ls.subrange(0, n - 1), n - 1);
        } else {
            lemma_entries_fields_split(init, ls.subrange(0, n - 1), j);
            assert(init.subrange(0, j) =~= vs.subrange(0, j));
            assert((a + b).subrange(0, entries_fields(vs.subrange(0, j)).len() as int) =~= a.subrange(0, entries_fields(vs.subrange(0, j)).len() as int));
        }
        assert forall|x: int, y: int| 0 <= x < y < (a + b).len() implies (a + b)[x].0 <= (a + b)[y].0 by {
            if y >= a.len() {
                assert((a + b)[y] == b[y - a.len()]);
                if x < a.len() {
                    assert(a[x].0 < init.len());
                } else {
                    assert((a + b)[x] == b[x - a.len()]);
                }
            } else {
                assert((a + b)[x] == a[x]);
                assert((a + b)[y] == a[y]);
            }
        }
        let m = entries_fields(vs.subrange(0, j)).len();
        assert forall|k: int| m <= k < (a + b).len() implies (#[trigger] (a + b)[k]).0 >= j by {
            if k >= a.len() {
                assert((a + b)[k] == b[k - a.len()]);
            } else {
                assert((a + b)[k] == a[k]);
            }
        }
        assert forall|k: int| 0 <= k < (a + b).len() implies (#[trigger] (a + b)[k]).0 < vs.len() by {
            if k < a.len() {
                assert(a[k].0 < init.len());
            } else {
                assert((a + b)[k] == b[k - a.len()]);
            }
        }
    }
}

proof fn lemma_fields_len(vs: Seq<TypedValue>, i: int)
    requires
        0 <= i < vs.len(),
    ensures
        enc_value(vs[i], (i + 1) as nat).len() <= enc_fields(vs).len(),
    decreases vs.len(),
{
    let init = vs.subrange(0, vs.len() - 1);
    if i < vs.len() - 1 {
        lemma_fields_len(init, i);
        assert(init[i] == vs[i]);
    }
}

proof fn lemma_each_len(vs: Seq<TypedValue>, f: nat, k: int)
    requires
        0 <= k < vs.len(),
    ensures
        enc_value(vs[k], f).len() <= enc_each(vs, f).len(),
    decreases vs.len(),
{
    let init = vs.subrange(0, vs.len() - 1);
    if k < vs.len() - 1 {
        lemma_each_len(init, f, k);
        assert(init[k] == vs[k]);
    }
}

proof fn lemma_inner_len(vs: Seq<TypedValue>, f: nat, k: int)
    requires
        0 <= k < vs.len(),
        vs[k] is Vector,
    ensures
        nested_payload(vs[k]->Vector_0@).len() <= enc_inner_vectors(vs, f).len(),
    decreases vs.len(),
{
    let init = vs.subrange(0, vs.len() - 1);
    if k < vs.len() - 1 {
        lemma_inner_len(init, f, k);
        assert(init[k] == vs[k]);
    } else {
        lemma_nested_payload(vs[k]->Vector_0@, f);
    }
}

proof fn lemma_decode_run(
    fs: Seq<(u32, WireValue)>,
    c: nat,
    n: nat,
    e: TypeLayout,
    i: nat,
    d: nat,
    xs: Seq<ValueView>,
)
    requires
        c + n <= fs.len(),
        xs.len() == n,
        forall|k: int| 0 <= k < n ==> (#[trigger] fs[c + k]).0 == i && decode_elem(fs[c + k].1, e, d) == Some(xs[k]),
        c + n == fs.len() || fs[(c + n) as int].0 != i,
    ensures
        decode_run(fs, c, e, i, d) == Some((xs, c + n)),
    decreases n,
{
    if n > 0 {
        let tail = xs.subrange(1, n as int);
        assert forall|k: int| 0 <= k < n - 1 implies (#[trigger] fs[(c + 1) + k]).0 == i && decode_elem(fs[(c + 1) + k].1, e, d) == Some(tail[k]) by {
            assert(fs[c + (k + 1)] == fs[(c + 1) + k]);
        }
        lemma_decode_run(fs, c + 1, (n - 1) as nat, e, i, d, tail);
        assert(fs[c as int + 0] == fs[c as int]);
        assert(seq![xs[0]] + tail =~= xs);
    } else {
        assert(fs[c as int + 0] == fs[c as int]);
    }
}

/// The entry of a value that is not a vector, read back as an element of kind `e`.
proof fn lemma_decode_payload(v: TypedValue, e: TypeLayout, f: nat, d: nat)
    requires
        !(v is Vector),
        !(e is Vector),
        !is_packed_kind(e),
        well_typed(view_of(v), e),
        encodable(v),
        1 <= f < FIELD_NUMBER_LIMIT,
        enc_value(v, f).len() < two_pow_64(),
        d + message_depth(e) <= MAX_NESTING_DEPTH,
    ensures
        decode_elem(entries_value(v, f)[0].1, e, d) == Some(view_of(v)),
    decreases MAX_NESTING_DEPTH - d, 0nat, 0int,
{
    match v {
        TypedValue::U128(x) => {
            lemma_auto_spec_u128_to_from_le_bytes();
        },
        TypedValue::U256(x) => {
            lemma_auto_spec_u128_to_from_le_bytes();
            let b = u256_le_bytes(x);
            assert(b.subrange(0, 16) =~= spec_u128_to_le_bytes(x.low));
            assert(b.subrange(16, 32) =~= spec_u128_to_le_bytes(x.high));
        },
        TypedValue::Struct(inner) => {
            assert(view_of(v)->Struct_0 == views_of(inner@));
            let ls = e->Struct_0;
            lemma_decode_message(inner@, ls@, d + 1);
        },
        _ => {},
    }
}

/// An inner vector, sent as an element of an enclosing vector, read back as an element of kind `e`.
proof fn lemma_decode_nested(v: TypedValue, e: TypeLayout, d: nat)
    requires
        v is Vector,
        e is Vector,
        well_typed(view_of(v), e),
        encodable(v),
        nested_payload(v->Vector_0@).len() < two_pow_64(),
        d + elem_depth(e) <= MAX_NESTING_DEPTH,
    ensures
        decode_elem(WireValue::Bytes(nested_payload(v->Vector_0@)), e, d) == Some(view_of(v)),
    decreases MAX_NESTING_DEPTH - d, 0nat, 0int,
{
    let inner = v->Vector_0@;
    let x = lemma_vector_well_typed(v, e);
    lemma_vector_elements(inner, x);
    assert(view_of(v) == ValueView::Vector(views_of(inner)));
    if is_packed_kind(x) {
        if inner.len() == 0 {
            assert(packed_view(x, seq![]) =~= views_of(inner));
        } else {
            assert(well_typed(view_of(inner[0]), x));
            lemma_packed(inner, x);
        }
    } else {
        let one = seq![v];
        assert(views_of(one) == seq![view_of(v)]) by {
            assert(one.subrange(0, 0) =~= Seq::<TypedValue>::empty());
            assert(views_of(Seq::<TypedValue>::empty()) == Seq::<ValueView>::empty());
            assert(Seq::<ValueView>::empty().push(view_of(v)) =~= seq![view_of(v)]);
        }
        assert(fields_depth(seq![e]) == message_depth(e)) by {
            assert(seq![e].subrange(0, 0) =~= Seq::<TypeLayout>::empty());
            assert(fields_depth(Seq::<TypeLayout>::empty()) == 0);
        }
        if inner.len() == 0 {
            let empty = Seq::<(u32, WireValue)>::empty();
            assert(spec_scan(seq![]) == Some(empty));
            assert(stable_sort(empty) == empty);
            assert(decode_field(empty, 0, e, 0, d + 1) == Some((ValueView::Vector(seq![]), 0nat)));
            assert(decode_fields(empty, 0, seq![e], 1, d + 1) == Some(Seq::<ValueView>::empty()));
            assert(views_of(inner) =~= Seq::<ValueView>::empty());
            assert(seq![ValueView::Vector(seq![])] + Seq::<ValueView>::empty() =~= seq![ValueView::Vector(seq![])]);
        } else {
            assert(well_typed(view_of(inner[0]), x));
            assert(one.subrange(0, 0) =~= Seq::<TypedValue>::empty());
            assert(enc_fields(Seq::<TypedValue>::empty()) == Seq::<u8>::empty());
            assert(enc_value(v, 1) == enc_vector(inner, 1, true));
            assert(enc_fields(one) == enc_fields(one.subrange(0, 0)) + enc_value(one[0], 1));
            assert(enc_fields(one) =~= enc_vector(inner, 1, true));
            assert(encodable(one[0]));
            assert(well_typed_fields(views_of(one), seq![e]));
            lemma_decode_message(one, seq![e], d + 1);
        }
    }
}

proof fn lemma_decode_field(fs: Seq<(u32, WireValue)>, c: nat, v: TypedValue, l: TypeLayout, i: nat, d: nat)
    requires
        i + 1 < FIELD_NUMBER_LIMIT,
        c + entries_value(v, i + 1).len() <= fs.len(),
        fs.subrange(c as int, (c + entries_value(v, i + 1).len()) as int) == entries_value(v, i + 1),
        c + entries_value(v, i + 1).len() == fs.len() || fs[(c + entries_value(v, i + 1).len()) as int].0 != i,
        well_typed(view_of(v), l),
        encodable(v),
        enc_value(v, i + 1).len() < two_pow_64(),
        d + message_depth(l) <= MAX_NESTING_DEPTH,
    ensures
        decode_field(fs, c, l, i, d) == Some((view_of(v), c + entries_value(v, i + 1).len())),
    decreases MAX_NESTING_DEPTH - d, 2nat, 0int,
{
    let f = (i + 1) as nat;
    let ev = entries_value(v, f);
    assert(field_index(f) == i);
    assert forall|k: int| 0 <= k < ev.len() implies fs[c + k] == ev[k] by {
        assert(fs.subrange(c as int, (c + ev.len()) as int)[k] == fs[c + k]);
    }
    if let TypedValue::Vector(vs) = v {
        let e = lemma_vector_well_typed(v, l);
        lemma_vector_elements(vs@, e);
        lemma_views_of_index(vs@);
        assert(view_of(v) == ValueView::Vector(views_of(vs@)));
        let n = vs@.len();
        if n == 0 {
            assert(views_of(vs@) =~= Seq::<ValueView>::empty());
        } else if is_packed_kind(e) {
            assert(well_typed(view_of(vs@[0]), e));
            assert(fs[c as int] == ev[0]);
            lemma_packed(vs@, e);
        } else {
            lemma_decode_vector_run(fs, c, vs@, e, i, d);
            assert(fs[c as int] == ev[0]);
        }
    } else {
        lemma_single_entry(v, f);
        assert(fs[c as int] == ev[0]);
        if !is_varint_kind(l) {
            lemma_decode_payload(v, l, f, d);
        }
    }
}

/// The entries of a non-empty vector of unpacked elements are read back as one run.
proof fn lemma_decode_vector_run(fs: Seq<(u32, WireValue)>, c: nat, vs: Seq<TypedValue>, e: TypeLayout, i: nat, d: nat)
    requires
        vs.len() > 0,
        !is_packed_kind(e),
        i + 1 < FIELD_NUMBER_LIMIT,
        c + entries_vector(vs, i + 1).len() <= fs.len(),
        forall|k: int| 0 <= k < entries_vector(vs, i + 1).len() ==> fs[c + k] == #[trigger] entries_vector(vs, i + 1)[k],
        c + entries_vector(vs, i + 1).len() == fs.len() || fs[(c + entries_vector(vs, i + 1).len()) as int].0 != i,
        forall|k: int| 0 <= k < vs.len() ==> well_typed(view_of(#[trigger] vs[k]), e),
        e is Vector ==> forall|k: int| 0 <= k < vs.len() ==> #[trigger] vs[k] is Vector,
        !(e is Vector) ==> forall|k: int| 0 <= k < vs.len() ==> !(#[trigger] vs[k] is Vector),
        all_encodable(vs),
        enc_vector(vs, i + 1, true).len() < two_pow_64(),
        d + elem_depth(e) <= MAX_NESTING_DEPTH,
    ensures
        decode_run(fs, c, e, i, d) == Some((views_of(vs), c + entries_vector(vs, i + 1).len())),
        entries_vector(vs, i + 1).len() == vs.len(),
        entries_vector(vs, i + 1)[0].0 == i,
    decreases MAX_NESTING_DEPTH - d, 1nat, 0int,
{
    let f = (i + 1) as nat;
    let ev = entries_vector(vs, f);
    let n = vs.len();
    assert(field_index(f) == i);
    lemma_views_of_index(vs);
    if e is Vector {
        assert(vs[0] is Vector);
        lemma_entries_inner_shape(vs, f);
        assert forall|k: int| 0 <= k < n implies (#[trigger] fs[c + k]).0 == i && decode_elem(fs[c + k].1, e, d) == Some(views_of(vs)[k]) by {
            assert(fs[c + k] == ev[k]);
            lemma_inner_len(vs, f, k);
            assert(encodable(vs[k]));
            lemma_decode_nested(vs[k], e, d);
        }
        lemma_decode_run(fs, c, n, e, i, d, views_of(vs));
    } else {
        assert(!(vs[0] is Vector));
        assert(well_typed(view_of(vs[0]), e));
        assert(!(vs[0] is Bool) && !(vs[0] is U8));
        lemma_entries_each_shape(vs, f);
        assert forall|k: int| 0 <= k < n implies (#[trigger] fs[c + k]).0 == i && decode_elem(fs[c + k].1, e, d) == Some(views_of(vs)[k]) by {
            assert(fs[c + k] == ev[k]);
            lemma_each_len(vs, f, k);
            assert(encodable(vs[k]));
            lemma_decode_payload(vs[k], e, f, d);
        }
        lemma_decode_run(fs, c, n, e, i, d, views_of(vs));
    }
}

proof fn lemma_walk(vs: Seq<TypedValue>, ls: Seq<TypeLayout>, i: nat, d: nat)
    requires
        i <= vs.len(),
        well_typed_fields(views_of(vs), ls),
        all_encodable(vs),
        vs.len() < FIELD_NUMBER_LIMIT,
        enc_fields(vs).len() < two_pow_64(),
        d + fields_depth(ls) <= MAX_NESTING_DEPTH,
    ensures
        decode_fields(entries_fields(vs), entries_fields(vs.subrange(0, i as int)).len(), ls, i, d)
            == Some(views_of(vs).subrange(i as int, vs.len() as int)),
    decreases MAX_NESTING_DEPTH - d, 3nat, vs.len() - i,
{
    lemma_views_of_index(vs);
    if i < vs.len() {
        let fs = entries_fields(vs);
        let a = entries_fields(vs.subrange(0, i as int));
        let b = entries_fields(vs.subrange(0, (i + 1) as int));
        let ev = entries_value(vs[i as int], i + 1);
        let t = vs.subrange(0, (i + 1) as int);
        assert(t.subrange(0, i as int) =~= vs.subrange(0, i as int));
        assert(b == a + ev);
        lemma_entries_fields_split(vs, ls, i as int);
        lemma_entries_fields_split(vs, ls, (i + 1) as int);
        assert(fs.subrange(a.len() as int, (a.len() + ev.len()) as int) =~= ev) by {
            assert forall|k: int| 0 <= k < ev.len() implies fs[a.len() + k] == ev[k] by {
                assert(fs.subrange(0, b.len() as int)[a.len() + k] == b[a.len() + k]);
            }
        }
        if a.len() + ev.len() < fs.len() {
            assert(fs[(a.len() + ev.len()) as int].0 >= i + 1);
        }
        assert(views_of(vs)[i as int] == view_of(vs[i as int]));
        assert(well_typed(view_of(vs[i as int]), ls[i as int]));
        assert(encodable(vs[i as int]));
        lemma_fields_len(vs, i as int);
        lemma_fields_depth(ls);
        lemma_decode_field(fs, a.len(), vs[i as int], ls[i as int], i, d);
        lemma_walk(vs, ls, i + 1, d);
        assert(seq![view_of(vs[i as int])] + views_of(vs).subrange((i + 1) as int, vs.len() as int)
            =~= views_of(vs).subrange(i as int, vs.len() as int));
    } else {
        assert(views_of(vs).subrange(i as int, vs.len() as int) =~= Seq::<ValueView>::empty());
    }
}

proof fn lemma_decode_message(vs: Seq<TypedValue>, ls: Seq<TypeLayout>, d: nat)
    requires
        well_typed_fields(views_of(vs), ls),
        all_encodable(vs),
        vs.len() < FIELD_NUMBER_LIMIT,
        enc_fields(vs).len() < two_pow_64(),
        d + fields_depth(ls) <= MAX_NESTING_DEPTH,
    ensures
        decode_message(enc_fields(vs), ls, d) == Some(views_of(vs)),
    decreases MAX_NESTING_DEPTH - d, 4nat, 0int,
{
    let empty = Seq::<u8>::empty();
    assert(enc_fields(vs) + empty =~= enc_fields(vs));
    assert(spec_scan(empty) == Some(Seq::<(u32, WireValue)>::empty()));
    lemma_scan_fields(vs, empty);
    assert(entries_fields(vs) + Seq::<(u32, WireValue)>::empty() =~= entries_fields(vs));
    lemma_entries_fields_split(vs, ls, 0);
    lemma_sort_ordered(entries_fields(vs));
    assert(vs.subrange(0, 0) =~= Seq::<TypedValue>::empty());
    lemma_walk(vs, ls, 0, d);
    lemma_views_of_index(vs);
    assert(views_of(vs).subrange(0, vs.len() as int) =~= views_of(vs));
}

/// Round trip: decoding the encoding of a struct value against a layout the
/// value is well-typed against gives the value back. The value must be
/// encodable (field numbers below the wire limit), the layout nested no
/// deeper than the decoder accepts, and the encoding addressable in 64 bits.
pub proof fn lemma_round_trip(value: Seq<TypedValue>, layout: Seq<TypeLayout>)
    requires
        well_typed_fields(views_of(value), layout),
        all_encodable(value),
        value.len() < FIELD_NUMBER_LIMIT,
        fields_depth(layout) <= MAX_NESTING_DEPTH,
        enc_fields(value).len() < two_pow_64(),
    ensures
        decode_message(enc_fields(value), layout, 0) == Some(views_of(value)),
{
    lemma_decode_message(value, layout, 0);
}

/// An empty vector sent as a struct field produces no bytes, and a vector field
/// with no entry under the cursor decodes as the empty vector.
pub proof fn lemma_top_level_empty_vector(
    v: TypedValue,
    f: nat,
    fs: Seq<(u32, WireValue)>,
    c: nat,
    l: TypeLayout,
    i: nat,
    d: nat,
)
    requires
        v is Vector,
        v->Vector_0@.len() == 0,
        l is Vector,
        !(c < fs.len() && fs[c as int].0 == i),
    ensures
        enc_value(v, f) == Seq::<u8>::empty(),
        decode_field(fs, c, l, i, d) == Some((ValueView::Vector(seq![]), c)),
        view_of(v) == ValueView::Vector(seq![]),
{
    assert(views_of(v->Vector_0@) =~= Seq::<ValueView>::empty());
}

/// Malformed input fails: a buffer that starts with a field that cannot be
/// read (a varint that does not end, a payload longer than what is left, a
/// wire type other than varint and length-delimited, field number 0) decodes
/// against no layout.
pub proof fn lemma_malformed_input_fails(s: Seq<u8>, ls: Seq<TypeLayout>, d: nat)
    requires
        s.len() > 0,
        spec_read_field(s) is None,
    ensures
        decode_message(s, ls, d) is None,
{
}

} // verus!
