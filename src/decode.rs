//! Layout-guided decoder: turns protobuf wire bytes back into a typed value.
use vstd::prelude::*;
use vstd::bytes::{spec_u128_from_le_bytes, u128_from_le_bytes};
use crate::layout::{
    TypeLayout, TypedValue, ValueView, U256, AccountAddress, ADDRESS_LENGTH, u256_from_le, views_of,
    lemma_views_of_push, well_typed, well_typed_fields,
};
use crate::wire::{
    WireData, WireField, WireValue, fields_view, scan_fields, sort_fields, spec_scan, stable_sort,
};

verus! {

/// Deepest nesting of messages (structs, and wrapped vectors) that decoding accepts.
pub const MAX_NESTING_DEPTH: usize = 64;

/// Kinds carried by a varint field.
pub open spec fn is_varint_kind(kind: TypeLayout) -> bool {
    kind is Bool || kind is U8 || kind is U16 || kind is U32 || kind is U64
}

/// Kinds whose vectors are packed into one byte string.
pub open spec fn is_packed_kind(kind: TypeLayout) -> bool {
    kind is Bool || kind is U8
}

/// A varint read as a scalar of `kind`, keeping only the low bits that fit its width.
pub open spec fn varint_scalar(kind: TypeLayout, x: u64) -> ValueView {
    match kind {
        TypeLayout::Bool => ValueView::Bool(x != 0),
        TypeLayout::U8 => ValueView::U8((x % 0x100) as u8),
        TypeLayout::U16 => ValueView::U16((x % 0x1_0000) as u16),
        TypeLayout::U32 => ValueView::U32((x % 0x1_0000_0000) as u32),
        _ => ValueView::U64(x),
    }
}

/// The elements of a packed vector of `elem` held in `b`: one per byte.
pub open spec fn packed_view(elem: TypeLayout, b: Seq<u8>) -> Seq<ValueView> {
    if elem is Bool {
        b.map_values(|x: u8| ValueView::Bool(x != 0))
    } else {
        b.map_values(|x: u8| ValueView::U8(x))
    }
}

/// One value of kind `kind` read from a single field payload, at nesting depth `d`.
pub open spec fn decode_elem(p: WireValue, kind: TypeLayout, d: nat) -> Option<ValueView>
    decreases MAX_NESTING_DEPTH - d, 0nat, 0int,
{
    match (kind, p) {
        (TypeLayout::U16, WireValue::Varint(x)) => Some(varint_scalar(kind, x)),
        (TypeLayout::U32, WireValue::Varint(x)) => Some(varint_scalar(kind, x)),
        (TypeLayout::U64, WireValue::Varint(x)) => Some(varint_scalar(kind, x)),
        (TypeLayout::U128, WireValue::Bytes(b)) => if b.len() == 16 {
            Some(ValueView::U128(spec_u128_from_le_bytes(b)))
        } else {
            None
        },
        (TypeLayout::U256, WireValue::Bytes(b)) => if b.len() == 32 {
            Some(ValueView::U256(u256_from_le(b)))
        } else {
            None
        },
        (TypeLayout::Address, WireValue::Bytes(b)) => if b.len() == ADDRESS_LENGTH {
            Some(ValueView::Address(b))
        } else {
            None
        },
        (TypeLayout::Signer, WireValue::Bytes(b)) => if b.len() == ADDRESS_LENGTH {
            Some(ValueView::Signer(b))
        } else {
            None
        },
        (TypeLayout::Vector(inner), WireValue::Bytes(b)) => if is_packed_kind(*inner) {
            Some(ValueView::Vector(packed_view(*inner, b)))
        } else if d >= MAX_NESTING_DEPTH {
            None
        } else {
            match decode_message(b, seq![kind], d + 1) {
                Some(vs) => if vs.len() > 0 {
                    Some(vs.last())
                } else {
                    None
                },
                None => None,
            }
        },
        (TypeLayout::Struct(ls), WireValue::Bytes(b)) => if d >= MAX_NESTING_DEPTH {
            None
        } else {
            match decode_message(b, ls@, d + 1) {
                Some(vs) => Some(ValueView::Struct(vs)),
                None => None,
            }
        },
        _ => None,
    }
}

/// The run of fields with index `i` from position `c` of `fs`, each read as a
/// `kind` element, and the position after the run.
pub open spec fn decode_run(
    fs: Seq<(u32, WireValue)>,
    c: nat,
    kind: TypeLayout,
    i: nat,
    d: nat,
) -> Option<(Seq<ValueView>, nat)>
    decreases MAX_NESTING_DEPTH - d, 0nat, fs.len() - c,
{
    if c < fs.len() && fs[c as int].0 == i {
        match decode_elem(fs[c as int].1, kind, d) {
            Some(x) => match decode_run(fs, c + 1, kind, i, d) {
                Some((xs, c2)) => Some((seq![x] + xs, c2)),
                None => None,
            },
            None => None,
        }
    } else {
        Some((seq![], c))
    }
}

/// Struct field `i`, of kind `kind`, read from the sorted fields `fs` at position
/// `c`, and the position after what it consumed.
pub open spec fn decode_field(
    fs: Seq<(u32, WireValue)>,
    c: nat,
    kind: TypeLayout,
    i: nat,
    d: nat,
) -> Option<(ValueView, nat)>
    decreases MAX_NESTING_DEPTH - d, 1nat, 0int,
{
    let present = c < fs.len() && fs[c as int].0 == i;
    if is_varint_kind(kind) {
        if !present {
            Some((varint_scalar(kind, 0), c))
        } else {
            match fs[c as int].1 {
                WireValue::Varint(x) => Some((varint_scalar(kind, x), c + 1)),
                WireValue::Bytes(_) => None,
            }
        }
    } else {
        match kind {
            TypeLayout::Vector(elem) => if !present {
                Some((ValueView::Vector(seq![]), c))
            } else if is_packed_kind(*elem) {
                match fs[c as int].1 {
                    WireValue::Bytes(b) => Some((ValueView::Vector(packed_view(*elem, b)), c + 1)),
                    WireValue::Varint(_) => None,
                }
            } else {
                match decode_run(fs, c, *elem, i, d) {
                    Some((xs, c2)) => Some((ValueView::Vector(xs), c2)),
                    None => None,
                }
            },
            _ => if !present {
                None
            } else {
                match decode_elem(fs[c as int].1, kind, d) {
                    Some(v) => Some((v, c + 1)),
                    None => None,
                }
            },
        }
    }
}

/// Struct fields `i..` of layout `ls` read from the sorted fields `fs` from position `c`.
pub open spec fn decode_fields(
    fs: Seq<(u32, WireValue)>,
    c: nat,
    ls: Seq<TypeLayout>,
    i: nat,
    d: nat,
) -> Option<Seq<ValueView>>
    decreases MAX_NESTING_DEPTH - d, 2nat, ls.len() - i,
{
    if i >= ls.len() {
        Some(seq![])
    } else {
        match decode_field(fs, c, ls[i as int], i, d) {
            Some((v, c2)) => match decode_fields(fs, c2, ls, i + 1, d) {
                Some(rest) => Some(seq![v] + rest),
                None => None,
            },
            None => None,
        }
    }
}

/// The struct with field layouts `ls` encoded in `s`, at nesting depth `d`.
pub open spec fn decode_message(s: Seq<u8>, ls: Seq<TypeLayout>, d: nat) -> Option<Seq<ValueView>>
    decreases MAX_NESTING_DEPTH - d, 3nat, 0int,
{
    match spec_scan(s) {
        Some(fs) => decode_fields(stable_sort(fs), 0, ls, 0, d),
        None => None,
    }
}

proof fn lemma_packed_well_typed(elem: TypeLayout, b: Seq<u8>)
    requires
        is_packed_kind(elem),
    ensures
        well_typed(ValueView::Vector(packed_view(elem, b)), TypeLayout::Vector(Box::new(elem))),
{
    let xs = packed_view(elem, b);
    assert forall|k: int| 0 <= k < xs.len() implies well_typed(#[trigger] xs[k], elem) by {
        if elem is Bool {
            assert(xs[k] == ValueView::Bool(b[k] != 0));
        } else {
            assert(xs[k] == ValueView::U8(b[k]));
        }
    }
    assert(ValueView::Vector(xs)->Vector_0 == xs);
}

/// A value read as an element of kind `kind` has that kind.
proof fn lemma_elem_well_typed(p: WireValue, kind: TypeLayout, d: nat)
    ensures
        decode_elem(p, kind, d) matches Some(x) ==> well_typed(x, kind),
    decreases MAX_NESTING_DEPTH - d, 0nat, 0int,
{
    if let Some(x) = decode_elem(p, kind, d) {
        match (kind, p) {
            (TypeLayout::Vector(inner), WireValue::Bytes(b)) => {
                if is_packed_kind(*inner) {
                    lemma_packed_well_typed(*inner, b);
                } else {
                    let vs = decode_message(b, seq![kind], d + 1)->Some_0;
                    lemma_message_well_typed(b, seq![kind], d + 1);
                    assert(well_typed(vs[0], seq![kind][0]));
                    assert(vs.len() == 1);
                    assert(x == vs[0]);
                }
            },
            (TypeLayout::Struct(ls), WireValue::Bytes(b)) => {
                lemma_message_well_typed(b, ls@, d + 1);
                assert(x->Struct_0 == decode_message(b, ls@, d + 1)->Some_0);
            },
            _ => {},
        }
    }
}

proof fn lemma_run_well_typed(fs: Seq<(u32, WireValue)>, c: nat, kind: TypeLayout, i: nat, d: nat)
    ensures
        decode_run(fs, c, kind, i, d) matches Some((xs, _)) ==> forall|k: int|
            0 <= k < xs.len() ==> well_typed(#[trigger] xs[k], kind),
    decreases MAX_NESTING_DEPTH - d, 0nat, fs.len() - c,
{
    if c < fs.len() && fs[c as int].0 == i {
        lemma_elem_well_typed(fs[c as int].1, kind, d);
        lemma_run_well_typed(fs, c + 1, kind, i, d);
        if let Some((xs, _)) = decode_run(fs, c, kind, i, d) {
            let x = decode_elem(fs[c as int].1, kind, d)->Some_0;
            let rest = decode_run(fs, c + 1, kind, i, d)->Some_0.0;
            assert forall|k: int| 0 <= k < xs.len() implies well_typed(#[trigger] xs[k], kind) by {
                assert(xs == seq![x] + rest);
                if k > 0 {
                    assert(xs[k] == rest[k - 1]);
                }
            }
        }
    }
}

proof fn lemma_field_well_typed(fs: Seq<(u32, WireValue)>, c: nat, kind: TypeLayout, i: nat, d: nat)
    ensures
        decode_field(fs, c, kind, i, d) matches Some((v, _)) ==> well_typed(v, kind),
    decreases MAX_NESTING_DEPTH - d, 1nat, 0int,
{
    if let Some((v, _)) = decode_field(fs, c, kind, i, d) {
        let present = c < fs.len() && fs[c as int].0 == i;
        if !is_varint_kind(kind) {
            match kind {
                TypeLayout::Vector(elem) => {
                    if !present {
                        assert(v == ValueView::Vector(seq![]));
                        assert(v->Vector_0.len() == 0);
                    } else if is_packed_kind(*elem) {
                        lemma_packed_well_typed(*elem, fs[c as int].1->Bytes_0);
                    } else {
                        lemma_run_well_typed(fs, c, *elem, i, d);
                        let xs = decode_run(fs, c, *elem, i, d)->Some_0.0;
                        assert(v->Vector_0 == xs);
                        assert forall|k: int| 0 <= k < v->Vector_0.len() implies well_typed(#[trigger] v->Vector_0[k], *elem) by {
                            assert(v->Vector_0[k] == xs[k]);
                        }
                    }
                },
                _ => {
                    lemma_elem_well_typed(fs[c as int].1, kind, d);
                },
            }
        }
    }
}

proof fn lemma_fields_well_typed(fs: Seq<(u32, WireValue)>, c: nat, ls: Seq<TypeLayout>, i: nat, d: nat)
    requires
        i <= ls.len(),
    ensures
        decode_fields(fs, c, ls, i, d) matches Some(vs) ==> vs.len() == ls.len() - i && forall|k: int|
            0 <= k < vs.len() ==> well_typed(#[trigger] vs[k], ls[i + k]),
    decreases MAX_NESTING_DEPTH - d, 2nat, ls.len() - i,
{
    if i < ls.len() {
        lemma_field_well_typed(fs, c, ls[i as int], i, d);
        if let Some((v, c2)) = decode_field(fs, c, ls[i as int], i, d) {
            lemma_fields_well_typed(fs, c2, ls, i + 1, d);
            if let Some(vs) = decode_fields(fs, c, ls, i, d) {
                let rest = decode_fields(fs, c2, ls, i + 1, d)->Some_0;
                assert forall|k: int| 0 <= k < vs.len() implies well_typed(#[trigger] vs[k], ls[i + k]) by {
                    assert(vs == seq![v] + rest);
                    if k > 0 {
                        assert(vs[k] == rest[k - 1]);
                        assert(ls[i + k] == ls[(i + 1) + (k - 1)]);
                    }
                }
            }
        }
    }
}

/// A struct decoded against field layouts `ls` is well-typed against them.
pub proof fn lemma_message_well_typed(s: Seq<u8>, ls: Seq<TypeLayout>, d: nat)
    ensures
        decode_message(s, ls, d) matches Some(vs) ==> well_typed_fields(vs, ls),
    decreases MAX_NESTING_DEPTH - d, 3nat, 0int,
{
    if let Some(fs) = spec_scan(s) {
        lemma_fields_well_typed(stable_sort(fs), 0, ls, 0, d);
        if let Some(vs) = decode_message(s, ls, d) {
            assert forall|k: int| 0 <= k < ls.len() implies well_typed(vs[k], #[trigger] ls[k]) by {
                assert(ls[0 + k] == ls[k]);
            }
        }
    }
}

/// A forward-only position in a sequence of fields sorted by index.
pub struct FieldCursor<'a> {
    pub fields: Vec<WireField<'a>>,
    pub pos: usize,
}

impl<'a> FieldCursor<'a> {
    /// Mathematical form of the fields.
    pub open spec fn spec_fields(&self) -> Seq<(u32, WireValue)> {
        fields_view(self.fields@)
    }

    /// The field under the cursor exists and has index `i`.
    pub open spec fn at_index(&self, i: nat) -> bool {
        self.pos < self.fields@.len() && self.fields@[self.pos as int].0 == i
    }

    /// The payload under the cursor, if its field has index `i`.
    pub fn peek_if_matches(&self, i: usize) -> (r: Option<WireData<'a>>)
        ensures
            self.at_index(i as nat) ==> r == Some(self.fields@[self.pos as int].1),
            !self.at_index(i as nat) ==> r.is_none(),
    {
        if self.pos < self.fields.len() && self.fields[self.pos].0 as usize == i {
            Some(self.fields[self.pos].1)
        } else {
            None
        }
    }

    /// Moves past the field under the cursor.
    pub fn advance(&mut self)
        requires
            old(self).pos < old(self).fields@.len(),
        ensures
            final(self).fields == old(self).fields,
            final(self).pos == old(self).pos + 1,
    {
        let n = self.fields.len();
        assert(self.pos < n);
        self.pos = self.pos + 1;
    }
}

/// Relies on std::slice::from_ref: a one-element slice that views `x`.
#[verifier::external_body]
fn layout_as_slice(x: &TypeLayout) -> (r: &[TypeLayout])
    ensures
        r@ == seq![*x],
{
    std::slice::from_ref(x)
}

fn decode_packed(elem_is_bool: bool, b: &[u8]) -> (r: Vec<TypedValue>)
    ensures
        views_of(r@) == (if elem_is_bool {
            b@.map_values(|x: u8| ValueView::Bool(x != 0))
        } else {
            b@.map_values(|x: u8| ValueView::U8(x))
        }),
{
    let ghost target = if elem_is_bool {
        b@.map_values(|x: u8| ValueView::Bool(x != 0))
    } else {
        b@.map_values(|x: u8| ValueView::U8(x))
    };
    let mut r: Vec<TypedValue> = Vec::new();
    let mut i: usize = 0;
    assert(views_of(r@) =~= target.subrange(0, 0));
    while i < b.len()
        invariant
            i <= b@.len(),
            target.len() == b@.len(),
            target == (if elem_is_bool {
                b@.map_values(|x: u8| ValueView::Bool(x != 0))
            } else {
                b@.map_values(|x: u8| ValueView::U8(x))
            }),
            views_of(r@) == target.subrange(0, i as int),
        decreases b@.len() - i,
    {
        let x = if elem_is_bool {
            TypedValue::Bool(b[i] != 0)
        } else {
            TypedValue::U8(b[i])
        };
        proof {
            lemma_views_of_push(r@, x);
        }
        r.push(x);
        i = i + 1;
        assert(views_of(r@) =~= target.subrange(0, i as int));
    }
    assert(target.subrange(0, i as int) =~= target);
    r
}

fn decode_elem_exec<'a>(data: WireData<'a>, kind: &TypeLayout, depth: usize) -> (r: Option<TypedValue>)
    ensures
        match decode_elem(data@, *kind, depth as nat) {
            Some(v) => r matches Some(x) && x@ == v,
            None => r.is_none(),
        },
    decreases MAX_NESTING_DEPTH - depth, 0nat, 0int,
{
    match (kind, data) {
        (TypeLayout::U16, WireData::Varint(x)) => Some(TypedValue::U16((x % 0x1_0000) as u16)),
        (TypeLayout::U32, WireData::Varint(x)) => Some(TypedValue::U32((x % 0x1_0000_0000) as u32)),
        (TypeLayout::U64, WireData::Varint(x)) => Some(TypedValue::U64(x)),
        (TypeLayout::U128, WireData::LengthDelimited(b)) => if b.len() == 16 {
            Some(TypedValue::U128(u128_from_le_bytes(b)))
        } else {
            None
        },
        (TypeLayout::U256, WireData::LengthDelimited(b)) => if b.len() == 32 {
            Some(TypedValue::U256(U256::from_le_bytes(b)))
        } else {
            None
        },
        (TypeLayout::Address, WireData::LengthDelimited(b)) => match AccountAddress::from_bytes(b) {
            Some(a) => Some(TypedValue::Address(a)),
            None => None,
        },
        (TypeLayout::Signer, WireData::LengthDelimited(b)) => match AccountAddress::from_bytes(b) {
            Some(a) => Some(TypedValue::Signer(a)),
            None => None,
        },
        (TypeLayout::Vector(inner), WireData::LengthDelimited(b)) => match &**inner {
            TypeLayout::Bool => Some(TypedValue::Vector(decode_packed(true, b))),
            TypeLayout::U8 => Some(TypedValue::Vector(decode_packed(false, b))),
            _ => {
                if depth >= MAX_NESTING_DEPTH {
                    return None;
                }
                let wrapper_layout = layout_as_slice(kind);
                match proto_deserialize_inner(b, wrapper_layout, depth + 1) {
                    Some(mut fields) => {
                        let ghost all = fields@;
                        let x = fields.pop();
                        proof {
                            if all.len() > 0 {
                                lemma_views_of_push(fields@, all.last());
                                assert(all =~= fields@.push(all.last()));
                            }
                        }
                        x
                    },
                    None => None,
                }
            },
        },
        (TypeLayout::Struct(ls), WireData::LengthDelimited(b)) => {
            if depth >= MAX_NESTING_DEPTH {
                return None;
            }
            match proto_deserialize_inner(b, ls.as_slice(), depth + 1) {
                Some(vs) => Some(TypedValue::Struct(vs)),
                None => None,
            }
        },
        _ => None,
    }
}

fn decode_field_exec<'a>(cursor: &mut FieldCursor<'a>, kind: &TypeLayout, i: usize, depth: usize) -> (r: Option<TypedValue>)
    requires
        old(cursor).pos <= old(cursor).fields@.len(),
    ensures
        final(cursor).fields == old(cursor).fields,
        final(cursor).pos <= final(cursor).fields@.len(),
        match decode_field(old(cursor).spec_fields(), old(cursor).pos as nat, *kind, i as nat, depth as nat) {
            Some((v, c2)) => r matches Some(x) && x@ == v && final(cursor).pos == c2,
            None => r.is_none(),
        },
    decreases MAX_NESTING_DEPTH - depth, 1nat, 0int,
{
    let ghost fs = cursor.spec_fields();
    let ghost c = cursor.pos as nat;
    let val = cursor.peek_if_matches(i);
    match kind {
        TypeLayout::Bool | TypeLayout::U8 | TypeLayout::U16 | TypeLayout::U32 | TypeLayout::U64 => {
            let x: u64 = match val {
                None => 0,
                Some(WireData::Varint(x)) => {
                    cursor.advance();
                    x
                },
                Some(WireData::LengthDelimited(_)) => return None,
            };
            Some(match kind {
                TypeLayout::Bool => TypedValue::Bool(x != 0),
                TypeLayout::U8 => TypedValue::U8((x % 0x100) as u8),
                TypeLayout::U16 => TypedValue::U16((x % 0x1_0000) as u16),
                TypeLayout::U32 => TypedValue::U32((x % 0x1_0000_0000) as u32),
                _ => TypedValue::U64(x),
            })
        },
        TypeLayout::Vector(elem) => {
            match val {
                None => {
                    let empty: Vec<TypedValue> = Vec::new();
                    assert(views_of(empty@) =~= Seq::<ValueView>::empty());
                    return Some(TypedValue::Vector(empty));
                },
                Some(_) => {},
            }
            let elem: &TypeLayout = &**elem;
            let packed = match elem {
                TypeLayout::Bool => Some(true),
                TypeLayout::U8 => Some(false),
                _ => None,
            };
            match packed {
                Some(is_bool) => match val {
                    Some(WireData::LengthDelimited(b)) => {
                        cursor.advance();
                        Some(TypedValue::Vector(decode_packed(is_bool, b)))
                    },
                    _ => None,
                },
                None => {
                    let mut vals: Vec<TypedValue> = Vec::new();
                    let mut next = val;
                    proof {
                        assert(views_of(vals@) + decode_run(fs, c, *elem, i as nat, depth as nat)->Some_0.0
                            =~= decode_run(fs, c, *elem, i as nat, depth as nat)->Some_0.0);
                    }
                    assert(decode_field(fs, c, *kind, i as nat, depth as nat) == (match decode_run(fs, c, *elem, i as nat, depth as nat) {
                        Some((xs, c2)) => Some((ValueView::Vector(xs), c2)),
                        None => None,
                    }));
                    while next.is_some()
                        invariant
                            decode_field(fs, c, *kind, i as nat, depth as nat) == (match decode_run(fs, c, *elem, i as nat, depth as nat) {
                                Some((xs, c2)) => Some((ValueView::Vector(xs), c2)),
                                None => None,
                            }),
                            cursor.fields == old(cursor).fields,
                            fs == cursor.spec_fields(),
                            fs == old(cursor).spec_fields(),
                            c == old(cursor).pos,
                            c <= cursor.pos <= cursor.fields@.len(),
                            cursor.at_index(i as nat) ==> next == Some(cursor.fields@[cursor.pos as int].1),
                            !cursor.at_index(i as nat) ==> next.is_none(),
                            decode_run(fs, c, *elem, i as nat, depth as nat) == (match decode_run(
                                fs,
                                cursor.pos as nat,
                                *elem,
                                i as nat,
                                depth as nat,
                            ) {
                                Some((xs, c2)) => Some((views_of(vals@) + xs, c2)),
                                None => None,
                            }),
                        decreases cursor.fields@.len() - cursor.pos,
                    {
                        let data = next.unwrap();
                        proof {
                            assert(fs[cursor.pos as int] == (cursor.fields@[cursor.pos as int].0, data@));
                        }
                        let x = match decode_elem_exec(data, elem, depth) {
                            Some(x) => x,
                            None => {
                                proof {
                                    assert(decode_run(fs, cursor.pos as nat, *elem, i as nat, depth as nat).is_none());
                                    assert(decode_run(fs, c, *elem, i as nat, depth as nat).is_none());
                                }
                                return None;
                            },
                        };
                        let ghost old_vals = vals@;
                        proof {
                            lemma_views_of_push(vals@, x);
                        }
                        vals.push(x);
                        cursor.advance();
                        next = cursor.peek_if_matches(i);
                        proof {
                            if let Some((xs, c2)) = decode_run(fs, cursor.pos as nat, *elem, i as nat, depth as nat) {
                                assert(views_of(old_vals) + (seq![x@] + xs) =~= views_of(vals@) + xs);
                            }
                        }
                    }
                    proof {
                        assert(views_of(vals@) + Seq::<ValueView>::empty() =~= views_of(vals@));
                    }
                    Some(TypedValue::Vector(vals))
                },
            }
        },
        _ => match val {
            None => None,
            Some(data) => {
                let r = decode_elem_exec(data, kind, depth);
                if r.is_some() {
                    cursor.advance();
                }
                r
            },
        },
    }
}

/// Decodes a message (all of `proto`) as a struct with field layouts `layout`,
/// at nesting depth `depth`.
#[verifier::rlimit(50)]
fn proto_deserialize_inner(proto: &[u8], layout: &[TypeLayout], depth: usize) -> (r: Option<Vec<TypedValue>>)
    ensures
        match decode_message(proto@, layout@, depth as nat) {
            Some(vs) => r matches Some(x) && views_of(x@) == vs,
            None => r.is_none(),
        },
    decreases MAX_NESTING_DEPTH - depth, 3nat, 0int,
{
    let parsed = match scan_fields(proto) {
        Some(f) => f,
        None => return None,
    };
    let sorted = sort_fields(&parsed);
    let mut cursor = FieldCursor { fields: sorted, pos: 0 };
    let ghost fs = cursor.spec_fields();
    proof {
        assert(fs == stable_sort(spec_scan(proto@)->Some_0));
        assert(decode_message(proto@, layout@, depth as nat) == decode_fields(fs, 0, layout@, 0, depth as nat));
    }
    let mut res: Vec<TypedValue> = Vec::new();
    let mut i: usize = 0;
    proof {
        if let Some(rest) = decode_fields(fs, 0, layout@, 0, depth as nat) {
            assert(views_of(res@) + rest =~= rest);
        }
    }
    while i < layout.len()
        invariant
            i <= layout@.len(),
            fs == cursor.spec_fields(),
            cursor.pos <= cursor.fields@.len(),
            decode_message(proto@, layout@, depth as nat) == decode_fields(fs, 0, layout@, 0, depth as nat),
            decode_fields(fs, 0, layout@, 0, depth as nat) == (match decode_fields(
                fs,
                cursor.pos as nat,
                layout@,
                i as nat,
                depth as nat,
            ) {
                Some(rest) => Some(views_of(res@) + rest),
                None => None,
            }),
        decreases layout@.len() - i,
    {
        let ghost p = cursor.pos as nat;
        let r = decode_field_exec(&mut cursor, &layout[i], i, depth);
        proof {
            reveal_with_fuel(decode_fields, 1);
            assert(decode_fields(fs, p, layout@, i as nat, depth as nat) == (match decode_field(fs, p, layout@[i as int], i as nat, depth as nat) {
                Some((v, c2)) => match decode_fields(fs, c2, layout@, (i + 1) as nat, depth as nat) {
                    Some(rest) => Some(seq![v] + rest),
                    None => None,
                },
                None => None,
            }));
        }
        let v = match r {
            Some(v) => v,
            None => {
                proof {
                    assert(decode_fields(fs, p, layout@, i as nat, depth as nat).is_none());
                    assert(decode_fields(fs, 0, layout@, 0, depth as nat).is_none());
                }
                return None;
            },
        };
        let ghost old_res = res@;
        proof {
            lemma_views_of_push(res@, v);
        }
        res.push(v);
        proof {
            if let Some(rest) = decode_fields(fs, cursor.pos as nat, layout@, (i + 1) as nat, depth as nat) {
                assert(views_of(old_res) + (seq![v@] + rest) =~= views_of(res@) + rest);
            }
        }
        i = i + 1;
    }
    proof {
        assert(views_of(res@) + Seq::<ValueView>::empty() =~= views_of(res@));
    }
    Some(res)
}

/// Decodes `proto` as a struct with field layouts `layout`. Fails on malformed
/// wire data, on a missing mandatory field, on a payload of the wrong shape or
/// width, and on messages nested deeper than `MAX_NESTING_DEPTH`.
pub fn proto_deserialize(proto: &[u8], layout: &[TypeLayout]) -> (r: Option<Vec<TypedValue>>)
    ensures
        match decode_message(proto@, layout@, 0) {
            Some(vs) => r matches Some(x) && views_of(x@) == vs,
            None => r.is_none(),
        },
        r matches Some(x) ==> well_typed_fields(views_of(x@), layout@),
{
    proof {
        lemma_message_well_typed(proto@, layout@, 0);
    }
    proto_deserialize_inner(proto, layout, 0)
}

} // verus!
