//! Low-level protobuf wire primitives: varints, tags and length-delimited payloads.
use vstd::prelude::*;
use vstd::slice::slice_subrange;

verus! {

/// Most bytes a varint may span.
pub const MAX_VARINT_BYTES: usize = 10;

/// Wire type code of a varint field.
pub const WIRE_VARINT: u32 = 0;

/// Wire type code of a length-delimited field.
pub const WIRE_LENGTH_DELIMITED: u32 = 2;

/// Exclusive bound on the field numbers accepted from the wire.
pub const FIELD_NUMBER_LIMIT: u64 = 0x2000_0000;

/// 2^64, the modulus of a decoded varint.
pub open spec fn two_pow_64() -> nat {
    0x1_0000_0000_0000_0000
}

/// The bytes of the base-128 little-endian varint encoding of `x`.
pub open spec fn varint_bytes(x: nat) -> Seq<u8>
    decreases x,
{
    if x < 128 {
        seq![x as u8]
    } else {
        seq![(x % 128 + 128) as u8] + varint_bytes(x / 128)
    }
}

/// The number represented by the 7-bit groups of `s`, least significant first.
pub open spec fn varint_value(s: Seq<u8>) -> nat
    decreases s.len(),
{
    if s.len() == 0 {
        0
    } else {
        (s[0] % 128) as nat + 128 * varint_value(s.subrange(1, s.len() as int))
    }
}

/// Length of the varint at the start of `s`, searching from byte `i`: the first
/// byte with a clear high bit ends it, and it may not exceed ten bytes.
pub open spec fn varint_end_from(s: Seq<u8>, i: nat) -> Option<nat>
    decreases 10 - i,
{
    if i >= 10 || i >= s.len() {
        None
    } else if s[i as int] < 128 {
        Some(i + 1)
    } else {
        varint_end_from(s, i + 1)
    }
}

/// Length of the varint at the start of `s`, if it is complete.
pub open spec fn varint_end(s: Seq<u8>) -> Option<nat> {
    varint_end_from(s, 0)
}

/// The varint at the start of `s` (its value modulo 2^64) and its length.
pub open spec fn spec_read_varint(s: Seq<u8>) -> Option<(u64, nat)> {
    match varint_end(s) {
        Some(n) => Some(((varint_value(s.subrange(0, n as int)) % two_pow_64()) as u64, n)),
        None => None,
    }
}

/// Kind of payload that follows a tag.
#[derive(Clone, Copy, Debug, PartialEq, Eq, Structural)]
pub enum WireType {
    Varint,
    LengthDelimited,
}

/// The tag at the start of `s`: zero-based field index, wire type, bytes used.
pub open spec fn spec_read_tag(s: Seq<u8>) -> Option<(u32, WireType, nat)> {
    match spec_read_varint(s) {
        Some((tag, n)) => {
            let field_number = tag as nat / 8;
            let code = tag as nat % 8;
            if field_number == 0 || field_number >= FIELD_NUMBER_LIMIT {
                None
            } else if code == 0 {
                Some(((field_number - 1) as u32, WireType::Varint, n))
            } else if code == 2 {
                Some(((field_number - 1) as u32, WireType::LengthDelimited, n))
            } else {
                None
            }
        },
        None => None,
    }
}

/// A length-prefixed payload at the start of `s`: its bytes and the bytes used.
pub open spec fn spec_read_length_delimited(s: Seq<u8>) -> Option<(Seq<u8>, nat)> {
    match spec_read_varint(s) {
        Some((len, n)) => if n + len <= s.len() {
            Some((s.subrange(n as int, n + len), (n + len) as nat))
        } else {
            None
        },
        None => None,
    }
}

/// Appends the varint encoding of `x` to `out`.
pub fn serialize_varint(x: u64, out: &mut Vec<u8>)
    ensures
        final(out)@ == old(out)@ + varint_bytes(x as nat),
{
    let mut x = x;
    let ghost x0 = x as nat;
    let ghost start = out@;
    while x >= 128
        invariant
            start + varint_bytes(x0) == out@ + varint_bytes(x as nat),
        decreases x,
    {
        out.push((x % 128 + 128) as u8);
        x = x / 128;
    }
    out.push(x as u8);
}

/// The tag of a field: its number shifted past the three wire-type bits.
pub open spec fn tag_bytes(field_num: nat, wire_type: nat) -> Seq<u8> {
    varint_bytes(field_num * 8 + wire_type)
}

/// Appends the tag of field `field_num` with wire type `wire_type`.
pub fn encode_tag(field_num: u32, wire_type: u32, out: &mut Vec<u8>)
    requires
        wire_type < 8,
    ensures
        final(out)@ == old(out)@ + tag_bytes(field_num as nat, wire_type as nat),
{
    serialize_varint(field_num as u64 * 8 + wire_type as u64, out);
}

/// The bytes of a varint field.
pub open spec fn varint_field_bytes(field_num: nat, value: nat) -> Seq<u8> {
    tag_bytes(field_num, 0) + varint_bytes(value)
}

/// The bytes of a length-delimited field carrying `payload`.
pub open spec fn length_delimited_bytes(field_num: nat, payload: Seq<u8>) -> Seq<u8> {
    tag_bytes(field_num, 2) + varint_bytes(payload.len()) + payload
}

/// Appends a varint field.
pub fn serialize_varint_field(field_num: u32, value: u64, out: &mut Vec<u8>)
    ensures
        final(out)@ == old(out)@ + varint_field_bytes(field_num as nat, value as nat),
{
    encode_tag(field_num, WIRE_VARINT, out);
    serialize_varint(value, out);
    assert(out@ =~= old(out)@ + varint_field_bytes(field_num as nat, value as nat));
}

/// Appends a length-delimited field carrying `value`.
pub fn serialize_length_delim(field_num: u32, value: &[u8], out: &mut Vec<u8>)
    ensures
        final(out)@ == old(out)@ + length_delimited_bytes(field_num as nat, value@),
{
    encode_tag(field_num, WIRE_LENGTH_DELIMITED, out);
    serialize_varint(value.len() as u64, out);
    let ghost mid = out@;
    let mut i: usize = 0;
    while i < value.len()
        invariant
            i <= value@.len(),
            out@ == mid + value@.subrange(0, i as int),
        decreases value@.len() - i,
    {
        out.push(value[i]);
        i = i + 1;
        assert(out@ =~= mid + value@.subrange(0, i as int));
    }
    assert(value@.subrange(0, i as int) =~= value@);
    assert(out@ =~= old(out)@ + length_delimited_bytes(field_num as nat, value@));
}

/// 128 raised to the power `k`.
pub open spec fn pow128(k: nat) -> nat
    decreases k,
{
    if k == 0 {
        1
    } else {
        128 * pow128((k - 1) as nat)
    }
}

proof fn lemma_pow128_bound(k: nat)
    requires
        k <= 10,
    ensures
        pow128(k) <= 0x40_0000_0000_0000_0000,
    decreases 10 - k,
{
    if k < 10 {
        lemma_pow128_bound(k + 1);
    } else {
        reveal_with_fuel(pow128, 11);
    }
}

/// A varint found from byte `i` ends after `i`, within the first ten bytes and within `s`.
pub proof fn lemma_varint_end_bounds(s: Seq<u8>, i: nat)
    ensures
        varint_end_from(s, i) matches Some(n) ==> i < n <= s.len() && n <= 10,
    decreases 10 - i,
{
    if i < 10 && i < s.len() && s[i as int] >= 128 {
        lemma_varint_end_bounds(s, i + 1);
    }
}

/// Reads a varint from the front of `proto` and advances past it; leaves
/// `proto` as it was when no complete varint of at most ten bytes starts it.
pub fn read_varint(proto: &mut &[u8]) -> (r: Option<u64>)
    ensures
        match spec_read_varint(old(proto)@) {
            Some((v, n)) => r == Some(v) && final(proto)@ == old(proto)@.subrange(
                n as int,
                old(proto)@.len() as int,
            ),
            None => r.is_none() && final(proto)@ == old(proto)@,
        },
{
    let s: &[u8] = *proto;
    let mut i: usize = 0;
    while i < MAX_VARINT_BYTES && i < s.len() && s[i] >= 128
        invariant
            i <= MAX_VARINT_BYTES,
            i <= s@.len(),
            varint_end(s@) == varint_end_from(s@, i as nat),
        decreases MAX_VARINT_BYTES - i,
    {
        i = i + 1;
    }
    if i >= MAX_VARINT_BYTES || i >= s.len() {
        return None;
    }
    let n: usize = i + 1;
    let mut res: u128 = 0;
    let mut j: usize = n;
    proof {
        assert(s@.subrange(n as int, n as int).len() == 0);
    }
    while j > 0
        invariant
            j <= n <= MAX_VARINT_BYTES,
            n <= s@.len(),
            res as nat == varint_value(s@.subrange(j as int, n as int)),
            res < pow128((n - j) as nat),
        decreases j,
    {
        let b = s[j - 1];
        proof {
            lemma_pow128_bound((n - j) as nat);
            let k = (n - j) as nat;
            assert(pow128(k + 1) == 128 * pow128(k));
            assert(res * 128 + 127 < 128 * pow128(k)) by (nonlinear_arith)
                requires
                    res < pow128(k),
            ;
            let t = s@.subrange(j - 1, n as int);
            assert(t.subrange(1, t.len() as int) =~= s@.subrange(j as int, n as int));
        }
        res = res * 128 + (b % 128) as u128;
        j = j - 1;
    }
    *proto = slice_subrange(s, n, s.len());
    Some((res % 0x1_0000_0000_0000_0000) as u64)
}

/// What a field carries: a varint, or a borrowed length-delimited payload.
#[derive(Clone, Copy)]
pub enum WireData<'a> {
    Varint(u64),
    LengthDelimited(&'a [u8]),
}

/// Mathematical form of a field payload.
pub ghost enum WireValue {
    Varint(u64),
    Bytes(Seq<u8>),
}

impl<'a> View for WireData<'a> {
    type V = WireValue;

    open spec fn view(&self) -> WireValue {
        match self {
            WireData::Varint(x) => WireValue::Varint(*x),
            WireData::LengthDelimited(b) => WireValue::Bytes(b@),
        }
    }
}

/// The payload of a length-delimited field, or `None` for a varint.
pub fn as_length_delimited<'a>(data: &WireData<'a>) -> (r: Option<&'a [u8]>)
    ensures
        match data@ {
            WireValue::Bytes(b) => r matches Some(x) && x@ == b,
            WireValue::Varint(_) => r.is_none(),
        },
{
    match data {
        WireData::LengthDelimited(x) => Some(*x),
        _ => None,
    }
}

/// Reads a tag from the front of `proto`: the zero-based field index and the wire type.
pub fn read_tag(proto: &mut &[u8]) -> (r: Option<(u32, WireType)>)
    ensures
        match spec_read_tag(old(proto)@) {
            Some((idx, wt, n)) => r == Some((idx, wt)) && final(proto)@ == old(proto)@.subrange(
                n as int,
                old(proto)@.len() as int,
            ),
            None => r.is_none() && final(proto)@ == old(proto)@,
        },
{
    let mut cur: &[u8] = *proto;
    let tag = match read_varint(&mut cur) {
        Some(t) => t,
        None => return None,
    };
    let field_number = tag / 8;
    if field_number == 0 || field_number >= FIELD_NUMBER_LIMIT {
        return None;
    }
    let wire_type = if tag % 8 == 0 {
        WireType::Varint
    } else if tag % 8 == 2 {
        WireType::LengthDelimited
    } else {
        return None;
    };
    *proto = cur;
    Some(((field_number - 1) as u32, wire_type))
}

/// Reads a varint length and then that many bytes from the front of `proto`.
pub fn read_length_delimited<'a>(proto: &mut &'a [u8]) -> (r: Option<&'a [u8]>)
    ensures
        match spec_read_length_delimited(old(proto)@) {
            Some((b, n)) => r matches Some(x) && x@ == b && final(proto)@ == old(proto)@.subrange(
                n as int,
                old(proto)@.len() as int,
            ),
            None => r.is_none() && final(proto)@ == old(proto)@,
        },
{
    let mut cur: &'a [u8] = *proto;
    let size = match read_varint(&mut cur) {
        Some(x) => x,
        None => return None,
    };
    if size > cur.len() as u64 {
        return None;
    }
    let size = size as usize;
    let value = slice_subrange(cur, 0, size);
    *proto = slice_subrange(cur, size, cur.len());
    proof {
        let s = old(proto)@;
        lemma_varint_end_bounds(s, 0);
        let n = spec_read_varint(s)->Some_0.1;
        assert(value@ =~= s.subrange(n as int, n + size));
        assert(proto@ =~= s.subrange(n + size, s.len() as int));
    }
    Some(value)
}

/// One field read from the wire: zero-based field index and payload.
pub type WireField<'a> = (u32, WireData<'a>);

/// Mathematical form of a sequence of fields.
pub open spec fn fields_view<'a>(v: Seq<WireField<'a>>) -> Seq<(u32, WireValue)> {
    v.map_values(|f: WireField<'a>| (f.0, f.1@))
}

/// One field (tag and payload) at the start of `s`, with the bytes it spans.
pub open spec fn spec_read_field(s: Seq<u8>) -> Option<(u32, WireValue, nat)> {
    match spec_read_tag(s) {
        Some((idx, wt, n)) => {
            let rest = s.subrange(n as int, s.len() as int);
            match wt {
                WireType::Varint => match spec_read_varint(rest) {
                    Some((v, m)) => Some((idx, WireValue::Varint(v), n + m)),
                    None => None,
                },
                WireType::LengthDelimited => match spec_read_length_delimited(rest) {
                    Some((b, m)) => Some((idx, WireValue::Bytes(b), n + m)),
                    None => None,
                },
            }
        },
        None => None,
    }
}

/// All fields of `s` in wire order; `None` when any of them is malformed.
pub open spec fn spec_scan(s: Seq<u8>) -> Option<Seq<(u32, WireValue)>>
    decreases s.len(),
{
    if s.len() == 0 {
        Some(seq![])
    } else {
        match spec_read_field(s) {
            Some((idx, v, n)) => if 0 < n <= s.len() {
                match spec_scan(s.subrange(n as int, s.len() as int)) {
                    Some(rest) => Some(seq![(idx, v)] + rest),
                    None => None,
                }
            } else {
                None
            },
            None => None,
        }
    }
}

proof fn lemma_read_field_bounds(s: Seq<u8>)
    ensures
        spec_read_field(s) matches Some((_, _, n)) ==> 0 < n <= s.len(),
{
    lemma_varint_end_bounds(s, 0);
    if let Some((_, _, n)) = spec_read_tag(s) {
        let rest = s.subrange(n as int, s.len() as int);
        lemma_varint_end_bounds(rest, 0);
    }
}

/// Reads every field of `buffer` in wire order; `None` when any tag or payload is malformed.
pub fn scan_fields<'a>(buffer: &'a [u8]) -> (r: Option<Vec<WireField<'a>>>)
    ensures
        match spec_scan(buffer@) {
            Some(fs) => r matches Some(v) && fields_view(v@) == fs,
            None => r.is_none(),
        },
{
    let mut cur: &'a [u8] = buffer;
    let mut fields: Vec<WireField<'a>> = Vec::new();
    while cur.len() > 0
        invariant
            spec_scan(buffer@) == (match spec_scan(cur@) {
                Some(rest) => Some(fields_view(fields@) + rest),
                None => None,
            }),
        decreases cur@.len(),
    {
        let ghost before = cur@;
        proof {
            lemma_read_field_bounds(before);
        }
        let (idx, wire_type) = match read_tag(&mut cur) {
            Some(t) => t,
            None => return None,
        };
        let data = match wire_type {
            WireType::Varint => match read_varint(&mut cur) {
                Some(v) => WireData::Varint(v),
                None => return None,
            },
            WireType::LengthDelimited => match read_length_delimited(&mut cur) {
                Some(b) => WireData::LengthDelimited(b),
                None => return None,
            },
        };
        let ghost old_fields = fields@;
        fields.push((idx, data));
        proof {
            let n = spec_read_field(before)->Some_0.2;
            assert(cur@ =~= before.subrange(n as int, before.len() as int));
            assert(fields_view(fields@) =~= fields_view(old_fields) + seq![(idx, data@)]);
            if let Some(rest) = spec_scan(cur@) {
                assert(fields_view(fields@) + rest =~= fields_view(old_fields) + (seq![(idx, data@)] + rest));
            }
        }
    }
    proof {
        assert(fields_view(fields@) + seq![] =~= fields_view(fields@));
    }
    Some(fields)
}

/// Where a field with index `k` goes in a sequence already ordered by index:
/// after the last field whose index is at most `k`.
pub open spec fn insert_position(s: Seq<(u32, WireValue)>, k: u32) -> nat
    decreases s.len(),
{
    if s.len() == 0 {
        0
    } else if s.last().0 <= k {
        s.len()
    } else {
        insert_position(s.drop_last(), k)
    }
}

/// The fields ordered by index, fields of equal index kept in wire order.
pub open spec fn stable_sort(s: Seq<(u32, WireValue)>) -> Seq<(u32, WireValue)>
    decreases s.len(),
{
    if s.len() == 0 {
        s
    } else {
        let sorted = stable_sort(s.drop_last());
        sorted.insert(insert_position(sorted, s.last().0) as int, s.last())
    }
}

proof fn lemma_insert_position_bound(s: Seq<(u32, WireValue)>, k: u32)
    ensures
        insert_position(s, k) <= s.len(),
    decreases s.len(),
{
    if s.len() > 0 && s.last().0 > k {
        lemma_insert_position_bound(s.drop_last(), k);
    }
}

proof fn lemma_stable_sort_len(s: Seq<(u32, WireValue)>)
    ensures
        stable_sort(s).len() == s.len(),
    decreases s.len(),
{
    if s.len() > 0 {
        lemma_stable_sort_len(s.drop_last());
        let sorted = stable_sort(s.drop_last());
        lemma_insert_position_bound(sorted, s.last().0);
    }
}

/// Sorts `fields` by field index, keeping repeated fields in wire order.
pub fn sort_fields<'a>(fields: &Vec<WireField<'a>>) -> (r: Vec<WireField<'a>>)
    ensures
        fields_view(r@) == stable_sort(fields_view(fields@)),
{
    let ghost all = fields_view(fields@);
    let mut sorted: Vec<WireField<'a>> = Vec::new();
    let mut i: usize = 0;
    proof {
        assert(all.subrange(0, 0) =~= Seq::<(u32, WireValue)>::empty());
    }
    while i < fields.len()
        invariant
            i <= fields@.len(),
            all == fields_view(fields@),
            fields_view(sorted@) == stable_sort(all.subrange(0, i as int)),
        decreases fields@.len() - i,
    {
        let f = fields[i];
        let mut p: usize = sorted.len();
        proof {
            assert(fields_view(sorted@).subrange(0, p as int) =~= fields_view(sorted@));
        }
        while p > 0 && sorted[p - 1].0 > f.0
            invariant
                p <= sorted@.len(),
                insert_position(fields_view(sorted@), f.0) == insert_position(
                    fields_view(sorted@).subrange(0, p as int),
                    f.0,
                ),
            decreases p,
        {
            proof {
                let sv = fields_view(sorted@).subrange(0, p as int);
                assert(sv.drop_last() =~= fields_view(sorted@).subrange(0, p - 1));
            }
            p = p - 1;
        }
        proof {
            let next = all.subrange(0, i + 1);
            assert(next.drop_last() =~= all.subrange(0, i as int));
            assert(next.last() == (f.0, f.1@));
        }
        let ghost old_sorted = sorted@;
        sorted.insert(p, f);
        proof {
            assert(fields_view(sorted@) =~= fields_view(old_sorted).insert(p as int, (f.0, f.1@)));
        }
        i = i + 1;
    }
    proof {
        assert(all.subrange(0, i as int) =~= all);
    }
    sorted
}

} // verus!
