//! The byte decoder: walks a schema against a raw buffer using the fixed
//! binary format (little-endian integers, length-prefixed collections,
//! one-byte flags and selectors) and produces a typed value.
use vstd::prelude::*;

use crate::errors::DecodeError;
use crate::schema::SchemaNode;
use crate::schema::SchemaNodeView;
use crate::schema::SchemaType;
use crate::schema::SchemaTypeView;
use crate::schema::SmallVecLen;
use crate::value::TypedValue;
use crate::value::TypedValueView;
use crate::value::ValueNode;
use crate::value::ValueNodeView;

verus! {

broadcast use vstd::std_specs::vec::group_vec_axioms, vstd::seq::group_seq_axioms, vstd::string::group_string_axioms, vstd::utf8::group_utf8_lib;

use vstd::bytes::spec_u16_from_le_bytes;
use vstd::bytes::spec_u32_from_le_bytes;
use vstd::bytes::spec_u64_from_le_bytes;
use vstd::bytes::spec_u128_from_le_bytes;
use vstd::utf8::decode_utf8;
use vstd::utf8::valid_utf8;
use crate::solana::base58_of;

/// The signed reading of an unsigned 8-bit value, two's complement.
pub open spec fn as_signed_8(u: u8) -> i8 {
    if u < 0x80 {
        u as i8
    } else {
        (u as int - 0x100) as i8
    }
}

/// The signed reading of an unsigned 16-bit value, two's complement.
pub open spec fn as_signed_16(u: u16) -> i16 {
    if u < 0x8000 {
        u as i16
    } else {
        (u as int - 0x10000) as i16
    }
}

/// The signed reading of an unsigned 32-bit value, two's complement.
pub open spec fn as_signed_32(u: u32) -> i32 {
    if u < 0x80000000 {
        u as i32
    } else {
        (u as int - 0x100000000) as i32
    }
}

/// The signed reading of an unsigned 64-bit value, two's complement.
pub open spec fn as_signed_64(u: u64) -> i64 {
    if u < 0x8000000000000000 {
        u as i64
    } else {
        (u as int - 0x10000000000000000) as i64
    }
}

/// The signed reading of an unsigned 128-bit value, two's complement.
pub open spec fn as_signed_128(u: u128) -> i128 {
    if u <= i128::MAX as u128 {
        u as i128
    } else {
        (u as int - 0x100000000000000000000000000000000) as i128
    }
}

/// Decodes one value of type `t` from the front of `data`, yielding the
/// value and the number of bytes consumed. `None` is a decode failure.
pub open spec fn dv_type(t: SchemaTypeView, data: Seq<u8>, show: bool) -> Option<
    (TypedValueView, nat),
>
    decreases t, 0nat, 0nat,
{
    match t {
        SchemaTypeView::Empty => Some((TypedValueView::Empty, 0)),
        SchemaTypeView::Pubkey => if data.len() >= 32 {
            Some((TypedValueView::Pubkey(base58_of(data.subrange(0, 32))), 32))
        } else {
            None
        },
        SchemaTypeView::String => if data.len() >= 4 {
            let n = spec_u32_from_le_bytes(data.subrange(0, 4)) as nat;
            if 4 + n <= data.len() {
                let bs = data.subrange(4, (4 + n) as int);
                if valid_utf8(bs) {
                    Some((TypedValueView::String(decode_utf8(bs)), (4 + n) as nat))
                } else {
                    None
                }
            } else {
                None
            }
        } else {
            None
        },
        SchemaTypeView::I8 => if data.len() >= 1 {
            Some((TypedValueView::I8(as_signed_8(data[0])), 1))
        } else {
            None
        },
        SchemaTypeView::U8 => if data.len() >= 1 {
            Some((TypedValueView::U8(data[0]), 1))
        } else {
            None
        },
        SchemaTypeView::I16 => if data.len() >= 2 {
            Some((TypedValueView::I16(as_signed_16(spec_u16_from_le_bytes(data.subrange(0, 2)))), 2))
        } else {
            None
        },
        SchemaTypeView::U16 => if data.len() >= 2 {
            Some((TypedValueView::U16(spec_u16_from_le_bytes(data.subrange(0, 2))), 2))
        } else {
            None
        },
        SchemaTypeView::I32 => if data.len() >= 4 {
            Some((TypedValueView::I32(as_signed_32(spec_u32_from_le_bytes(data.subrange(0, 4)))), 4))
        } else {
            None
        },
        SchemaTypeView::U32 => if data.len() >= 4 {
            Some((TypedValueView::U32(spec_u32_from_le_bytes(data.subrange(0, 4))), 4))
        } else {
            None
        },
        SchemaTypeView::I64 => if data.len() >= 8 {
            Some((TypedValueView::I64(as_signed_64(spec_u64_from_le_bytes(data.subrange(0, 8)))), 8))
        } else {
            None
        },
        SchemaTypeView::U64 => if data.len() >= 8 {
            Some((TypedValueView::U64(spec_u64_from_le_bytes(data.subrange(0, 8))), 8))
        } else {
            None
        },
        SchemaTypeView::I128 => if data.len() >= 16 {
            Some(
                (
                    TypedValueView::I128(
                        as_signed_128(spec_u128_from_le_bytes(data.subrange(0, 16))),
                    ),
                    16,
                ),
            )
        } else {
            None
        },
        SchemaTypeView::U128 => if data.len() >= 16 {
            Some((TypedValueView::U128(spec_u128_from_le_bytes(data.subrange(0, 16))), 16))
        } else {
            None
        },
        SchemaTypeView::F32 => if data.len() >= 4 {
            Some((TypedValueView::F32Bits(spec_u32_from_le_bytes(data.subrange(0, 4))), 4))
        } else {
            None
        },
        SchemaTypeView::F64 => if data.len() >= 8 {
            Some((TypedValueView::F64Bits(spec_u64_from_le_bytes(data.subrange(0, 8))), 8))
        } else {
            None
        },
        SchemaTypeView::Bool => if data.len() >= 1 {
            if data[0] == 0 {
                Some((TypedValueView::Bool(false), 1))
            } else if data[0] == 1 {
                Some((TypedValueView::Bool(true), 1))
            } else {
                None
            }
        } else {
            None
        },
        SchemaTypeView::Option(inner) => if data.len() >= 1 {
            if data[0] == 1 {
                match dv_type(*inner, data.skip(1), show) {
                    Some((v, k)) => Some(
                        (TypedValueView::Option(Box::new(Some(v))), (1 + k) as nat),
                    ),
                    None => None,
                }
            } else {
                Some((TypedValueView::Option(Box::new(None)), 1))
            }
        } else {
            None
        },
        SchemaTypeView::Array(len, inner) => match dv_elems(*inner, data, len as nat, show) {
            Some((vs, k)) => Some((TypedValueView::Array(vs), k)),
            None => None,
        },
        SchemaTypeView::Tuple(ts) => match dv_tuple(ts, data, show) {
            Some((vs, k)) => Some((TypedValueView::Tuple(vs), k)),
            None => None,
        },
        SchemaTypeView::Vec(inner) => if data.len() >= 4 {
            let n = spec_u32_from_le_bytes(data.subrange(0, 4)) as nat;
            let rest = data.skip(4);
            if *inner == SchemaTypeView::U8 {
                if n <= rest.len() {
                    Some((TypedValueView::Bytes(rest.subrange(0, n as int)), (4 + n) as nat))
                } else {
                    None
                }
            } else {
                match dv_elems(*inner, rest, n, show) {
                    Some((vs, k)) => Some((TypedValueView::Vec(vs), (4 + k) as nat)),
                    None => None,
                }
            }
        } else {
            None
        },
        SchemaTypeView::Struct(ns) => match dv_fields(ns, data, show) {
            Some((fs, k)) => Some((TypedValueView::Struct(fs), k)),
            None => None,
        },
        SchemaTypeView::Enum(vs) => if data.len() >= 1 {
            let idx = data[0];
            if idx < vs.len() {
                match dv_node(vs[idx as int], data.skip(1), show) {
                    Some((Some(vn), k)) => Some(
                        (TypedValueView::Enum(Box::new(vn)), (1 + k) as nat),
                    ),
                    Some((None, _)) => None,
                    None => None,
                }
            } else {
                None
            }
        } else {
            None
        },
        SchemaTypeView::SmallVec(w, inner) => {
            let hdr: nat = match w {
                SmallVecLen::U8 => 1,
                SmallVecLen::U16 => 2,
            };
            if data.len() >= hdr {
                let n: nat = match w {
                    SmallVecLen::U8 => data[0] as nat,
                    SmallVecLen::U16 => spec_u16_from_le_bytes(data.subrange(0, 2)) as nat,
                };
                let rest = data.skip(hdr as int);
                if *inner == SchemaTypeView::U8 {
                    if n <= rest.len() {
                        Some(
                            (
                                TypedValueView::Bytes(rest.subrange(0, n as int)),
                                (hdr + n) as nat,
                            ),
                        )
                    } else {
                        None
                    }
                } else {
                    match dv_elems(*inner, rest, n, show) {
                        Some((vs, k)) => Some((TypedValueView::Vec(vs), (hdr + k) as nat)),
                        None => None,
                    }
                }
            } else {
                None
            }
        },
        SchemaTypeView::RemainingBytes => Some((TypedValueView::Bytes(data), data.len())),
    }
}

/// Decodes `n` consecutive values of element type `t`.
pub open spec fn dv_elems(t: SchemaTypeView, data: Seq<u8>, n: nat, show: bool) -> Option<
    (Seq<TypedValueView>, nat),
>
    decreases t, 2nat, n,
{
    if n == 0 {
        Some((Seq::empty(), 0))
    } else {
        match dv_type(t, data, show) {
            Some((v, k)) => if k <= data.len() {
                match dv_elems(t, data.skip(k as int), (n - 1) as nat, show) {
                    Some((vs, k2)) => Some((seq![v] + vs, (k + k2) as nat)),
                    None => None,
                }
            } else {
                None
            },
            None => None,
        }
    }
}

/// Decodes one value per listed type, in order.
pub open spec fn dv_tuple(ts: Seq<SchemaTypeView>, data: Seq<u8>, show: bool) -> Option<
    (Seq<TypedValueView>, nat),
>
    decreases ts, 2nat, 0nat,
{
    if ts.len() == 0 {
        Some((Seq::empty(), 0))
    } else {
        match dv_type(ts.first(), data, show) {
            Some((v, k)) => if k <= data.len() {
                match dv_tuple(ts.drop_first(), data.skip(k as int), show) {
                    Some((vs, k2)) => Some((seq![v] + vs, (k + k2) as nat)),
                    None => None,
                }
            } else {
                None
            },
            None => None,
        }
    }
}

/// Decodes the fields of a struct in declared order; a field whose node
/// yields `None` (hidden, not requested) is omitted from the output.
pub open spec fn dv_fields(ns: Seq<SchemaNodeView>, data: Seq<u8>, show: bool) -> Option<
    (Seq<ValueNodeView>, nat),
>
    decreases ns, 2nat, 0nat,
{
    if ns.len() == 0 {
        Some((Seq::empty(), 0))
    } else {
        match dv_node(ns.first(), data, show) {
            Some((opt, k)) => if k <= data.len() {
                match dv_fields(ns.drop_first(), data.skip(k as int), show) {
                    Some((fs, k2)) => Some(
                        (
                            (match opt {
                                Some(f) => seq![f],
                                None => Seq::empty(),
                            }) + fs,
                            (k + k2) as nat,
                        ),
                    ),
                    None => None,
                }
            } else {
                None
            },
            None => None,
        }
    }
}

/// Decodes a node: the underlying value always consumes its bytes; the
/// result is `None` exactly when the node is hidden and hidden output was
/// not requested.
pub open spec fn dv_node(n: SchemaNodeView, data: Seq<u8>, show: bool) -> Option<
    (Option<ValueNodeView>, nat),
>
    decreases n, 1nat, 0nat,
{
    match dv_type(n.typ, data, show) {
        Some((v, k)) => if n.is_hidden && !show {
            Some((None, k))
        } else {
            Some((Some(ValueNodeView { name: n.name, value: v }), k))
        },
        None => None,
    }
}

fn to_signed_8(u: u8) -> (r: i8)
    ensures
        r == as_signed_8(u),
{
    if u < 0x80 {
        u as i8
    } else {
        ((u as i16) - 0x100) as i8
    }
}

fn to_signed_16(u: u16) -> (r: i16)
    ensures
        r == as_signed_16(u),
{
    if u < 0x8000 {
        u as i16
    } else {
        ((u as i32) - 0x10000) as i16
    }
}

fn to_signed_32(u: u32) -> (r: i32)
    ensures
        r == as_signed_32(u),
{
    if u < 0x80000000 {
        u as i32
    } else {
        ((u as i64) - 0x100000000) as i32
    }
}

fn to_signed_64(u: u64) -> (r: i64)
    ensures
        r == as_signed_64(u),
{
    if u < 0x8000000000000000 {
        u as i64
    } else {
        ((u as i128) - 0x10000000000000000) as i64
    }
}

fn to_signed_128(u: u128) -> (r: i128)
    ensures
        r == as_signed_128(u),
{
    if u <= i128::MAX as u128 {
        u as i128
    } else {
        -((u128::MAX - u) as i128) - 1
    }
}

fn deserialize_elems(
    t: &SchemaType,
    data: &[u8],
    pos: usize,
    cnt: usize,
    show_hidden: bool,
) -> (r: Result<(Vec<TypedValue>, usize), DecodeError>)
    requires
        pos <= data@.len(),
    ensures
        match r {
            Ok((vs, end)) => pos <= end <= data@.len() && dv_elems(
                t@,
                data@.skip(pos as int),
                cnt as nat,
                show_hidden,
            ) == Some((crate::value::value_seq_view(vs@), (end - pos) as nat)),
            Err(_) => dv_elems(t@, data@.skip(pos as int), cnt as nat, show_hidden) is None,
        },
    decreases *t, 1nat,
{
    let mut items: Vec<TypedValue> = Vec::new();
    let mut p: usize = pos;
    let mut remaining: usize = cnt;
    proof {
        crate::value::lemma_value_seq_view(items@);
        assert(crate::value::value_seq_view(items@) =~= Seq::<TypedValueView>::empty());
    }
    while remaining > 0
        invariant
            pos <= p <= data@.len(),
            crate::value::value_seq_view(items@).len() == items@.len(),
            dv_elems(t@, data@.skip(pos as int), cnt as nat, show_hidden) == (match dv_elems(
                t@,
                data@.skip(p as int),
                remaining as nat,
                show_hidden,
            ) {
                Some((vs2, k2)) => Some(
                    (
                        crate::value::value_seq_view(items@) + vs2,
                        ((p - pos) + k2) as nat,
                    ),
                ),
                None => None::<(Seq<TypedValueView>, nat)>,
            }),
        decreases remaining,
    {
        let ghost items_pre = items@;
        match t.deserialize_bytes(data, p, show_hidden) {
            Err(e) => {
                return Err(e);
            },
            Ok((v, end)) => {
                proof {
                    assert(data@.skip(p as int).skip((end - p) as int) =~= data@.skip(end as int));
                    crate::value::lemma_value_seq_view(items_pre.push(v));
                    crate::value::lemma_value_seq_view(items_pre);
                    assert(crate::value::value_seq_view(items_pre.push(v))
                        =~= crate::value::value_seq_view(items_pre).push(v@));
                }
                items.push(v);
                proof {
                    assert forall|vs3: Seq<TypedValueView>|
                        true implies crate::value::value_seq_view(items_pre) + (seq![v@] + vs3)
                        =~= crate::value::value_seq_view(items@) + vs3 by {}
                }
                p = end;
                remaining = remaining - 1;
            },
        }
    }
    proof {
        assert(crate::value::value_seq_view(items@) + Seq::<TypedValueView>::empty()
            =~= crate::value::value_seq_view(items@));
    }
    Ok((items, p))
}

fn deserialize_tuple(
    ts: &Vec<SchemaType>,
    data: &[u8],
    pos: usize,
    show_hidden: bool,
) -> (r: Result<(Vec<TypedValue>, usize), DecodeError>)
    requires
        pos <= data@.len(),
    ensures
        match r {
            Ok((vs, end)) => pos <= end <= data@.len() && dv_tuple(
                crate::schema::type_seq_view(ts@),
                data@.skip(pos as int),
                show_hidden,
            ) == Some((crate::value::value_seq_view(vs@), (end - pos) as nat)),
            Err(_) => dv_tuple(
                crate::schema::type_seq_view(ts@),
                data@.skip(pos as int),
                show_hidden,
            ) is None,
        },
    decreases *ts, 1nat,
{
    proof {
        crate::schema::lemma_type_seq_view(ts@);
    }
    let ghost full = crate::schema::type_seq_view(ts@);
    let mut items: Vec<TypedValue> = Vec::new();
    let mut p: usize = pos;
    let mut i: usize = 0;
    proof {
        crate::value::lemma_value_seq_view(items@);
        assert(crate::value::value_seq_view(items@) =~= Seq::<TypedValueView>::empty());
        assert(full.skip(0) =~= full);
    }
    while i < ts.len()
        invariant
            pos <= p <= data@.len(),
            i <= ts@.len(),
            full == crate::schema::type_seq_view(ts@),
            full.len() == ts@.len(),
            forall|j: int| 0 <= j < ts@.len() ==> full[j] == crate::schema::type_view(ts@[j]),
            crate::value::value_seq_view(items@).len() == items@.len(),
            dv_tuple(full, data@.skip(pos as int), show_hidden) == (match dv_tuple(
                full.skip(i as int),
                data@.skip(p as int),
                show_hidden,
            ) {
                Some((vs2, k2)) => Some(
                    (
                        crate::value::value_seq_view(items@) + vs2,
                        ((p - pos) + k2) as nat,
                    ),
                ),
                None => None::<(Seq<TypedValueView>, nat)>,
            }),
        decreases ts@.len() - i,
    {
        let ghost items_pre = items@;
        proof {
            assert(full.skip(i as int).len() == ts@.len() - i);
            assert(full.skip(i as int).first() == full[i as int]);
            assert(full.skip(i as int).drop_first() =~= full.skip(i + 1));
        }
        match ts[i].deserialize_bytes(data, p, show_hidden) {
            Err(e) => {
                return Err(e);
            },
            Ok((v, end)) => {
                proof {
                    assert(data@.skip(p as int).skip((end - p) as int) =~= data@.skip(end as int));
                    crate::value::lemma_value_seq_view(items_pre.push(v));
                    crate::value::lemma_value_seq_view(items_pre);
                    assert(crate::value::value_seq_view(items_pre.push(v))
                        =~= crate::value::value_seq_view(items_pre).push(v@));
                }
                items.push(v);
                proof {
                    assert forall|vs3: Seq<TypedValueView>|
                        true implies crate::value::value_seq_view(items_pre) + (seq![v@] + vs3)
                        =~= crate::value::value_seq_view(items@) + vs3 by {}
                }
                p = end;
                i = i + 1;
            },
        }
    }
    proof {
        assert(full.skip(ts@.len() as int).len() == 0);
        assert(crate::value::value_seq_view(items@) + Seq::<TypedValueView>::empty()
            =~= crate::value::value_seq_view(items@));
    }
    Ok((items, p))
}

fn deserialize_fields(
    ns: &Vec<SchemaNode>,
    data: &[u8],
    pos: usize,
    show_hidden: bool,
) -> (r: Result<(Vec<ValueNode>, usize), DecodeError>)
    requires
        pos <= data@.len(),
    ensures
        match r {
            Ok((fs, end)) => pos <= end <= data@.len() && dv_fields(
                crate::schema::node_seq_view(ns@),
                data@.skip(pos as int),
                show_hidden,
            ) == Some((crate::value::value_node_seq_view(fs@), (end - pos) as nat)),
            Err(_) => dv_fields(
                crate::schema::node_seq_view(ns@),
                data@.skip(pos as int),
                show_hidden,
            ) is None,
        },
    decreases *ns, 1nat,
{
    proof {
        crate::schema::lemma_node_seq_view(ns@);
    }
    let ghost full = crate::schema::node_seq_view(ns@);
    let mut fields: Vec<ValueNode> = Vec::new();
    let mut p: usize = pos;
    let mut i: usize = 0;
    proof {
        crate::value::lemma_value_node_seq_view(fields@);
        assert(crate::value::value_node_seq_view(fields@) =~= Seq::<ValueNodeView>::empty());
        assert(full.skip(0) =~= full);
    }
    while i < ns.len()
        invariant
            pos <= p <= data@.len(),
            i <= ns@.len(),
            full == crate::schema::node_seq_view(ns@),
            full.len() == ns@.len(),
            forall|j: int| 0 <= j < ns@.len() ==> full[j] == crate::schema::node_view(ns@[j]),
            crate::value::value_node_seq_view(fields@).len() == fields@.len(),
            dv_fields(full, data@.skip(pos as int), show_hidden) == (match dv_fields(
                full.skip(i as int),
                data@.skip(p as int),
                show_hidden,
            ) {
                Some((fs2, k2)) => Some(
                    (
                        crate::value::value_node_seq_view(fields@) + fs2,
                        ((p - pos) + k2) as nat,
                    ),
                ),
                None => None::<(Seq<ValueNodeView>, nat)>,
            }),
        decreases ns@.len() - i,
    {
        let ghost fields_pre = fields@;
        proof {
            assert(full.skip(i as int).len() == ns@.len() - i);
            assert(full.skip(i as int).first() == full[i as int]);
            assert(full.skip(i as int).drop_first() =~= full.skip(i + 1));
        }
        match ns[i].deserialize_bytes(data, p, show_hidden) {
            Err(e) => {
                return Err(e);
            },
            Ok((opt, end)) => {
                proof {
                    assert(data@.skip(p as int).skip((end - p) as int) =~= data@.skip(end as int));
                }
                match opt {
                    Some(f) => {
                        proof {
                            crate::value::lemma_value_node_seq_view(fields_pre.push(f));
                            crate::value::lemma_value_node_seq_view(fields_pre);
                            assert(crate::value::value_node_seq_view(fields_pre.push(f))
                                =~= crate::value::value_node_seq_view(fields_pre).push(f@));
                        }
                        let ghost fv = f@;
                        fields.push(f);
                        proof {
                            assert forall|fs3: Seq<ValueNodeView>|
                                true implies crate::value::value_node_seq_view(fields_pre) + (
                            seq![fv] + fs3) =~= crate::value::value_node_seq_view(fields@)
                                + fs3 by {}
                        }
                    },
                    None => {
                        proof {
                            assert forall|fs3: Seq<ValueNodeView>|
                                true implies crate::value::value_node_seq_view(fields@) + (
                            Seq::<ValueNodeView>::empty() + fs3)
                                =~= crate::value::value_node_seq_view(fields@) + fs3 by {}
                        }
                    },
                }
                p = end;
                i = i + 1;
            },
        }
    }
    proof {
        assert(full.skip(ns@.len() as int).len() == 0);
        assert(crate::value::value_node_seq_view(fields@) + Seq::<ValueNodeView>::empty()
            =~= crate::value::value_node_seq_view(fields@));
    }
    Ok((fields, p))
}

impl SchemaType {
    /// Decodes one value of this type from `data` at `pos`, following the
    /// fixed binary format, and returns it with the position just after the
    /// bytes it consumed.
    #[verifier::spinoff_prover]
    #[verifier::rlimit(100)]
    pub fn deserialize_bytes(&self, data: &[u8], pos: usize, show_hidden: bool) -> (r: Result<
        (TypedValue, usize),
        DecodeError,
    >)
        requires
            pos <= data@.len(),
        ensures
            match r {
                Ok((v, end)) => pos <= end <= data@.len() && dv_type(
                    self@,
                    data@.skip(pos as int),
                    show_hidden,
                ) == Some((v@, (end - pos) as nat)),
                Err(_) => dv_type(self@, data@.skip(pos as int), show_hidden) is None,
            },
        decreases *self, 0nat,
    {
        let ghost s = data@.skip(pos as int);
        let n = data.len();
        match self {
            SchemaType::Empty => Ok((TypedValue::Empty, pos)),
            SchemaType::Pubkey => {
                if n - pos < 32 {
                    return Err(DecodeError::new("not enough bytes for a public key"));
                }
                let key = crate::solana::pubkey_to_base58(
                    vstd::slice::slice_subrange(data, pos, pos + 32),
                );
                proof {
                    assert(data@.subrange(pos as int, (pos + 32) as int) =~= s.subrange(0, 32));
                }
                Ok((TypedValue::Pubkey(key), pos + 32))
            },
            SchemaType::String => {
                if n - pos < 4 {
                    return Err(DecodeError::new("not enough bytes for a string length"));
                }
                let len32 = vstd::bytes::u32_from_le_bytes(
                    vstd::slice::slice_subrange(data, pos, pos + 4),
                );
                proof {
                    assert(data@.subrange(pos as int, (pos + 4) as int) =~= s.subrange(0, 4));
                }
                if (len32 as u64) > (n - pos - 4) as u64 {
                    return Err(DecodeError::new("not enough bytes for a string"));
                }
                let len = len32 as usize;
                let bs = vstd::slice::slice_subrange(data, pos + 4, pos + 4 + len);
                proof {
                    assert(bs@ =~= s.subrange(4, 4 + len32 as int));
                }
                match crate::text::string_from_utf8(vstd::slice::slice_to_vec(bs)) {
                    Some(text) => Ok((TypedValue::String(text), pos + 4 + len)),
                    None => Err(DecodeError::new("string bytes are not valid text")),
                }
            },
            SchemaType::I8 => {
                if n - pos < 1 {
                    return Err(DecodeError::new("not enough bytes for an integer"));
                }
                let b = *vstd::slice::slice_index_get(data, pos);
                proof {
                    assert(data@[pos as int] == s[0]);
                }
                Ok((TypedValue::I8(to_signed_8(b)), pos + 1))
            },
            SchemaType::U8 => {
                if n - pos < 1 {
                    return Err(DecodeError::new("not enough bytes for an integer"));
                }
                let b = *vstd::slice::slice_index_get(data, pos);
                proof {
                    assert(data@[pos as int] == s[0]);
                }
                Ok((TypedValue::U8(b), pos + 1))
            },
            SchemaType::I16 => {
                if n - pos < 2 {
                    return Err(DecodeError::new("not enough bytes for an integer"));
                }
                let u = vstd::bytes::u16_from_le_bytes(
                    vstd::slice::slice_subrange(data, pos, pos + 2),
                );
                proof {
                    assert(data@.subrange(pos as int, (pos + 2) as int) =~= s.subrange(0, 2));
                }
                Ok((TypedValue::I16(to_signed_16(u)), pos + 2))
            },
            SchemaType::U16 => {
                if n - pos < 2 {
                    return Err(DecodeError::new("not enough bytes for an integer"));
                }
                let u = vstd::bytes::u16_from_le_bytes(
                    vstd::slice::slice_subrange(data, pos, pos + 2),
                );
                proof {
                    assert(data@.subrange(pos as int, (pos + 2) as int) =~= s.subrange(0, 2));
                }
                Ok((TypedValue::U16(u), pos + 2))
            },
            SchemaType::I32 => {
                if n - pos < 4 {
                    return Err(DecodeError::new("not enough bytes for an integer"));
                }
                let u = vstd::bytes::u32_from_le_bytes(
                    vstd::slice::slice_subrange(data, pos, pos + 4),
                );
                proof {
                    assert(data@.subrange(pos as int, (pos + 4) as int) =~= s.subrange(0, 4));
                }
                Ok((TypedValue::I32(to_signed_32(u)), pos + 4))
            },
            SchemaType::U32 => {
                if n - pos < 4 {
                    return Err(DecodeError::new("not enough bytes for an integer"));
                }
                let u = vstd::bytes::u32_from_le_bytes(
                    vstd::slice::slice_subrange(data, pos, pos + 4),
                );
                proof {
                    assert(data@.subrange(pos as int, (pos + 4) as int) =~= s.subrange(0, 4));
                }
                Ok((TypedValue::U32(u), pos + 4))
            },
            SchemaType::I64 => {
                if n - pos < 8 {
                    return Err(DecodeError::new("not enough bytes for an integer"));
                }
                let u = vstd::bytes::u64_from_le_bytes(
                    vstd::slice::slice_subrange(data, pos, pos + 8),
                );
                proof {
                    assert(data@.subrange(pos as int, (pos + 8) as int) =~= s.subrange(0, 8));
                }
                Ok((TypedValue::I64(to_signed_64(u)), pos + 8))
            },
            SchemaType::U64 => {
                if n - pos < 8 {
                    return Err(DecodeError::new("not enough bytes for an integer"));
                }
                let u = vstd::bytes::u64_from_le_bytes(
                    vstd::slice::slice_subrange(data, pos, pos + 8),
                );
                proof {
                    assert(data@.subrange(pos as int, (pos + 8) as int) =~= s.subrange(0, 8));
                }
                Ok((TypedValue::U64(u), pos + 8))
            },
            SchemaType::I128 => {
                if n - pos < 16 {
                    return Err(DecodeError::new("not enough bytes for an integer"));
                }
                let u = vstd::bytes::u128_from_le_bytes(
                    vstd::slice::slice_subrange(data, pos, pos + 16),
                );
                proof {
                    assert(data@.subrange(pos as int, (pos + 16) as int) =~= s.subrange(0, 16));
                }
                Ok((TypedValue::I128(to_signed_128(u)), pos + 16))
            },
            SchemaType::U128 => {
                if n - pos < 16 {
                    return Err(DecodeError::new("not enough bytes for an integer"));
                }
                let u = vstd::bytes::u128_from_le_bytes(
                    vstd::slice::slice_subrange(data, pos, pos + 16),
                );
                proof {
                    assert(data@.subrange(pos as int, (pos + 16) as int) =~= s.subrange(0, 16));
                }
                Ok((TypedValue::U128(u), pos + 16))
            },
            SchemaType::F32 => {
                if n - pos < 4 {
                    return Err(DecodeError::new("not enough bytes for a float"));
                }
                let u = vstd::bytes::u32_from_le_bytes(
                    vstd::slice::slice_subrange(data, pos, pos + 4),
                );
                proof {
                    assert(data@.subrange(pos as int, (pos + 4) as int) =~= s.subrange(0, 4));
                }
                Ok((TypedValue::F32Bits(u), pos + 4))
            },
            SchemaType::F64 => {
                if n - pos < 8 {
                    return Err(DecodeError::new("not enough bytes for a float"));
                }
                let u = vstd::bytes::u64_from_le_bytes(
                    vstd::slice::slice_subrange(data, pos, pos + 8),
                );
                proof {
                    assert(data@.subrange(pos as int, (pos + 8) as int) =~= s.subrange(0, 8));
                }
                Ok((TypedValue::F64Bits(u), pos + 8))
            },
            SchemaType::Bool => {
                if n - pos < 1 {
                    return Err(DecodeError::new("not enough bytes for a boolean"));
                }
                let b = *vstd::slice::slice_index_get(data, pos);
                proof {
                    assert(data@[pos as int] == s[0]);
                }
                if b == 0 {
                    Ok((TypedValue::Bool(false), pos + 1))
                } else if b == 1 {
                    Ok((TypedValue::Bool(true), pos + 1))
                } else {
                    Err(DecodeError::new("invalid boolean byte"))
                }
            },
            SchemaType::Option(inner) => {
                if n - pos < 1 {
                    return Err(DecodeError::new("not enough bytes for an option flag"));
                }
                let flag = *vstd::slice::slice_index_get(data, pos);
                proof {
                    assert(data@[pos as int] == s[0]);
                    assert(s.skip(1) =~= data@.skip((pos + 1) as int));
                }
                if flag == 1 {
                    let (v, end) = inner.deserialize_bytes(data, pos + 1, show_hidden)?;
                    Ok((TypedValue::Option(Box::new(Some(v))), end))
                } else {
                    Ok((TypedValue::Option(Box::new(None)), pos + 1))
                }
            },
            SchemaType::Array(len, inner) => {
                let (vs, end) = deserialize_elems(inner, data, pos, *len, show_hidden)?;
                Ok((TypedValue::Array(vs), end))
            },
            SchemaType::Tuple(ts) => {
                let (vs, end) = deserialize_tuple(ts, data, pos, show_hidden)?;
                Ok((TypedValue::Tuple(vs), end))
            },
            SchemaType::Vec(inner) => {
                if n - pos < 4 {
                    return Err(DecodeError::new("not enough bytes for a sequence length"));
                }
                let cnt = vstd::bytes::u32_from_le_bytes(
                    vstd::slice::slice_subrange(data, pos, pos + 4),
                );
                proof {
                    assert(data@.subrange(pos as int, (pos + 4) as int) =~= s.subrange(0, 4));
                    assert(s.skip(4) =~= data@.skip((pos + 4) as int));
                }
                let inner_is_u8 = matches!(**inner, SchemaType::U8);
                proof {
                    assert(inner_is_u8 == ((*inner)@ == SchemaTypeView::U8));
                }
                if inner_is_u8 {
                    if (cnt as u64) > (n - pos - 4) as u64 {
                        return Err(DecodeError::new("not enough bytes for a byte sequence"));
                    }
                    let cl = cnt as usize;
                    let raw = vstd::slice::slice_to_vec(
                        vstd::slice::slice_subrange(data, pos + 4, pos + 4 + cl),
                    );
                    proof {
                        assert(raw@ =~= s.skip(4).subrange(0, cnt as int));
                    }
                    Ok((TypedValue::Bytes(raw), pos + 4 + cl))
                } else {
                    let (vs, end) = deserialize_elems(
                        inner,
                        data,
                        pos + 4,
                        cnt as usize,
                        show_hidden,
                    )?;
                    Ok((TypedValue::Vec(vs), end))
                }
            },
            SchemaType::Struct(ns) => {
                let (fs, end) = deserialize_fields(ns, data, pos, show_hidden)?;
                Ok((TypedValue::Struct(fs), end))
            },
            SchemaType::Enum(vs) => {
                if n - pos < 1 {
                    return Err(DecodeError::new("not enough bytes for an enum selector"));
                }
                let idx = *vstd::slice::slice_index_get(data, pos);
                proof {
                    assert(data@[pos as int] == s[0]);
                    assert(s.skip(1) =~= data@.skip((pos + 1) as int));
                    crate::schema::lemma_node_seq_view(vs@);
                }
                if (idx as usize) >= vs.len() {
                    return Err(DecodeError::new("enum selector out of range"));
                }
                let (opt, end) = vs[idx as usize].deserialize_bytes(data, pos + 1, show_hidden)?;
                match opt {
                    Some(vn) => Ok((TypedValue::Enum(Box::new(vn)), end)),
                    None => Err(DecodeError::new("a hidden node cannot stand in an enum")),
                }
            },
            SchemaType::SmallVec(w, inner) => {
                let hdr: usize = match w {
                    SmallVecLen::U8 => 1,
                    SmallVecLen::U16 => 2,
                };
                if n - pos < hdr {
                    return Err(DecodeError::new("not enough bytes for a sequence length"));
                }
                let cnt: u16 = match w {
                    SmallVecLen::U8 => {
                        let b = *vstd::slice::slice_index_get(data, pos);
                        proof {
                            assert(data@[pos as int] == s[0]);
                        }
                        b as u16
                    },
                    SmallVecLen::U16 => {
                        let u = vstd::bytes::u16_from_le_bytes(
                            vstd::slice::slice_subrange(data, pos, pos + 2),
                        );
                        proof {
                            assert(data@.subrange(pos as int, (pos + 2) as int) =~= s.subrange(
                                0,
                                2,
                            ));
                        }
                        u
                    },
                };
                proof {
                    assert(s.skip(hdr as int) =~= data@.skip((pos + hdr) as int));
                }
                let inner_is_u8 = matches!(**inner, SchemaType::U8);
                proof {
                    assert(inner_is_u8 == ((*inner)@ == SchemaTypeView::U8));
                }
                if inner_is_u8 {
                    if (cnt as u64) > (n - pos - hdr) as u64 {
                        return Err(DecodeError::new("not enough bytes for a byte sequence"));
                    }
                    let cl = cnt as usize;
                    let raw = vstd::slice::slice_to_vec(
                        vstd::slice::slice_subrange(data, pos + hdr, pos + hdr + cl),
                    );
                    proof {
                        assert(raw@ =~= s.skip(hdr as int).subrange(0, cnt as int));
                    }
                    Ok((TypedValue::Bytes(raw), pos + hdr + cl))
                } else {
                    let (vs, end) = deserialize_elems(
                        inner,
                        data,
                        pos + hdr,
                        cnt as usize,
                        show_hidden,
                    )?;
                    Ok((TypedValue::Vec(vs), end))
                }
            },
            SchemaType::RemainingBytes => {
                let raw = vstd::slice::slice_to_vec(vstd::slice::slice_subrange(data, pos, n));
                proof {
                    assert(raw@ =~= s);
                }
                Ok((TypedValue::Bytes(raw), n))
            },
        }
    }
}

impl SchemaNode {
    /// Decodes this node's value from `data` at `pos`. The bytes are always
    /// consumed; the result is `None` exactly when the node is hidden and
    /// hidden output was not requested.
    pub fn deserialize_bytes(&self, data: &[u8], pos: usize, show_hidden: bool) -> (r: Result<
        (Option<ValueNode>, usize),
        DecodeError,
    >)
        requires
            pos <= data@.len(),
        ensures
            match r {
                Ok((opt, end)) => pos <= end <= data@.len() && dv_node(
                    self@,
                    data@.skip(pos as int),
                    show_hidden,
                ) == Some(
                    (
                        match opt {
                            Some(f) => Some(f@),
                            None => None,
                        },
                        (end - pos) as nat,
                    ),
                ),
                Err(_) => dv_node(self@, data@.skip(pos as int), show_hidden) is None,
            },
        decreases *self, 1nat,
    {
        let (v, end) = self.typ.deserialize_bytes(data, pos, show_hidden)?;
        if self.is_hidden && !show_hidden {
            Ok((None, end))
        } else {
            Ok((Some(ValueNode { name: self.name.clone(), value: v }), end))
        }
    }
}

/// Hidden-field exclusion at the node level: when a node decodes at all, its
/// output is omitted exactly when the node is hidden and hidden output was
/// not requested.
pub proof fn lemma_hidden_node_excluded(n: SchemaNodeView, data: Seq<u8>, show: bool)
    ensures
        match dv_node(n, data, show) {
            Some((opt, k)) => (opt is None <==> (n.is_hidden && !show)),
            None => true,
        },
{
}

/// A hidden selected enum variant is a decode-time error when hidden output
/// was not requested, whatever the payload bytes hold.
pub proof fn lemma_enum_hidden_variant_fails(
    vs: Seq<SchemaNodeView>,
    data: Seq<u8>,
    show: bool,
)
    requires
        !show,
        data.len() >= 1,
        data[0] < vs.len(),
        vs[data[0] as int].is_hidden,
    ensures
        dv_type(SchemaTypeView::Enum(vs), data, show) is None,
{
    let idx = data[0];
    match dv_node(vs[idx as int], data.skip(1), show) {
        Some((opt, k)) => {
            assert(opt is None);
        },
        None => {},
    }
}

} // verus!
