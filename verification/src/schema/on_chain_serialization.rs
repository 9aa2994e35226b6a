//! The schema wire codec: a private, versioned tag scheme that serializes
//! the schema type system itself, so a compiled program index can be
//! persisted and reloaded byte-exact.
//!
//! Every type is a 2-byte little-endian tag followed by a variant-specific
//! payload; counts and string byte-lengths are 8-byte little-endian; node
//! names are length-prefixed UTF-8; flags are single bytes.
use vstd::prelude::*;

use crate::errors::CodecError;
use crate::schema::SchemaNode;
use crate::schema::SchemaNodeView;
use crate::schema::SchemaType;
use crate::schema::SchemaTypeView;
use crate::schema::SmallVecLen;

verus! {

broadcast use vstd::std_specs::vec::group_vec_axioms, vstd::seq::group_seq_axioms, vstd::string::group_string_axioms, vstd::utf8::group_utf8_lib;

use vstd::bytes::spec_u16_to_le_bytes;
use vstd::bytes::spec_u16_from_le_bytes;
use vstd::bytes::spec_u64_to_le_bytes;
use vstd::bytes::spec_u64_from_le_bytes;
use vstd::bytes::lemma_auto_spec_u16_to_from_le_bytes;
use vstd::bytes::lemma_auto_spec_u64_to_from_le_bytes;
use vstd::utf8::encode_utf8;
use vstd::utf8::decode_utf8;
use vstd::utf8::valid_utf8;

/// The wire tag of each schema type variant. Tags are stable: a new variant
/// takes a new tag, and no tag is ever reused.
pub open spec fn tag_of(t: SchemaTypeView) -> u16 {
    match t {
        SchemaTypeView::Empty => 0,
        SchemaTypeView::Pubkey => 1,
        SchemaTypeView::String => 2,
        SchemaTypeView::I8 => 3,
        SchemaTypeView::U8 => 4,
        SchemaTypeView::I16 => 5,
        SchemaTypeView::U16 => 6,
        SchemaTypeView::I32 => 7,
        SchemaTypeView::U32 => 8,
        SchemaTypeView::I64 => 9,
        SchemaTypeView::U64 => 10,
        SchemaTypeView::I128 => 11,
        SchemaTypeView::U128 => 12,
        SchemaTypeView::F32 => 13,
        SchemaTypeView::F64 => 14,
        SchemaTypeView::Bool => 15,
        SchemaTypeView::Option(_) => 16,
        SchemaTypeView::Array(_, _) => 17,
        SchemaTypeView::Tuple(_) => 18,
        SchemaTypeView::Vec(_) => 19,
        SchemaTypeView::Struct(_) => 20,
        SchemaTypeView::Enum(_) => 21,
        SchemaTypeView::SmallVec(_, _) => 22,
        SchemaTypeView::RemainingBytes => 23,
    }
}

/// The single wire byte of a `SmallVec` length width.
pub open spec fn small_vec_len_byte(w: SmallVecLen) -> u8 {
    match w {
        SmallVecLen::U8 => 0,
        SmallVecLen::U16 => 1,
    }
}

/// An 8-byte little-endian count.
pub open spec fn enc_count(n: nat) -> Seq<u8>
    recommends
        n <= u64::MAX,
{
    spec_u64_to_le_bytes(n as u64)
}

/// A length-prefixed UTF-8 string.
pub open spec fn enc_str(s: Seq<char>) -> Seq<u8> {
    enc_count(encode_utf8(s).len()) + encode_utf8(s)
}

/// The wire bytes of a schema type.
pub open spec fn enc_type(t: SchemaTypeView) -> Seq<u8>
    decreases t, 0nat,
{
    spec_u16_to_le_bytes(tag_of(t)) + match t {
        SchemaTypeView::Option(inner) => enc_type(*inner),
        SchemaTypeView::Array(len, inner) => enc_count(len as nat) + enc_type(*inner),
        SchemaTypeView::Tuple(ts) => enc_count(ts.len()) + enc_type_seq(ts),
        SchemaTypeView::Vec(inner) => enc_type(*inner),
        SchemaTypeView::Struct(ns) => enc_count(ns.len()) + enc_node_seq(ns),
        SchemaTypeView::Enum(ns) => enc_count(ns.len()) + enc_node_seq(ns),
        SchemaTypeView::SmallVec(w, inner) => seq![small_vec_len_byte(w)] + enc_type(*inner),
        _ => Seq::empty(),
    }
}

/// The concatenated wire bytes of a sequence of types.
pub open spec fn enc_type_seq(ts: Seq<SchemaTypeView>) -> Seq<u8>
    decreases ts, 1nat,
{
    if ts.len() == 0 {
        Seq::empty()
    } else {
        enc_type(ts.first()) + enc_type_seq(ts.drop_first())
    }
}

/// The wire bytes of a schema node: name, type, hidden flag.
pub open spec fn enc_node(n: SchemaNodeView) -> Seq<u8>
    decreases n, 1nat,
{
    enc_str(n.name) + enc_type(n.typ) + seq![if n.is_hidden { 1u8 } else { 0u8 }]
}

/// The concatenated wire bytes of a sequence of nodes.
pub open spec fn enc_node_seq(ns: Seq<SchemaNodeView>) -> Seq<u8>
    decreases ns, 2nat,
{
    if ns.len() == 0 {
        Seq::empty()
    } else {
        enc_node(ns.first()) + enc_node_seq(ns.drop_first())
    }
}

/// True when every count and string length inside the type fits the wire
/// format's 8-byte fields. Every value built by executable code satisfies it.
pub open spec fn type_encodable(t: SchemaTypeView) -> bool
    decreases t, 0nat,
{
    match t {
        SchemaTypeView::Option(inner) => type_encodable(*inner),
        SchemaTypeView::Array(_, inner) => type_encodable(*inner),
        SchemaTypeView::Tuple(ts) => ts.len() <= u64::MAX && types_encodable(ts),
        SchemaTypeView::Vec(inner) => type_encodable(*inner),
        SchemaTypeView::Struct(ns) => ns.len() <= u64::MAX && nodes_encodable(ns),
        SchemaTypeView::Enum(ns) => ns.len() <= u64::MAX && nodes_encodable(ns),
        SchemaTypeView::SmallVec(_, inner) => type_encodable(*inner),
        _ => true,
    }
}

pub open spec fn types_encodable(ts: Seq<SchemaTypeView>) -> bool
    decreases ts, 1nat,
{
    forall|i: int| 0 <= i < ts.len() ==> type_encodable(#[trigger] ts[i])
}

pub open spec fn node_encodable(n: SchemaNodeView) -> bool
    decreases n, 1nat,
{
    encode_utf8(n.name).len() <= u64::MAX && type_encodable(n.typ)
}

pub open spec fn nodes_encodable(ns: Seq<SchemaNodeView>) -> bool
    decreases ns, 2nat,
{
    forall|i: int| 0 <= i < ns.len() ==> node_encodable(#[trigger] ns[i])
}

/// Decodes one schema type from the front of `data`, yielding the value and
/// the number of bytes consumed.
pub open spec fn dec_type(data: Seq<u8>) -> Option<(SchemaTypeView, nat)>
    decreases data.len(), 0nat, 0nat,
{
    if data.len() < 2 {
        None
    } else {
        let tag = spec_u16_from_le_bytes(data.subrange(0, 2));
        let rest = data.skip(2);
        if tag == 0 {
            Some((SchemaTypeView::Empty, 2))
        } else if tag == 1 {
            Some((SchemaTypeView::Pubkey, 2))
        } else if tag == 2 {
            Some((SchemaTypeView::String, 2))
        } else if tag == 3 {
            Some((SchemaTypeView::I8, 2))
        } else if tag == 4 {
            Some((SchemaTypeView::U8, 2))
        } else if tag == 5 {
            Some((SchemaTypeView::I16, 2))
        } else if tag == 6 {
            Some((SchemaTypeView::U16, 2))
        } else if tag == 7 {
            Some((SchemaTypeView::I32, 2))
        } else if tag == 8 {
            Some((SchemaTypeView::U32, 2))
        } else if tag == 9 {
            Some((SchemaTypeView::I64, 2))
        } else if tag == 10 {
            Some((SchemaTypeView::U64, 2))
        } else if tag == 11 {
            Some((SchemaTypeView::I128, 2))
        } else if tag == 12 {
            Some((SchemaTypeView::U128, 2))
        } else if tag == 13 {
            Some((SchemaTypeView::F32, 2))
        } else if tag == 14 {
            Some((SchemaTypeView::F64, 2))
        } else if tag == 15 {
            Some((SchemaTypeView::Bool, 2))
        } else if tag == 23 {
            Some((SchemaTypeView::RemainingBytes, 2))
        } else if tag == 16 {
            match dec_type(rest) {
                Some((inner, k)) => Some((SchemaTypeView::Option(Box::new(inner)), (2 + k) as nat)),
                None => None,
            }
        } else if tag == 19 {
            match dec_type(rest) {
                Some((inner, k)) => Some((SchemaTypeView::Vec(Box::new(inner)), (2 + k) as nat)),
                None => None,
            }
        } else if tag == 17 {
            if rest.len() < 8 {
                None
            } else {
                let len = spec_u64_from_le_bytes(rest.subrange(0, 8));
                if len > usize::MAX {
                    None
                } else {
                    match dec_type(rest.skip(8)) {
                        Some((inner, k)) => Some(
                            (
                                SchemaTypeView::Array(len as usize, Box::new(inner)),
                                (10 + k) as nat,
                            ),
                        ),
                        None => None,
                    }
                }
            }
        } else if tag == 18 {
            if rest.len() < 8 {
                None
            } else {
                let n = spec_u64_from_le_bytes(rest.subrange(0, 8));
                match dec_type_seq(rest.skip(8), n as nat) {
                    Some((ts, k)) => Some((SchemaTypeView::Tuple(ts), (10 + k) as nat)),
                    None => None,
                }
            }
        } else if tag == 20 {
            if rest.len() < 8 {
                None
            } else {
                let n = spec_u64_from_le_bytes(rest.subrange(0, 8));
                match dec_node_seq(rest.skip(8), n as nat) {
                    Some((ns, k)) => Some((SchemaTypeView::Struct(ns), (10 + k) as nat)),
                    None => None,
                }
            }
        } else if tag == 21 {
            if rest.len() < 8 {
                None
            } else {
                let n = spec_u64_from_le_bytes(rest.subrange(0, 8));
                match dec_node_seq(rest.skip(8), n as nat) {
                    Some((ns, k)) => Some((SchemaTypeView::Enum(ns), (10 + k) as nat)),
                    None => None,
                }
            }
        } else if tag == 22 {
            if rest.len() < 1 {
                None
            } else {
                let wb = rest[0];
                if wb == 0 || wb == 1 {
                    let w = if wb == 0 {
                        SmallVecLen::U8
                    } else {
                        SmallVecLen::U16
                    };
                    match dec_type(rest.skip(1)) {
                        Some((inner, k)) => Some(
                            (SchemaTypeView::SmallVec(w, Box::new(inner)), (3 + k) as nat),
                        ),
                        None => None,
                    }
                } else {
                    None
                }
            }
        } else {
            None
        }
    }
}

/// Decodes `n` consecutive schema types from the front of `data`.
pub open spec fn dec_type_seq(data: Seq<u8>, n: nat) -> Option<(Seq<SchemaTypeView>, nat)>
    decreases data.len(), 2nat, n,
{
    if n == 0 {
        Some((Seq::empty(), 0))
    } else {
        match dec_type(data) {
            Some((t, k)) => if 1 <= k <= data.len() {
                match dec_type_seq(data.skip(k as int), (n - 1) as nat) {
                    Some((ts, k2)) => Some((seq![t] + ts, (k + k2) as nat)),
                    None => None,
                }
            } else {
                None
            },
            None => None,
        }
    }
}

/// Decodes one schema node from the front of `data`.
pub open spec fn dec_node(data: Seq<u8>) -> Option<(SchemaNodeView, nat)>
    decreases data.len(), 1nat, 0nat,
{
    if data.len() < 8 {
        None
    } else {
        let blen = spec_u64_from_le_bytes(data.subrange(0, 8)) as nat;
        if 8 + blen > data.len() {
            None
        } else {
            let nb = data.subrange(8, (8 + blen) as int);
            if !valid_utf8(nb) {
                None
            } else {
                let name = decode_utf8(nb);
                let rest = data.skip((8 + blen) as int);
                match dec_type(rest) {
                    Some((t, k)) => if k + 1 <= rest.len() {
                        let hb = rest[k as int];
                        if hb == 0 || hb == 1 {
                            Some(
                                (
                                    SchemaNodeView { name, typ: t, is_hidden: hb == 1 },
                                    (8 + blen + k + 1) as nat,
                                ),
                            )
                        } else {
                            None
                        }
                    } else {
                        None
                    },
                    None => None,
                }
            }
        }
    }
}

/// Decodes `n` consecutive schema nodes from the front of `data`.
pub open spec fn dec_node_seq(data: Seq<u8>, n: nat) -> Option<(Seq<SchemaNodeView>, nat)>
    decreases data.len(), 2nat, n,
{
    if n == 0 {
        Some((Seq::empty(), 0))
    } else {
        match dec_node(data) {
            Some((nd, k)) => if 1 <= k <= data.len() {
                match dec_node_seq(data.skip(k as int), (n - 1) as nat) {
                    Some((ns, k2)) => Some((seq![nd] + ns, (k + k2) as nat)),
                    None => None,
                }
            } else {
                None
            },
            None => None,
        }
    }
}

/// Extending a type sequence extends its encoding at the end.
pub proof fn lemma_enc_type_seq_push(ts: Seq<SchemaTypeView>, t: SchemaTypeView)
    ensures
        enc_type_seq(ts.push(t)) == enc_type_seq(ts) + enc_type(t),
    decreases ts.len(),
{
    reveal_with_fuel(enc_type_seq, 3);
    if ts.len() == 0 {
        assert(ts.push(t).first() == t);
        assert(ts.push(t).drop_first() =~= Seq::<SchemaTypeView>::empty());
        assert(enc_type_seq(ts.push(t)) =~= enc_type_seq(ts) + enc_type(t));
    } else {
        assert(ts.push(t).first() == ts.first());
        assert(ts.push(t).drop_first() =~= ts.drop_first().push(t));
        lemma_enc_type_seq_push(ts.drop_first(), t);
        assert(enc_type_seq(ts.push(t)) == enc_type(ts.first()) + enc_type_seq(
            ts.drop_first().push(t),
        ));
        assert(enc_type_seq(ts.push(t)) == enc_type(ts.first()) + (enc_type_seq(ts.drop_first())
            + enc_type(t)));
        assert(enc_type_seq(ts) == enc_type(ts.first()) + enc_type_seq(ts.drop_first()));
        assert(enc_type_seq(ts.push(t)) =~= enc_type_seq(ts) + enc_type(t));
    }
}

/// Extending a node sequence extends its encoding at the end.
pub proof fn lemma_enc_node_seq_push(ns: Seq<SchemaNodeView>, n: SchemaNodeView)
    ensures
        enc_node_seq(ns.push(n)) == enc_node_seq(ns) + enc_node(n),
    decreases ns.len(),
{
    reveal_with_fuel(enc_node_seq, 3);
    if ns.len() == 0 {
        assert(ns.push(n).first() == n);
        assert(ns.push(n).drop_first() =~= Seq::<SchemaNodeView>::empty());
        assert(enc_node_seq(ns.push(n)) =~= enc_node_seq(ns) + enc_node(n));
    } else {
        assert(ns.push(n).first() == ns.first());
        assert(ns.push(n).drop_first() =~= ns.drop_first().push(n));
        lemma_enc_node_seq_push(ns.drop_first(), n);
        assert(enc_node_seq(ns.push(n)) == enc_node(ns.first()) + enc_node_seq(
            ns.drop_first().push(n),
        ));
        assert(enc_node_seq(ns.push(n)) == enc_node(ns.first()) + (enc_node_seq(ns.drop_first())
            + enc_node(n)));
        assert(enc_node_seq(ns) == enc_node(ns.first()) + enc_node_seq(ns.drop_first()));
        assert(enc_node_seq(ns.push(n)) =~= enc_node_seq(ns) + enc_node(n));
    }
}

fn append_tag(out: &mut Vec<u8>, tag: u16)
    ensures
        final(out)@ == old(out)@ + spec_u16_to_le_bytes(tag),
{
    let mut tb = vstd::bytes::u16_to_le_bytes(tag);
    out.append(&mut tb);
}

fn append_count(out: &mut Vec<u8>, n: usize)
    ensures
        final(out)@ == old(out)@ + enc_count(n as nat),
{
    let mut cb = vstd::bytes::u64_to_le_bytes(n as u64);
    out.append(&mut cb);
}

fn encode_type_vec(ts: &Vec<SchemaType>, out: &mut Vec<u8>)
    ensures
        crate::schema::type_seq_view(ts@).len() == ts@.len(),
        types_encodable(crate::schema::type_seq_view(ts@)),
        final(out)@ == old(out)@ + enc_type_seq(crate::schema::type_seq_view(ts@)),
    decreases *ts, 1nat,
{
    proof {
        crate::schema::lemma_type_seq_view(ts@);
    }
    let mut i: usize = 0;
    proof {
        assert(crate::schema::type_seq_view(ts@).take(0) =~= Seq::<SchemaTypeView>::empty());
        assert(out@ =~= old(out)@ + enc_type_seq(crate::schema::type_seq_view(ts@).take(0)));
    }
    while i < ts.len()
        invariant
            i <= ts@.len(),
            crate::schema::type_seq_view(ts@).len() == ts@.len(),
            forall|j: int|
                0 <= j < ts@.len() ==> crate::schema::type_seq_view(ts@)[j]
                    == crate::schema::type_view(ts@[j]),
            forall|j: int|
                0 <= j < i ==> type_encodable(#[trigger] crate::schema::type_seq_view(ts@)[j]),
            out@ == old(out)@ + enc_type_seq(crate::schema::type_seq_view(ts@).take(i as int)),
        decreases ts@.len() - i,
    {
        let ghost pre = crate::schema::type_seq_view(ts@).take(i as int);
        ts[i].wire_encode(out);
        proof {
            lemma_enc_type_seq_push(pre, ts@[i as int]@);
            assert(crate::schema::type_seq_view(ts@).take(i + 1) =~= pre.push(ts@[i as int]@));
            assert(out@ =~= old(out)@ + enc_type_seq(
                crate::schema::type_seq_view(ts@).take(i + 1),
            ));
        }
        i = i + 1;
    }
    proof {
        assert(crate::schema::type_seq_view(ts@).take(ts@.len() as int) =~= crate::schema::type_seq_view(ts@));
    }
}

fn encode_node_vec(ns: &Vec<SchemaNode>, out: &mut Vec<u8>)
    ensures
        crate::schema::node_seq_view(ns@).len() == ns@.len(),
        nodes_encodable(crate::schema::node_seq_view(ns@)),
        final(out)@ == old(out)@ + enc_node_seq(crate::schema::node_seq_view(ns@)),
    decreases *ns, 1nat,
{
    proof {
        crate::schema::lemma_node_seq_view(ns@);
    }
    let mut i: usize = 0;
    proof {
        assert(crate::schema::node_seq_view(ns@).take(0) =~= Seq::<SchemaNodeView>::empty());
        assert(out@ =~= old(out)@ + enc_node_seq(crate::schema::node_seq_view(ns@).take(0)));
    }
    while i < ns.len()
        invariant
            i <= ns@.len(),
            crate::schema::node_seq_view(ns@).len() == ns@.len(),
            forall|j: int|
                0 <= j < ns@.len() ==> crate::schema::node_seq_view(ns@)[j]
                    == crate::schema::node_view(ns@[j]),
            forall|j: int|
                0 <= j < i ==> node_encodable(#[trigger] crate::schema::node_seq_view(ns@)[j]),
            out@ == old(out)@ + enc_node_seq(crate::schema::node_seq_view(ns@).take(i as int)),
        decreases ns@.len() - i,
    {
        let ghost pre = crate::schema::node_seq_view(ns@).take(i as int);
        ns[i].wire_encode(out);
        proof {
            lemma_enc_node_seq_push(pre, ns@[i as int]@);
            assert(crate::schema::node_seq_view(ns@).take(i + 1) =~= pre.push(ns@[i as int]@));
            assert(out@ =~= old(out)@ + enc_node_seq(
                crate::schema::node_seq_view(ns@).take(i + 1),
            ));
        }
        i = i + 1;
    }
    proof {
        assert(crate::schema::node_seq_view(ns@).take(ns@.len() as int) =~= crate::schema::node_seq_view(ns@));
    }
}

impl SchemaType {
    /// Appends the wire bytes of this type to `out`.
    pub fn wire_encode(&self, out: &mut Vec<u8>)
        ensures
            type_encodable(self@),
            final(out)@ == old(out)@ + enc_type(self@),
        decreases *self, 2nat,
    {
        match self {
            SchemaType::Empty => append_tag(out, 0),
            SchemaType::Pubkey => append_tag(out, 1),
            SchemaType::String => append_tag(out, 2),
            SchemaType::I8 => append_tag(out, 3),
            SchemaType::U8 => append_tag(out, 4),
            SchemaType::I16 => append_tag(out, 5),
            SchemaType::U16 => append_tag(out, 6),
            SchemaType::I32 => append_tag(out, 7),
            SchemaType::U32 => append_tag(out, 8),
            SchemaType::I64 => append_tag(out, 9),
            SchemaType::U64 => append_tag(out, 10),
            SchemaType::I128 => append_tag(out, 11),
            SchemaType::U128 => append_tag(out, 12),
            SchemaType::F32 => append_tag(out, 13),
            SchemaType::F64 => append_tag(out, 14),
            SchemaType::Bool => append_tag(out, 15),
            SchemaType::RemainingBytes => append_tag(out, 23),
            SchemaType::Option(inner) => {
                append_tag(out, 16);
                inner.wire_encode(out);
            },
            SchemaType::Vec(inner) => {
                append_tag(out, 19);
                inner.wire_encode(out);
            },
            SchemaType::Array(len, inner) => {
                append_tag(out, 17);
                append_count(out, *len);
                inner.wire_encode(out);
            },
            SchemaType::SmallVec(w, inner) => {
                append_tag(out, 22);
                let wb: u8 = match w {
                    SmallVecLen::U8 => 0,
                    SmallVecLen::U16 => 1,
                };
                out.push(wb);
                inner.wire_encode(out);
                proof {
                    assert(out@ =~= old(out)@ + enc_type(self@));
                }
            },
            SchemaType::Tuple(ts) => {
                append_tag(out, 18);
                append_count(out, ts.len());
                encode_type_vec(ts, out);
            },
            SchemaType::Struct(ns) => {
                append_tag(out, 20);
                append_count(out, ns.len());
                encode_node_vec(ns, out);
            },
            SchemaType::Enum(ns) => {
                append_tag(out, 21);
                append_count(out, ns.len());
                encode_node_vec(ns, out);
            },
        }
        proof {
            assert(out@ =~= old(out)@ + enc_type(self@));
        }
    }
}

impl SchemaNode {
    /// Appends the wire bytes of this node to `out`.
    pub fn wire_encode(&self, out: &mut Vec<u8>)
        ensures
            node_encodable(self@),
            final(out)@ == old(out)@ + enc_node(self@),
        decreases *self, 3nat,
    {
        let nb = self.name.as_str().as_bytes();
        append_count(out, nb.len());
        crate::text::append_bytes(out, nb);
        self.typ.wire_encode(out);
        let hb: u8 = if self.is_hidden {
            1
        } else {
            0
        };
        out.push(hb);
        proof {
            assert(out@ =~= old(out)@ + enc_node(self@));
        }
    }

    /// The complete wire bytes of this node.
    pub fn to_wire_bytes(&self) -> (r: Vec<u8>)
        ensures
            node_encodable(self@),
            r@ == enc_node(self@),
    {
        let mut out: Vec<u8> = Vec::new();
        self.wire_encode(&mut out);
        proof {
            assert(out@ =~= enc_node(self@));
        }
        out
    }
}

/// A successful type decode consumes at least the 2-byte tag.
pub proof fn lemma_dec_type_bounds(data: Seq<u8>)
    ensures
        match dec_type(data) {
            Some((t, k)) => 2 <= k,
            None => true,
        },
{
}

/// A successful node decode consumes at least its length prefix and flag.
pub proof fn lemma_dec_node_bounds(data: Seq<u8>)
    ensures
        match dec_node(data) {
            Some((n, k)) => 9 <= k,
            None => true,
        },
{
}

fn wire_decode_type_list(data: &[u8], pos: usize, cnt: u64) -> (r: Result<
    (Vec<SchemaType>, usize),
    CodecError,
>)
    requires
        pos <= data@.len(),
    ensures
        match r {
            Ok((ts, end)) => pos <= end <= data@.len() && dec_type_seq(
                data@.skip(pos as int),
                cnt as nat,
            ) == Some((crate::schema::type_seq_view(ts@), (end - pos) as nat)),
            Err(_) => dec_type_seq(data@.skip(pos as int), cnt as nat) is None,
        },
    decreases data@.len() - pos, 3nat,
{
    let mut items: Vec<SchemaType> = Vec::new();
    let mut p: usize = pos;
    let mut remaining: u64 = cnt;
    proof {
        crate::schema::lemma_type_seq_view(items@);
        assert(crate::schema::type_seq_view(items@) =~= Seq::<SchemaTypeView>::empty());
    }
    while remaining > 0
        invariant
            pos <= p <= data@.len(),
            crate::schema::type_seq_view(items@).len() == items@.len(),
            dec_type_seq(data@.skip(pos as int), cnt as nat) == (match dec_type_seq(
                data@.skip(p as int),
                remaining as nat,
            ) {
                Some((ts2, k2)) => Some(
                    (
                        crate::schema::type_seq_view(items@) + ts2,
                        ((p - pos) + k2) as nat,
                    ),
                ),
                None => None::<(Seq<SchemaTypeView>, nat)>,
            }),
        decreases remaining,
    {
        let ghost items_pre = items@;
        match SchemaType::wire_decode(data, p) {
            Err(e) => {
                proof {
                    assert(dec_type_seq(data@.skip(p as int), remaining as nat) is None);
                }
                return Err(e);
            },
            Ok((t, end)) => {
                proof {
                    lemma_dec_type_bounds(data@.skip(p as int));
                    assert(data@.skip(p as int).skip((end - p) as int) =~= data@.skip(
                        end as int,
                    ));
                    crate::schema::lemma_type_seq_view(items_pre.push(t));
                    crate::schema::lemma_type_seq_view(items_pre);
                    assert(crate::schema::type_seq_view(items_pre.push(t))
                        =~= crate::schema::type_seq_view(items_pre).push(t@));
                }
                items.push(t);
                proof {
                    assert forall|ts3: Seq<SchemaTypeView>|
                        true implies crate::schema::type_seq_view(items_pre) + (seq![t@] + ts3)
                        =~= crate::schema::type_seq_view(items@) + ts3 by {}
                }
                p = end;
                remaining = remaining - 1;
            },
        }
    }
    proof {
        assert(dec_type_seq(data@.skip(p as int), 0) == Some((Seq::<SchemaTypeView>::empty(), 0nat)));
        assert(crate::schema::type_seq_view(items@) + Seq::<SchemaTypeView>::empty()
            =~= crate::schema::type_seq_view(items@));
    }
    Ok((items, p))
}

fn wire_decode_node_list(data: &[u8], pos: usize, cnt: u64) -> (r: Result<
    (Vec<SchemaNode>, usize),
    CodecError,
>)
    requires
        pos <= data@.len(),
    ensures
        match r {
            Ok((ns, end)) => pos <= end <= data@.len() && dec_node_seq(
                data@.skip(pos as int),
                cnt as nat,
            ) == Some((crate::schema::node_seq_view(ns@), (end - pos) as nat)),
            Err(_) => dec_node_seq(data@.skip(pos as int), cnt as nat) is None,
        },
    decreases data@.len() - pos, 3nat,
{
    let mut items: Vec<SchemaNode> = Vec::new();
    let mut p: usize = pos;
    let mut remaining: u64 = cnt;
    proof {
        crate::schema::lemma_node_seq_view(items@);
        assert(crate::schema::node_seq_view(items@) =~= Seq::<SchemaNodeView>::empty());
    }
    while remaining > 0
        invariant
            pos <= p <= data@.len(),
            crate::schema::node_seq_view(items@).len() == items@.len(),
            dec_node_seq(data@.skip(pos as int), cnt as nat) == (match dec_node_seq(
                data@.skip(p as int),
                remaining as nat,
            ) {
                Some((ns2, k2)) => Some(
                    (
                        crate::schema::node_seq_view(items@) + ns2,
                        ((p - pos) + k2) as nat,
                    ),
                ),
                None => None::<(Seq<SchemaNodeView>, nat)>,
            }),
        decreases remaining,
    {
        let ghost items_pre = items@;
        match SchemaNode::wire_decode(data, p) {
            Err(e) => {
                proof {
                    assert(dec_node_seq(data@.skip(p as int), remaining as nat) is None);
                }
                return Err(e);
            },
            Ok((nd, end)) => {
                proof {
                    lemma_dec_node_bounds(data@.skip(p as int));
                    assert(data@.skip(p as int).skip((end - p) as int) =~= data@.skip(
                        end as int,
                    ));
                    crate::schema::lemma_node_seq_view(items_pre.push(nd));
                    crate::schema::lemma_node_seq_view(items_pre);
                    assert(crate::schema::node_seq_view(items_pre.push(nd))
                        =~= crate::schema::node_seq_view(items_pre).push(nd@));
                }
                items.push(nd);
                proof {
                    assert forall|ns3: Seq<SchemaNodeView>|
                        true implies crate::schema::node_seq_view(items_pre) + (seq![nd@] + ns3)
                        =~= crate::schema::node_seq_view(items@) + ns3 by {}
                }
                p = end;
                remaining = remaining - 1;
            },
        }
    }
    proof {
        assert(dec_node_seq(data@.skip(p as int), 0) == Some((Seq::<SchemaNodeView>::empty(), 0nat)));
        assert(crate::schema::node_seq_view(items@) + Seq::<SchemaNodeView>::empty()
            =~= crate::schema::node_seq_view(items@));
    }
    Ok((items, p))
}

impl SchemaType {
    /// Decodes one schema type from `data` starting at `pos`, returning the
    /// type and the position just after its encoding.
    pub fn wire_decode(data: &[u8], pos: usize) -> (r: Result<(SchemaType, usize), CodecError>)
        requires
            pos <= data@.len(),
        ensures
            match r {
                Ok((t, end)) => pos <= end <= data@.len() && dec_type(data@.skip(pos as int))
                    == Some((t@, (end - pos) as nat)),
                Err(_) => dec_type(data@.skip(pos as int)) is None,
            },
        decreases data@.len() - pos, 0nat,
    {
        let ghost s = data@.skip(pos as int);
        if data.len() - pos < 2 {
            return Err(CodecError::new("schema bytes end inside a type tag"));
        }
        let tag = vstd::bytes::u16_from_le_bytes(vstd::slice::slice_subrange(data, pos, pos + 2));
        proof {
            assert(data@.subrange(pos as int, (pos + 2) as int) =~= s.subrange(0, 2));
            assert(s.skip(2) =~= data@.skip((pos + 2) as int));
        }
        match tag {
            0 => Ok((SchemaType::Empty, pos + 2)),
            1 => Ok((SchemaType::Pubkey, pos + 2)),
            2 => Ok((SchemaType::String, pos + 2)),
            3 => Ok((SchemaType::I8, pos + 2)),
            4 => Ok((SchemaType::U8, pos + 2)),
            5 => Ok((SchemaType::I16, pos + 2)),
            6 => Ok((SchemaType::U16, pos + 2)),
            7 => Ok((SchemaType::I32, pos + 2)),
            8 => Ok((SchemaType::U32, pos + 2)),
            9 => Ok((SchemaType::I64, pos + 2)),
            10 => Ok((SchemaType::U64, pos + 2)),
            11 => Ok((SchemaType::I128, pos + 2)),
            12 => Ok((SchemaType::U128, pos + 2)),
            13 => Ok((SchemaType::F32, pos + 2)),
            14 => Ok((SchemaType::F64, pos + 2)),
            15 => Ok((SchemaType::Bool, pos + 2)),
            23 => Ok((SchemaType::RemainingBytes, pos + 2)),
            16 => {
                let (inner, end) = SchemaType::wire_decode(data, pos + 2)?;
                Ok((SchemaType::Option(Box::new(inner)), end))
            },
            19 => {
                let (inner, end) = SchemaType::wire_decode(data, pos + 2)?;
                Ok((SchemaType::Vec(Box::new(inner)), end))
            },
            17 => {
                if data.len() - pos - 2 < 8 {
                    return Err(CodecError::new("schema bytes end inside an array length"));
                }
                let len64 = vstd::bytes::u64_from_le_bytes(
                    vstd::slice::slice_subrange(data, pos + 2, pos + 10),
                );
                proof {
                    assert(data@.subrange((pos + 2) as int, (pos + 10) as int) =~= s.skip(
                        2,
                    ).subrange(0, 8));
                    assert(s.skip(2).skip(8) =~= data@.skip((pos + 10) as int));
                }
                if len64 > usize::MAX as u64 {
                    return Err(CodecError::new("array length exceeds this platform"));
                }
                let (inner, end) = SchemaType::wire_decode(data, pos + 10)?;
                Ok((SchemaType::Array(len64 as usize, Box::new(inner)), end))
            },
            18 => {
                if data.len() - pos - 2 < 8 {
                    return Err(CodecError::new("schema bytes end inside a tuple count"));
                }
                let cnt = vstd::bytes::u64_from_le_bytes(
                    vstd::slice::slice_subrange(data, pos + 2, pos + 10),
                );
                proof {
                    assert(data@.subrange((pos + 2) as int, (pos + 10) as int) =~= s.skip(
                        2,
                    ).subrange(0, 8));
                    assert(s.skip(2).skip(8) =~= data@.skip((pos + 10) as int));
                }
                let (items, end) = wire_decode_type_list(data, pos + 10, cnt)?;
                Ok((SchemaType::Tuple(items), end))
            },
            20 => {
                if data.len() - pos - 2 < 8 {
                    return Err(CodecError::new("schema bytes end inside a struct count"));
                }
                let cnt = vstd::bytes::u64_from_le_bytes(
                    vstd::slice::slice_subrange(data, pos + 2, pos + 10),
                );
                proof {
                    assert(data@.subrange((pos + 2) as int, (pos + 10) as int) =~= s.skip(
                        2,
                    ).subrange(0, 8));
                    assert(s.skip(2).skip(8) =~= data@.skip((pos + 10) as int));
                }
                let (items, end) = wire_decode_node_list(data, pos + 10, cnt)?;
                Ok((SchemaType::Struct(items), end))
            },
            21 => {
                if data.len() - pos - 2 < 8 {
                    return Err(CodecError::new("schema bytes end inside an enum count"));
                }
                let cnt = vstd::bytes::u64_from_le_bytes(
                    vstd::slice::slice_subrange(data, pos + 2, pos + 10),
                );
                proof {
                    assert(data@.subrange((pos + 2) as int, (pos + 10) as int) =~= s.skip(
                        2,
                    ).subrange(0, 8));
                    assert(s.skip(2).skip(8) =~= data@.skip((pos + 10) as int));
                }
                let (items, end) = wire_decode_node_list(data, pos + 10, cnt)?;
                Ok((SchemaType::Enum(items), end))
            },
            22 => {
                if data.len() - pos - 2 < 1 {
                    return Err(CodecError::new("schema bytes end inside a length width"));
                }
                let wb = *vstd::slice::slice_index_get(data, pos + 2);
                proof {
                    assert(data@[(pos + 2) as int] == s.skip(2)[0]);
                }
                if wb > 1 {
                    return Err(CodecError::new("unrecognized length width byte"));
                }
                let w = if wb == 0 {
                    SmallVecLen::U8
                } else {
                    SmallVecLen::U16
                };
                proof {
                    assert(s.skip(2).skip(1) =~= data@.skip((pos + 3) as int));
                }
                let (inner, end) = SchemaType::wire_decode(data, pos + 3)?;
                Ok((SchemaType::SmallVec(w, Box::new(inner)), end))
            },
            _ => Err(CodecError::new("unrecognized schema type tag")),
        }
    }
}

impl SchemaNode {
    /// Decodes one schema node from `data` starting at `pos`, returning the
    /// node and the position just after its encoding.
    pub fn wire_decode(data: &[u8], pos: usize) -> (r: Result<(SchemaNode, usize), CodecError>)
        requires
            pos <= data@.len(),
        ensures
            match r {
                Ok((n, end)) => pos <= end <= data@.len() && dec_node(data@.skip(pos as int))
                    == Some((n@, (end - pos) as nat)),
                Err(_) => dec_node(data@.skip(pos as int)) is None,
            },
        decreases data@.len() - pos, 1nat,
    {
        let ghost s = data@.skip(pos as int);
        if data.len() - pos < 8 {
            return Err(CodecError::new("schema bytes end inside a name length"));
        }
        let blen64 = vstd::bytes::u64_from_le_bytes(
            vstd::slice::slice_subrange(data, pos, pos + 8),
        );
        proof {
            assert(data@.subrange(pos as int, (pos + 8) as int) =~= s.subrange(0, 8));
        }
        if blen64 > (data.len() - pos - 8) as u64 {
            return Err(CodecError::new("schema bytes end inside a name"));
        }
        let blen = blen64 as usize;
        let nb = vstd::slice::slice_subrange(data, pos + 8, pos + 8 + blen);
        proof {
            assert(nb@ =~= s.subrange(8, 8 + blen64 as int));
        }
        let name = match crate::text::string_from_utf8(vstd::slice::slice_to_vec(nb)) {
            Some(s) => s,
            None => {
                return Err(CodecError::new("schema node name is not valid text"));
            },
        };
        proof {
            assert(s.skip(8 + blen64 as int) =~= data@.skip((pos + 8 + blen) as int));
        }
        let (typ, tend) = SchemaType::wire_decode(data, pos + 8 + blen)?;
        if tend >= data.len() {
            proof {
                let k = (tend - (pos + 8 + blen)) as nat;
                assert(k + 1 > s.skip(8 + blen64 as int).len());
            }
            return Err(CodecError::new("schema bytes end before a hidden flag"));
        }
        let hb = *vstd::slice::slice_index_get(data, tend);
        proof {
            let rest = s.skip(8 + blen64 as int);
            let k = (tend - (pos + 8 + blen)) as int;
            assert(rest[k] == data@[tend as int]);
        }
        if hb > 1 {
            return Err(CodecError::new("unrecognized hidden flag byte"));
        }
        Ok((SchemaNode { name, typ, is_hidden: hb == 1 }, tend + 1))
    }
}

/// Round trip of the schema wire codec, type side: decoding an encoding,
/// whatever follows it, yields the original type and consumes exactly its
/// encoding.
pub proof fn lemma_round_trip_type(t: SchemaTypeView, rest: Seq<u8>)
    requires
        type_encodable(t),
    ensures
        enc_type(t).len() >= 2,
        dec_type(enc_type(t) + rest) == Some((t, enc_type(t).len() as nat)),
    decreases t, 0nat,
{
    lemma_auto_spec_u16_to_from_le_bytes();
    lemma_auto_spec_u64_to_from_le_bytes();
    let e = enc_type(t);
    let data = e + rest;
    assert(data.subrange(0, 2) =~= spec_u16_to_le_bytes(tag_of(t)));
    match t {
        SchemaTypeView::Option(inner) => {
            assert(data.skip(2) =~= enc_type(*inner) + rest);
            lemma_round_trip_type(*inner, rest);
        },
        SchemaTypeView::Vec(inner) => {
            assert(data.skip(2) =~= enc_type(*inner) + rest);
            lemma_round_trip_type(*inner, rest);
        },
        SchemaTypeView::Array(len, inner) => {
            let r1 = data.skip(2);
            assert(r1 =~= enc_count(len as nat) + (enc_type(*inner) + rest));
            assert(r1.subrange(0, 8) =~= spec_u64_to_le_bytes(len as u64));
            assert(r1.skip(8) =~= enc_type(*inner) + rest);
            lemma_round_trip_type(*inner, rest);
        },
        SchemaTypeView::SmallVec(w, inner) => {
            let r1 = data.skip(2);
            assert(r1 =~= seq![small_vec_len_byte(w)] + (enc_type(*inner) + rest));
            assert(r1[0] == small_vec_len_byte(w));
            assert(r1.skip(1) =~= enc_type(*inner) + rest);
            lemma_round_trip_type(*inner, rest);
        },
        SchemaTypeView::Tuple(ts) => {
            let r1 = data.skip(2);
            assert(r1 =~= enc_count(ts.len()) + (enc_type_seq(ts) + rest));
            assert(r1.subrange(0, 8) =~= spec_u64_to_le_bytes(ts.len() as u64));
            assert(r1.skip(8) =~= enc_type_seq(ts) + rest);
            lemma_round_trip_type_seq(ts, rest);
        },
        SchemaTypeView::Struct(ns) => {
            let r1 = data.skip(2);
            assert(r1 =~= enc_count(ns.len()) + (enc_node_seq(ns) + rest));
            assert(r1.subrange(0, 8) =~= spec_u64_to_le_bytes(ns.len() as u64));
            assert(r1.skip(8) =~= enc_node_seq(ns) + rest);
            lemma_round_trip_node_seq(ns, rest);
        },
        SchemaTypeView::Enum(ns) => {
            let r1 = data.skip(2);
            assert(r1 =~= enc_count(ns.len()) + (enc_node_seq(ns) + rest));
            assert(r1.subrange(0, 8) =~= spec_u64_to_le_bytes(ns.len() as u64));
            assert(r1.skip(8) =~= enc_node_seq(ns) + rest);
            lemma_round_trip_node_seq(ns, rest);
        },
        _ => {
            assert(e.len() == 2);
        },
    }
}

/// Round trip of the schema wire codec for a sequence of types.
pub proof fn lemma_round_trip_type_seq(ts: Seq<SchemaTypeView>, rest: Seq<u8>)
    requires
        types_encodable(ts),
    ensures
        dec_type_seq(enc_type_seq(ts) + rest, ts.len()) == Some(
            (ts, enc_type_seq(ts).len() as nat),
        ),
    decreases ts, 1nat,
{
    if ts.len() == 0 {
        assert(enc_type_seq(ts) + rest =~= rest);
    } else {
        let first = ts.first();
        let tail = ts.drop_first();
        let e1 = enc_type(first);
        let e2 = enc_type_seq(tail);
        let data = enc_type_seq(ts) + rest;
        assert(data =~= e1 + (e2 + rest));
        assert(type_encodable(first));
        lemma_round_trip_type(first, e2 + rest);
        assert(dec_type(data) == Some((first, e1.len() as nat)));
        assert(data.skip(e1.len() as int) =~= e2 + rest);
        assert(types_encodable(tail)) by {
            assert(forall|i: int|
                0 <= i < tail.len() ==> #[trigger] tail[i] == ts[i + 1] && type_encodable(
                    ts[i + 1],
                ));
        }
        lemma_round_trip_type_seq(tail, rest);
        assert(seq![first] + tail =~= ts);
    }
}

/// Round trip of the schema wire codec, node side.
pub proof fn lemma_round_trip_node(n: SchemaNodeView, rest: Seq<u8>)
    requires
        node_encodable(n),
    ensures
        enc_node(n).len() >= 1,
        dec_node(enc_node(n) + rest) == Some((n, enc_node(n).len() as nat)),
    decreases n, 1nat,
{
    lemma_auto_spec_u64_to_from_le_bytes();
    let nb = encode_utf8(n.name);
    let blen = nb.len();
    let hb: u8 = if n.is_hidden {
        1u8
    } else {
        0u8
    };
    let e = enc_node(n);
    let data = e + rest;
    assert(data =~= enc_count(blen) + nb + enc_type(n.typ) + seq![hb] + rest);
    assert(data.subrange(0, 8) =~= spec_u64_to_le_bytes(blen as u64));
    assert(8 + blen <= data.len());
    assert(data.subrange(8, (8 + blen) as int) =~= nb);
    assert(valid_utf8(nb));
    assert(decode_utf8(nb) == n.name);
    let r1 = data.skip((8 + blen) as int);
    assert(r1 =~= enc_type(n.typ) + (seq![hb] + rest));
    lemma_round_trip_type(n.typ, seq![hb] + rest);
    let k = enc_type(n.typ).len();
    assert(dec_type(r1) == Some((n.typ, k as nat)));
    assert(r1.len() == k + 1 + rest.len());
    assert(r1[k as int] == (seq![hb] + rest)[0]) by {
        assert(r1.skip(k as int) =~= seq![hb] + rest);
    }
    assert(r1[k as int] == hb);
    assert((SchemaNodeView { name: decode_utf8(nb), typ: n.typ, is_hidden: hb == 1 }) =~= n);
    assert(e.len() == 8 + blen + k + 1);
}

/// Round trip of the schema wire codec for a sequence of nodes.
pub proof fn lemma_round_trip_node_seq(ns: Seq<SchemaNodeView>, rest: Seq<u8>)
    requires
        nodes_encodable(ns),
    ensures
        dec_node_seq(enc_node_seq(ns) + rest, ns.len()) == Some(
            (ns, enc_node_seq(ns).len() as nat),
        ),
    decreases ns, 2nat,
{
    if ns.len() == 0 {
        assert(enc_node_seq(ns) + rest =~= rest);
    } else {
        let first = ns.first();
        let tail = ns.drop_first();
        let e1 = enc_node(first);
        let e2 = enc_node_seq(tail);
        let data = enc_node_seq(ns) + rest;
        assert(data =~= e1 + (e2 + rest));
        assert(node_encodable(first));
        lemma_round_trip_node(first, e2 + rest);
        assert(dec_node(data) == Some((first, e1.len() as nat)));
        assert(data.skip(e1.len() as int) =~= e2 + rest);
        assert(nodes_encodable(tail)) by {
            assert(forall|i: int|
                0 <= i < tail.len() ==> #[trigger] tail[i] == ns[i + 1] && node_encodable(
                    ns[i + 1],
                ));
        }
        lemma_round_trip_node_seq(tail, rest);
        assert(seq![first] + tail =~= ns);
    }
}

} // verus!
