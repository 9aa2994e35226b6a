//! Rendering of schemas to output text: primitives as their type-name
//! strings, composites as small tagged objects, structs and enums as
//! objects keyed by their member names.
use vstd::prelude::*;

use crate::schema::SchemaNode;
use crate::schema::SchemaNodeView;
use crate::schema::SchemaType;
use crate::schema::SchemaTypeView;
use crate::schema::SmallVecLen;

verus! {

broadcast use vstd::std_specs::vec::group_vec_axioms, vstd::seq::group_seq_axioms, vstd::string::group_string_axioms;

use crate::text::spec_json_string;
use crate::text::spec_dec_digits;

/// The lowercase name of a schema type's shape.
pub open spec fn spec_typename(t: SchemaTypeView) -> Seq<char> {
    match t {
        SchemaTypeView::Empty => "empty"@,
        SchemaTypeView::Pubkey => "pubkey"@,
        SchemaTypeView::String => "string"@,
        SchemaTypeView::I8 => "i8"@,
        SchemaTypeView::U8 => "u8"@,
        SchemaTypeView::I16 => "i16"@,
        SchemaTypeView::U16 => "u16"@,
        SchemaTypeView::I32 => "i32"@,
        SchemaTypeView::U32 => "u32"@,
        SchemaTypeView::I64 => "i64"@,
        SchemaTypeView::U64 => "u64"@,
        SchemaTypeView::I128 => "i128"@,
        SchemaTypeView::U128 => "u128"@,
        SchemaTypeView::F32 => "f32"@,
        SchemaTypeView::F64 => "f64"@,
        SchemaTypeView::Bool => "bool"@,
        SchemaTypeView::Option(_) => "option"@,
        SchemaTypeView::Array(_, _) => "array"@,
        SchemaTypeView::Tuple(_) => "tuple"@,
        SchemaTypeView::Enum(_) => "enum"@,
        SchemaTypeView::Vec(_) => "vec"@,
        SchemaTypeView::Struct(_) => "struct"@,
        SchemaTypeView::SmallVec(_, _) => "smallvec"@,
        SchemaTypeView::RemainingBytes => "bytes_remaining"@,
    }
}

impl SchemaType {
    /// The lowercase name of this type's shape.
    pub fn typename(&self) -> (r: &str)
        ensures
            r@ == spec_typename(self@),
    {
        match self {
            SchemaType::Empty => "empty",
            SchemaType::Pubkey => "pubkey",
            SchemaType::String => "string",
            SchemaType::I8 => "i8",
            SchemaType::U8 => "u8",
            SchemaType::I16 => "i16",
            SchemaType::U16 => "u16",
            SchemaType::I32 => "i32",
            SchemaType::U32 => "u32",
            SchemaType::I64 => "i64",
            SchemaType::U64 => "u64",
            SchemaType::I128 => "i128",
            SchemaType::U128 => "u128",
            SchemaType::F32 => "f32",
            SchemaType::F64 => "f64",
            SchemaType::Bool => "bool",
            SchemaType::Option(_) => "option",
            SchemaType::Array(_, _) => "array",
            SchemaType::Tuple(_) => "tuple",
            SchemaType::Enum(_) => "enum",
            SchemaType::Vec(_) => "vec",
            SchemaType::Struct(_) => "struct",
            SchemaType::SmallVec(_, _) => "smallvec",
            SchemaType::RemainingBytes => "bytes_remaining",
        }
    }
}

/// The output text of a schema type.
pub open spec fn render_type(t: SchemaTypeView) -> Seq<char>
    decreases t, 0nat,
{
    match t {
        SchemaTypeView::Empty => "null"@,
        SchemaTypeView::Option(inner) => "{\"type:option\":"@ + render_type(*inner) + seq!['}'],
        SchemaTypeView::Array(len, inner) => "{\"size\":"@ + spec_dec_digits(len as nat)
            + ",\"type\":"@ + render_type(*inner) + seq!['}'],
        SchemaTypeView::Tuple(ts) => "{\"type:tuple\":["@ + render_type_list(ts) + "]}"@,
        SchemaTypeView::Vec(inner) => "{\"type:vec\":"@ + render_type(*inner) + seq!['}'],
        SchemaTypeView::Struct(ns) => seq!['{'] + render_member_list(ns) + seq!['}'],
        SchemaTypeView::Enum(ns) => "{\"type:enum\":{"@ + render_member_list(ns) + "}}"@,
        SchemaTypeView::SmallVec(w, inner) => "{\"type:smallvec\":{\"len\":"@ + spec_json_string(
            match w {
                SmallVecLen::U8 => "u8"@,
                SmallVecLen::U16 => "u16"@,
            },
        ) + ",\"elem\":"@ + render_type(*inner) + "}}"@,
        _ => spec_json_string(spec_typename(t)),
    }
}

/// The comma-joined renderings of a type list.
pub open spec fn render_type_list(ts: Seq<SchemaTypeView>) -> Seq<char>
    decreases ts, 1nat,
{
    if ts.len() == 0 {
        Seq::empty()
    } else {
        let r = render_type(ts.last());
        if ts.len() == 1 {
            r
        } else {
            render_type_list(ts.drop_last()) + seq![','] + r
        }
    }
}

/// The comma-joined `name: type` members of a struct or enum rendering.
pub open spec fn render_member_list(ns: Seq<SchemaNodeView>) -> Seq<char>
    decreases ns, 2nat,
{
    if ns.len() == 0 {
        Seq::empty()
    } else {
        let entry = spec_json_string(ns.last().name) + seq![':'] + render_type(ns.last().typ);
        if ns.len() == 1 {
            entry
        } else {
            render_member_list(ns.drop_last()) + seq![','] + entry
        }
    }
}

/// The output text of a schema node: an object with its name and type.
pub open spec fn render_schema_node(n: SchemaNodeView) -> Seq<char> {
    "{\"name\":"@ + spec_json_string(n.name) + ",\"type\":"@ + render_type(n.typ) + seq!['}']
}

fn append_type_list_json(ts: &Vec<SchemaType>, out: &mut String)
    ensures
        final(out)@ == old(out)@ + render_type_list(crate::schema::type_seq_view(ts@)),
    decreases *ts, 1nat,
{
    proof {
        crate::schema::lemma_type_seq_view(ts@);
    }
    let ghost full = crate::schema::type_seq_view(ts@);
    let mut i: usize = 0;
    proof {
        assert(full.take(0) =~= Seq::<SchemaTypeView>::empty());
        assert(render_type_list(full.take(0)) =~= Seq::<char>::empty());
    }
    while i < ts.len()
        invariant
            i <= ts@.len(),
            full == crate::schema::type_seq_view(ts@),
            full.len() == ts@.len(),
            forall|j: int| 0 <= j < ts@.len() ==> full[j] == crate::schema::type_view(ts@[j]),
            out@ == old(out)@ + render_type_list(full.take(i as int)),
        decreases ts@.len() - i,
    {
        proof {
            assert(full.take(i + 1).drop_last() =~= full.take(i as int));
            assert(full.take(i + 1).last() == full[i as int]);
        }
        if i > 0 {
            crate::text::push_char(out, ',');
        }
        ts[i].append_json(out);
        proof {
            assert(out@ =~= old(out)@ + render_type_list(full.take(i + 1)));
        }
        i = i + 1;
    }
    proof {
        assert(full.take(ts@.len() as int) =~= full);
    }
}

fn append_member_list_json(ns: &Vec<SchemaNode>, out: &mut String)
    ensures
        final(out)@ == old(out)@ + render_member_list(crate::schema::node_seq_view(ns@)),
    decreases *ns, 1nat,
{
    proof {
        crate::schema::lemma_node_seq_view(ns@);
    }
    let ghost full = crate::schema::node_seq_view(ns@);
    let mut i: usize = 0;
    proof {
        assert(full.take(0) =~= Seq::<SchemaNodeView>::empty());
        assert(render_member_list(full.take(0)) =~= Seq::<char>::empty());
    }
    while i < ns.len()
        invariant
            i <= ns@.len(),
            full == crate::schema::node_seq_view(ns@),
            full.len() == ns@.len(),
            forall|j: int| 0 <= j < ns@.len() ==> full[j] == crate::schema::node_view(ns@[j]),
            out@ == old(out)@ + render_member_list(full.take(i as int)),
        decreases ns@.len() - i,
    {
        proof {
            assert(full.take(i + 1).drop_last() =~= full.take(i as int));
            assert(full.take(i + 1).last() == full[i as int]);
        }
        if i > 0 {
            crate::text::push_char(out, ',');
        }
        crate::text::append_json_string(out, ns[i].name.as_str());
        crate::text::push_char(out, ':');
        ns[i].typ.append_json(out);
        proof {
            assert(out@ =~= old(out)@ + render_member_list(full.take(i + 1)));
        }
        i = i + 1;
    }
    proof {
        assert(full.take(ns@.len() as int) =~= full);
    }
}

impl SchemaType {
    /// Appends this type's rendering to `out`.
    #[verifier::spinoff_prover]
    #[verifier::rlimit(100)]
    pub fn append_json(&self, out: &mut String)
        ensures
            final(out)@ == old(out)@ + render_type(self@),
        decreases *self, 2nat,
    {
        match self {
            SchemaType::Empty => crate::text::append_lit(out, "null"),
            SchemaType::Option(inner) => {
                crate::text::append_lit(out, "{\"type:option\":");
                inner.append_json(out);
                crate::text::push_char(out, '}');
                proof {
                    assert(out@ =~= old(out)@ + render_type(self@));
                }
            },
            SchemaType::Array(len, inner) => {
                crate::text::append_lit(out, "{\"size\":");
                crate::text::append_dec_u64(out, *len as u64);
                crate::text::append_lit(out, ",\"type\":");
                inner.append_json(out);
                crate::text::push_char(out, '}');
                proof {
                    assert(out@ =~= old(out)@ + render_type(self@));
                }
            },
            SchemaType::Tuple(ts) => {
                crate::text::append_lit(out, "{\"type:tuple\":[");
                append_type_list_json(ts, out);
                crate::text::append_lit(out, "]}");
                proof {
                    assert(out@ =~= old(out)@ + render_type(self@));
                }
            },
            SchemaType::Vec(inner) => {
                crate::text::append_lit(out, "{\"type:vec\":");
                inner.append_json(out);
                crate::text::push_char(out, '}');
                proof {
                    assert(out@ =~= old(out)@ + render_type(self@));
                }
            },
            SchemaType::Struct(ns) => {
                crate::text::push_char(out, '{');
                append_member_list_json(ns, out);
                crate::text::push_char(out, '}');
                proof {
                    assert(out@ =~= old(out)@ + render_type(self@));
                }
            },
            SchemaType::Enum(ns) => {
                crate::text::append_lit(out, "{\"type:enum\":{");
                append_member_list_json(ns, out);
                crate::text::append_lit(out, "}}");
                proof {
                    assert(out@ =~= old(out)@ + render_type(self@));
                }
            },
            SchemaType::SmallVec(w, inner) => {
                crate::text::append_lit(out, "{\"type:smallvec\":{\"len\":");
                match w {
                    SmallVecLen::U8 => crate::text::append_json_string(out, "u8"),
                    SmallVecLen::U16 => crate::text::append_json_string(out, "u16"),
                }
                crate::text::append_lit(out, ",\"elem\":");
                inner.append_json(out);
                crate::text::append_lit(out, "}}");
                proof {
                    assert(out@ =~= old(out)@ + render_type(self@));
                }
            },
            _ => {
                let name = self.typename();
                crate::text::append_json_string(out, name);
                proof {
                    assert(out@ =~= old(out)@ + render_type(self@));
                }
            },
        }
    }

    /// This type's rendering as output text.
    pub fn to_json_string(&self) -> (r: String)
        ensures
            r@ == render_type(self@),
    {
        let mut out = String::new();
        self.append_json(&mut out);
        proof {
            assert(out@ =~= render_type(self@));
        }
        out
    }
}

impl SchemaNode {
    /// Appends this node's rendering to `out`.
    pub fn append_json(&self, out: &mut String)
        ensures
            final(out)@ == old(out)@ + render_schema_node(self@),
        decreases *self, 3nat,
    {
        crate::text::append_lit(out, "{\"name\":");
        crate::text::append_json_string(out, self.name.as_str());
        crate::text::append_lit(out, ",\"type\":");
        self.typ.append_json(out);
        crate::text::push_char(out, '}');
        proof {
            assert(out@ =~= old(out)@ + render_schema_node(self@));
        }
    }

    /// This node's rendering as output text.
    pub fn to_json_string(&self) -> (r: String)
        ensures
            r@ == render_schema_node(self@),
    {
        let mut out = String::new();
        self.append_json(&mut out);
        proof {
            assert(out@ =~= render_schema_node(self@));
        }
        out
    }
}

} // verus!
