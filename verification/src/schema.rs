//! The schema model: a recursive description of the shape of serialized
//! data, together with its mathematical view used by every contract.
pub mod bytes_deserialize;
pub mod json_serialize;
pub mod on_chain_serialization;

use vstd::prelude::*;

verus! {

broadcast use vstd::std_specs::vec::group_vec_axioms, vstd::seq::group_seq_axioms, vstd::string::group_string_axioms;

/// Width of the element-count prefix of a `SmallVec` sequence.
#[derive(Debug, Clone, Copy, PartialEq, Eq, Structural)]
pub enum SmallVecLen {
    U8,
    U16,
}

/// A schema node: a type labelled with a name, with a flag that hides the
/// node from decoded output unless hidden output is requested.
#[derive(Debug)]
pub struct SchemaNode {
    pub name: String,
    pub typ: SchemaType,
    pub is_hidden: bool,
}

/// The recursive type language describing the shape of serialized data.
#[derive(Debug)]
pub enum SchemaType {
    Empty,
    Pubkey,
    String,
    I8,
    U8,
    I16,
    U16,
    I32,
    U32,
    I64,
    U64,
    I128,
    U128,
    F32,
    F64,
    Bool,
    Option(Box<SchemaType>),
    Array(usize, Box<SchemaType>),
    Tuple(Vec<SchemaType>),
    Vec(Box<SchemaType>),
    Struct(Vec<SchemaNode>),
    Enum(Vec<SchemaNode>),
    SmallVec(SmallVecLen, Box<SchemaType>),
    RemainingBytes,
}

/// Mathematical view of a `SchemaType`.
#[verifier::ext_equal]
pub enum SchemaTypeView {
    Empty,
    Pubkey,
    String,
    I8,
    U8,
    I16,
    U16,
    I32,
    U32,
    I64,
    U64,
    I128,
    U128,
    F32,
    F64,
    Bool,
    Option(Box<SchemaTypeView>),
    Array(usize, Box<SchemaTypeView>),
    Tuple(Seq<SchemaTypeView>),
    Vec(Box<SchemaTypeView>),
    Struct(Seq<SchemaNodeView>),
    Enum(Seq<SchemaNodeView>),
    SmallVec(SmallVecLen, Box<SchemaTypeView>),
    RemainingBytes,
}

/// Mathematical view of a `SchemaNode`.
#[verifier::ext_equal]
pub struct SchemaNodeView {
    pub name: Seq<char>,
    pub typ: SchemaTypeView,
    pub is_hidden: bool,
}

pub open spec fn type_view(t: SchemaType) -> SchemaTypeView
    decreases t, 0nat,
{
    match t {
        SchemaType::Empty => SchemaTypeView::Empty,
        SchemaType::Pubkey => SchemaTypeView::Pubkey,
        SchemaType::String => SchemaTypeView::String,
        SchemaType::I8 => SchemaTypeView::I8,
        SchemaType::U8 => SchemaTypeView::U8,
        SchemaType::I16 => SchemaTypeView::I16,
        SchemaType::U16 => SchemaTypeView::U16,
        SchemaType::I32 => SchemaTypeView::I32,
        SchemaType::U32 => SchemaTypeView::U32,
        SchemaType::I64 => SchemaTypeView::I64,
        SchemaType::U64 => SchemaTypeView::U64,
        SchemaType::I128 => SchemaTypeView::I128,
        SchemaType::U128 => SchemaTypeView::U128,
        SchemaType::F32 => SchemaTypeView::F32,
        SchemaType::F64 => SchemaTypeView::F64,
        SchemaType::Bool => SchemaTypeView::Bool,
        SchemaType::Option(inner) => SchemaTypeView::Option(Box::new(type_view(*inner))),
        SchemaType::Array(len, inner) => SchemaTypeView::Array(len, Box::new(type_view(*inner))),
        SchemaType::Tuple(ts) => SchemaTypeView::Tuple(type_seq_view(ts@)),
        SchemaType::Vec(inner) => SchemaTypeView::Vec(Box::new(type_view(*inner))),
        SchemaType::Struct(ns) => SchemaTypeView::Struct(node_seq_view(ns@)),
        SchemaType::Enum(ns) => SchemaTypeView::Enum(node_seq_view(ns@)),
        SchemaType::SmallVec(w, inner) => SchemaTypeView::SmallVec(w, Box::new(type_view(*inner))),
        SchemaType::RemainingBytes => SchemaTypeView::RemainingBytes,
    }
}

pub open spec fn node_view(n: SchemaNode) -> SchemaNodeView
    decreases n, 1nat,
{
    SchemaNodeView { name: n.name@, typ: type_view(n.typ), is_hidden: n.is_hidden }
}

pub open spec fn type_seq_view(ts: Seq<SchemaType>) -> Seq<SchemaTypeView>
    decreases ts, 1nat,
{
    if ts.len() == 0 {
        Seq::empty()
    } else {
        type_seq_view(ts.drop_last()).push(type_view(ts.last()))
    }
}

pub open spec fn node_seq_view(ns: Seq<SchemaNode>) -> Seq<SchemaNodeView>
    decreases ns, 2nat,
{
    if ns.len() == 0 {
        Seq::empty()
    } else {
        node_seq_view(ns.drop_last()).push(node_view(ns.last()))
    }
}

impl View for SchemaType {
    type V = SchemaTypeView;

    open spec fn view(&self) -> SchemaTypeView {
        type_view(*self)
    }
}

impl View for SchemaNode {
    type V = SchemaNodeView;

    open spec fn view(&self) -> SchemaNodeView {
        node_view(*self)
    }
}

pub proof fn lemma_type_seq_view(ts: Seq<SchemaType>)
    ensures
        type_seq_view(ts).len() == ts.len(),
        forall|i: int| 0 <= i < ts.len() ==> type_seq_view(ts)[i] == type_view(ts[i]),
    decreases ts.len(),
{
    if ts.len() > 0 {
        lemma_type_seq_view(ts.drop_last());
        assert forall|i: int| 0 <= i < ts.len() implies type_seq_view(ts)[i] == type_view(
            ts[i],
        ) by {
            assert(type_seq_view(ts) == type_seq_view(ts.drop_last()).push(type_view(ts.last())));
            if i < ts.len() - 1 {
                assert(ts.drop_last()[i] == ts[i]);
                assert(type_seq_view(ts.drop_last()).push(type_view(ts.last()))[i] == type_seq_view(
                    ts.drop_last(),
                )[i]);
            } else {
                assert(ts.last() == ts[i]);
            }
        }
    }
}

pub proof fn lemma_node_seq_view(ns: Seq<SchemaNode>)
    ensures
        node_seq_view(ns).len() == ns.len(),
        forall|i: int| 0 <= i < ns.len() ==> node_seq_view(ns)[i] == node_view(ns[i]),
    decreases ns.len(),
{
    if ns.len() > 0 {
        lemma_node_seq_view(ns.drop_last());
        assert forall|i: int| 0 <= i < ns.len() implies node_seq_view(ns)[i] == node_view(
            ns[i],
        ) by {
            assert(node_seq_view(ns) == node_seq_view(ns.drop_last()).push(node_view(ns.last())));
            if i < ns.len() - 1 {
                assert(ns.drop_last()[i] == ns[i]);
                assert(node_seq_view(ns.drop_last()).push(node_view(ns.last()))[i] == node_seq_view(
                    ns.drop_last(),
                )[i]);
            } else {
                assert(ns.last() == ns[i]);
            }
        }
    }
}

fn clone_type_vec(ts: &Vec<SchemaType>) -> (res: Vec<SchemaType>)
    ensures
        type_seq_view(res@) == type_seq_view(ts@),
    decreases *ts, 1nat,
{
    let mut out: Vec<SchemaType> = Vec::new();
    let mut i: usize = 0;
    while i < ts.len()
        invariant
            i <= ts.len(),
            out@.len() == i as nat,
            forall|j: int| 0 <= j < i ==> out@[j]@ == ts@[j]@,
        decreases ts.len() - i,
    {
        out.push(ts[i].clone());
        i = i + 1;
    }
    proof {
        lemma_type_seq_view(out@);
        lemma_type_seq_view(ts@);
        assert(type_seq_view(out@) =~= type_seq_view(ts@));
    }
    out
}

fn clone_node_vec(ns: &Vec<SchemaNode>) -> (res: Vec<SchemaNode>)
    ensures
        node_seq_view(res@) == node_seq_view(ns@),
    decreases *ns, 1nat,
{
    let mut out: Vec<SchemaNode> = Vec::new();
    let mut i: usize = 0;
    while i < ns.len()
        invariant
            i <= ns.len(),
            out@.len() == i as nat,
            forall|j: int| 0 <= j < i ==> out@[j]@ == ns@[j]@,
        decreases ns.len() - i,
    {
        out.push(ns[i].clone());
        i = i + 1;
    }
    proof {
        lemma_node_seq_view(out@);
        lemma_node_seq_view(ns@);
        assert(node_seq_view(out@) =~= node_seq_view(ns@));
    }
    out
}

impl Clone for SchemaType {
    fn clone(&self) -> (res: Self)
        ensures
            res@ == self@,
        decreases *self, 0nat,
    {
        match self {
            SchemaType::Empty => SchemaType::Empty,
            SchemaType::Pubkey => SchemaType::Pubkey,
            SchemaType::String => SchemaType::String,
            SchemaType::I8 => SchemaType::I8,
            SchemaType::U8 => SchemaType::U8,
            SchemaType::I16 => SchemaType::I16,
            SchemaType::U16 => SchemaType::U16,
            SchemaType::I32 => SchemaType::I32,
            SchemaType::U32 => SchemaType::U32,
            SchemaType::I64 => SchemaType::I64,
            SchemaType::U64 => SchemaType::U64,
            SchemaType::I128 => SchemaType::I128,
            SchemaType::U128 => SchemaType::U128,
            SchemaType::F32 => SchemaType::F32,
            SchemaType::F64 => SchemaType::F64,
            SchemaType::Bool => SchemaType::Bool,
            SchemaType::Option(inner) => SchemaType::Option(Box::new((**inner).clone())),
            SchemaType::Array(len, inner) => SchemaType::Array(
                *len,
                Box::new((**inner).clone()),
            ),
            SchemaType::Tuple(ts) => SchemaType::Tuple(clone_type_vec(ts)),
            SchemaType::Vec(inner) => SchemaType::Vec(Box::new((**inner).clone())),
            SchemaType::Struct(ns) => SchemaType::Struct(clone_node_vec(ns)),
            SchemaType::Enum(ns) => SchemaType::Enum(clone_node_vec(ns)),
            SchemaType::SmallVec(w, inner) => SchemaType::SmallVec(
                *w,
                Box::new((**inner).clone()),
            ),
            SchemaType::RemainingBytes => SchemaType::RemainingBytes,
        }
    }
}

impl Clone for SchemaNode {
    fn clone(&self) -> (res: Self)
        ensures
            res@ == self@,
        decreases *self, 2nat,
    {
        SchemaNode {
            name: self.name.clone(),
            typ: self.typ.clone(),
            is_hidden: self.is_hidden,
        }
    }
}

fn type_vec_eq(a: &Vec<SchemaType>, b: &Vec<SchemaType>) -> (r: bool)
    ensures
        r == (type_seq_view(a@) == type_seq_view(b@)),
    decreases *a, 1nat,
{
    proof {
        lemma_type_seq_view(a@);
        lemma_type_seq_view(b@);
    }
    if a.len() != b.len() {
        return false;
    }
    let mut i: usize = 0;
    while i < a.len()
        invariant
            i <= a.len(),
            a@.len() == b@.len(),
            type_seq_view(a@).len() == a@.len(),
            type_seq_view(b@).len() == b@.len(),
            forall|j: int| 0 <= j < a@.len() ==> type_seq_view(a@)[j] == type_view(a@[j]),
            forall|j: int| 0 <= j < b@.len() ==> type_seq_view(b@)[j] == type_view(b@[j]),
            forall|j: int| 0 <= j < i ==> type_view(a@[j]) == type_view(b@[j]),
        decreases a@.len() - i,
    {
        if !type_eq(&a[i], &b[i]) {
            proof {
                assert(type_seq_view(a@)[i as int] != type_seq_view(b@)[i as int]);
            }
            return false;
        }
        i = i + 1;
    }
    proof {
        assert(type_seq_view(a@) =~= type_seq_view(b@));
    }
    true
}

fn node_vec_eq(a: &Vec<SchemaNode>, b: &Vec<SchemaNode>) -> (r: bool)
    ensures
        r == (node_seq_view(a@) == node_seq_view(b@)),
    decreases *a, 1nat,
{
    proof {
        lemma_node_seq_view(a@);
        lemma_node_seq_view(b@);
    }
    if a.len() != b.len() {
        return false;
    }
    let mut i: usize = 0;
    while i < a.len()
        invariant
            i <= a.len(),
            a@.len() == b@.len(),
            node_seq_view(a@).len() == a@.len(),
            node_seq_view(b@).len() == b@.len(),
            forall|j: int| 0 <= j < a@.len() ==> node_seq_view(a@)[j] == node_view(a@[j]),
            forall|j: int| 0 <= j < b@.len() ==> node_seq_view(b@)[j] == node_view(b@[j]),
            forall|j: int| 0 <= j < i ==> node_view(a@[j]) == node_view(b@[j]),
        decreases a@.len() - i,
    {
        if !node_eq(&a[i], &b[i]) {
            proof {
                assert(node_seq_view(a@)[i as int] != node_seq_view(b@)[i as int]);
            }
            return false;
        }
        i = i + 1;
    }
    proof {
        assert(node_seq_view(a@) =~= node_seq_view(b@));
    }
    true
}

fn node_eq(a: &SchemaNode, b: &SchemaNode) -> (r: bool)
    ensures
        r == (a@ == b@),
    decreases *a, 2nat,
{
    let r = crate::text::str_eq(self_name(a), self_name(b)) && type_eq(&a.typ, &b.typ)
        && a.is_hidden == b.is_hidden;
    proof {
        if r {
            assert(a@ =~= b@);
        }
    }
    r
}

/// The node's name as a string slice.
fn self_name(n: &SchemaNode) -> (r: &str)
    ensures
        r@ == n@.name,
{
    n.name.as_str()
}

#[verifier::rlimit(30)]
fn type_eq(a: &SchemaType, b: &SchemaType) -> (r: bool)
    ensures
        r == (a@ == b@),
    decreases *a, 0nat,
{
    match (a, b) {
        (SchemaType::Empty, SchemaType::Empty) => true,
        (SchemaType::Pubkey, SchemaType::Pubkey) => true,
        (SchemaType::String, SchemaType::String) => true,
        (SchemaType::I8, SchemaType::I8) => true,
        (SchemaType::U8, SchemaType::U8) => true,
        (SchemaType::I16, SchemaType::I16) => true,
        (SchemaType::U16, SchemaType::U16) => true,
        (SchemaType::I32, SchemaType::I32) => true,
        (SchemaType::U32, SchemaType::U32) => true,
        (SchemaType::I64, SchemaType::I64) => true,
        (SchemaType::U64, SchemaType::U64) => true,
        (SchemaType::I128, SchemaType::I128) => true,
        (SchemaType::U128, SchemaType::U128) => true,
        (SchemaType::F32, SchemaType::F32) => true,
        (SchemaType::F64, SchemaType::F64) => true,
        (SchemaType::Bool, SchemaType::Bool) => true,
        (SchemaType::Option(x), SchemaType::Option(y)) => type_eq(x, y),
        (SchemaType::Array(n, x), SchemaType::Array(m, y)) => *n == *m && type_eq(x, y),
        (SchemaType::Tuple(xs), SchemaType::Tuple(ys)) => type_vec_eq(xs, ys),
        (SchemaType::Vec(x), SchemaType::Vec(y)) => type_eq(x, y),
        (SchemaType::Struct(xs), SchemaType::Struct(ys)) => node_vec_eq(xs, ys),
        (SchemaType::Enum(xs), SchemaType::Enum(ys)) => node_vec_eq(xs, ys),
        (SchemaType::SmallVec(v, x), SchemaType::SmallVec(w, y)) => *v == *w && type_eq(x, y),
        (SchemaType::RemainingBytes, SchemaType::RemainingBytes) => true,
        _ => false,
    }
}

impl PartialEq for SchemaType {
    fn eq(&self, other: &Self) -> (r: bool) {
        type_eq(self, other)
    }
}

impl vstd::std_specs::cmp::PartialEqSpecImpl for SchemaType {
    open spec fn obeys_eq_spec() -> bool {
        true
    }

    open spec fn eq_spec(&self, other: &Self) -> bool {
        self@ == other@
    }
}

impl PartialEq for SchemaNode {
    fn eq(&self, other: &Self) -> (r: bool) {
        node_eq(self, other)
    }
}

impl vstd::std_specs::cmp::PartialEqSpecImpl for SchemaNode {
    open spec fn obeys_eq_spec() -> bool {
        true
    }

    open spec fn eq_spec(&self, other: &Self) -> bool {
        self@ == other@
    }
}

impl SchemaNode {
    /// A node with the given name and type, not hidden.
    pub fn new(name: &str, typ: SchemaType) -> (res: Self)
        ensures
            res@ == (SchemaNodeView { name: name@, typ: typ@, is_hidden: false }),
    {
        SchemaNode { name: name.to_owned(), typ, is_hidden: false }
    }

    /// A struct node whose fields carry the given names and types, in order.
    pub fn new_struct(name: &str, fields: Vec<(&str, SchemaType)>) -> (res: Self)
        ensures
            res@.name == name@,
            !res@.is_hidden,
            res@.typ == SchemaTypeView::Struct(
                Seq::new(
                    fields@.len(),
                    |i: int|
                        SchemaNodeView {
                            name: fields@[i].0@,
                            typ: fields@[i].1@,
                            is_hidden: false,
                        },
                ),
            ),
    {
        let mut nodes: Vec<SchemaNode> = Vec::new();
        let mut i: usize = 0;
        while i < fields.len()
            invariant
                i <= fields.len(),
                nodes@.len() == i as nat,
                forall|j: int|
                    0 <= j < i ==> nodes@[j]@ == (SchemaNodeView {
                        name: fields@[j].0@,
                        typ: fields@[j].1@,
                        is_hidden: false,
                    }),
            decreases fields.len() - i,
        {
            let field_name = fields[i].0;
            let field_type = fields[i].1.clone();
            nodes.push(SchemaNode::new(field_name, field_type));
            i = i + 1;
        }
        proof {
            lemma_node_seq_view(nodes@);
            assert(node_seq_view(nodes@) =~= Seq::new(
                fields@.len(),
                |i: int|
                    SchemaNodeView { name: fields@[i].0@, typ: fields@[i].1@, is_hidden: false },
            ));
        }
        SchemaNode::new(name, SchemaType::Struct(nodes))
    }
}

impl SchemaType {
    /// An option of the given inner type.
    pub fn option(typ: SchemaType) -> (res: Self)
        ensures
            res@ == SchemaTypeView::Option(Box::new(typ@)),
    {
        SchemaType::Option(Box::new(typ))
    }

    /// A variable-length sequence of the given inner type.
    pub fn vec(typ: SchemaType) -> (res: Self)
        ensures
            res@ == SchemaTypeView::Vec(Box::new(typ@)),
    {
        SchemaType::Vec(Box::new(typ))
    }

    /// A fixed-length sequence of the given inner type.
    pub fn array(len: usize, typ: SchemaType) -> (res: Self)
        ensures
            res@ == SchemaTypeView::Array(len, Box::new(typ@)),
    {
        SchemaType::Array(len, Box::new(typ))
    }
}

} // verus!
