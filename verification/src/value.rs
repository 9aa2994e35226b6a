//! The decoded-value model: a recursive tagged union mirroring the schema
//! type system, holding one decoded instance.
use vstd::prelude::*;

verus! {

broadcast use vstd::std_specs::vec::group_vec_axioms, vstd::seq::group_seq_axioms, vstd::string::group_string_axioms;

/// A decoded value labelled with a name; used for struct fields and for the
/// selected variant of an enum.
#[derive(Debug)]
pub struct ValueNode {
    pub name: String,
    pub value: TypedValue,
}

/// One decoded instance of a schema type.
///
/// Floating-point fields carry the raw little-endian bit patterns read from
/// the buffer; interpreting those bits is left to the embedding application.
#[derive(Debug)]
pub enum TypedValue {
    Empty,
    Pubkey(String),
    String(String),
    I8(i8),
    U8(u8),
    I16(i16),
    U16(u16),
    I32(i32),
    U32(u32),
    I64(i64),
    U64(u64),
    I128(i128),
    U128(u128),
    F32Bits(u32),
    F64Bits(u64),
    Bool(bool),
    Option(Box<Option<TypedValue>>),
    Array(Vec<TypedValue>),
    Tuple(Vec<TypedValue>),
    Enum(Box<ValueNode>),
    Vec(Vec<TypedValue>),
    Struct(Vec<ValueNode>),
    Bytes(Vec<u8>),
}

/// Mathematical view of a `TypedValue`.
#[verifier::ext_equal]
pub enum TypedValueView {
    Empty,
    Pubkey(Seq<char>),
    String(Seq<char>),
    I8(i8),
    U8(u8),
    I16(i16),
    U16(u16),
    I32(i32),
    U32(u32),
    I64(i64),
    U64(u64),
    I128(i128),
    U128(u128),
    F32Bits(u32),
    F64Bits(u64),
    Bool(bool),
    Option(Box<Option<TypedValueView>>),
    Array(Seq<TypedValueView>),
    Tuple(Seq<TypedValueView>),
    Enum(Box<ValueNodeView>),
    Vec(Seq<TypedValueView>),
    Struct(Seq<ValueNodeView>),
    Bytes(Seq<u8>),
}

/// Mathematical view of a `ValueNode`.
#[verifier::ext_equal]
pub struct ValueNodeView {
    pub name: Seq<char>,
    pub value: TypedValueView,
}

pub open spec fn value_view(v: TypedValue) -> TypedValueView
    decreases v, 0nat,
{
    match v {
        TypedValue::Empty => TypedValueView::Empty,
        TypedValue::Pubkey(s) => TypedValueView::Pubkey(s@),
        TypedValue::String(s) => TypedValueView::String(s@),
        TypedValue::I8(x) => TypedValueView::I8(x),
        TypedValue::U8(x) => TypedValueView::U8(x),
        TypedValue::I16(x) => TypedValueView::I16(x),
        TypedValue::U16(x) => TypedValueView::U16(x),
        TypedValue::I32(x) => TypedValueView::I32(x),
        TypedValue::U32(x) => TypedValueView::U32(x),
        TypedValue::I64(x) => TypedValueView::I64(x),
        TypedValue::U64(x) => TypedValueView::U64(x),
        TypedValue::I128(x) => TypedValueView::I128(x),
        TypedValue::U128(x) => TypedValueView::U128(x),
        TypedValue::F32Bits(x) => TypedValueView::F32Bits(x),
        TypedValue::F64Bits(x) => TypedValueView::F64Bits(x),
        TypedValue::Bool(x) => TypedValueView::Bool(x),
        TypedValue::Option(inner) => TypedValueView::Option(
            Box::new(
                match *inner {
                    Some(v2) => Some(value_view(v2)),
                    None => None,
                },
            ),
        ),
        TypedValue::Array(vs) => TypedValueView::Array(value_seq_view(vs@)),
        TypedValue::Tuple(vs) => TypedValueView::Tuple(value_seq_view(vs@)),
        TypedValue::Enum(n) => TypedValueView::Enum(Box::new(value_node_view(*n))),
        TypedValue::Vec(vs) => TypedValueView::Vec(value_seq_view(vs@)),
        TypedValue::Struct(ns) => TypedValueView::Struct(value_node_seq_view(ns@)),
        TypedValue::Bytes(bs) => TypedValueView::Bytes(bs@),
    }
}

pub open spec fn value_node_view(n: ValueNode) -> ValueNodeView
    decreases n, 1nat,
{
    ValueNodeView { name: n.name@, value: value_view(n.value) }
}

pub open spec fn value_seq_view(vs: Seq<TypedValue>) -> Seq<TypedValueView>
    decreases vs, 1nat,
{
    if vs.len() == 0 {
        Seq::empty()
    } else {
        value_seq_view(vs.drop_last()).push(value_view(vs.last()))
    }
}

pub open spec fn value_node_seq_view(ns: Seq<ValueNode>) -> Seq<ValueNodeView>
    decreases ns, 2nat,
{
    if ns.len() == 0 {
        Seq::empty()
    } else {
        value_node_seq_view(ns.drop_last()).push(value_node_view(ns.last()))
    }
}

impl View for TypedValue {
    type V = TypedValueView;

    open spec fn view(&self) -> TypedValueView {
        value_view(*self)
    }
}

impl View for ValueNode {
    type V = ValueNodeView;

    open spec fn view(&self) -> ValueNodeView {
        value_node_view(*self)
    }
}

pub proof fn lemma_value_seq_view(vs: Seq<TypedValue>)
    ensures
        value_seq_view(vs).len() == vs.len(),
        forall|i: int| 0 <= i < vs.len() ==> value_seq_view(vs)[i] == value_view(vs[i]),
    decreases vs.len(),
{
    if vs.len() > 0 {
        lemma_value_seq_view(vs.drop_last());
        assert forall|i: int| 0 <= i < vs.len() implies value_seq_view(vs)[i] == value_view(
            vs[i],
        ) by {
            assert(value_seq_view(vs) == value_seq_view(vs.drop_last()).push(
                value_view(vs.last()),
            ));
            if i < vs.len() - 1 {
                assert(vs.drop_last()[i] == vs[i]);
                assert(value_seq_view(vs.drop_last()).push(value_view(vs.last()))[i]
                    == value_seq_view(vs.drop_last())[i]);
            } else {
                assert(vs.last() == vs[i]);
            }
        }
    }
}

pub proof fn lemma_value_node_seq_view(ns: Seq<ValueNode>)
    ensures
        value_node_seq_view(ns).len() == ns.len(),
        forall|i: int| 0 <= i < ns.len() ==> value_node_seq_view(ns)[i] == value_node_view(ns[i]),
    decreases ns.len(),
{
    if ns.len() > 0 {
        lemma_value_node_seq_view(ns.drop_last());
        assert forall|i: int| 0 <= i < ns.len() implies value_node_seq_view(ns)[i]
            == value_node_view(ns[i]) by {
            assert(value_node_seq_view(ns) == value_node_seq_view(ns.drop_last()).push(
                value_node_view(ns.last()),
            ));
            if i < ns.len() - 1 {
                assert(ns.drop_last()[i] == ns[i]);
                assert(value_node_seq_view(ns.drop_last()).push(value_node_view(ns.last()))[i]
                    == value_node_seq_view(ns.drop_last())[i]);
            } else {
                assert(ns.last() == ns[i]);
            }
        }
    }
}

fn clone_value_vec(vs: &Vec<TypedValue>) -> (res: Vec<TypedValue>)
    ensures
        value_seq_view(res@) == value_seq_view(vs@),
    decreases *vs, 1nat,
{
    let mut out: Vec<TypedValue> = Vec::new();
    let mut i: usize = 0;
    while i < vs.len()
        invariant
            i <= vs.len(),
            out@.len() == i as nat,
            forall|j: int| 0 <= j < i ==> out@[j]@ == vs@[j]@,
        decreases vs.len() - i,
    {
        out.push(vs[i].clone());
        i = i + 1;
    }
    proof {
        lemma_value_seq_view(out@);
        lemma_value_seq_view(vs@);
        assert(value_seq_view(out@) =~= value_seq_view(vs@));
    }
    out
}

fn clone_value_node_vec(ns: &Vec<ValueNode>) -> (res: Vec<ValueNode>)
    ensures
        value_node_seq_view(res@) == value_node_seq_view(ns@),
    decreases *ns, 1nat,
{
    let mut out: Vec<ValueNode> = Vec::new();
    let mut i: usize = 0;
    while i < ns.len()
        invariant
            i <= ns.len(),
            out@.len() == i as nat,
            forall|j: int| 0 <= j < i ==> out@[j]@ == ns@[j]@,
        decreases ns.len() - i,
    {
        out.push(ns[i].clone());
        i = i + 1;
    }
    proof {
        lemma_value_node_seq_view(out@);
        lemma_value_node_seq_view(ns@);
        assert(value_node_seq_view(out@) =~= value_node_seq_view(ns@));
    }
    out
}

impl Clone for TypedValue {
    fn clone(&self) -> (res: Self)
        ensures
            res@ == self@,
        decreases *self, 0nat,
    {
        match self {
            TypedValue::Empty => TypedValue::Empty,
            TypedValue::Pubkey(s) => TypedValue::Pubkey(s.clone()),
            TypedValue::String(s) => TypedValue::String(s.clone()),
            TypedValue::I8(x) => TypedValue::I8(*x),
            TypedValue::U8(x) => TypedValue::U8(*x),
            TypedValue::I16(x) => TypedValue::I16(*x),
            TypedValue::U16(x) => TypedValue::U16(*x),
            TypedValue::I32(x) => TypedValue::I32(*x),
            TypedValue::U32(x) => TypedValue::U32(*x),
            TypedValue::I64(x) => TypedValue::I64(*x),
            TypedValue::U64(x) => TypedValue::U64(*x),
            TypedValue::I128(x) => TypedValue::I128(*x),
            TypedValue::U128(x) => TypedValue::U128(*x),
            TypedValue::F32Bits(x) => TypedValue::F32Bits(*x),
            TypedValue::F64Bits(x) => TypedValue::F64Bits(*x),
            TypedValue::Bool(x) => TypedValue::Bool(*x),
            TypedValue::Option(inner) => TypedValue::Option(
                Box::new(
                    match &**inner {
                        Some(v2) => Some(v2.clone()),
                        None => None,
                    },
                ),
            ),
            TypedValue::Array(vs) => TypedValue::Array(clone_value_vec(vs)),
            TypedValue::Tuple(vs) => TypedValue::Tuple(clone_value_vec(vs)),
            TypedValue::Enum(n) => TypedValue::Enum(Box::new((**n).clone())),
            TypedValue::Vec(vs) => TypedValue::Vec(clone_value_vec(vs)),
            TypedValue::Struct(ns) => TypedValue::Struct(clone_value_node_vec(ns)),
            TypedValue::Bytes(bs) => TypedValue::Bytes(clone_bytes(bs)),
        }
    }
}

fn clone_bytes(bs: &Vec<u8>) -> (res: Vec<u8>)
    ensures
        res@ == bs@,
{
    let mut out: Vec<u8> = Vec::new();
    let mut i: usize = 0;
    while i < bs.len()
        invariant
            i <= bs.len(),
            out@.len() == i as nat,
            forall|j: int| 0 <= j < i ==> out@[j] == bs@[j],
        decreases bs.len() - i,
    {
        out.push(bs[i]);
        i = i + 1;
    }
    proof {
        assert(out@ =~= bs@);
    }
    out
}

impl Clone for ValueNode {
    fn clone(&self) -> (res: Self)
        ensures
            res@ == self@,
        decreases *self, 2nat,
    {
        ValueNode { name: self.name.clone(), value: self.value.clone() }
    }
}

fn value_vec_eq(a: &Vec<TypedValue>, b: &Vec<TypedValue>) -> (r: bool)
    ensures
        r == (value_seq_view(a@) == value_seq_view(b@)),
    decreases *a, 1nat,
{
    proof {
        lemma_value_seq_view(a@);
        lemma_value_seq_view(b@);
    }
    if a.len() != b.len() {
        return false;
    }
    let mut i: usize = 0;
    while i < a.len()
        invariant
            i <= a.len(),
            a@.len() == b@.len(),
            value_seq_view(a@).len() == a@.len(),
            value_seq_view(b@).len() == b@.len(),
            forall|j: int| 0 <= j < a@.len() ==> value_seq_view(a@)[j] == value_view(a@[j]),
            forall|j: int| 0 <= j < b@.len() ==> value_seq_view(b@)[j] == value_view(b@[j]),
            forall|j: int| 0 <= j < i ==> value_view(a@[j]) == value_view(b@[j]),
        decreases a@.len() - i,
    {
        if !value_eq(&a[i], &b[i]) {
            proof {
                assert(value_seq_view(a@)[i as int] != value_seq_view(b@)[i as int]);
            }
            return false;
        }
        i = i + 1;
    }
    proof {
        assert(value_seq_view(a@) =~= value_seq_view(b@));
    }
    true
}

fn value_node_vec_eq(a: &Vec<ValueNode>, b: &Vec<ValueNode>) -> (r: bool)
    ensures
        r == (value_node_seq_view(a@) == value_node_seq_view(b@)),
    decreases *a, 1nat,
{
    proof {
        lemma_value_node_seq_view(a@);
        lemma_value_node_seq_view(b@);
    }
    if a.len() != b.len() {
        return false;
    }
    let mut i: usize = 0;
    while i < a.len()
        invariant
            i <= a.len(),
            a@.len() == b@.len(),
            value_node_seq_view(a@).len() == a@.len(),
            value_node_seq_view(b@).len() == b@.len(),
            forall|j: int|
                0 <= j < a@.len() ==> value_node_seq_view(a@)[j] == value_node_view(a@[j]),
            forall|j: int|
                0 <= j < b@.len() ==> value_node_seq_view(b@)[j] == value_node_view(b@[j]),
            forall|j: int| 0 <= j < i ==> value_node_view(a@[j]) == value_node_view(b@[j]),
        decreases a@.len() - i,
    {
        if !value_node_eq(&a[i], &b[i]) {
            proof {
                assert(value_node_seq_view(a@)[i as int] != value_node_seq_view(b@)[i as int]);
            }
            return false;
        }
        i = i + 1;
    }
    proof {
        assert(value_node_seq_view(a@) =~= value_node_seq_view(b@));
    }
    true
}

fn value_node_eq(a: &ValueNode, b: &ValueNode) -> (r: bool)
    ensures
        r == (a@ == b@),
    decreases *a, 2nat,
{
    let r = crate::text::str_eq(a.name.as_str(), b.name.as_str()) && value_eq(&a.value, &b.value);
    proof {
        if r {
            assert(a@ =~= b@);
        }
    }
    r
}

fn bytes_eq(a: &Vec<u8>, b: &Vec<u8>) -> (r: bool)
    ensures
        r == (a@ == b@),
{
    if a.len() != b.len() {
        return false;
    }
    let mut i: usize = 0;
    while i < a.len()
        invariant
            i <= a.len(),
            a@.len() == b@.len(),
            forall|j: int| 0 <= j < i ==> a@[j] == b@[j],
        decreases a@.len() - i,
    {
        if a[i] != b[i] {
            return false;
        }
        i = i + 1;
    }
    proof {
        assert(a@ =~= b@);
    }
    true
}

#[verifier::rlimit(30)]
fn value_eq(a: &TypedValue, b: &TypedValue) -> (r: bool)
    ensures
        r == (a@ == b@),
    decreases *a, 0nat,
{
    match (a, b) {
        (TypedValue::Empty, TypedValue::Empty) => true,
        (TypedValue::Pubkey(x), TypedValue::Pubkey(y)) => crate::text::str_eq(
            x.as_str(),
            y.as_str(),
        ),
        (TypedValue::String(x), TypedValue::String(y)) => crate::text::str_eq(
            x.as_str(),
            y.as_str(),
        ),
        (TypedValue::I8(x), TypedValue::I8(y)) => *x == *y,
        (TypedValue::U8(x), TypedValue::U8(y)) => *x == *y,
        (TypedValue::I16(x), TypedValue::I16(y)) => *x == *y,
        (TypedValue::U16(x), TypedValue::U16(y)) => *x == *y,
        (TypedValue::I32(x), TypedValue::I32(y)) => *x == *y,
        (TypedValue::U32(x), TypedValue::U32(y)) => *x == *y,
        (TypedValue::I64(x), TypedValue::I64(y)) => *x == *y,
        (TypedValue::U64(x), TypedValue::U64(y)) => *x == *y,
        (TypedValue::I128(x), TypedValue::I128(y)) => *x == *y,
        (TypedValue::U128(x), TypedValue::U128(y)) => *x == *y,
        (TypedValue::F32Bits(x), TypedValue::F32Bits(y)) => *x == *y,
        (TypedValue::F64Bits(x), TypedValue::F64Bits(y)) => *x == *y,
        (TypedValue::Bool(x), TypedValue::Bool(y)) => *x == *y,
        (TypedValue::Option(x), TypedValue::Option(y)) => match (&**x, &**y) {
            (Some(v1), Some(v2)) => value_eq(v1, v2),
            (None, None) => true,
            _ => false,
        },
        (TypedValue::Array(xs), TypedValue::Array(ys)) => value_vec_eq(xs, ys),
        (TypedValue::Tuple(xs), TypedValue::Tuple(ys)) => value_vec_eq(xs, ys),
        (TypedValue::Enum(x), TypedValue::Enum(y)) => value_node_eq(x, y),
        (TypedValue::Vec(xs), TypedValue::Vec(ys)) => value_vec_eq(xs, ys),
        (TypedValue::Struct(xs), TypedValue::Struct(ys)) => value_node_vec_eq(xs, ys),
        (TypedValue::Bytes(xs), TypedValue::Bytes(ys)) => bytes_eq(xs, ys),
        _ => false,
    }
}

impl PartialEq for TypedValue {
    fn eq(&self, other: &Self) -> (r: bool) {
        value_eq(self, other)
    }
}

impl vstd::std_specs::cmp::PartialEqSpecImpl for TypedValue {
    open spec fn obeys_eq_spec() -> bool {
        true
    }

    open spec fn eq_spec(&self, other: &Self) -> bool {
        self@ == other@
    }
}

impl PartialEq for ValueNode {
    fn eq(&self, other: &Self) -> (r: bool) {
        value_node_eq(self, other)
    }
}

impl vstd::std_specs::cmp::PartialEqSpecImpl for ValueNode {
    open spec fn obeys_eq_spec() -> bool {
        true
    }

    open spec fn eq_spec(&self, other: &Self) -> bool {
        self@ == other@
    }
}

impl ValueNode {
    /// A named value.
    pub fn new(name: &str, value: TypedValue) -> (res: Self)
        ensures
            res@ == (ValueNodeView { name: name@, value: value@ }),
    {
        ValueNode { name: name.to_owned(), value }
    }

    /// A named struct value with the given fields, in order.
    pub fn new_struct(name: &str, fields: Vec<(&str, TypedValue)>) -> (res: Self)
        ensures
            res@.name == name@,
            res@.value == TypedValueView::Struct(
                Seq::new(
                    fields@.len(),
                    |i: int| ValueNodeView { name: fields@[i].0@, value: fields@[i].1@ },
                ),
            ),
    {
        ValueNode { name: name.to_owned(), value: TypedValue::new_struct(fields) }
    }
}

impl TypedValue {
    /// A struct value with the given fields, in order.
    pub fn new_struct(fields: Vec<(&str, TypedValue)>) -> (res: Self)
        ensures
            res@ == TypedValueView::Struct(
                Seq::new(
                    fields@.len(),
                    |i: int| ValueNodeView { name: fields@[i].0@, value: fields@[i].1@ },
                ),
            ),
    {
        let mut nodes: Vec<ValueNode> = Vec::new();
        let mut i: usize = 0;
        while i < fields.len()
            invariant
                i <= fields.len(),
                nodes@.len() == i as nat,
                forall|j: int|
                    0 <= j < i ==> nodes@[j]@ == (ValueNodeView {
                        name: fields@[j].0@,
                        value: fields@[j].1@,
                    }),
            decreases fields.len() - i,
        {
            let field_name = fields[i].0;
            let field_value = fields[i].1.clone();
            nodes.push(ValueNode::new(field_name, field_value));
            i = i + 1;
        }
        proof {
            lemma_value_node_seq_view(nodes@);
            assert(value_node_seq_view(nodes@) =~= Seq::new(
                fields@.len(),
                |i: int| ValueNodeView { name: fields@[i].0@, value: fields@[i].1@ },
            ));
        }
        TypedValue::Struct(nodes)
    }
}


use crate::text::spec_json_string;
use crate::text::spec_dec_int;
use crate::text::spec_dec_digits;
use crate::errors::RenderError;

/// The output text of a decoded value, following the fixed JSON rendering
/// contract; `None` when the value holds floating-point data, whose
/// rendering is left to the embedding application.
pub open spec fn render_value(v: TypedValueView) -> Option<Seq<char>>
    decreases v, 0nat,
{
    match v {
        TypedValueView::Empty => Some(spec_json_string(Seq::empty())),
        TypedValueView::Pubkey(s) => Some(spec_json_string(s)),
        TypedValueView::String(s) => Some(spec_json_string(s)),
        TypedValueView::I8(x) => Some(spec_dec_int(x as int)),
        TypedValueView::U8(x) => Some(spec_dec_int(x as int)),
        TypedValueView::I16(x) => Some(spec_dec_int(x as int)),
        TypedValueView::U16(x) => Some(spec_dec_int(x as int)),
        TypedValueView::I32(x) => Some(spec_dec_int(x as int)),
        TypedValueView::U32(x) => Some(spec_dec_int(x as int)),
        TypedValueView::I64(x) => Some(seq!['"'] + spec_dec_int(x as int) + seq!['"']),
        TypedValueView::U64(x) => Some(seq!['"'] + spec_dec_int(x as int) + seq!['"']),
        TypedValueView::I128(x) => Some(seq!['"'] + spec_dec_int(x as int) + seq!['"']),
        TypedValueView::U128(x) => Some(seq!['"'] + spec_dec_int(x as int) + seq!['"']),
        TypedValueView::F32Bits(_) => None,
        TypedValueView::F64Bits(_) => None,
        TypedValueView::Bool(b) => Some(
            if b {
                "true"@
            } else {
                "false"@
            },
        ),
        TypedValueView::Option(inner) => match *inner {
            Some(v2) => render_value(v2),
            None => Some("null"@),
        },
        TypedValueView::Array(vs) => match render_value_list(vs) {
            Some(body) => Some(seq!['['] + body + seq![']']),
            None => None,
        },
        TypedValueView::Tuple(vs) => match render_value_list(vs) {
            Some(body) => Some(seq!['['] + body + seq![']']),
            None => None,
        },
        TypedValueView::Enum(bn) => if (*bn).value is Empty {
            Some(spec_json_string((*bn).name))
        } else {
            render_value_node(*bn)
        },
        TypedValueView::Vec(vs) => match render_value_list(vs) {
            Some(body) => Some(seq!['['] + body + seq![']']),
            None => None,
        },
        TypedValueView::Struct(fs) => match render_struct_fields(fs) {
            Some(body) => Some(seq!['{'] + body + seq!['}']),
            None => None,
        },
        TypedValueView::Bytes(bs) => Some(seq!['['] + render_byte_list(bs) + seq![']']),
    }
}

/// The comma-joined renderings of a value sequence.
pub open spec fn render_value_list(vs: Seq<TypedValueView>) -> Option<Seq<char>>
    decreases vs, 1nat,
{
    if vs.len() == 0 {
        Some(Seq::empty())
    } else {
        match render_value_list(vs.drop_last()) {
            Some(p) => match render_value(vs.last()) {
                Some(r) => Some(
                    if vs.len() == 1 {
                        r
                    } else {
                        p + seq![','] + r
                    },
                ),
                None => None,
            },
            None => None,
        }
    }
}

/// The comma-joined `name: value` members of a struct rendering.
pub open spec fn render_struct_fields(fs: Seq<ValueNodeView>) -> Option<Seq<char>>
    decreases fs, 2nat,
{
    if fs.len() == 0 {
        Some(Seq::empty())
    } else {
        match render_struct_fields(fs.drop_last()) {
            Some(p) => match render_value(fs.last().value) {
                Some(r) => Some(
                    {
                        let entry = spec_json_string(fs.last().name) + seq![':'] + r;
                        if fs.len() == 1 {
                            entry
                        } else {
                            p + seq![','] + entry
                        }
                    },
                ),
                None => None,
            },
            None => None,
        }
    }
}

/// The rendering of a named value: an object with its name and value.
pub open spec fn render_value_node(vn: ValueNodeView) -> Option<Seq<char>>
    decreases vn, 1nat,
{
    match render_value(vn.value) {
        Some(rv) => Some(
            "{\"name\":"@ + spec_json_string(vn.name) + ",\"value\":"@ + rv + seq!['}'],
        ),
        None => None,
    }
}

/// The comma-joined decimal renderings of raw bytes.
pub open spec fn render_byte_list(bs: Seq<u8>) -> Seq<char>
    decreases bs.len(),
{
    if bs.len() == 0 {
        Seq::empty()
    } else {
        let r = spec_dec_digits(bs.last() as nat);
        if bs.len() == 1 {
            r
        } else {
            render_byte_list(bs.drop_last()) + seq![','] + r
        }
    }
}

proof fn lemma_render_value_list_prefix_fail(vs: Seq<TypedValueView>, k: int)
    requires
        0 <= k <= vs.len(),
        render_value_list(vs.take(k)) is None,
    ensures
        render_value_list(vs) is None,
    decreases vs.len(),
{
    if k < vs.len() {
        assert(vs.drop_last().take(k) =~= vs.take(k));
        lemma_render_value_list_prefix_fail(vs.drop_last(), k);
    } else {
        assert(vs.take(k) =~= vs);
    }
}

proof fn lemma_render_struct_fields_prefix_fail(fs: Seq<ValueNodeView>, k: int)
    requires
        0 <= k <= fs.len(),
        render_struct_fields(fs.take(k)) is None,
    ensures
        render_struct_fields(fs) is None,
    decreases fs.len(),
{
    if k < fs.len() {
        assert(fs.drop_last().take(k) =~= fs.take(k));
        lemma_render_struct_fields_prefix_fail(fs.drop_last(), k);
    } else {
        assert(fs.take(k) =~= fs);
    }
}

fn append_value_list_json(vs: &Vec<TypedValue>, out: &mut String) -> (r: Result<
    (),
    RenderError,
>)
    ensures
        match r {
            Ok(_) => (match render_value_list(value_seq_view(vs@)) {
                Some(body) => final(out)@ == old(out)@ + body,
                None => false,
            }),
            Err(_) => render_value_list(value_seq_view(vs@)) is None,
        },
    decreases *vs, 1nat,
{
    proof {
        lemma_value_seq_view(vs@);
    }
    let ghost full = value_seq_view(vs@);
    let mut i: usize = 0;
    proof {
        assert(full.take(0) =~= Seq::<TypedValueView>::empty());
    }
    while i < vs.len()
        invariant
            i <= vs@.len(),
            full == value_seq_view(vs@),
            full.len() == vs@.len(),
            forall|j: int| 0 <= j < vs@.len() ==> full[j] == value_view(vs@[j]),
            render_value_list(full.take(i as int)) matches Some(p) && out@ == old(out)@ + p,
        decreases vs@.len() - i,
    {
        proof {
            assert(full.take(i + 1).drop_last() =~= full.take(i as int));
            assert(full.take(i + 1).last() == full[i as int]);
        }
        if i > 0 {
            crate::text::push_char(out, ',');
        }
        match vs[i].append_json(out) {
            Ok(_) => {},
            Err(e) => {
                proof {
                    assert(render_value_list(full.take(i + 1)) is None);
                    lemma_render_value_list_prefix_fail(full, i + 1);
                }
                return Err(e);
            },
        }
        i = i + 1;
    }
    proof {
        assert(full.take(vs@.len() as int) =~= full);
    }
    Ok(())
}

fn append_struct_fields_json(fs: &Vec<ValueNode>, out: &mut String) -> (r: Result<
    (),
    RenderError,
>)
    ensures
        match r {
            Ok(_) => (match render_struct_fields(value_node_seq_view(fs@)) {
                Some(body) => final(out)@ == old(out)@ + body,
                None => false,
            }),
            Err(_) => render_struct_fields(value_node_seq_view(fs@)) is None,
        },
    decreases *fs, 1nat,
{
    proof {
        lemma_value_node_seq_view(fs@);
    }
    let ghost full = value_node_seq_view(fs@);
    let mut i: usize = 0;
    proof {
        assert(full.take(0) =~= Seq::<ValueNodeView>::empty());
    }
    while i < fs.len()
        invariant
            i <= fs@.len(),
            full == value_node_seq_view(fs@),
            full.len() == fs@.len(),
            forall|j: int| 0 <= j < fs@.len() ==> full[j] == value_node_view(fs@[j]),
            render_struct_fields(full.take(i as int)) matches Some(p) && out@ == old(out)@ + p,
        decreases fs@.len() - i,
    {
        proof {
            assert(full.take(i + 1).drop_last() =~= full.take(i as int));
            assert(full.take(i + 1).last() == full[i as int]);
        }
        if i > 0 {
            crate::text::push_char(out, ',');
        }
        crate::text::append_json_string(out, fs[i].name.as_str());
        crate::text::push_char(out, ':');
        match fs[i].value.append_json(out) {
            Ok(_) => {},
            Err(e) => {
                proof {
                    assert(render_struct_fields(full.take(i + 1)) is None);
                    lemma_render_struct_fields_prefix_fail(full, i + 1);
                }
                return Err(e);
            },
        }
        i = i + 1;
    }
    proof {
        assert(full.take(fs@.len() as int) =~= full);
    }
    Ok(())
}

fn append_byte_list_json(bs: &Vec<u8>, out: &mut String)
    ensures
        final(out)@ == old(out)@ + render_byte_list(bs@),
{
    let mut i: usize = 0;
    proof {
        assert(bs@.take(0) =~= Seq::<u8>::empty());
        assert(render_byte_list(bs@.take(0)) =~= Seq::<char>::empty());
    }
    while i < bs.len()
        invariant
            i <= bs@.len(),
            out@ == old(out)@ + render_byte_list(bs@.take(i as int)),
        decreases bs@.len() - i,
    {
        proof {
            assert(bs@.take(i + 1).drop_last() =~= bs@.take(i as int));
            assert(bs@.take(i + 1).last() == bs@[i as int]);
        }
        if i > 0 {
            crate::text::push_char(out, ',');
        }
        crate::text::append_dec_u64(out, bs[i] as u64);
        proof {
            assert(out@ =~= old(out)@ + render_byte_list(bs@.take(i + 1)));
        }
        i = i + 1;
    }
    proof {
        assert(bs@.take(bs@.len() as int) =~= bs@);
    }
}

impl TypedValue {
    /// Appends this value's rendering to `out`. Fails only on
    /// floating-point data, whose rendering the library does not define.
    #[verifier::spinoff_prover]
    #[verifier::rlimit(100)]
    pub fn append_json(&self, out: &mut String) -> (r: Result<(), RenderError>)
        ensures
            match r {
                Ok(_) => (match render_value(self@) {
                    Some(s) => final(out)@ == old(out)@ + s,
                    None => false,
                }),
                Err(_) => render_value(self@) is None,
            },
        decreases *self, 0nat,
    {
        match self {
            TypedValue::Empty => {
                crate::text::append_json_string(out, "");
                proof {
                    reveal_strlit("");
                    assert(""@ =~= Seq::<char>::empty());
                    assert(out@ =~= old(out)@ + spec_json_string(Seq::empty()));
                }
                Ok(())
            },
            TypedValue::Pubkey(s) => {
                crate::text::append_json_string(out, s.as_str());
                Ok(())
            },
            TypedValue::String(s) => {
                crate::text::append_json_string(out, s.as_str());
                Ok(())
            },
            TypedValue::I8(x) => {
                crate::text::append_dec_i64(out, *x as i64);
                Ok(())
            },
            TypedValue::U8(x) => {
                crate::text::append_dec_u64(out, *x as u64);
                Ok(())
            },
            TypedValue::I16(x) => {
                crate::text::append_dec_i64(out, *x as i64);
                Ok(())
            },
            TypedValue::U16(x) => {
                crate::text::append_dec_u64(out, *x as u64);
                Ok(())
            },
            TypedValue::I32(x) => {
                crate::text::append_dec_i64(out, *x as i64);
                Ok(())
            },
            TypedValue::U32(x) => {
                crate::text::append_dec_u64(out, *x as u64);
                Ok(())
            },
            TypedValue::I64(x) => {
                crate::text::push_char(out, '"');
                crate::text::append_dec_i64(out, *x);
                crate::text::push_char(out, '"');
                proof {
                    assert(out@ =~= old(out)@ + (seq!['"'] + spec_dec_int(*x as int)
                        + seq!['"']));
                }
                Ok(())
            },
            TypedValue::U64(x) => {
                crate::text::push_char(out, '"');
                crate::text::append_dec_u64(out, *x);
                crate::text::push_char(out, '"');
                proof {
                    assert(out@ =~= old(out)@ + (seq!['"'] + spec_dec_int(*x as int)
                        + seq!['"']));
                }
                Ok(())
            },
            TypedValue::I128(x) => {
                crate::text::push_char(out, '"');
                crate::text::append_dec_i128(out, *x);
                crate::text::push_char(out, '"');
                proof {
                    assert(out@ =~= old(out)@ + (seq!['"'] + spec_dec_int(*x as int)
                        + seq!['"']));
                }
                Ok(())
            },
            TypedValue::U128(x) => {
                crate::text::push_char(out, '"');
                crate::text::append_dec_u128(out, *x);
                crate::text::push_char(out, '"');
                proof {
                    assert(out@ =~= old(out)@ + (seq!['"'] + spec_dec_int(*x as int)
                        + seq!['"']));
                }
                Ok(())
            },
            TypedValue::F32Bits(_) => Err(
                RenderError::new("floating-point rendering is not defined here"),
            ),
            TypedValue::F64Bits(_) => Err(
                RenderError::new("floating-point rendering is not defined here"),
            ),
            TypedValue::Bool(b) => {
                if *b {
                    crate::text::append_lit(out, "true");
                } else {
                    crate::text::append_lit(out, "false");
                }
                Ok(())
            },
            TypedValue::Option(inner) => match &**inner {
                Some(v2) => v2.append_json(out),
                None => {
                    crate::text::append_lit(out, "null");
                    Ok(())
                },
            },
            TypedValue::Array(vs) => {
                crate::text::push_char(out, '[');
                append_value_list_json(vs, out)?;
                crate::text::push_char(out, ']');
                proof {
                    assert(out@ =~= old(out)@ + render_value(self@)->Some_0);
                }
                Ok(())
            },
            TypedValue::Tuple(vs) => {
                crate::text::push_char(out, '[');
                append_value_list_json(vs, out)?;
                crate::text::push_char(out, ']');
                proof {
                    assert(out@ =~= old(out)@ + render_value(self@)->Some_0);
                }
                Ok(())
            },
            TypedValue::Enum(bn) => {
                let is_empty = matches!((**bn).value, TypedValue::Empty);
                proof {
                    assert(is_empty == ((*bn)@.value is Empty));
                }
                if is_empty {
                    crate::text::append_json_string(out, (**bn).name.as_str());
                    Ok(())
                } else {
                    (**bn).append_json(out)
                }
            },
            TypedValue::Vec(vs) => {
                crate::text::push_char(out, '[');
                append_value_list_json(vs, out)?;
                crate::text::push_char(out, ']');
                proof {
                    assert(out@ =~= old(out)@ + render_value(self@)->Some_0);
                }
                Ok(())
            },
            TypedValue::Struct(fs) => {
                crate::text::push_char(out, '{');
                append_struct_fields_json(fs, out)?;
                crate::text::push_char(out, '}');
                proof {
                    assert(out@ =~= old(out)@ + render_value(self@)->Some_0);
                }
                Ok(())
            },
            TypedValue::Bytes(bs) => {
                crate::text::push_char(out, '[');
                append_byte_list_json(bs, out);
                crate::text::push_char(out, ']');
                proof {
                    assert(out@ =~= old(out)@ + render_value(self@)->Some_0);
                }
                Ok(())
            },
        }
    }

    /// This value's rendering as output text.
    pub fn to_json_string(&self) -> (r: Result<String, RenderError>)
        ensures
            match r {
                Ok(s) => render_value(self@) == Some(s@),
                Err(_) => render_value(self@) is None,
            },
    {
        let mut out = String::new();
        self.append_json(&mut out)?;
        proof {
            assert(out@ =~= render_value(self@)->Some_0);
        }
        Ok(out)
    }
}

impl ValueNode {
    /// Appends this named value's rendering to `out`.
    pub fn append_json(&self, out: &mut String) -> (r: Result<(), RenderError>)
        ensures
            match r {
                Ok(_) => (match render_value_node(self@) {
                    Some(s) => final(out)@ == old(out)@ + s,
                    None => false,
                }),
                Err(_) => render_value_node(self@) is None,
            },
        decreases *self, 2nat,
    {
        crate::text::append_lit(out, "{\"name\":");
        crate::text::append_json_string(out, self.name.as_str());
        crate::text::append_lit(out, ",\"value\":");
        self.value.append_json(out)?;
        crate::text::push_char(out, '}');
        proof {
            assert(out@ =~= old(out)@ + render_value_node(self@)->Some_0);
        }
        Ok(())
    }

    /// This named value's rendering as output text.
    pub fn to_json_string(&self) -> (r: Result<String, RenderError>)
        ensures
            match r {
                Ok(s) => render_value_node(self@) == Some(s@),
                Err(_) => render_value_node(self@) is None,
            },
    {
        let mut out = String::new();
        self.append_json(&mut out)?;
        proof {
            assert(out@ =~= render_value_node(self@)->Some_0);
        }
        Ok(out)
    }
}
} // verus!
