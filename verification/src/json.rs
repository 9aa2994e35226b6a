//! A loosely-typed document tree: the input of the IDL compiler, and the
//! boundary where the outside JSON parser hands over plain values.
use vstd::prelude::*;

verus! {

broadcast use vstd::std_specs::vec::group_vec_axioms, vstd::seq::group_seq_axioms, vstd::string::group_string_axioms;

/// One member of a document object.
#[derive(Debug)]
pub struct JsonMember {
    pub key: String,
    pub value: JsonValue,
}

/// A document tree node. A number is kept only as its unsigned 64-bit
/// reading; a number outside that range is `Num(None)`.
#[derive(Debug)]
pub enum JsonValue {
    Null,
    Bool(bool),
    Num(Option<u64>),
    Str(String),
    Array(Vec<JsonValue>),
    Object(Vec<JsonMember>),
}

/// Mathematical view of a `JsonMember`.
#[verifier::ext_equal]
pub struct JsonMemberView {
    pub key: Seq<char>,
    pub value: JsonView,
}

/// Mathematical view of a `JsonValue`.
#[verifier::ext_equal]
pub enum JsonView {
    Null,
    Bool(bool),
    Num(Option<u64>),
    Str(Seq<char>),
    Array(Seq<JsonView>),
    Object(Seq<JsonMemberView>),
}

pub open spec fn json_view(v: JsonValue) -> JsonView
    decreases v, 0nat,
{
    match v {
        JsonValue::Null => JsonView::Null,
        JsonValue::Bool(b) => JsonView::Bool(b),
        JsonValue::Num(n) => JsonView::Num(n),
        JsonValue::Str(s) => JsonView::Str(s@),
        JsonValue::Array(vs) => JsonView::Array(json_seq_view(vs@)),
        JsonValue::Object(ms) => JsonView::Object(json_members_view(ms@)),
    }
}

pub open spec fn json_member_view(m: JsonMember) -> JsonMemberView
    decreases m, 1nat,
{
    JsonMemberView { key: m.key@, value: json_view(m.value) }
}

pub open spec fn json_seq_view(vs: Seq<JsonValue>) -> Seq<JsonView>
    decreases vs, 1nat,
{
    if vs.len() == 0 {
        Seq::empty()
    } else {
        json_seq_view(vs.drop_last()).push(json_view(vs.last()))
    }
}

pub open spec fn json_members_view(ms: Seq<JsonMember>) -> Seq<JsonMemberView>
    decreases ms, 2nat,
{
    if ms.len() == 0 {
        Seq::empty()
    } else {
        json_members_view(ms.drop_last()).push(json_member_view(ms.last()))
    }
}

impl View for JsonValue {
    type V = JsonView;

    open spec fn view(&self) -> JsonView {
        json_view(*self)
    }
}

impl View for JsonMember {
    type V = JsonMemberView;

    open spec fn view(&self) -> JsonMemberView {
        json_member_view(*self)
    }
}

pub proof fn lemma_json_seq_view(vs: Seq<JsonValue>)
    ensures
        json_seq_view(vs).len() == vs.len(),
        forall|i: int| 0 <= i < vs.len() ==> json_seq_view(vs)[i] == json_view(vs[i]),
    decreases vs.len(),
{
    if vs.len() > 0 {
        lemma_json_seq_view(vs.drop_last());
        assert forall|i: int| 0 <= i < vs.len() implies json_seq_view(vs)[i] == json_view(
            vs[i],
        ) by {
            assert(json_seq_view(vs) == json_seq_view(vs.drop_last()).push(json_view(vs.last())));
            if i < vs.len() - 1 {
                assert(vs.drop_last()[i] == vs[i]);
                assert(json_seq_view(vs.drop_last()).push(json_view(vs.last()))[i]
                    == json_seq_view(vs.drop_last())[i]);
            } else {
                assert(vs.last() == vs[i]);
            }
        }
    }
}

pub proof fn lemma_json_members_view(ms: Seq<JsonMember>)
    ensures
        json_members_view(ms).len() == ms.len(),
        forall|i: int| 0 <= i < ms.len() ==> json_members_view(ms)[i] == json_member_view(ms[i]),
    decreases ms.len(),
{
    if ms.len() > 0 {
        lemma_json_members_view(ms.drop_last());
        assert forall|i: int| 0 <= i < ms.len() implies json_members_view(ms)[i]
            == json_member_view(ms[i]) by {
            assert(json_members_view(ms) == json_members_view(ms.drop_last()).push(
                json_member_view(ms.last()),
            ));
            if i < ms.len() - 1 {
                assert(ms.drop_last()[i] == ms[i]);
                assert(json_members_view(ms.drop_last()).push(json_member_view(ms.last()))[i]
                    == json_members_view(ms.drop_last())[i]);
            } else {
                assert(ms.last() == ms[i]);
            }
        }
    }
}

/// The first member with the given key, scanning in order.
pub open spec fn json_get(ms: Seq<JsonMemberView>, key: Seq<char>) -> Option<JsonView>
    decreases ms.len(),
{
    if ms.len() == 0 {
        None
    } else if ms.first().key == key {
        Some(ms.first().value)
    } else {
        json_get(ms.drop_first(), key)
    }
}

/// Looks a member up by key, scanning in order.
pub fn object_get<'a>(ms: &'a Vec<JsonMember>, key: &str) -> (r: Option<&'a JsonValue>)
    ensures
        match r {
            Some(v) => json_get(json_members_view(ms@), key@) == Some(v@),
            None => json_get(json_members_view(ms@), key@) is None,
        },
{
    proof {
        lemma_json_members_view(ms@);
    }
    let ghost full = json_members_view(ms@);
    let mut i: usize = 0;
    proof {
        assert(full.skip(0) =~= full);
    }
    while i < ms.len()
        invariant
            i <= ms@.len(),
            full == json_members_view(ms@),
            full.len() == ms@.len(),
            forall|j: int| 0 <= j < ms@.len() ==> full[j] == json_member_view(ms@[j]),
            json_get(full, key@) == json_get(full.skip(i as int), key@),
        decreases ms@.len() - i,
    {
        proof {
            assert(full.skip(i as int).len() > 0);
            assert(full.skip(i as int).first() == full[i as int]);
            assert(full.skip(i as int).drop_first() =~= full.skip(i + 1));
        }
        if crate::text::str_eq(ms[i].key.as_str(), key) {
            return Some(&ms[i].value);
        }
        i = i + 1;
    }
    proof {
        assert(full.skip(ms@.len() as int).len() == 0);
    }
    None
}


fn clone_json_vec(vs: &Vec<JsonValue>) -> (res: Vec<JsonValue>)
    ensures
        json_seq_view(res@) == json_seq_view(vs@),
    decreases *vs, 1nat,
{
    let mut out: Vec<JsonValue> = Vec::new();
    let mut i: usize = 0;
    while i < vs.len()
        invariant
            i <= vs.len(),
            out@.len() == i as nat,
            forall|j: int| 0 <= j < i ==> out@[j]@ == vs@[j]@,
        decreases vs.len() - i,
    {
        out.push(vs[i].clone());
        i = i + 1;
    }
    proof {
        lemma_json_seq_view(out@);
        lemma_json_seq_view(vs@);
        assert(json_seq_view(out@) =~= json_seq_view(vs@));
    }
    out
}

fn clone_member_vec(ms: &Vec<JsonMember>) -> (res: Vec<JsonMember>)
    ensures
        json_members_view(res@) == json_members_view(ms@),
    decreases *ms, 1nat,
{
    let mut out: Vec<JsonMember> = Vec::new();
    let mut i: usize = 0;
    while i < ms.len()
        invariant
            i <= ms.len(),
            out@.len() == i as nat,
            forall|j: int| 0 <= j < i ==> out@[j]@ == ms@[j]@,
        decreases ms.len() - i,
    {
        out.push(ms[i].clone());
        i = i + 1;
    }
    proof {
        lemma_json_members_view(out@);
        lemma_json_members_view(ms@);
        assert(json_members_view(out@) =~= json_members_view(ms@));
    }
    out
}

impl Clone for JsonValue {
    fn clone(&self) -> (res: Self)
        ensures
            res@ == self@,
        decreases *self, 0nat,
    {
        match self {
            JsonValue::Null => JsonValue::Null,
            JsonValue::Bool(b) => JsonValue::Bool(*b),
            JsonValue::Num(n) => JsonValue::Num(*n),
            JsonValue::Str(s) => JsonValue::Str(s.clone()),
            JsonValue::Array(vs) => JsonValue::Array(clone_json_vec(vs)),
            JsonValue::Object(ms) => JsonValue::Object(clone_member_vec(ms)),
        }
    }
}

impl Clone for JsonMember {
    fn clone(&self) -> (res: Self)
        ensures
            res@ == self@,
        decreases *self, 2nat,
    {
        JsonMember { key: self.key.clone(), value: self.value.clone() }
    }
}

/// What the outside JSON parser yields for a given document text; `None`
/// when the text is not well-formed JSON.
pub uninterp spec fn json_doc_of(s: Seq<char>) -> Option<JsonView>;

/// Relies on serde_json::from_str: parsing succeeds exactly on well-formed
/// JSON text and is a pure function of the text.
#[verifier::external_body]
pub fn json_parse(s: &str) -> (r: Option<JsonValue>)
    ensures
        match r {
            Some(v) => json_doc_of(s@) == Some(v@),
            None => json_doc_of(s@) is None,
        },
{
    match serde_json::from_str::<serde_json::Value>(s) {
        Ok(v) => Some(json_from_serde(v)),
        Err(_) => None,
    }
}

/// The outside JSON parser's own document type, declared so a value of it
/// can pass through the conversion below.
#[verifier::external_type_specification]
#[verifier::external_body]
pub struct ExSerdeValue(serde_json::Value);

/// Relies on the serde_json::Value document model; carries each of its
/// variants into the library's own tree, one arm each. Called only from
/// `json_parse`.
#[verifier::external_body]
fn json_from_serde(v: serde_json::Value) -> JsonValue {
    match v {
        serde_json::Value::Null => JsonValue::Null,
        serde_json::Value::Bool(b) => JsonValue::Bool(b),
        serde_json::Value::Number(n) => JsonValue::Num(n.as_u64()),
        serde_json::Value::String(s) => JsonValue::Str(s),
        serde_json::Value::Array(a) => JsonValue::Array(
            a.into_iter().map(json_from_serde).collect(),
        ),
        serde_json::Value::Object(o) => JsonValue::Object(
            o.into_iter().map(|(k, x)| JsonMember { key: k, value: json_from_serde(x) }).collect(),
        ),
    }
}

} // verus!
