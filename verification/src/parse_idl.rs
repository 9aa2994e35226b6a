//! The IDL compiler: consumes a loosely-typed document tree, builds a
//! named-type table, resolves references, computes discriminators, and
//! produces a program index.
use vstd::prelude::*;

use crate::errors::IdlError;
use crate::json::JsonMember;
use crate::json::JsonMemberView;
use crate::json::JsonValue;
use crate::json::JsonView;
use crate::json::json_get;
use crate::on_chain_idl::InstructionDecoder;
use crate::on_chain_idl::InstructionDecoderView;
use crate::on_chain_idl::OnChainIdl;
use crate::on_chain_idl::OnChainIdlView;
use crate::schema::SchemaNode;
use crate::schema::SchemaNodeView;
use crate::schema::SchemaType;
use crate::schema::SchemaTypeView;
use crate::schema::SmallVecLen;
use vstd::string::StrSliceExecFns;

verus! {

broadcast use vstd::std_specs::vec::group_vec_axioms, vstd::seq::group_seq_axioms, vstd::string::group_string_axioms;

/// True for the whitespace characters stripped from type descriptors.
pub open spec fn is_space(c: char) -> bool {
    c == ' ' || c == '\t' || c == '\n' || c == '\r'
}

pub open spec fn trim_start(s: Seq<char>) -> Seq<char>
    decreases s.len(),
{
    if s.len() > 0 && is_space(s[0]) {
        trim_start(s.drop_first())
    } else {
        s
    }
}

pub open spec fn trim_end(s: Seq<char>) -> Seq<char>
    decreases s.len(),
{
    if s.len() > 0 && is_space(s.last()) {
        trim_end(s.drop_last())
    } else {
        s
    }
}

/// The sequence with leading and trailing whitespace removed.
pub open spec fn spec_trim(s: Seq<char>) -> Seq<char> {
    trim_end(trim_start(s))
}

proof fn lemma_trim_start_len(s: Seq<char>)
    ensures
        trim_start(s).len() <= s.len(),
    decreases s.len(),
{
    if s.len() > 0 && is_space(s[0]) {
        lemma_trim_start_len(s.drop_first());
    }
}

proof fn lemma_trim_end_len(s: Seq<char>)
    ensures
        trim_end(s).len() <= s.len(),
    decreases s.len(),
{
    if s.len() > 0 && is_space(s.last()) {
        lemma_trim_end_len(s.drop_last());
    }
}

pub proof fn lemma_trim_len(s: Seq<char>)
    ensures
        spec_trim(s).len() <= s.len(),
{
    lemma_trim_start_len(s);
    lemma_trim_end_len(trim_start(s));
}

/// Trims leading and trailing whitespace.
fn trim_str<'a>(s: &'a str) -> (r: &'a str)
    ensures
        r@ == spec_trim(s@),
{
    let n = s.unicode_len();
    let mut i: usize = 0;
    proof {
        assert(s@.skip(0) =~= s@);
    }
    while i < n && space_at(s, i)
        invariant
            i <= n,
            n == s@.len(),
            trim_start(s@) == trim_start(s@.skip(i as int)),
        decreases n - i,
    {
        proof {
            assert(s@.skip(i as int)[0] == s@[i as int]);
            assert(s@.skip(i as int).drop_first() =~= s@.skip(i + 1));
        }
        i = i + 1;
    }
    proof {
        if i < n {
            assert(trim_start(s@.skip(i as int)) == s@.skip(i as int));
        } else {
            assert(s@.skip(i as int).len() == 0);
        }
        assert(trim_start(s@) == s@.skip(i as int));
        assert(s@.skip(i as int) =~= s@.subrange(i as int, n as int));
    }
    let mut j: usize = n;
    while j > i && space_at(s, j - 1)
        invariant
            i <= j <= n,
            n == s@.len(),
            trim_start(s@) == s@.subrange(i as int, n as int),
            trim_end(s@.subrange(i as int, n as int)) == trim_end(s@.subrange(i as int, j as int)),
        decreases j,
    {
        proof {
            assert(s@.subrange(i as int, j as int).last() == s@[j - 1]);
            assert(s@.subrange(i as int, j as int).drop_last() =~= s@.subrange(
                i as int,
                j - 1,
            ));
        }
        j = j - 1;
    }
    proof {
        if j > i {
            assert(s@.subrange(i as int, j as int).last() == s@[j - 1]);
            assert(trim_end(s@.subrange(i as int, j as int)) == s@.subrange(i as int, j as int));
        } else {
            assert(s@.subrange(i as int, j as int).len() == 0);
        }
    }
    s.substring_char(i, j)
}

fn space_at(s: &str, i: usize) -> (r: bool)
    requires
        i < s@.len(),
    ensures
        r == is_space(s@[i as int]),
{
    is_space_char(s.get_char(i))
}

fn is_space_char(c: char) -> (r: bool)
    ensures
        r == is_space(c),
{
    c == ' ' || c == '\t' || c == '\n' || c == '\r'
}

/// The position of the first occurrence of `c`, if any.
pub open spec fn first_index_of(s: Seq<char>, c: char) -> Option<nat>
    decreases s.len(),
{
    if s.len() == 0 {
        None
    } else if s[0] == c {
        Some(0)
    } else {
        match first_index_of(s.drop_first(), c) {
            Some(i) => Some(i + 1),
            None => None,
        }
    }
}

proof fn lemma_first_index_of(s: Seq<char>, c: char, i: int)
    requires
        0 <= i <= s.len(),
        forall|j: int| 0 <= j < i ==> s[j] != c,
        i < s.len() ==> s[i] == c,
    ensures
        i < s.len() ==> first_index_of(s, c) == Some(i as nat),
        i == s.len() ==> first_index_of(s, c) is None,
    decreases s.len(),
{
    if s.len() > 0 {
        if s[0] == c {
        } else {
            lemma_first_index_of(s.drop_first(), c, i - 1);
        }
    }
}

/// Finds the first occurrence of `c`, scanning by characters.
fn find_char(s: &str, c: char) -> (r: Option<usize>)
    ensures
        match r {
            Some(i) => first_index_of(s@, c) == Some(i as nat) && i < s@.len(),
            None => first_index_of(s@, c) is None,
        },
{
    let n = s.unicode_len();
    let mut i: usize = 0;
    while i < n
        invariant
            i <= n,
            n == s@.len(),
            forall|j: int| 0 <= j < i ==> s@[j] != c,
        decreases n - i,
    {
        if s.get_char(i) == c {
            proof {
                lemma_first_index_of(s@, c, i as int);
            }
            return Some(i);
        }
        i = i + 1;
    }
    proof {
        lemma_first_index_of(s@, c, n as int);
    }
    None
}

/// The numeric value of a decimal digit character; zero for others.
pub open spec fn digit_val(c: char) -> nat {
    if crate::text::spec_is_ascii_digit(c) {
        (c as u32 - 48) as nat
    } else {
        0
    }
}

pub open spec fn all_digits(s: Seq<char>) -> bool {
    forall|i: int| 0 <= i < s.len() ==> crate::text::spec_is_ascii_digit(#[trigger] s[i])
}

/// The value of a decimal digit string, most significant first.
pub open spec fn dec_value(s: Seq<char>) -> nat
    decreases s.len(),
{
    if s.len() == 0 {
        0
    } else {
        dec_value(s.drop_last()) * 10 + digit_val(s.last())
    }
}

proof fn lemma_dec_value_prefix(s: Seq<char>, i: int)
    requires
        0 <= i <= s.len(),
    ensures
        dec_value(s.take(i)) <= dec_value(s),
    decreases s.len(),
{
    if i < s.len() {
        assert(s.take(i) =~= s.drop_last().take(i));
        lemma_dec_value_prefix(s.drop_last(), i);
    } else {
        assert(s.take(i) =~= s);
    }
}

/// A decimal reading of a character sequence: defined exactly on nonempty
/// all-digit strings whose value fits the platform's size type.
pub open spec fn spec_parse_usize(s: Seq<char>) -> Option<usize> {
    if s.len() == 0 || !all_digits(s) || dec_value(s) > usize::MAX {
        None
    } else {
        Some(dec_value(s) as usize)
    }
}

/// Parses a decimal size, rejecting empty input, non-digits, and overflow.
fn parse_usize_str(s: &str) -> (r: Option<usize>)
    ensures
        r == spec_parse_usize(s@),
{
    let n = s.unicode_len();
    if n == 0 {
        return None;
    }
    let mut acc: usize = 0;
    let mut i: usize = 0;
    proof {
        assert(s@.take(0) =~= Seq::<char>::empty());
    }
    while i < n
        invariant
            i <= n,
            n == s@.len(),
            n > 0,
            all_digits(s@.take(i as int)),
            acc == dec_value(s@.take(i as int)),
        decreases n - i,
    {
        let c = s.get_char(i);
        if !crate::text::is_ascii_digit_char(c) {
            proof {
                assert(!all_digits(s@));
            }
            return None;
        }
        let d = ((c as u32) - 48) as usize;
        if acc > (usize::MAX - d) / 10 {
            proof {
                assert(s@.take(i + 1).drop_last() =~= s@.take(i as int));
                assert(s@.take(i + 1).last() == s@[i as int]);
                assert(dec_value(s@.take(i + 1)) == acc * 10 + d);
                assert(dec_value(s@.take(i + 1)) > usize::MAX) by (nonlinear_arith)
                    requires
                        acc > (usize::MAX - d) / 10,
                        dec_value(s@.take(i + 1)) == acc * 10 + d,
                        d < 10,
                        acc >= 0,
                {}
                lemma_dec_value_prefix(s@, i + 1);
            }
            return None;
        }
        proof {
            assert(s@.take(i + 1).drop_last() =~= s@.take(i as int));
            assert(s@.take(i + 1).last() == s@[i as int]);
            assert(acc * 10 + d <= usize::MAX) by (nonlinear_arith)
                requires
                    acc <= (usize::MAX - d) / 10,
                    d < 10,
                    acc >= 0,
            {}
        }
        acc = acc * 10 + d;
        i = i + 1;
    }
    proof {
        assert(s@.take(n as int) =~= s@);
    }
    Some(acc)
}

/// The lowercase form of an ASCII uppercase letter; other characters are
/// unchanged.
pub open spec fn ascii_lower(c: char) -> char {
    if 'A' <= c && c <= 'Z' {
        (((c as u32) + 32) as u8) as char
    } else {
        c
    }
}

/// Equality of two character sequences up to ASCII case.
pub open spec fn eq_ignore_ascii_case(a: Seq<char>, b: Seq<char>) -> bool {
    a.len() == b.len() && forall|i: int|
        0 <= i < a.len() ==> ascii_lower(#[trigger] a[i]) == ascii_lower(b[i])
}

fn ascii_lower_char(c: char) -> (r: char)
    ensures
        r == ascii_lower(c),
{
    let u = c as u32;
    if 65 <= u && u <= 90 {
        ((u + 32) as u8) as char
    } else {
        c
    }
}

/// Compares two strings up to ASCII case, character by character.
fn str_eq_ignore_ascii_case(a: &str, b: &str) -> (r: bool)
    ensures
        r == eq_ignore_ascii_case(a@, b@),
{
    let na = a.unicode_len();
    let nb = b.unicode_len();
    if na != nb {
        return false;
    }
    let mut i: usize = 0;
    while i < na
        invariant
            i <= na,
            na == a@.len(),
            na == b@.len(),
            forall|j: int| 0 <= j < i ==> ascii_lower(#[trigger] a@[j]) == ascii_lower(b@[j]),
        decreases na - i,
    {
        if ascii_lower_char(a.get_char(i)) != ascii_lower_char(b.get_char(i)) {
            return false;
        }
        i = i + 1;
    }
    true
}

/// One output piece of the snake-case conversion, for the character at
/// index `i`: an underscore is inserted before an uppercase letter that is
/// not at the start and is followed by a lowercase letter or a digit, and
/// every uppercase letter is replaced by its lowercase form.
pub open spec fn snake_piece(s: Seq<char>, i: int) -> Seq<char> {
    if crate::text::char_is_uppercase(s[i]) {
        (if i > 0 && i + 1 < s.len() && (crate::text::char_is_lowercase(s[i + 1])
            || crate::text::spec_is_ascii_digit(s[i + 1])) {
            seq!['_']
        } else {
            Seq::empty()
        }).push(crate::text::char_lowercase_first(s[i]))
    } else {
        seq![s[i]]
    }
}

pub open spec fn snake_prefix(s: Seq<char>, n: nat) -> Seq<char>
    decreases n,
{
    if n == 0 {
        Seq::empty()
    } else {
        snake_prefix(s, (n - 1) as nat) + snake_piece(s, n - 1)
    }
}

/// The snake-case form of a camel-case name.
pub open spec fn spec_snake_case(s: Seq<char>) -> Seq<char> {
    snake_prefix(s, s.len())
}

/// Converts a camel-case name to snake case: inserts an underscore before
/// an uppercase letter that follows the start and precedes a lowercase
/// letter or digit, then lowercases every letter.
pub fn camel_to_snake_case(s: &str) -> (r: String)
    ensures
        r@ == spec_snake_case(s@),
{
    let n = s.unicode_len();
    let mut result = String::new();
    let mut i: usize = 0;
    while i < n
        invariant
            i <= n,
            n == s@.len(),
            result@ == snake_prefix(s@, i as nat),
        decreases n - i,
    {
        let c = s.get_char(i);
        if crate::text::is_uppercase_char(c) {
            if i > 0 && i + 1 < n {
                let next = s.get_char(i + 1);
                if crate::text::is_lowercase_char(next) || crate::text::is_ascii_digit_char(next) {
                    crate::text::push_char(&mut result, '_');
                }
            }
            crate::text::push_char(&mut result, crate::text::lowercase_char(c));
        } else {
            crate::text::push_char(&mut result, c);
        }
        proof {
            assert(result@ =~= snake_prefix(s@, (i + 1) as nat));
        }
        i = i + 1;
    }
    result
}

/// The byte width that a discriminant type name declares.
pub open spec fn spec_disc_from_str(s: Seq<char>) -> u64 {
    if s == "u8"@ {
        1
    } else {
        8
    }
}

/// The byte width of a declared discriminant type: 1 for `u8`, 8 for `u64`;
/// no other name is accepted.
pub fn _get_disc_from_str(s: &str) -> (r: u64)
    requires
        s@ == "u8"@ || s@ == "u64"@,
    ensures
        r == spec_disc_from_str(s@),
{
    if crate::text::str_eq(s, "u8") {
        1
    } else {
        8
    }
}

/// The schema type named by a bare type string, including the bracket
/// shorthand for fixed arrays.
pub open spec fn spec_parse_raw(name: Seq<char>) -> Option<SchemaTypeView>
    decreases name.len(),
    via spec_parse_raw_decreases
{
    if name.len() >= 2 && name[0] == '[' && name.last() == ']' {
        let inner = name.subrange(1, name.len() - 1);
        match first_index_of(inner, ';') {
            None => None,
            Some(semi) => {
                let ty_s = spec_trim(inner.subrange(0, semi as int));
                let rest = inner.subrange(semi as int + 1, inner.len() as int);
                if first_index_of(rest, ';') is Some {
                    None
                } else {
                    let len_s = spec_trim(rest);
                    match spec_parse_usize(len_s) {
                        None => None,
                        Some(len) => match spec_parse_raw(ty_s) {
                            None => None,
                            Some(elem) => Some(SchemaTypeView::Array(len, Box::new(elem))),
                        },
                    }
                }
            },
        }
    } else if name == "pubkey"@ || name == "publicKey"@ {
        Some(SchemaTypeView::Pubkey)
    } else if name == "string"@ {
        Some(SchemaTypeView::String)
    } else if name == "i8"@ {
        Some(SchemaTypeView::I8)
    } else if name == "u8"@ {
        Some(SchemaTypeView::U8)
    } else if name == "i16"@ {
        Some(SchemaTypeView::I16)
    } else if name == "u16"@ {
        Some(SchemaTypeView::U16)
    } else if name == "i32"@ {
        Some(SchemaTypeView::I32)
    } else if name == "u32"@ {
        Some(SchemaTypeView::U32)
    } else if name == "i64"@ {
        Some(SchemaTypeView::I64)
    } else if name == "u64"@ {
        Some(SchemaTypeView::U64)
    } else if name == "i128"@ {
        Some(SchemaTypeView::I128)
    } else if name == "u128"@ {
        Some(SchemaTypeView::U128)
    } else if name == "f32"@ {
        Some(SchemaTypeView::F32)
    } else if name == "f64"@ {
        Some(SchemaTypeView::F64)
    } else if name == "bool"@ {
        Some(SchemaTypeView::Bool)
    } else if name == "bytes"@ {
        Some(SchemaTypeView::Vec(Box::new(SchemaTypeView::U8)))
    } else if name == "bytes_remaining"@ || name == "rest"@ {
        Some(SchemaTypeView::RemainingBytes)
    } else {
        None
    }
}

#[via_fn]
proof fn spec_parse_raw_decreases(name: Seq<char>) {
    if name.len() >= 2 && name[0] == '[' && name.last() == ']' {
        let inner = name.subrange(1, name.len() - 1);
        match first_index_of(inner, ';') {
            None => {},
            Some(semi) => {
                lemma_first_index_in_range(inner, ';');
                lemma_trim_len(inner.subrange(0, semi as int));
            },
        }
    }
}

proof fn lemma_first_index_in_range(s: Seq<char>, c: char)
    ensures
        match first_index_of(s, c) {
            Some(i) => i < s.len(),
            None => true,
        },
    decreases s.len(),
{
    if s.len() > 0 && s[0] != c {
        lemma_first_index_in_range(s.drop_first(), c);
    }
}

/// The size of a document node, counting every node once; used as the
/// termination measure of the resolver.
pub open spec fn json_size(v: JsonView) -> nat
    decreases v, 0nat,
{
    1 + match v {
        JsonView::Array(vs) => json_seq_size(vs),
        JsonView::Object(ms) => json_members_size(ms),
        _ => 0,
    }
}

pub open spec fn json_seq_size(vs: Seq<JsonView>) -> nat
    decreases vs, 1nat,
{
    if vs.len() == 0 {
        0
    } else {
        json_seq_size(vs.drop_last()) + json_size(vs.last())
    }
}

pub open spec fn json_members_size(ms: Seq<JsonMemberView>) -> nat
    decreases ms, 2nat,
{
    if ms.len() == 0 {
        0
    } else {
        1 + json_size(ms.first().value) + json_members_size(ms.drop_first())
    }
}

proof fn lemma_json_size_pos(v: JsonView)
    ensures
        json_size(v) >= 1,
{
}

proof fn lemma_json_seq_size_elem(vs: Seq<JsonView>, i: int)
    requires
        0 <= i < vs.len(),
    ensures
        json_size(vs[i]) <= json_seq_size(vs),
    decreases vs.len(),
{
    if i < vs.len() - 1 {
        assert(vs.drop_last()[i] == vs[i]);
        lemma_json_seq_size_elem(vs.drop_last(), i);
    } else {
        lemma_json_size_pos(vs.last());
    }
}

proof fn lemma_json_members_size_get(ms: Seq<JsonMemberView>, key: Seq<char>)
    ensures
        match json_get(ms, key) {
            Some(v) => json_size(v) <= json_members_size(ms),
            None => true,
        },
    decreases ms.len(),
{
    if ms.len() > 0 {
        if ms.first().key == key {
        } else {
            lemma_json_members_size_get(ms.drop_first(), key);
        }
    }
}

/// The first entry of the type table under the given name.
pub open spec fn table_get(table: Seq<(Seq<char>, JsonView)>, name: Seq<char>) -> Option<JsonView>
    decreases table.len(),
{
    if table.len() == 0 {
        None
    } else if table.first().0 == name {
        Some(table.first().1)
    } else {
        table_get(table.drop_first(), name)
    }
}

/// The names of the table entries.
pub open spec fn table_names(table: Seq<(Seq<char>, JsonView)>) -> Seq<Seq<char>> {
    Seq::new(table.len(), |i: int| table[i].0)
}

/// How many more named types may still be entered before resolution gives
/// up: the resolution depth is bounded by the table size.
pub open spec fn resolve_budget(table_len: nat, visiting_len: nat) -> nat {
    if table_len >= visiting_len {
        (table_len - visiting_len) as nat
    } else {
        0
    }
}

/// Resolves a named type from the table. `visiting` holds the names on the
/// current resolution path; a name that is reached again before it finishes
/// resolving is a reference cycle and is rejected.
pub open spec fn spec_parse_type(
    table: Seq<(Seq<char>, JsonView)>,
    name: Seq<char>,
    visiting: Seq<Seq<char>>,
) -> Option<SchemaNodeView>
    decreases resolve_budget(table.len(), visiting.len()), 0nat, 0nat, 0nat,
{
    if visiting.contains(name) {
        None
    } else {
        match table_get(table, name) {
            None => None,
            Some(entry) => if visiting.len() >= table.len() {
                None
            } else {
                spec_parse_typedef(table, visiting.push(name), name, entry)
            },
        }
    }
}

/// Resolves one table entry by kind: a struct yields its ordered field
/// list, an enum its ordered variant list; other kinds are rejected.
pub open spec fn spec_parse_typedef(
    table: Seq<(Seq<char>, JsonView)>,
    visiting: Seq<Seq<char>>,
    name: Seq<char>,
    entry: JsonView,
) -> Option<SchemaNodeView>
    decreases resolve_budget(table.len(), visiting.len()), 1nat, json_size(entry), 3nat,
    via spec_parse_typedef_decreases
{
    match entry {
        JsonView::Object(ms) => match json_get(ms, "type"@) {
            Some(JsonView::Object(tps)) => match json_get(tps, "kind"@) {
                Some(JsonView::Str(kind)) => if kind == "struct"@ {
                    match json_get(tps, "fields"@) {
                        Some(JsonView::Array(fs)) => match spec_parse_fields(
                            table,
                            visiting,
                            fs,
                        ) {
                            Some(nodes) => Some(
                                SchemaNodeView {
                                    name: name,
                                    typ: SchemaTypeView::Struct(nodes),
                                    is_hidden: false,
                                },
                            ),
                            None => None,
                        },
                        _ => None,
                    }
                } else if kind == "enum"@ {
                    match json_get(tps, "variants"@) {
                        Some(JsonView::Array(vs)) => match spec_parse_variants(
                            table,
                            visiting,
                            vs,
                        ) {
                            Some(nodes) => Some(
                                SchemaNodeView {
                                    name: name,
                                    typ: SchemaTypeView::Enum(nodes),
                                    is_hidden: false,
                                },
                            ),
                            None => None,
                        },
                        _ => None,
                    }
                } else {
                    None
                },
                _ => None,
            },
            _ => None,
        },
        _ => None,
    }
}

#[via_fn]
proof fn spec_parse_typedef_decreases(
    table: Seq<(Seq<char>, JsonView)>,
    visiting: Seq<Seq<char>>,
    name: Seq<char>,
    entry: JsonView,
) {
    match entry {
        JsonView::Object(ms) => {
            lemma_json_members_size_get(ms, "type"@);
            match json_get(ms, "type"@) {
                Some(JsonView::Object(tps)) => {
                    lemma_json_members_size_get(tps, "fields"@);
                    lemma_json_members_size_get(tps, "variants"@);
                },
                _ => {},
            }
        },
        _ => {},
    }
}

#[via_fn]
proof fn spec_parse_fields_decreases(
    table: Seq<(Seq<char>, JsonView)>,
    visiting: Seq<Seq<char>>,
    fields: Seq<JsonView>,
) {
    if fields.len() > 0 {
        lemma_json_size_pos(fields.last());
        lemma_json_seq_size_elem(fields, fields.len() - 1);
    }
}

#[via_fn]
proof fn spec_parse_field_inner_decreases(
    table: Seq<(Seq<char>, JsonView)>,
    visiting: Seq<Seq<char>>,
    ft: JsonView,
) {
    match ft {
        JsonView::Object(ms) => {
            if ms.len() > 0 {
                assert(json_size(ms[0].value) <= json_members_size(ms)) by {
                    assert(ms.first() == ms[0]);
                }
                match ms[0].value {
                    JsonView::Array(arr) => {
                        if arr.len() >= 2 {
                            lemma_json_seq_size_elem(arr, 0);
                        }
                    },
                    _ => {},
                }
            }
        },
        _ => {},
    }
}

/// Resolves an ordered field list into schema nodes.
pub open spec fn spec_parse_fields(
    table: Seq<(Seq<char>, JsonView)>,
    visiting: Seq<Seq<char>>,
    fields: Seq<JsonView>,
) -> Option<Seq<SchemaNodeView>>
    decreases resolve_budget(table.len(), visiting.len()), 1nat, json_seq_size(fields), 2nat,
    via spec_parse_fields_decreases
{
    if fields.len() == 0 {
        Some(Seq::empty())
    } else {
        match spec_parse_fields(table, visiting, fields.drop_last()) {
            Some(nodes) => match spec_parse_field(table, visiting, fields.last()) {
                Some(node) => Some(nodes.push(node)),
                None => None,
            },
            None => None,
        }
    }
}

/// Resolves one field: its name, and its type via the field-type resolver.
/// A field that is not an object, or that carries no type member, is read
/// whole as an anonymous type description.
pub open spec fn spec_parse_field(
    table: Seq<(Seq<char>, JsonView)>,
    visiting: Seq<Seq<char>>,
    field: JsonView,
) -> Option<SchemaNodeView>
    decreases resolve_budget(table.len(), visiting.len()), 1nat, json_size(field), 1nat,
    via spec_parse_field_decreases
{
    match field {
        JsonView::Object(ms) => match json_get(ms, "type"@) {
            Some(ft) => {
                let fname = match json_get(ms, "name"@) {
                    Some(JsonView::Str(s)) => s,
                    _ => Seq::empty(),
                };
                match spec_parse_field_inner(table, visiting, ft) {
                    Some(t) => Some(SchemaNodeView { name: fname, typ: t, is_hidden: false }),
                    None => None,
                }
            },
            None => match spec_parse_field_inner(table, visiting, field) {
                Some(t) => Some(SchemaNodeView { name: Seq::empty(), typ: t, is_hidden: false }),
                None => None,
            },
        },
        _ => match spec_parse_field_inner(table, visiting, field) {
            Some(t) => Some(SchemaNodeView { name: Seq::empty(), typ: t, is_hidden: false }),
            None => None,
        },
    }
}

#[via_fn]
proof fn spec_parse_field_decreases(
    table: Seq<(Seq<char>, JsonView)>,
    visiting: Seq<Seq<char>>,
    field: JsonView,
) {
    match field {
        JsonView::Object(ms) => {
            lemma_json_members_size_get(ms, "type"@);
        },
        _ => {},
    }
}

/// True when the descriptor names the `SmallVec` shorthand: the text
/// `SmallVec<`, two comma-separated parameters, and a closing `>`.
pub open spec fn is_small_vec_descriptor(s: Seq<char>) -> bool {
    s.len() >= 10 && s.subrange(0, 9) == "SmallVec<"@ && s.last() == '>'
}

/// The built-in element readings of a `SmallVec` descriptor parameter;
/// a name that is none of these refers to a defined type.
pub open spec fn small_vec_builtin_elem(s: Seq<char>) -> Option<SchemaTypeView> {
    if eq_ignore_ascii_case(s, "pubkey"@) || eq_ignore_ascii_case(s, "publickey"@) {
        Some(SchemaTypeView::Pubkey)
    } else if s == "string"@ {
        Some(SchemaTypeView::String)
    } else if s == "i8"@ {
        Some(SchemaTypeView::I8)
    } else if s == "u8"@ {
        Some(SchemaTypeView::U8)
    } else if s == "i16"@ {
        Some(SchemaTypeView::I16)
    } else if s == "u16"@ {
        Some(SchemaTypeView::U16)
    } else if s == "i32"@ {
        Some(SchemaTypeView::I32)
    } else if s == "u32"@ {
        Some(SchemaTypeView::U32)
    } else if s == "i64"@ {
        Some(SchemaTypeView::I64)
    } else if s == "u64"@ {
        Some(SchemaTypeView::U64)
    } else if s == "i128"@ {
        Some(SchemaTypeView::I128)
    } else if s == "u128"@ {
        Some(SchemaTypeView::U128)
    } else if s == "f32"@ {
        Some(SchemaTypeView::F32)
    } else if s == "f64"@ {
        Some(SchemaTypeView::F64)
    } else if s == "bool"@ {
        Some(SchemaTypeView::Bool)
    } else {
        None
    }
}

/// Maps a type description into a schema type: bare names, the object
/// forms for sequences, options and arrays, and defined-type references,
/// including the `SmallVec` descriptor shorthand.
pub open spec fn spec_parse_field_inner(
    table: Seq<(Seq<char>, JsonView)>,
    visiting: Seq<Seq<char>>,
    ft: JsonView,
) -> Option<SchemaTypeView>
    decreases resolve_budget(table.len(), visiting.len()), 1nat, json_size(ft), 0nat,
    via spec_parse_field_inner_decreases
{
    match ft {
        JsonView::Object(ms) => if ms.len() == 0 {
            None
        } else {
            let key = ms[0].key;
            let value = ms[0].value;
            if key == "vec"@ {
                match (match value {
                    JsonView::Object(_) => spec_parse_field_inner(table, visiting, value),
                    JsonView::Str(s) => spec_parse_raw(s),
                    _ => None,
                }) {
                    Some(inner) => Some(SchemaTypeView::Vec(Box::new(inner))),
                    None => None,
                }
            } else if key == "option"@ {
                match (match value {
                    JsonView::Object(_) => spec_parse_field_inner(table, visiting, value),
                    JsonView::Str(s) => spec_parse_raw(s),
                    _ => None,
                }) {
                    Some(inner) => Some(SchemaTypeView::Option(Box::new(inner))),
                    None => None,
                }
            } else if key == "array"@ {
                match value {
                    JsonView::Array(arr) => if arr.len() < 2 {
                        None
                    } else {
                        match arr[1] {
                            JsonView::Num(Some(size)) => if size > usize::MAX {
                                None
                            } else {
                                match (match arr[0] {
                                    JsonView::Object(_) => spec_parse_field_inner(
                                        table,
                                        visiting,
                                        arr[0],
                                    ),
                                    JsonView::Str(s) => spec_parse_raw(s),
                                    _ => None,
                                }) {
                                    Some(inner) => Some(
                                        SchemaTypeView::Array(size as usize, Box::new(inner)),
                                    ),
                                    None => None,
                                }
                            },
                            _ => None,
                        }
                    },
                    _ => None,
                }
            } else if key == "defined"@ {
                match value {
                    JsonView::Str(s) => if is_small_vec_descriptor(s) {
                        let inner = s.subrange(9, s.len() - 1);
                        match first_index_of(inner, ',') {
                            None => None,
                            Some(comma) => {
                                let len_s = spec_trim(inner.subrange(0, comma as int));
                                let elem_rest = inner.subrange(comma as int + 1, inner.len() as int);
                                if first_index_of(elem_rest, ',') is Some {
                                    None
                                } else {
                                    let elem_s = spec_trim(elem_rest);
                                    let lw = if len_s == "u8"@ {
                                        Some(SmallVecLen::U8)
                                    } else if len_s == "u16"@ {
                                        Some(SmallVecLen::U16)
                                    } else {
                                        None
                                    };
                                    match lw {
                                        None => None,
                                        Some(w) => {
                                            let elem_ty = match small_vec_builtin_elem(elem_s) {
                                                Some(t) => Some(t),
                                                None => match spec_parse_type(
                                                    table,
                                                    elem_s,
                                                    visiting,
                                                ) {
                                                    Some(n) => Some(n.typ),
                                                    None => None,
                                                },
                                            };
                                            match elem_ty {
                                                Some(t) => Some(
                                                    SchemaTypeView::SmallVec(w, Box::new(t)),
                                                ),
                                                None => None,
                                            }
                                        },
                                    }
                                }
                            },
                        }
                    } else {
                        match spec_parse_type(table, s, visiting) {
                            Some(n) => Some(n.typ),
                            None => None,
                        }
                    },
                    _ => None,
                }
            } else {
                None
            }
        },
        JsonView::Str(s) => spec_parse_raw(s),
        _ => None,
    }
}

/// Resolves an ordered variant list: a variant with a field list wraps a
/// nested struct; one without carries no payload.
pub open spec fn spec_parse_variants(
    table: Seq<(Seq<char>, JsonView)>,
    visiting: Seq<Seq<char>>,
    variants: Seq<JsonView>,
) -> Option<Seq<SchemaNodeView>>
    decreases resolve_budget(table.len(), visiting.len()), 1nat, json_seq_size(variants), 2nat,
    via spec_parse_variants_decreases
{
    if variants.len() == 0 {
        Some(Seq::empty())
    } else {
        match spec_parse_variants(table, visiting, variants.drop_last()) {
            Some(nodes) => match variants.last() {
                JsonView::Object(ms) => match json_get(ms, "name"@) {
                    Some(JsonView::Str(vname)) => match json_get(ms, "fields"@) {
                        Some(fv) => match fv {
                            JsonView::Array(fs) => match spec_parse_fields(table, visiting, fs) {
                                Some(fnodes) => Some(
                                    nodes.push(
                                        SchemaNodeView {
                                            name: vname,
                                            typ: SchemaTypeView::Struct(fnodes),
                                            is_hidden: false,
                                        },
                                    ),
                                ),
                                None => None,
                            },
                            _ => None,
                        },
                        None => Some(
                            nodes.push(
                                SchemaNodeView {
                                    name: vname,
                                    typ: SchemaTypeView::Empty,
                                    is_hidden: false,
                                },
                            ),
                        ),
                    },
                    _ => None,
                },
                _ => None,
            },
            None => None,
        }
    }
}

#[via_fn]
proof fn spec_parse_variants_decreases(
    table: Seq<(Seq<char>, JsonView)>,
    visiting: Seq<Seq<char>>,
    variants: Seq<JsonView>,
) {
    if variants.len() > 0 {
        lemma_json_size_pos(variants.last());
        lemma_json_seq_size_elem(variants, variants.len() - 1);
        match variants.last() {
            JsonView::Object(ms) => {
                lemma_json_members_size_get(ms, "fields"@);
            },
            _ => {},
        }
    }
}

/// The schema type named by a bare type string: primitives by name, and the
/// bracket shorthand for fixed arrays; an unknown name is rejected.
pub fn parse_raw_schema_type(name: &str) -> (r: Result<SchemaType, IdlError>)
    ensures
        match r {
            Ok(t) => spec_parse_raw(name@) == Some(t@),
            Err(_) => spec_parse_raw(name@) is None,
        },
    decreases name@.len(),
{
    let n = name.unicode_len();
    if n >= 2 && name.get_char(0) == '[' && name.get_char(n - 1) == ']' {
        let inner = name.substring_char(1, n - 1);
        proof {
            assert(inner@ == name@.subrange(1, name@.len() - 1));
        }
        match find_char(inner, ';') {
            None => Err(IdlError::new("array shorthand is missing a length")),
            Some(semi) => {
                let ty_part = inner.substring_char(0, semi);
                let rest = inner.substring_char(semi + 1, inner.unicode_len());
                if find_char(rest, ';').is_some() {
                    return Err(IdlError::new("array shorthand has extra parts"));
                }
                let ty_s = trim_str(ty_part);
                let len_s = trim_str(rest);
                proof {
                    lemma_trim_len(ty_part@);
                    lemma_first_index_in_range(inner@, ';');
                }
                proof {
                    assert(ty_s@ == spec_trim(inner@.subrange(0, semi as int)));
                    assert(rest@ == inner@.subrange(semi as int + 1, inner@.len() as int));
                }
                match parse_usize_str(len_s) {
                    None => Err(IdlError::new("array shorthand length is not a size")),
                    Some(len) => {
                        let elem = parse_raw_schema_type(ty_s)?;
                        let t = SchemaType::Array(len, Box::new(elem));
                        proof {
                            assert(t@ == SchemaTypeView::Array(len, Box::new(elem@)));
                            assert(spec_parse_raw(name@) == Some(t@));
                        }
                        Ok(t)
                    },
                }
            },
        }
    } else if crate::text::str_eq(name, "pubkey") || crate::text::str_eq(name, "publicKey") {
        Ok(SchemaType::Pubkey)
    } else if crate::text::str_eq(name, "string") {
        Ok(SchemaType::String)
    } else if crate::text::str_eq(name, "i8") {
        Ok(SchemaType::I8)
    } else if crate::text::str_eq(name, "u8") {
        Ok(SchemaType::U8)
    } else if crate::text::str_eq(name, "i16") {
        Ok(SchemaType::I16)
    } else if crate::text::str_eq(name, "u16") {
        Ok(SchemaType::U16)
    } else if crate::text::str_eq(name, "i32") {
        Ok(SchemaType::I32)
    } else if crate::text::str_eq(name, "u32") {
        Ok(SchemaType::U32)
    } else if crate::text::str_eq(name, "i64") {
        Ok(SchemaType::I64)
    } else if crate::text::str_eq(name, "u64") {
        Ok(SchemaType::U64)
    } else if crate::text::str_eq(name, "i128") {
        Ok(SchemaType::I128)
    } else if crate::text::str_eq(name, "u128") {
        Ok(SchemaType::U128)
    } else if crate::text::str_eq(name, "f32") {
        Ok(SchemaType::F32)
    } else if crate::text::str_eq(name, "f64") {
        Ok(SchemaType::F64)
    } else if crate::text::str_eq(name, "bool") {
        Ok(SchemaType::Bool)
    } else if crate::text::str_eq(name, "bytes") {
        let t = SchemaType::Vec(Box::new(SchemaType::U8));
        proof {
            reveal_with_fuel(crate::schema::type_view, 2);
            assert(t@ == SchemaTypeView::Vec(Box::new(SchemaTypeView::U8)));
        }
        Ok(t)
    } else if crate::text::str_eq(name, "bytes_remaining") || crate::text::str_eq(name, "rest") {
        Ok(SchemaType::RemainingBytes)
    } else {
        Err(IdlError::new("unknown type name"))
    }
}


/// A failing prefix makes the whole field list fail.
proof fn lemma_parse_fields_prefix_fail(
    table: Seq<(Seq<char>, JsonView)>,
    visiting: Seq<Seq<char>>,
    s: Seq<JsonView>,
    k: int,
)
    requires
        0 <= k <= s.len(),
        spec_parse_fields(table, visiting, s.take(k)) is None,
    ensures
        spec_parse_fields(table, visiting, s) is None,
    decreases s.len(),
{
    if k < s.len() {
        assert(s.drop_last().take(k) =~= s.take(k));
        lemma_parse_fields_prefix_fail(table, visiting, s.drop_last(), k);
    } else {
        assert(s.take(k) =~= s);
    }
}

/// A failing prefix makes the whole variant list fail.
proof fn lemma_parse_variants_prefix_fail(
    table: Seq<(Seq<char>, JsonView)>,
    visiting: Seq<Seq<char>>,
    s: Seq<JsonView>,
    k: int,
)
    requires
        0 <= k <= s.len(),
        spec_parse_variants(table, visiting, s.take(k)) is None,
    ensures
        spec_parse_variants(table, visiting, s) is None,
    decreases s.len(),
{
    if k < s.len() {
        assert(s.drop_last().take(k) =~= s.take(k));
        lemma_parse_variants_prefix_fail(table, visiting, s.drop_last(), k);
    } else {
        assert(s.take(k) =~= s);
    }
}

/// Mathematical view of the exec type table.
pub open spec fn table_view(t: Seq<(String, JsonValue)>) -> Seq<(Seq<char>, JsonView)> {
    Seq::new(t.len(), |i: int| (t[i].0@, crate::json::json_view(t[i].1)))
}

/// Mathematical view of the resolved schema map.
pub open spec fn schema_pairs_view(t: Seq<(String, SchemaNode)>) -> Seq<
    (Seq<char>, SchemaNodeView),
> {
    Seq::new(t.len(), |i: int| (t[i].0@, crate::schema::node_view(t[i].1)))
}

use crate::on_chain_idl::strings_view;

fn table_lookup<'a>(table: &'a Vec<(String, JsonValue)>, name: &str) -> (r: Option<
    &'a JsonValue,
>)
    ensures
        match r {
            Some(v) => table_get(table_view(table@), name@) == Some(v@),
            None => table_get(table_view(table@), name@) is None,
        },
{
    let ghost full = table_view(table@);
    let mut i: usize = 0;
    proof {
        assert(full.skip(0) =~= full);
    }
    while i < table.len()
        invariant
            i <= table@.len(),
            full == table_view(table@),
            full.len() == table@.len(),
            table_get(full, name@) == table_get(full.skip(i as int), name@),
        decreases table@.len() - i,
    {
        proof {
            assert(full.skip(i as int).len() > 0);
            assert(full.skip(i as int).first() == full[i as int]);
            assert(full.skip(i as int).drop_first() =~= full.skip(i + 1));
        }
        if crate::text::str_eq(table[i].0.as_str(), name) {
            return Some(&table[i].1);
        }
        i = i + 1;
    }
    proof {
        assert(full.skip(table@.len() as int).len() == 0);
    }
    None
}

fn contains_string(ss: &Vec<String>, name: &str) -> (r: bool)
    ensures
        r == strings_view(ss@).contains(name@),
{
    let mut i: usize = 0;
    while i < ss.len()
        invariant
            i <= ss@.len(),
            forall|j: int| 0 <= j < i ==> ss@[j]@ != name@,
        decreases ss@.len() - i,
    {
        if crate::text::str_eq(ss[i].as_str(), name) {
            proof {
                assert(strings_view(ss@)[i as int] == name@);
            }
            return true;
        }
        i = i + 1;
    }
    proof {
        assert forall|k: int| 0 <= k < strings_view(ss@).len() implies strings_view(ss@)[k]
            != name@ by {}
    }
    false
}

fn clone_string_vec(ss: &Vec<String>) -> (r: Vec<String>)
    ensures
        r@.len() == ss@.len(),
        forall|j: int| 0 <= j < ss@.len() ==> r@[j]@ == ss@[j]@,
{
    let mut out: Vec<String> = Vec::new();
    let mut i: usize = 0;
    while i < ss.len()
        invariant
            i <= ss@.len(),
            out@.len() == i as nat,
            forall|j: int| 0 <= j < i ==> out@[j]@ == ss@[j]@,
        decreases ss@.len() - i,
    {
        out.push(ss[i].clone());
        i = i + 1;
    }
    out
}

/// Resolves a named type from the table, rejecting reference cycles.
fn resolve_type(
    table: &Vec<(String, JsonValue)>,
    name: &str,
    visiting: &Vec<String>,
) -> (r: Result<SchemaNode, IdlError>)
    ensures
        match r {
            Ok(n) => spec_parse_type(table_view(table@), name@, strings_view(visiting@)) == Some(
                n@,
            ),
            Err(_) => spec_parse_type(table_view(table@), name@, strings_view(visiting@)) is None,
        },
    decreases resolve_budget(table@.len(), visiting@.len()), 0nat, 0nat, 0nat,
{
    if contains_string(visiting, name) {
        return Err(IdlError::new("type reference cycle"));
    }
    let entry = match table_lookup(table, name) {
        Some(e) => e,
        None => {
            return Err(IdlError::new("type not found in type map"));
        },
    };
    if visiting.len() >= table.len() {
        return Err(IdlError::new("type resolution is too deep"));
    }
    let mut extended = clone_string_vec(visiting);
    extended.push(name.to_owned());
    proof {
        assert(strings_view(extended@) =~= strings_view(visiting@).push(name@));
    }
    resolve_typedef(table, &extended, name, entry)
}

/// Resolves one table entry by kind.
fn resolve_typedef(
    table: &Vec<(String, JsonValue)>,
    visiting: &Vec<String>,
    name: &str,
    entry: &JsonValue,
) -> (r: Result<SchemaNode, IdlError>)
    ensures
        match r {
            Ok(n) => spec_parse_typedef(
                table_view(table@),
                strings_view(visiting@),
                name@,
                entry@,
            ) == Some(n@),
            Err(_) => spec_parse_typedef(
                table_view(table@),
                strings_view(visiting@),
                name@,
                entry@,
            ) is None,
        },
    decreases resolve_budget(table@.len(), visiting@.len()), 1nat, json_size(entry@), 3nat,
{
    let ms = match entry {
        JsonValue::Object(ms) => ms,
        _ => {
            return Err(IdlError::new("type entry is not an object"));
        },
    };
    let tv = match crate::json::object_get(ms, "type") {
        Some(v) => v,
        None => {
            return Err(IdlError::new("type entry has no type member"));
        },
    };
    let tps = match tv {
        JsonValue::Object(tps) => tps,
        _ => {
            return Err(IdlError::new("type member is not an object"));
        },
    };
    let kv = match crate::json::object_get(tps, "kind") {
        Some(v) => v,
        None => {
            return Err(IdlError::new("kind is not a string"));
        },
    };
    let kind = match kv {
        JsonValue::Str(kind) => kind,
        _ => {
            return Err(IdlError::new("kind is not a string"));
        },
    };
    proof {
        crate::json::lemma_json_members_view(ms@);
        lemma_json_members_size_get(crate::json::json_members_view(ms@), "type"@);
        crate::json::lemma_json_members_view(tps@);
        lemma_json_members_size_get(crate::json::json_members_view(tps@), "fields"@);
        lemma_json_members_size_get(crate::json::json_members_view(tps@), "variants"@);
    }
    if crate::text::str_eq(kind.as_str(), "struct") {
        let fv = match crate::json::object_get(tps, "fields") {
            Some(v) => v,
            None => {
                return Err(IdlError::new("fields is not an array"));
            },
        };
        let fs = match fv {
            JsonValue::Array(fs) => fs,
            _ => {
                return Err(IdlError::new("fields is not an array"));
            },
        };
        let nodes = resolve_fields(table, visiting, fs)?;
        Ok(SchemaNode { name: name.to_owned(), typ: SchemaType::Struct(nodes), is_hidden: false })
    } else if crate::text::str_eq(kind.as_str(), "enum") {
        let vv = match crate::json::object_get(tps, "variants") {
            Some(v) => v,
            None => {
                return Err(IdlError::new("variants is not an array"));
            },
        };
        let vs = match vv {
            JsonValue::Array(vs) => vs,
            _ => {
                return Err(IdlError::new("variants is not an array"));
            },
        };
        let nodes = resolve_variants(table, visiting, vs)?;
        Ok(SchemaNode { name: name.to_owned(), typ: SchemaType::Enum(nodes), is_hidden: false })
    } else {
        Err(IdlError::new("unknown type kind"))
    }
}

/// Resolves an ordered field list.
fn resolve_fields(
    table: &Vec<(String, JsonValue)>,
    visiting: &Vec<String>,
    fields: &Vec<JsonValue>,
) -> (r: Result<Vec<SchemaNode>, IdlError>)
    ensures
        match r {
            Ok(ns) => spec_parse_fields(
                table_view(table@),
                strings_view(visiting@),
                crate::json::json_seq_view(fields@),
            ) == Some(crate::schema::node_seq_view(ns@)),
            Err(_) => spec_parse_fields(
                table_view(table@),
                strings_view(visiting@),
                crate::json::json_seq_view(fields@),
            ) is None,
        },
    decreases resolve_budget(table@.len(), visiting@.len()), 1nat, json_seq_size(
        crate::json::json_seq_view(fields@),
    ), 2nat,
{
    proof {
        crate::json::lemma_json_seq_view(fields@);
    }
    let ghost full = crate::json::json_seq_view(fields@);
    let mut out: Vec<SchemaNode> = Vec::new();
    let mut i: usize = 0;
    proof {
        crate::schema::lemma_node_seq_view(out@);
        assert(full.take(0) =~= Seq::<JsonView>::empty());
        assert(crate::schema::node_seq_view(out@) =~= Seq::<SchemaNodeView>::empty());
    }
    while i < fields.len()
        invariant
            i <= fields@.len(),
            full == crate::json::json_seq_view(fields@),
            full.len() == fields@.len(),
            forall|j: int| 0 <= j < fields@.len() ==> full[j] == crate::json::json_view(
                fields@[j],
            ),
            crate::schema::node_seq_view(out@).len() == out@.len(),
            spec_parse_fields(table_view(table@), strings_view(visiting@), full.take(i as int))
                == Some(crate::schema::node_seq_view(out@)),
        decreases fields@.len() - i,
    {
        let ghost out_pre = out@;
        proof {
            lemma_json_seq_size_elem(full, i as int);
            assert(full.take(i + 1).drop_last() =~= full.take(i as int));
            assert(full.take(i + 1).last() == full[i as int]);
        }
        let node = match resolve_field(table, visiting, &fields[i]) {
            Ok(node) => node,
            Err(e) => {
                proof {
                    assert(spec_parse_fields(
                        table_view(table@),
                        strings_view(visiting@),
                        full.take(i + 1),
                    ) is None);
                    lemma_parse_fields_prefix_fail(
                        table_view(table@),
                        strings_view(visiting@),
                        full,
                        i + 1,
                    );
                }
                return Err(e);
            },
        };
        proof {
            crate::schema::lemma_node_seq_view(out_pre.push(node));
            crate::schema::lemma_node_seq_view(out_pre);
            assert(crate::schema::node_seq_view(out_pre.push(node))
                =~= crate::schema::node_seq_view(out_pre).push(node@));
        }
        out.push(node);
        proof {
            assert(full.take(i + 1).drop_last() =~= full.take(i as int));
            assert(full.take(i + 1).last() == full[i as int]);
        }
        i = i + 1;
    }
    proof {
        assert(full.take(fields@.len() as int) =~= full);
    }
    Ok(out)
}

/// Resolves one field into a named schema node.
fn resolve_field(
    table: &Vec<(String, JsonValue)>,
    visiting: &Vec<String>,
    field: &JsonValue,
) -> (r: Result<SchemaNode, IdlError>)
    ensures
        match r {
            Ok(n) => spec_parse_field(table_view(table@), strings_view(visiting@), field@)
                == Some(n@),
            Err(_) => spec_parse_field(
                table_view(table@),
                strings_view(visiting@),
                field@,
            ) is None,
        },
    decreases resolve_budget(table@.len(), visiting@.len()), 1nat, json_size(field@), 1nat,
{
    match field {
        JsonValue::Object(ms) => {
            proof {
                crate::json::lemma_json_members_view(ms@);
                lemma_json_members_size_get(crate::json::json_members_view(ms@), "type"@);
            }
            match crate::json::object_get(ms, "type") {
                Some(ft) => {
                    let fname: String = match crate::json::object_get(ms, "name") {
                        Some(nv) => match nv {
                            JsonValue::Str(s) => s.clone(),
                            _ => String::new(),
                        },
                        None => String::new(),
                    };
                    let t = resolve_field_inner(table, visiting, ft)?;
                    Ok(SchemaNode { name: fname, typ: t, is_hidden: false })
                },
                None => {
                    let t = resolve_field_inner(table, visiting, field)?;
                    Ok(SchemaNode { name: String::new(), typ: t, is_hidden: false })
                },
            }
        },
        _ => {
            let t = resolve_field_inner(table, visiting, field)?;
            Ok(SchemaNode { name: String::new(), typ: t, is_hidden: false })
        },
    }
}

/// Resolves an ordered variant list.
fn resolve_variants(
    table: &Vec<(String, JsonValue)>,
    visiting: &Vec<String>,
    variants: &Vec<JsonValue>,
) -> (r: Result<Vec<SchemaNode>, IdlError>)
    ensures
        match r {
            Ok(ns) => spec_parse_variants(
                table_view(table@),
                strings_view(visiting@),
                crate::json::json_seq_view(variants@),
            ) == Some(crate::schema::node_seq_view(ns@)),
            Err(_) => spec_parse_variants(
                table_view(table@),
                strings_view(visiting@),
                crate::json::json_seq_view(variants@),
            ) is None,
        },
    decreases resolve_budget(table@.len(), visiting@.len()), 1nat, json_seq_size(
        crate::json::json_seq_view(variants@),
    ), 2nat,
{
    proof {
        crate::json::lemma_json_seq_view(variants@);
    }
    let ghost full = crate::json::json_seq_view(variants@);
    let mut out: Vec<SchemaNode> = Vec::new();
    let mut i: usize = 0;
    proof {
        crate::schema::lemma_node_seq_view(out@);
        assert(full.take(0) =~= Seq::<JsonView>::empty());
        assert(crate::schema::node_seq_view(out@) =~= Seq::<SchemaNodeView>::empty());
    }
    while i < variants.len()
        invariant
            i <= variants@.len(),
            full == crate::json::json_seq_view(variants@),
            full.len() == variants@.len(),
            forall|j: int| 0 <= j < variants@.len() ==> full[j] == crate::json::json_view(
                variants@[j],
            ),
            crate::schema::node_seq_view(out@).len() == out@.len(),
            spec_parse_variants(table_view(table@), strings_view(visiting@), full.take(i as int))
                == Some(crate::schema::node_seq_view(out@)),
        decreases variants@.len() - i,
    {
        let ghost out_pre = out@;
        let ghost tv = table_view(table@);
        let ghost vv = strings_view(visiting@);
        proof {
            lemma_json_seq_size_elem(full, i as int);
            assert(full.take(i + 1).drop_last() =~= full.take(i as int));
            assert(full.take(i + 1).last() == full[i as int]);
        }
        let vms = match &variants[i] {
            JsonValue::Object(vms) => vms,
            _ => {
                proof {
                    assert(spec_parse_variants(tv, vv, full.take(i + 1)) is None);
                    lemma_parse_variants_prefix_fail(tv, vv, full, i + 1);
                }
                return Err(IdlError::new("variant is not an object"));
            },
        };
        proof {
            crate::json::lemma_json_members_view(vms@);
            lemma_json_members_size_get(crate::json::json_members_view(vms@), "fields"@);
        }
        let vname: String = match crate::json::object_get(vms, "name") {
            Some(nv) => match nv {
                JsonValue::Str(s) => s.clone(),
                _ => {
                    proof {
                        assert(spec_parse_variants(tv, vv, full.take(i + 1)) is None);
                        lemma_parse_variants_prefix_fail(tv, vv, full, i + 1);
                    }
                    return Err(IdlError::new("variant name is not a string"));
                },
            },
            None => {
                proof {
                    assert(spec_parse_variants(tv, vv, full.take(i + 1)) is None);
                    lemma_parse_variants_prefix_fail(tv, vv, full, i + 1);
                }
                return Err(IdlError::new("variant name is not a string"));
            },
        };
        let node: SchemaNode = match crate::json::object_get(vms, "fields") {
            Some(fv) => {
                let fs = match fv {
                    JsonValue::Array(fs) => fs,
                    _ => {
                        proof {
                            assert(spec_parse_variants(tv, vv, full.take(i + 1)) is None);
                            lemma_parse_variants_prefix_fail(tv, vv, full, i + 1);
                        }
                        return Err(IdlError::new("variant fields is not an array"));
                    },
                };
                let fnodes = match resolve_fields(table, visiting, fs) {
                    Ok(fnodes) => fnodes,
                    Err(e) => {
                        proof {
                            assert(spec_parse_variants(tv, vv, full.take(i + 1)) is None);
                            lemma_parse_variants_prefix_fail(tv, vv, full, i + 1);
                        }
                        return Err(e);
                    },
                };
                SchemaNode { name: vname, typ: SchemaType::Struct(fnodes), is_hidden: false }
            },
            None => SchemaNode { name: vname, typ: SchemaType::Empty, is_hidden: false },
        };
        proof {
            crate::schema::lemma_node_seq_view(out_pre.push(node));
            crate::schema::lemma_node_seq_view(out_pre);
            assert(crate::schema::node_seq_view(out_pre.push(node))
                =~= crate::schema::node_seq_view(out_pre).push(node@));
        }
        out.push(node);
        i = i + 1;
    }
    proof {
        assert(full.take(variants@.len() as int) =~= full);
    }
    Ok(out)
}

/// Maps one type description into a schema type.
#[verifier::spinoff_prover]
#[verifier::rlimit(100)]
fn resolve_field_inner(
    table: &Vec<(String, JsonValue)>,
    visiting: &Vec<String>,
    ft: &JsonValue,
) -> (r: Result<SchemaType, IdlError>)
    ensures
        match r {
            Ok(t) => spec_parse_field_inner(table_view(table@), strings_view(visiting@), ft@)
                == Some(t@),
            Err(_) => spec_parse_field_inner(
                table_view(table@),
                strings_view(visiting@),
                ft@,
            ) is None,
        },
    decreases resolve_budget(table@.len(), visiting@.len()), 1nat, json_size(ft@), 0nat,
{
    match ft {
        JsonValue::Object(ms) => {
            if ms.len() == 0 {
                return Err(IdlError::new("field type object is empty"));
            }
            proof {
                crate::json::lemma_json_members_view(ms@);
                assert(crate::json::json_members_view(ms@)[0] == crate::json::json_member_view(
                    ms@[0],
                ));
                assert(json_size(crate::json::json_members_view(ms@)[0].value)
                    <= json_members_size(crate::json::json_members_view(ms@))) by {
                    assert(crate::json::json_members_view(ms@).first()
                        == crate::json::json_members_view(ms@)[0]);
                }
            }
            let key = &ms[0].key;
            let value = &ms[0].value;
            if crate::text::str_eq(key.as_str(), "vec") {
                let inner = resolve_seq_elem(table, visiting, value)?;
                Ok(SchemaType::Vec(Box::new(inner)))
            } else if crate::text::str_eq(key.as_str(), "option") {
                let inner = resolve_seq_elem(table, visiting, value)?;
                Ok(SchemaType::Option(Box::new(inner)))
            } else if crate::text::str_eq(key.as_str(), "array") {
                let arr = match value {
                    JsonValue::Array(arr) => arr,
                    _ => {
                        return Err(IdlError::new("array form is not an array"));
                    },
                };
                proof {
                    crate::json::lemma_json_seq_view(arr@);
                }
                if arr.len() < 2 {
                    return Err(IdlError::new("array size is not a number"));
                }
                let size64 = match &arr[1] {
                    JsonValue::Num(Some(u)) => *u,
                    _ => {
                        return Err(IdlError::new("array size is not a number"));
                    },
                };
                if size64 > usize::MAX as u64 {
                    return Err(IdlError::new("array size exceeds this platform"));
                }
                proof {
                    lemma_json_seq_size_elem(crate::json::json_seq_view(arr@), 0);
                }
                let inner = resolve_seq_elem(table, visiting, &arr[0])?;
                Ok(SchemaType::Array(size64 as usize, Box::new(inner)))
            } else if crate::text::str_eq(key.as_str(), "defined") {
                let s = match value {
                    JsonValue::Str(s) => s,
                    _ => {
                        return Err(IdlError::new("defined type is not a string"));
                    },
                };
                let st = s.as_str();
                let n = st.unicode_len();
                if n >= 10 && crate::text::str_eq(st.substring_char(0, 9), "SmallVec<")
                    && st.get_char(n - 1) == '>' {
                    proof {
                        assert(st@.subrange(0, 9) == "SmallVec<"@);
                        assert(is_small_vec_descriptor(s@));
                    }
                    let inner = st.substring_char(9, n - 1);
                    let comma = match find_char(inner, ',') {
                        Some(c) => c,
                        None => {
                            return Err(IdlError::new("sequence descriptor is missing a part"));
                        },
                    };
                    let len_part = inner.substring_char(0, comma);
                    let elem_rest = inner.substring_char(comma + 1, inner.unicode_len());
                    proof {
                        lemma_first_index_in_range(inner@, ',');
                    }
                    if find_char(elem_rest, ',').is_some() {
                        return Err(IdlError::new("sequence descriptor has extra parts"));
                    }
                    let len_s = trim_str(len_part);
                    let elem_s = trim_str(elem_rest);
                    let w = if crate::text::str_eq(len_s, "u8") {
                        SmallVecLen::U8
                    } else if crate::text::str_eq(len_s, "u16") {
                        SmallVecLen::U16
                    } else {
                        return Err(IdlError::new("unsupported sequence length width"));
                    };
                    let elem_ty: SchemaType = if str_eq_ignore_ascii_case(elem_s, "pubkey")
                        || str_eq_ignore_ascii_case(elem_s, "publickey") {
                        SchemaType::Pubkey
                    } else if crate::text::str_eq(elem_s, "string") {
                        SchemaType::String
                    } else if crate::text::str_eq(elem_s, "i8") {
                        SchemaType::I8
                    } else if crate::text::str_eq(elem_s, "u8") {
                        SchemaType::U8
                    } else if crate::text::str_eq(elem_s, "i16") {
                        SchemaType::I16
                    } else if crate::text::str_eq(elem_s, "u16") {
                        SchemaType::U16
                    } else if crate::text::str_eq(elem_s, "i32") {
                        SchemaType::I32
                    } else if crate::text::str_eq(elem_s, "u32") {
                        SchemaType::U32
                    } else if crate::text::str_eq(elem_s, "i64") {
                        SchemaType::I64
                    } else if crate::text::str_eq(elem_s, "u64") {
                        SchemaType::U64
                    } else if crate::text::str_eq(elem_s, "i128") {
                        SchemaType::I128
                    } else if crate::text::str_eq(elem_s, "u128") {
                        SchemaType::U128
                    } else if crate::text::str_eq(elem_s, "f32") {
                        SchemaType::F32
                    } else if crate::text::str_eq(elem_s, "f64") {
                        SchemaType::F64
                    } else if crate::text::str_eq(elem_s, "bool") {
                        SchemaType::Bool
                    } else {
                        let node = resolve_type(table, elem_s, visiting)?;
                        node.typ
                    };
                    let res = SchemaType::SmallVec(w, Box::new(elem_ty));
                    proof {
                        reveal_with_fuel(crate::schema::type_view, 2);
                    }
                    Ok(res)
                } else {
                    proof {
                        assert(!is_small_vec_descriptor(s@));
                    }
                    let node = resolve_type(table, st, visiting)?;
                    Ok(node.typ)
                }
            } else {
                Err(IdlError::new("unknown field type"))
            }
        },
        JsonValue::Str(s) => {
            let t = parse_raw_schema_type(s.as_str())?;
            Ok(t)
        },
        _ => Err(IdlError::new("field type is not a string")),
    }
}

/// Resolves the element of a sequence, option or array form: an object is
/// resolved recursively, a bare string by name.
fn resolve_seq_elem(
    table: &Vec<(String, JsonValue)>,
    visiting: &Vec<String>,
    value: &JsonValue,
) -> (r: Result<SchemaType, IdlError>)
    ensures
        match r {
            Ok(t) => (match value@ {
                JsonView::Object(_) => spec_parse_field_inner(
                    table_view(table@),
                    strings_view(visiting@),
                    value@,
                ),
                JsonView::Str(s) => spec_parse_raw(s),
                _ => None,
            }) == Some(t@),
            Err(_) => (match value@ {
                JsonView::Object(_) => spec_parse_field_inner(
                    table_view(table@),
                    strings_view(visiting@),
                    value@,
                ),
                JsonView::Str(s) => spec_parse_raw(s),
                _ => None,
            }) is None,
        },
    decreases resolve_budget(table@.len(), visiting@.len()), 1nat, json_size(value@), 1nat,
{
    match value {
        JsonValue::Object(_) => resolve_field_inner(table, visiting, value),
        JsonValue::Str(s) => {
            let t = parse_raw_schema_type(s.as_str())?;
            Ok(t)
        },
        _ => Err(IdlError::new("element type is not a string")),
    }
}

use vstd::bytes::spec_u64_from_le_bytes;
use vstd::utf8::encode_utf8;
use crate::solana::sha256_of;
use crate::on_chain_idl::zero_pad8;

/// The position of the first table entry under the given name.
pub open spec fn table_index_of(t: Seq<(Seq<char>, JsonView)>, key: Seq<char>) -> Option<nat>
    decreases t.len(),
{
    if t.len() == 0 {
        None
    } else if t.first().0 == key {
        Some(0)
    } else {
        match table_index_of(t.drop_first(), key) {
            Some(i) => Some(i + 1),
            None => None,
        }
    }
}

proof fn lemma_table_index_of(t: Seq<(Seq<char>, JsonView)>, key: Seq<char>, i: int)
    requires
        0 <= i <= t.len(),
        forall|j: int| 0 <= j < i ==> (#[trigger] t[j]).0 != key,
        i < t.len() ==> t[i].0 == key,
    ensures
        i < t.len() ==> table_index_of(t, key) == Some(i as nat),
        i == t.len() ==> table_index_of(t, key) is None,
    decreases t.len(),
{
    if t.len() > 0 {
        if t.first().0 == key {
        } else {
            lemma_table_index_of(t.drop_first(), key, i - 1);
        }
    }
}

/// Map-style insertion: replaces the value under an existing name in
/// place, otherwise appends a new entry.
pub open spec fn table_set(
    t: Seq<(Seq<char>, JsonView)>,
    key: Seq<char>,
    v: JsonView,
) -> Seq<(Seq<char>, JsonView)> {
    match table_index_of(t, key) {
        Some(i) => t.update(i as int, (key, v)),
        None => t.push((key, v)),
    }
}

/// First-definition-wins insertion: keeps an existing entry untouched.
pub open spec fn table_put_if_absent(
    t: Seq<(Seq<char>, JsonView)>,
    key: Seq<char>,
    v: JsonView,
) -> Seq<(Seq<char>, JsonView)> {
    if table_index_of(t, key) is Some {
        t
    } else {
        t.push((key, v))
    }
}

/// Builds the name-to-definition table from the `types` array; a later
/// entry under the same name replaces the earlier one.
pub open spec fn spec_build_table(items: Seq<JsonView>) -> Option<Seq<(Seq<char>, JsonView)>>
    decreases items.len(),
{
    if items.len() == 0 {
        Some(Seq::empty())
    } else {
        match spec_build_table(items.drop_last()) {
            None => None,
            Some(t) => match items.last() {
                JsonView::Object(ms) => match json_get(ms, "name"@) {
                    Some(JsonView::Str(nm)) => Some(table_set(t, nm, items.last())),
                    _ => None,
                },
                _ => None,
            },
        }
    }
}

/// The table built from the document's `types` array, which must exist.
pub open spec fn spec_parse_types(root: Seq<JsonMemberView>) -> Option<
    Seq<(Seq<char>, JsonView)>,
> {
    match json_get(root, "types"@) {
        Some(JsonView::Array(items)) => spec_build_table(items),
        _ => None,
    }
}

/// Merges accounts that carry an inline type definition into the table
/// without overwriting an existing entry: first definition wins.
pub open spec fn spec_merge_accounts(
    items: Seq<JsonView>,
    t: Seq<(Seq<char>, JsonView)>,
) -> Option<Seq<(Seq<char>, JsonView)>>
    decreases items.len(),
{
    if items.len() == 0 {
        Some(t)
    } else {
        match spec_merge_accounts(items.drop_last(), t) {
            None => None,
            Some(t2) => match items.last() {
                JsonView::Object(ms) => match json_get(ms, "name"@) {
                    Some(JsonView::Str(nm)) => if json_get(ms, "type"@) is Some {
                        Some(table_put_if_absent(t2, nm, items.last()))
                    } else {
                        Some(t2)
                    },
                    _ => None,
                },
                _ => None,
            },
        }
    }
}

/// The table after merging the `accounts` array; a missing or malformed
/// array leaves the table unchanged.
pub open spec fn spec_parse_accounts(
    root: Seq<JsonMemberView>,
    t: Seq<(Seq<char>, JsonView)>,
) -> Option<Seq<(Seq<char>, JsonView)>> {
    match json_get(root, "accounts"@) {
        Some(JsonView::Array(items)) => spec_merge_accounts(items, t),
        _ => Some(t),
    }
}

/// The resolved schema of each table entry, in table order; an entry whose
/// resolution fails is skipped.
pub open spec fn schema_map_prefix(table: Seq<(Seq<char>, JsonView)>, n: nat) -> Seq<
    (Seq<char>, SchemaNodeView),
>
    decreases n,
{
    if n == 0 {
        Seq::empty()
    } else {
        let prev = schema_map_prefix(table, (n - 1) as nat);
        match spec_parse_type(table, table[n - 1].0, Seq::empty()) {
            Some(nd) => prev.push((table[n - 1].0, nd)),
            None => prev,
        }
    }
}

pub open spec fn spec_schema_map(table: Seq<(Seq<char>, JsonView)>) -> Seq<
    (Seq<char>, SchemaNodeView),
> {
    schema_map_prefix(table, table.len())
}

/// The first resolved schema under the given name.
pub open spec fn schema_map_get(
    m: Seq<(Seq<char>, SchemaNodeView)>,
    key: Seq<char>,
) -> Option<SchemaNodeView>
    decreases m.len(),
{
    if m.len() == 0 {
        None
    } else if m.first().0 == key {
        Some(m.first().1)
    } else {
        schema_map_get(m.drop_first(), key)
    }
}

/// The little-endian bytes of the first `n` entries of a declared
/// discriminator byte array; each entry must be a number, read modulo 256.
pub open spec fn spec_disc_bytes(items: Seq<JsonView>, n: nat) -> Option<Seq<u8>>
    decreases n,
{
    if n == 0 {
        Some(Seq::empty())
    } else {
        match spec_disc_bytes(items, (n - 1) as nat) {
            None => None,
            Some(bs) => match items[n - 1] {
                JsonView::Num(Some(u)) => Some(bs.push((u % 256) as u8)),
                _ => None,
            },
        }
    }
}

/// The key and byte width declared by an explicit discriminator: either an
/// object with a `u8` or `u64` type and an unsigned value, or a byte array
/// read little-endian, zero-padded or truncated to 8 bytes.
pub open spec fn spec_parse_any_discriminator(v: JsonView) -> Option<(u64, u8)> {
    match v {
        JsonView::Object(ms) => match json_get(ms, "type"@) {
            Some(JsonView::Str(t)) => if t == "u8"@ || t == "u64"@ {
                match json_get(ms, "value"@) {
                    Some(JsonView::Num(Some(u))) => Some(
                        (
                            u,
                            if t == "u8"@ {
                                1u8
                            } else {
                                8u8
                            },
                        ),
                    ),
                    _ => None,
                }
            } else {
                None
            },
            _ => None,
        },
        JsonView::Array(items) => {
            let n = if items.len() < 8 {
                items.len()
            } else {
                8
            };
            match spec_disc_bytes(items, n) {
                None => None,
                Some(bs) => Some(
                    (spec_u64_from_le_bytes(zero_pad8(bs)), (items.len() % 256) as u8),
                ),
            }
        },
        _ => None,
    }
}

/// The implicit discriminator of an account name: the first 8 bytes,
/// little-endian, of the hash of `account:` followed by the name.
pub open spec fn spec_implicit_account_disc(name: Seq<char>) -> u64 {
    spec_u64_from_le_bytes(sha256_of(encode_utf8("account:"@ + name)).subrange(0, 8))
}

/// The implicit discriminator of an instruction name: the first 8 bytes,
/// little-endian, of the hash of `global:` followed by the snake-case name.
pub open spec fn spec_implicit_instruction_disc(name: Seq<char>) -> u64 {
    spec_u64_from_le_bytes(
        sha256_of(encode_utf8("global:"@ + spec_snake_case(name))).subrange(0, 8),
    )
}

/// The discriminator of one account entry: explicit if declared under
/// either key, implicit otherwise.
pub open spec fn spec_account_disc_of(ms: Seq<JsonMemberView>, name: Seq<char>) -> Option<
    (u64, u8),
> {
    match json_get(ms, "discriminant"@) {
        Some(d) => spec_parse_any_discriminator(d),
        None => match json_get(ms, "discriminator"@) {
            Some(d) => spec_parse_any_discriminator(d),
            None => Some((spec_implicit_account_disc(name), 8)),
        },
    }
}

/// The discriminator of one instruction entry.
pub open spec fn spec_instruction_disc_of(ms: Seq<JsonMemberView>, name: Seq<char>) -> Option<
    (u64, u8),
> {
    match json_get(ms, "discriminant"@) {
        Some(d) => spec_parse_any_discriminator(d),
        None => match json_get(ms, "discriminator"@) {
            Some(d) => spec_parse_any_discriminator(d),
            None => Some((spec_implicit_instruction_disc(name), 8)),
        },
    }
}

/// The discriminator-to-schema pairs of the account entries, with the
/// declared width of each.
pub open spec fn spec_account_schemas(
    items: Seq<JsonView>,
    schema_map: Seq<(Seq<char>, SchemaNodeView)>,
) -> Option<(Seq<(u64, SchemaNodeView)>, Seq<u8>)>
    decreases items.len(),
{
    if items.len() == 0 {
        Some((Seq::empty(), Seq::empty()))
    } else {
        match spec_account_schemas(items.drop_last(), schema_map) {
            None => None,
            Some((pairs, ws)) => match items.last() {
                JsonView::Object(ms) => match json_get(ms, "name"@) {
                    Some(JsonView::Str(nm)) => match spec_account_disc_of(ms, nm) {
                        None => None,
                        Some((key, w)) => match schema_map_get(schema_map, nm) {
                            None => None,
                            Some(nd) => Some((pairs.push((key, nd)), ws.push(w))),
                        },
                    },
                    _ => None,
                },
                _ => None,
            },
        }
    }
}

/// True when every declared width agrees with the first.
pub open spec fn widths_uniform(ws: Seq<u8>) -> bool {
    forall|i: int| 0 <= i < ws.len() ==> #[trigger] ws[i] == ws[0]
}

/// The account map and its uniform width; mixed widths are rejected, and
/// an empty account list defaults to the implicit 8-byte width.
pub open spec fn spec_parse_account_schemas(
    root: Seq<JsonMemberView>,
    schema_map: Seq<(Seq<char>, SchemaNodeView)>,
) -> Option<(Seq<(u64, SchemaNodeView)>, u8)> {
    let items = match json_get(root, "accounts"@) {
        Some(JsonView::Array(a)) => a,
        _ => Seq::empty(),
    };
    match spec_account_schemas(items, schema_map) {
        None => None,
        Some((pairs, ws)) => if !widths_uniform(ws) {
            None
        } else {
            Some(
                (
                    pairs,
                    if ws.len() == 0 {
                        8u8
                    } else {
                        ws[0]
                    },
                ),
            )
        },
    }
}

/// The ordered declared account-role names of one instruction.
pub open spec fn spec_instruction_accounts(items: Seq<JsonView>) -> Option<Seq<Seq<char>>>
    decreases items.len(),
{
    if items.len() == 0 {
        Some(Seq::empty())
    } else {
        match spec_instruction_accounts(items.drop_last()) {
            None => None,
            Some(names) => match items.last() {
                JsonView::Object(ms) => match json_get(ms, "name"@) {
                    Some(JsonView::Str(nm)) => Some(names.push(nm)),
                    _ => None,
                },
                _ => None,
            },
        }
    }
}

/// One instruction entry: its key, width, and decoder.
pub open spec fn spec_instruction_of(
    table: Seq<(Seq<char>, JsonView)>,
    ms: Seq<JsonMemberView>,
) -> Option<(u64, u8, InstructionDecoderView)> {
    match json_get(ms, "name"@) {
        Some(JsonView::Str(nm)) => match json_get(ms, "accounts"@) {
            Some(JsonView::Array(accs)) => match spec_instruction_accounts(accs) {
                None => None,
                Some(names) => {
                    let args = match json_get(ms, "args"@) {
                        Some(JsonView::Array(a)) => a,
                        _ => Seq::empty(),
                    };
                    let parser = if args.len() == 0 {
                        Some(
                            SchemaNodeView {
                                name: nm,
                                typ: SchemaTypeView::Empty,
                                is_hidden: false,
                            },
                        )
                    } else {
                        match spec_parse_fields(table, Seq::empty(), args) {
                            Some(ns) => Some(
                                SchemaNodeView {
                                    name: nm,
                                    typ: SchemaTypeView::Struct(ns),
                                    is_hidden: false,
                                },
                            ),
                            None => None,
                        }
                    };
                    match parser {
                        None => None,
                        Some(p) => match spec_instruction_disc_of(ms, nm) {
                            None => None,
                            Some((key, w)) => Some(
                                (
                                    key,
                                    w,
                                    InstructionDecoderView {
                                        accounts: names,
                                        instruction_args_parser: p,
                                    },
                                ),
                            ),
                        },
                    }
                },
            },
            _ => None,
        },
        _ => None,
    }
}

/// The instruction entries with their declared widths.
pub open spec fn spec_instructions(
    table: Seq<(Seq<char>, JsonView)>,
    items: Seq<JsonView>,
) -> Option<(Seq<(u64, InstructionDecoderView)>, Seq<u8>)>
    decreases items.len(),
{
    if items.len() == 0 {
        Some((Seq::empty(), Seq::empty()))
    } else {
        match spec_instructions(table, items.drop_last()) {
            None => None,
            Some((pairs, ws)) => match items.last() {
                JsonView::Object(ms) => match spec_instruction_of(table, ms) {
                    None => None,
                    Some((key, w, d)) => Some((pairs.push((key, d)), ws.push(w))),
                },
                _ => None,
            },
        }
    }
}

/// The instruction map and its uniform width.
pub open spec fn spec_parse_instructions(
    root: Seq<JsonMemberView>,
    table: Seq<(Seq<char>, JsonView)>,
) -> Option<(Seq<(u64, InstructionDecoderView)>, u8)> {
    let items = match json_get(root, "instructions"@) {
        Some(JsonView::Array(a)) => a,
        _ => Seq::empty(),
    };
    match spec_instructions(table, items) {
        None => None,
        Some((pairs, ws)) => if !widths_uniform(ws) {
            None
        } else {
            Some(
                (
                    pairs,
                    if ws.len() == 0 {
                        8u8
                    } else {
                        ws[0]
                    },
                ),
            )
        },
    }
}

/// What compiling a document yields: the full program index, or nothing on
/// any failure condition.
pub open spec fn spec_parse_idl(doc: JsonView) -> Option<OnChainIdlView> {
    match doc {
        JsonView::Object(root) => match spec_parse_types(root) {
            None => None,
            Some(t0) => match spec_parse_accounts(root, t0) {
                None => None,
                Some(table) => {
                    let schema_map = spec_schema_map(table);
                    match spec_parse_account_schemas(root, schema_map) {
                        None => None,
                        Some((accts, aw)) => match spec_parse_instructions(root, table) {
                            None => None,
                            Some((ix, iw)) => {
                                let name = match json_get(root, "name"@) {
                                    Some(JsonView::Str(s)) => s,
                                    _ => Seq::empty(),
                                };
                                Some(
                                    OnChainIdlView {
                                        program_name: name,
                                        account_disc_len: aw,
                                        instruction_disc_len: iw,
                                        accounts: accts,
                                        instruction_params: ix,
                                    },
                                )
                            },
                        },
                    }
                },
            },
        },
        _ => None,
    }
}


fn table_find_index(table: &Vec<(String, JsonValue)>, name: &str) -> (r: Option<usize>)
    ensures
        match r {
            Some(i) => i < table@.len() && table_index_of(table_view(table@), name@) == Some(
                i as nat,
            ),
            None => table_index_of(table_view(table@), name@) is None,
        },
{
    let mut i: usize = 0;
    while i < table.len()
        invariant
            i <= table@.len(),
            forall|k: int| 0 <= k < i ==> (#[trigger] table_view(table@)[k]).0 != name@,
        decreases table@.len() - i,
    {
        if crate::text::str_eq(table[i].0.as_str(), name) {
            proof {
                assert(table_view(table@)[i as int].0 == name@);
                lemma_table_index_of(table_view(table@), name@, i as int);
            }
            return Some(i);
        }
        proof {
            assert(table_view(table@)[i as int].0 == table@[i as int].0@);
        }
        i = i + 1;
    }
    proof {
        lemma_table_index_of(table_view(table@), name@, table@.len() as int);
    }
    None
}

proof fn lemma_build_table_prefix_fail(s: Seq<JsonView>, k: int)
    requires
        0 <= k <= s.len(),
        spec_build_table(s.take(k)) is None,
    ensures
        spec_build_table(s) is None,
    decreases s.len(),
{
    if k < s.len() {
        assert(s.drop_last().take(k) =~= s.take(k));
        lemma_build_table_prefix_fail(s.drop_last(), k);
    } else {
        assert(s.take(k) =~= s);
    }
}

proof fn lemma_merge_accounts_prefix_fail(s: Seq<JsonView>, t: Seq<(Seq<char>, JsonView)>, k: int)
    requires
        0 <= k <= s.len(),
        spec_merge_accounts(s.take(k), t) is None,
    ensures
        spec_merge_accounts(s, t) is None,
    decreases s.len(),
{
    if k < s.len() {
        assert(s.drop_last().take(k) =~= s.take(k));
        lemma_merge_accounts_prefix_fail(s.drop_last(), t, k);
    } else {
        assert(s.take(k) =~= s);
    }
}

proof fn lemma_account_schemas_prefix_fail(
    s: Seq<JsonView>,
    m: Seq<(Seq<char>, SchemaNodeView)>,
    k: int,
)
    requires
        0 <= k <= s.len(),
        spec_account_schemas(s.take(k), m) is None,
    ensures
        spec_account_schemas(s, m) is None,
    decreases s.len(),
{
    if k < s.len() {
        assert(s.drop_last().take(k) =~= s.take(k));
        lemma_account_schemas_prefix_fail(s.drop_last(), m, k);
    } else {
        assert(s.take(k) =~= s);
    }
}

proof fn lemma_instructions_prefix_fail(
    table: Seq<(Seq<char>, JsonView)>,
    s: Seq<JsonView>,
    k: int,
)
    requires
        0 <= k <= s.len(),
        spec_instructions(table, s.take(k)) is None,
    ensures
        spec_instructions(table, s) is None,
    decreases s.len(),
{
    if k < s.len() {
        assert(s.drop_last().take(k) =~= s.take(k));
        lemma_instructions_prefix_fail(table, s.drop_last(), k);
    } else {
        assert(s.take(k) =~= s);
    }
}

proof fn lemma_instruction_accounts_prefix_fail(s: Seq<JsonView>, k: int)
    requires
        0 <= k <= s.len(),
        spec_instruction_accounts(s.take(k)) is None,
    ensures
        spec_instruction_accounts(s) is None,
    decreases s.len(),
{
    if k < s.len() {
        assert(s.drop_last().take(k) =~= s.take(k));
        lemma_instruction_accounts_prefix_fail(s.drop_last(), k);
    } else {
        assert(s.take(k) =~= s);
    }
}

proof fn lemma_disc_bytes_prefix_fail(items: Seq<JsonView>, k: nat, n: nat)
    requires
        k <= n,
        spec_disc_bytes(items, k) is None,
    ensures
        spec_disc_bytes(items, n) is None,
    decreases n,
{
    if k < n {
        lemma_disc_bytes_prefix_fail(items, k, (n - 1) as nat);
    }
}

/// Builds the name-to-definition table from the document's `types` array.
fn parse_types(root: &Vec<JsonMember>) -> (r: Result<Vec<(String, JsonValue)>, IdlError>)
    ensures
        match r {
            Ok(t) => spec_parse_types(crate::json::json_members_view(root@)) == Some(
                table_view(t@),
            ),
            Err(_) => spec_parse_types(crate::json::json_members_view(root@)) is None,
        },
{
    let items = match crate::json::object_get(root, "types") {
        Some(JsonValue::Array(items)) => items,
        _ => {
            return Err(IdlError::new("types is not an array"));
        },
    };
    proof {
        crate::json::lemma_json_seq_view(items@);
    }
    let ghost full = crate::json::json_seq_view(items@);
    proof {
        assert(json_get(crate::json::json_members_view(root@), "types"@) == Some(
            JsonView::Array(full),
        ));
    }
    let mut table: Vec<(String, JsonValue)> = Vec::new();
    let mut i: usize = 0;
    proof {
        assert(full.take(0) =~= Seq::<JsonView>::empty());
        assert(table_view(table@) =~= Seq::<(Seq<char>, JsonView)>::empty());
    }
    while i < items.len()
        invariant
            i <= items@.len(),
            full == crate::json::json_seq_view(items@),
            full.len() == items@.len(),
            forall|j: int| 0 <= j < items@.len() ==> full[j] == crate::json::json_view(
                items@[j],
            ),
            json_get(crate::json::json_members_view(root@), "types"@) == Some(
                JsonView::Array(full),
            ),
            spec_build_table(full.take(i as int)) == Some(table_view(table@)),
        decreases items@.len() - i,
    {
        let ghost table_pre = table@;
        proof {
            assert(full.take(i + 1).drop_last() =~= full.take(i as int));
            assert(full.take(i + 1).last() == full[i as int]);
        }
        let ms = match &items[i] {
            JsonValue::Object(ms) => ms,
            _ => {
                proof {
                    assert(spec_build_table(full.take(i + 1)) is None);
                    lemma_build_table_prefix_fail(full, i + 1);
                }
                return Err(IdlError::new("type map is not an object"));
            },
        };
        proof {
            crate::json::lemma_json_members_view(ms@);
        }
        let nm: String = match crate::json::object_get(ms, "name") {
            Some(JsonValue::Str(s)) => s.clone(),
            _ => {
                proof {
                    assert(spec_build_table(full.take(i + 1)) is None);
                    lemma_build_table_prefix_fail(full, i + 1);
                }
                return Err(IdlError::new("type name is not a string"));
            },
        };
        // Map-style insertion: replace an existing entry in place, else push.
        match table_find_index(&table, nm.as_str()) {
            Some(jf) => {
                let item = items[i].clone();
                table[jf] = (nm, item);
                proof {
                    assert(table_view(table@) =~= table_set(
                        table_view(table_pre),
                        nm@,
                        full[i as int],
                    ));
                }
            },
            None => {
                let item = items[i].clone();
                table.push((nm, item));
                proof {
                    assert(table_view(table@) =~= table_set(
                        table_view(table_pre),
                        nm@,
                        full[i as int],
                    ));
                }
            },
        }
        i = i + 1;
    }
    proof {
        assert(full.take(items@.len() as int) =~= full);
    }
    Ok(table)
}

/// Merges accounts with inline type definitions into the table.
fn parse_accounts(root: &Vec<JsonMember>, table: &mut Vec<(String, JsonValue)>) -> (r: Result<
    (),
    IdlError,
>)
    ensures
        match r {
            Ok(_) => spec_parse_accounts(
                crate::json::json_members_view(root@),
                table_view(old(table)@),
            ) == Some(table_view(final(table)@)),
            Err(_) => spec_parse_accounts(
                crate::json::json_members_view(root@),
                table_view(old(table)@),
            ) is None,
        },
{
    let items = match crate::json::object_get(root, "accounts") {
        Some(JsonValue::Array(items)) => items,
        _ => {
            return Ok(());
        },
    };
    proof {
        crate::json::lemma_json_seq_view(items@);
    }
    let ghost full = crate::json::json_seq_view(items@);
    let ghost t0 = table_view(old(table)@);
    let mut i: usize = 0;
    proof {
        assert(full.take(0) =~= Seq::<JsonView>::empty());
    }
    while i < items.len()
        invariant
            i <= items@.len(),
            full == crate::json::json_seq_view(items@),
            full.len() == items@.len(),
            forall|j: int| 0 <= j < items@.len() ==> full[j] == crate::json::json_view(
                items@[j],
            ),
            json_get(crate::json::json_members_view(root@), "accounts"@) == Some(
                JsonView::Array(full),
            ),
            t0 == table_view(old(table)@),
            spec_merge_accounts(full.take(i as int), t0) == Some(table_view(table@)),
        decreases items@.len() - i,
    {
        let ghost table_pre = table@;
        proof {
            assert(full.take(i + 1).drop_last() =~= full.take(i as int));
            assert(full.take(i + 1).last() == full[i as int]);
        }
        let ms = match &items[i] {
            JsonValue::Object(ms) => ms,
            _ => {
                proof {
                    assert(spec_merge_accounts(full.take(i + 1), t0) is None);
                    lemma_merge_accounts_prefix_fail(full, t0, i + 1);
                }
                return Err(IdlError::new("account map is not an object"));
            },
        };
        proof {
            crate::json::lemma_json_members_view(ms@);
        }
        let nm: String = match crate::json::object_get(ms, "name") {
            Some(JsonValue::Str(s)) => s.clone(),
            _ => {
                proof {
                    assert(spec_merge_accounts(full.take(i + 1), t0) is None);
                    lemma_merge_accounts_prefix_fail(full, t0, i + 1);
                }
                return Err(IdlError::new("account name is not a string"));
            },
        };
        if crate::json::object_get(ms, "type").is_some() {
            if table_find_index(table, nm.as_str()).is_none() {
                let item = items[i].clone();
                table.push((nm, item));
                proof {
                    assert(table_view(table@) =~= table_view(table_pre).push(
                        (nm@, full[i as int]),
                    ));
                }
            }
            proof {
                assert(table_view(table@) =~= table_put_if_absent(
                    table_view(table_pre),
                    nm@,
                    full[i as int],
                ));
            }
        }
        i = i + 1;
    }
    proof {
        assert(full.take(items@.len() as int) =~= full);
    }
    Ok(())
}

/// Reads an explicit discriminator declaration.
fn parse_any_discriminator(v: &JsonValue) -> (r: Result<(u64, u8), IdlError>)
    ensures
        match r {
            Ok((key, w)) => spec_parse_any_discriminator(v@) == Some((key, w)),
            Err(_) => spec_parse_any_discriminator(v@) is None,
        },
{
    match v {
        JsonValue::Object(ms) => {
            proof {
                crate::json::lemma_json_members_view(ms@);
            }
            let t = match crate::json::object_get(ms, "type") {
                Some(JsonValue::Str(t)) => t,
                _ => {
                    return Err(IdlError::new("discriminant type is not a string"));
                },
            };
            let w: u8 = if crate::text::str_eq(t.as_str(), "u8") {
                1
            } else if crate::text::str_eq(t.as_str(), "u64") {
                8
            } else {
                return Err(IdlError::new("unknown discriminant type"));
            };
            match crate::json::object_get(ms, "value") {
                Some(JsonValue::Num(Some(u))) => Ok((*u, w)),
                _ => Err(IdlError::new("discriminant value is not an unsigned number")),
            }
        },
        JsonValue::Array(items) => {
            proof {
                crate::json::lemma_json_seq_view(items@);
            }
            let ghost full = crate::json::json_seq_view(items@);
            let n: usize = if items.len() < 8 {
                items.len()
            } else {
                8
            };
            let mut bytes: Vec<u8> = Vec::new();
            let mut i: usize = 0;
            proof {
                assert(bytes@ =~= Seq::<u8>::empty());
            }
            while i < n
                invariant
                    i <= n,
                    n == vstd::math::min(items@.len() as int, 8),
                    full == crate::json::json_seq_view(items@),
                    full.len() == items@.len(),
                    forall|j: int| 0 <= j < items@.len() ==> full[j] == crate::json::json_view(
                        items@[j],
                    ),
                    v@ == JsonView::Array(full),
                    bytes@.len() == i as nat,
                    spec_disc_bytes(full, i as nat) == Some(bytes@),
                decreases n - i,
            {
                let b: u8 = match &items[i] {
                    JsonValue::Num(Some(u)) => (*u % 256) as u8,
                    _ => {
                        proof {
                            assert(spec_disc_bytes(full, (i + 1) as nat) is None);
                            lemma_disc_bytes_prefix_fail(full, (i + 1) as nat, n as nat);
                        }
                        return Err(IdlError::new("discriminator byte is not a number"));
                    },
                };
                bytes.push(b);
                i = i + 1;
            }
            let mut k: usize = n;
            proof {
                assert(bytes@.take(n as int) =~= bytes@);
            }
            while k < 8
                invariant
                    n <= k <= 8,
                    bytes@.len() == k as nat,
                    bytes@.subrange(0, n as int) == bytes@.take(n as int),
                    v@ == JsonView::Array(full),
                    n == vstd::math::min(items@.len() as int, 8),
                    full.len() == items@.len(),
                    spec_disc_bytes(full, n as nat) == Some(bytes@.take(n as int)),
                    forall|j: int| n <= j < k ==> bytes@[j] == 0u8,
                decreases 8 - k,
            {
                bytes.push(0u8);
                k = k + 1;
            }
            proof {
                assert(bytes@ =~= zero_pad8(bytes@.take(n as int)));
            }
            let key = vstd::bytes::u64_from_le_bytes(bytes.as_slice());
            let w = (items.len() % 256) as u8;
            Ok((key, w))
        },
        _ => Err(IdlError::new("discriminator must be an object or a byte array")),
    }
}

/// The implicit discriminator of an account name.
pub fn parse_implicit_discriminant(account_name: &str) -> (r: Result<(u64, u64), IdlError>)
    ensures
        match r {
            Ok((key, w)) => key == spec_implicit_account_disc(account_name@) && w == 8,
            Err(_) => false,
        },
{
    let mut seed = "account:".to_owned();
    seed.append(account_name);
    let digest = crate::solana::hash_bytes(seed.as_str().as_bytes());
    let key = vstd::bytes::u64_from_le_bytes(vstd::slice::slice_subrange(
        digest.as_slice(),
        0,
        8,
    ));
    Ok((key, 8))
}

/// The implicit discriminator of an instruction name.
pub fn parse_implicit_instruction_discriminant(instruction_name: &str) -> (r: Result<
    (u64, u64),
    IdlError,
>)
    ensures
        match r {
            Ok((key, w)) => key == spec_implicit_instruction_disc(instruction_name@) && w == 8,
            Err(_) => false,
        },
{
    let snake = camel_to_snake_case(instruction_name);
    let mut seed = "global:".to_owned();
    seed.append(snake.as_str());
    let digest = crate::solana::hash_bytes(seed.as_str().as_bytes());
    let key = vstd::bytes::u64_from_le_bytes(vstd::slice::slice_subrange(
        digest.as_slice(),
        0,
        8,
    ));
    Ok((key, 8))
}

fn schema_map_find<'a>(m: &'a Vec<(String, SchemaNode)>, name: &str) -> (r: Option<
    &'a SchemaNode,
>)
    ensures
        match r {
            Some(n) => schema_map_get(schema_pairs_view(m@), name@) == Some(n@),
            None => schema_map_get(schema_pairs_view(m@), name@) is None,
        },
{
    let ghost full = schema_pairs_view(m@);
    let mut i: usize = 0;
    proof {
        assert(full.skip(0) =~= full);
    }
    while i < m.len()
        invariant
            i <= m@.len(),
            full == schema_pairs_view(m@),
            full.len() == m@.len(),
            schema_map_get(full, name@) == schema_map_get(full.skip(i as int), name@),
        decreases m@.len() - i,
    {
        proof {
            assert(full.skip(i as int).len() > 0);
            assert(full.skip(i as int).first() == full[i as int]);
            assert(full.skip(i as int).drop_first() =~= full.skip(i + 1));
        }
        if crate::text::str_eq(m[i].0.as_str(), name) {
            return Some(&m[i].1);
        }
        i = i + 1;
    }
    proof {
        assert(full.skip(m@.len() as int).len() == 0);
    }
    None
}

/// Resolves named types from a name-to-definition table, each against the
/// whole table.
pub struct IdlParser {
    pub type_map: Vec<(String, JsonValue)>,
}

impl View for IdlParser {
    type V = Seq<(Seq<char>, JsonView)>;

    open spec fn view(&self) -> Seq<(Seq<char>, JsonView)> {
        table_view(self.type_map@)
    }
}

impl IdlParser {
    /// A resolver over the given table.
    pub fn new(type_map: Vec<(String, JsonValue)>) -> (r: Self)
        ensures
            r@ == table_view(type_map@),
    {
        IdlParser { type_map }
    }

    /// Resolves every table entry; an entry whose resolution fails is
    /// skipped rather than failing the whole pass.
    pub fn parse(&mut self) -> (r: Result<Vec<(String, SchemaNode)>, IdlError>)
        ensures
            final(self)@ == old(self)@,
            match r {
                Ok(m) => schema_pairs_view(m@) == spec_schema_map(old(self)@),
                Err(_) => false,
            },
    {
        let empty_visiting: Vec<String> = Vec::new();
        proof {
            assert(strings_view(empty_visiting@) =~= Seq::<Seq<char>>::empty());
        }
        let mut out: Vec<(String, SchemaNode)> = Vec::new();
        let mut i: usize = 0;
        proof {
            assert(schema_pairs_view(out@) =~= Seq::<(Seq<char>, SchemaNodeView)>::empty());
        }
        while i < self.type_map.len()
            invariant
                i <= self.type_map@.len(),
                strings_view(empty_visiting@) == Seq::<Seq<char>>::empty(),
                schema_map_prefix(table_view(self.type_map@), i as nat) == schema_pairs_view(
                    out@,
                ),
            decreases self.type_map@.len() - i,
        {
            let ghost out_pre = out@;
            let name = self.type_map[i].0.clone();
            match resolve_type(&self.type_map, name.as_str(), &empty_visiting) {
                Ok(node) => {
                    let ghost nv = node@;
                    out.push((name, node));
                    proof {
                        assert(schema_pairs_view(out@) =~= schema_pairs_view(out_pre).push(
                            (table_view(self.type_map@)[i as int].0, nv),
                        ));
                        assert(schema_pairs_view(out@) =~= schema_map_prefix(
                            table_view(self.type_map@),
                            (i + 1) as nat,
                        ));
                    }
                },
                Err(_) => {
                },
            }
            i = i + 1;
        }
        Ok(out)
    }

    /// Resolves a field list into a named struct node.
    pub fn parse_fields(&self, struct_name: &str, fields: &Vec<JsonValue>) -> (r: Result<
        SchemaNode,
        IdlError,
    >)
        ensures
            match r {
                Ok(n) => (match spec_parse_fields(
                    self@,
                    Seq::empty(),
                    crate::json::json_seq_view(fields@),
                ) {
                    Some(ns) => n@ == (SchemaNodeView {
                        name: struct_name@,
                        typ: SchemaTypeView::Struct(ns),
                        is_hidden: false,
                    }),
                    None => false,
                }),
                Err(_) => spec_parse_fields(
                    self@,
                    Seq::empty(),
                    crate::json::json_seq_view(fields@),
                ) is None,
            },
    {
        let empty_visiting: Vec<String> = Vec::new();
        proof {
            assert(strings_view(empty_visiting@) =~= Seq::<Seq<char>>::empty());
        }
        let nodes = resolve_fields(&self.type_map, &empty_visiting, fields)?;
        Ok(SchemaNode { name: struct_name.to_owned(), typ: SchemaType::Struct(nodes), is_hidden: false })
    }
}

/// The account map and its uniform discriminator width.
fn parse_account_schemas(
    root: &Vec<JsonMember>,
    schema_map: &Vec<(String, SchemaNode)>,
) -> (r: Result<(Vec<(u64, SchemaNode)>, u8), IdlError>)
    ensures
        match r {
            Ok((pairs, w)) => spec_parse_account_schemas(
                crate::json::json_members_view(root@),
                schema_pairs_view(schema_map@),
            ) == Some((crate::on_chain_idl::acct_pairs_view(pairs@), w)),
            Err(_) => spec_parse_account_schemas(
                crate::json::json_members_view(root@),
                schema_pairs_view(schema_map@),
            ) is None,
        },
{
    let ghost mv = schema_pairs_view(schema_map@);
    let mut pairs: Vec<(u64, SchemaNode)> = Vec::new();
    let mut widths: Vec<u8> = Vec::new();
    let items: &Vec<JsonValue> = match crate::json::object_get(root, "accounts") {
        Some(JsonValue::Array(items)) => items,
        _ => {
            proof {
                assert(crate::on_chain_idl::acct_pairs_view(pairs@) =~= Seq::<
                    (u64, SchemaNodeView),
                >::empty());
                assert(spec_account_schemas(Seq::empty(), mv) == Some(
                    (Seq::<(u64, SchemaNodeView)>::empty(), Seq::<u8>::empty()),
                ));
            }
            return Ok((pairs, 8));
        },
    };
    proof {
        crate::json::lemma_json_seq_view(items@);
    }
    let ghost full = crate::json::json_seq_view(items@);
    let mut i: usize = 0;
    proof {
        assert(full.take(0) =~= Seq::<JsonView>::empty());
        assert(crate::on_chain_idl::acct_pairs_view(pairs@) =~= Seq::<
            (u64, SchemaNodeView),
        >::empty());
        assert(widths@ =~= Seq::<u8>::empty());
    }
    while i < items.len()
        invariant
            i <= items@.len(),
            full == crate::json::json_seq_view(items@),
            full.len() == items@.len(),
            forall|j: int| 0 <= j < items@.len() ==> full[j] == crate::json::json_view(
                items@[j],
            ),
            json_get(crate::json::json_members_view(root@), "accounts"@) == Some(
                JsonView::Array(full),
            ),
            mv == schema_pairs_view(schema_map@),
            crate::on_chain_idl::acct_pairs_view(pairs@).len() == pairs@.len(),
            spec_account_schemas(full.take(i as int), mv) == Some(
                (crate::on_chain_idl::acct_pairs_view(pairs@), widths@),
            ),
        decreases items@.len() - i,
    {
        let ghost pairs_pre = pairs@;
        proof {
            assert(full.take(i + 1).drop_last() =~= full.take(i as int));
            assert(full.take(i + 1).last() == full[i as int]);
        }
        let ms = match &items[i] {
            JsonValue::Object(ms) => ms,
            _ => {
                proof {
                    assert(spec_account_schemas(full.take(i + 1), mv) is None);
                    lemma_account_schemas_prefix_fail(full, mv, i + 1);
                }
                return Err(IdlError::new("account map is not an object"));
            },
        };
        proof {
            crate::json::lemma_json_members_view(ms@);
        }
        let nm: String = match crate::json::object_get(ms, "name") {
            Some(JsonValue::Str(s)) => s.clone(),
            _ => {
                proof {
                    assert(spec_account_schemas(full.take(i + 1), mv) is None);
                    lemma_account_schemas_prefix_fail(full, mv, i + 1);
                }
                return Err(IdlError::new("account name is not a string"));
            },
        };
        let disc: (u64, u8) = match crate::json::object_get(ms, "discriminant") {
            Some(d) => match parse_any_discriminator(d) {
                Ok(kw) => kw,
                Err(e) => {
                    proof {
                        assert(spec_account_schemas(full.take(i + 1), mv) is None);
                        lemma_account_schemas_prefix_fail(full, mv, i + 1);
                    }
                    return Err(e);
                },
            },
            None => match crate::json::object_get(ms, "discriminator") {
                Some(d) => match parse_any_discriminator(d) {
                    Ok(kw) => kw,
                    Err(e) => {
                        proof {
                            assert(spec_account_schemas(full.take(i + 1), mv) is None);
                            lemma_account_schemas_prefix_fail(full, mv, i + 1);
                        }
                        return Err(e);
                    },
                },
                None => {
                    let (key, _w) = parse_implicit_discriminant(nm.as_str())?;
                    (key, 8)
                },
            },
        };
        let schema: SchemaNode = match schema_map_find(schema_map, nm.as_str()) {
            Some(n) => n.clone(),
            None => {
                proof {
                    assert(spec_account_schemas(full.take(i + 1), mv) is None);
                    lemma_account_schemas_prefix_fail(full, mv, i + 1);
                }
                return Err(IdlError::new("account not found in schema map"));
            },
        };
        pairs.push((disc.0, schema));
        widths.push(disc.1);
        proof {
            assert(crate::on_chain_idl::acct_pairs_view(pairs@)
                =~= crate::on_chain_idl::acct_pairs_view(pairs_pre).push(
                (disc.0, schema_map_get(mv, nm@)->Some_0),
            ));
        }
        i = i + 1;
    }
    proof {
        assert(full.take(items@.len() as int) =~= full);
    }
    let mut uniform = true;
    let mut k: usize = 0;
    if widths.len() > 0 {
        let w0 = widths[0];
        while k < widths.len()
            invariant
                k <= widths@.len(),
                widths@.len() > 0,
                w0 == widths@[0],
                forall|j: int| 0 <= j < k ==> #[trigger] widths@[j] == widths@[0],
                json_get(crate::json::json_members_view(root@), "accounts"@) == Some(
                    JsonView::Array(full),
                ),
                mv == schema_pairs_view(schema_map@),
                spec_account_schemas(full, mv) == Some(
                    (crate::on_chain_idl::acct_pairs_view(pairs@), widths@),
                ),
            decreases widths@.len() - k,
        {
            if widths[k] != w0 {
                proof {
                    assert(!widths_uniform(widths@));
                }
                return Err(IdlError::new("multiple discriminant widths found"));
            }
            k = k + 1;
        }
        proof {
            assert(widths_uniform(widths@));
        }
        Ok((pairs, w0))
    } else {
        proof {
            assert(widths_uniform(widths@));
        }
        Ok((pairs, 8))
    }
}

/// The ordered account-role names of one instruction.
fn parse_instruction_accounts(accs: &Vec<JsonValue>) -> (r: Result<Vec<String>, IdlError>)
    ensures
        match r {
            Ok(names) => spec_instruction_accounts(crate::json::json_seq_view(accs@)) == Some(
                strings_view(names@),
            ),
            Err(_) => spec_instruction_accounts(crate::json::json_seq_view(accs@)) is None,
        },
{
    proof {
        crate::json::lemma_json_seq_view(accs@);
    }
    let ghost full = crate::json::json_seq_view(accs@);
    let mut names: Vec<String> = Vec::new();
    let mut i: usize = 0;
    proof {
        assert(full.take(0) =~= Seq::<JsonView>::empty());
        assert(strings_view(names@) =~= Seq::<Seq<char>>::empty());
    }
    while i < accs.len()
        invariant
            i <= accs@.len(),
            full == crate::json::json_seq_view(accs@),
            full.len() == accs@.len(),
            forall|j: int| 0 <= j < accs@.len() ==> full[j] == crate::json::json_view(accs@[j]),
            strings_view(names@).len() == names@.len(),
            spec_instruction_accounts(full.take(i as int)) == Some(strings_view(names@)),
        decreases accs@.len() - i,
    {
        let ghost names_pre = names@;
        proof {
            assert(full.take(i + 1).drop_last() =~= full.take(i as int));
            assert(full.take(i + 1).last() == full[i as int]);
        }
        let ms = match &accs[i] {
            JsonValue::Object(ms) => ms,
            _ => {
                proof {
                    assert(spec_instruction_accounts(full.take(i + 1)) is None);
                    lemma_instruction_accounts_prefix_fail(full, i + 1);
                }
                return Err(IdlError::new("account is not an object"));
            },
        };
        proof {
            crate::json::lemma_json_members_view(ms@);
        }
        let nm: String = match crate::json::object_get(ms, "name") {
            Some(JsonValue::Str(s)) => s.clone(),
            _ => {
                proof {
                    assert(spec_instruction_accounts(full.take(i + 1)) is None);
                    lemma_instruction_accounts_prefix_fail(full, i + 1);
                }
                return Err(IdlError::new("account name is not a string"));
            },
        };
        let ghost nv = nm@;
        names.push(nm);
        proof {
            assert(strings_view(names@) =~= strings_view(names_pre).push(nv));
        }
        i = i + 1;
    }
    proof {
        assert(full.take(accs@.len() as int) =~= full);
    }
    Ok(names)
}

/// The instruction map and its uniform discriminator width.
#[verifier::spinoff_prover]
#[verifier::rlimit(100)]
fn parse_instructions(
    root: &Vec<JsonMember>,
    table: &Vec<(String, JsonValue)>,
) -> (r: Result<(Vec<(u64, InstructionDecoder)>, u8), IdlError>)
    ensures
        match r {
            Ok((pairs, w)) => spec_parse_instructions(
                crate::json::json_members_view(root@),
                table_view(table@),
            ) == Some((crate::on_chain_idl::instr_pairs_view(pairs@), w)),
            Err(_) => spec_parse_instructions(
                crate::json::json_members_view(root@),
                table_view(table@),
            ) is None,
        },
{
    let ghost tv = table_view(table@);
    let mut pairs: Vec<(u64, InstructionDecoder)> = Vec::new();
    let mut widths: Vec<u8> = Vec::new();
    let items: &Vec<JsonValue> = match crate::json::object_get(root, "instructions") {
        Some(JsonValue::Array(items)) => items,
        _ => {
            proof {
                assert(crate::on_chain_idl::instr_pairs_view(pairs@) =~= Seq::<
                    (u64, InstructionDecoderView),
                >::empty());
                assert(spec_instructions(tv, Seq::empty()) == Some(
                    (Seq::<(u64, InstructionDecoderView)>::empty(), Seq::<u8>::empty()),
                ));
            }
            return Ok((pairs, 8));
        },
    };
    proof {
        crate::json::lemma_json_seq_view(items@);
    }
    let ghost full = crate::json::json_seq_view(items@);
    let mut i: usize = 0;
    proof {
        assert(full.take(0) =~= Seq::<JsonView>::empty());
        assert(crate::on_chain_idl::instr_pairs_view(pairs@) =~= Seq::<
            (u64, InstructionDecoderView),
        >::empty());
        assert(widths@ =~= Seq::<u8>::empty());
    }
    while i < items.len()
        invariant
            i <= items@.len(),
            full == crate::json::json_seq_view(items@),
            full.len() == items@.len(),
            forall|j: int| 0 <= j < items@.len() ==> full[j] == crate::json::json_view(
                items@[j],
            ),
            json_get(crate::json::json_members_view(root@), "instructions"@) == Some(
                JsonView::Array(full),
            ),
            tv == table_view(table@),
            crate::on_chain_idl::instr_pairs_view(pairs@).len() == pairs@.len(),
            spec_instructions(tv, full.take(i as int)) == Some(
                (crate::on_chain_idl::instr_pairs_view(pairs@), widths@),
            ),
        decreases items@.len() - i,
    {
        let ghost pairs_pre = pairs@;
        proof {
            assert(full.take(i + 1).drop_last() =~= full.take(i as int));
            assert(full.take(i + 1).last() == full[i as int]);
        }
        let ms = match &items[i] {
            JsonValue::Object(ms) => ms,
            _ => {
                proof {
                    assert(spec_instructions(tv, full.take(i + 1)) is None);
                    lemma_instructions_prefix_fail(tv, full, i + 1);
                }
                return Err(IdlError::new("instruction map is not an object"));
            },
        };
        proof {
            crate::json::lemma_json_members_view(ms@);
        }
        let nm: String = match crate::json::object_get(ms, "name") {
            Some(JsonValue::Str(s)) => s.clone(),
            _ => {
                proof {
                    assert(spec_instruction_of(tv, crate::json::json_members_view(ms@)) is None);
                    assert(spec_instructions(tv, full.take(i + 1)) is None);
                    lemma_instructions_prefix_fail(tv, full, i + 1);
                }
                return Err(IdlError::new("instruction name is not a string"));
            },
        };
        let accs = match crate::json::object_get(ms, "accounts") {
            Some(JsonValue::Array(accs)) => accs,
            _ => {
                proof {
                    assert(spec_instruction_of(tv, crate::json::json_members_view(ms@)) is None);
                    assert(spec_instructions(tv, full.take(i + 1)) is None);
                    lemma_instructions_prefix_fail(tv, full, i + 1);
                }
                return Err(IdlError::new("accounts is not an array"));
            },
        };
        let accounts = match parse_instruction_accounts(accs) {
            Ok(a) => a,
            Err(e) => {
                proof {
                    assert(spec_instruction_of(tv, crate::json::json_members_view(ms@)) is None);
                    assert(spec_instructions(tv, full.take(i + 1)) is None);
                    lemma_instructions_prefix_fail(tv, full, i + 1);
                }
                return Err(e);
            },
        };
        let empty_args: Vec<JsonValue> = Vec::new();
        let args: &Vec<JsonValue> = match crate::json::object_get(ms, "args") {
            Some(JsonValue::Array(a)) => a,
            _ => &empty_args,
        };
        proof {
            crate::json::lemma_json_seq_view(args@);
        }
        let instruction_args_parser: SchemaNode = if args.len() == 0 {
            proof {
                assert(crate::json::json_seq_view(args@) =~= Seq::<JsonView>::empty());
            }
            SchemaNode { name: nm.clone(), typ: SchemaType::Empty, is_hidden: false }
        } else {
            let empty_visiting: Vec<String> = Vec::new();
            proof {
                assert(strings_view(empty_visiting@) =~= Seq::<Seq<char>>::empty());
            }
            match resolve_fields(table, &empty_visiting, args) {
                Ok(ns) => SchemaNode {
                    name: nm.clone(),
                    typ: SchemaType::Struct(ns),
                    is_hidden: false,
                },
                Err(e) => {
                    proof {
                        assert(spec_instruction_of(
                            tv,
                            crate::json::json_members_view(ms@),
                        ) is None);
                        assert(spec_instructions(tv, full.take(i + 1)) is None);
                        lemma_instructions_prefix_fail(tv, full, i + 1);
                    }
                    return Err(e);
                },
            }
        };
        let disc: (u64, u8) = match crate::json::object_get(ms, "discriminant") {
            Some(d) => match parse_any_discriminator(d) {
                Ok(kw) => kw,
                Err(e) => {
                    proof {
                        assert(spec_instruction_of(
                            tv,
                            crate::json::json_members_view(ms@),
                        ) is None);
                        assert(spec_instructions(tv, full.take(i + 1)) is None);
                        lemma_instructions_prefix_fail(tv, full, i + 1);
                    }
                    return Err(e);
                },
            },
            None => match crate::json::object_get(ms, "discriminator") {
                Some(d) => match parse_any_discriminator(d) {
                    Ok(kw) => kw,
                    Err(e) => {
                        proof {
                            assert(spec_instruction_of(
                                tv,
                                crate::json::json_members_view(ms@),
                            ) is None);
                            assert(spec_instructions(tv, full.take(i + 1)) is None);
                            lemma_instructions_prefix_fail(tv, full, i + 1);
                        }
                        return Err(e);
                    },
                },
                None => {
                    let (key, _w) = parse_implicit_instruction_discriminant(nm.as_str())?;
                    (key, 8)
                },
            },
        };
        let decoder = InstructionDecoder { accounts, instruction_args_parser };
        let ghost dv_ = decoder@;
        pairs.push((disc.0, decoder));
        widths.push(disc.1);
        proof {
            assert(spec_instruction_of(tv, crate::json::json_members_view(ms@)) == Some(
                (disc.0, disc.1, dv_),
            ));
            assert(crate::on_chain_idl::instr_pairs_view(pairs@)
                =~= crate::on_chain_idl::instr_pairs_view(pairs_pre).push((disc.0, dv_)));
        }
        i = i + 1;
    }
    proof {
        assert(full.take(items@.len() as int) =~= full);
    }
    let mut k: usize = 0;
    if widths.len() > 0 {
        let w0 = widths[0];
        while k < widths.len()
            invariant
                k <= widths@.len(),
                widths@.len() > 0,
                w0 == widths@[0],
                forall|j: int| 0 <= j < k ==> #[trigger] widths@[j] == widths@[0],
                json_get(crate::json::json_members_view(root@), "instructions"@) == Some(
                    JsonView::Array(full),
                ),
                tv == table_view(table@),
                spec_instructions(tv, full) == Some(
                    (crate::on_chain_idl::instr_pairs_view(pairs@), widths@),
                ),
            decreases widths@.len() - k,
        {
            if widths[k] != w0 {
                proof {
                    assert(!widths_uniform(widths@));
                }
                return Err(IdlError::new("multiple discriminant widths found"));
            }
            k = k + 1;
        }
        proof {
            assert(widths_uniform(widths@));
        }
        Ok((pairs, w0))
    } else {
        proof {
            assert(widths_uniform(widths@));
        }
        Ok((pairs, 8))
    }
}

/// Checks the compiled index against its own wire form: encode, decode,
/// compare. The round-trip law guarantees that this never fails.
pub fn validate_on_chain_idl(on_chain_idl: &OnChainIdl) -> (r: Result<(), IdlError>)
    ensures
        r is Ok,
{
    let bytes = on_chain_idl.wire_encode();
    proof {
        crate::on_chain_idl::lemma_round_trip_idl(on_chain_idl@, Seq::empty());
        assert(bytes@ + Seq::empty() =~= bytes@);
        assert(bytes@.skip(0) =~= bytes@);
    }
    match OnChainIdl::wire_decode(bytes.as_slice(), 0) {
        Ok((decoded, _end)) => {
            if decoded == *on_chain_idl {
                Ok(())
            } else {
                proof {
                    assert(false);
                }
                Err(IdlError::new("the index does not round-trip through its wire form"))
            }
        },
        Err(_) => {
            proof {
                assert(false);
            }
            Err(IdlError::new("the index does not round-trip through its wire form"))
        },
    }
}

/// Compiles a parsed document into a program index.
pub fn parse_idl_document(doc: &JsonValue) -> (r: Result<OnChainIdl, IdlError>)
    ensures
        match r {
            Ok(idl) => spec_parse_idl(doc@) == Some(idl@),
            Err(_) => spec_parse_idl(doc@) is None,
        },
{
    let root = match doc {
        JsonValue::Object(ms) => ms,
        _ => {
            return Err(IdlError::new("root is not an object"));
        },
    };
    proof {
        crate::json::lemma_json_members_view(root@);
    }
    let mut table = parse_types(root)?;
    parse_accounts(root, &mut table)?;
    let mut idl_parser = IdlParser::new(table);
    let schema_map = idl_parser.parse()?;
    let (accounts, account_disc_len) = parse_account_schemas(root, &schema_map)?;
    let (instruction_params, instruction_disc_len) = parse_instructions(
        root,
        &idl_parser.type_map,
    )?;
    let program_name: String = match crate::json::object_get(root, "name") {
        Some(JsonValue::Str(s)) => s.clone(),
        _ => String::new(),
    };
    let on_chain_idl = OnChainIdl {
        program_name,
        account_disc_len,
        instruction_disc_len,
        accounts,
        instruction_params,
    };
    validate_on_chain_idl(&on_chain_idl)?;
    proof {
        assert(on_chain_idl@ =~= spec_parse_idl(doc@)->Some_0);
    }
    Ok(on_chain_idl)
}

/// Compiles an interface-description document from its JSON text into a
/// program index: parses the text, builds the type table, resolves every
/// reference, computes discriminators, and checks the wire round trip.
pub fn parse_idl(json_str: String) -> (r: Result<OnChainIdl, IdlError>)
    ensures
        match r {
            Ok(idl) => (match crate::json::json_doc_of(json_str@) {
                Some(d) => spec_parse_idl(d) == Some(idl@),
                None => false,
            }),
            Err(_) => (match crate::json::json_doc_of(json_str@) {
                Some(d) => spec_parse_idl(d) is None,
                None => true,
            }),
        },
{
    match crate::json::json_parse(json_str.as_str()) {
        Some(doc) => parse_idl_document(&doc),
        None => Err(IdlError::new("the document is not well-formed")),
    }
}
} // verus!
