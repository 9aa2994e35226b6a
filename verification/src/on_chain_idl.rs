//! The program index: program name, discriminator widths, and the maps from
//! discriminator keys to account schemas and instruction decoders, with the
//! two public decode operations.
use vstd::prelude::*;

use crate::errors::DecodeError;
use crate::schema::SchemaNode;
use crate::schema::SchemaNodeView;
use crate::schema::SchemaType;
use crate::schema::SchemaTypeView;
use crate::schema::bytes_deserialize::dv_node;
use crate::value::TypedValue;
use crate::value::TypedValueView;
use crate::value::ValueNode;

verus! {

broadcast use vstd::std_specs::vec::group_vec_axioms, vstd::seq::group_seq_axioms, vstd::string::group_string_axioms;

use vstd::bytes::spec_u64_from_le_bytes;
use vstd::bytes::spec_u64_to_le_bytes;
use crate::schema::on_chain_serialization::enc_str;
use crate::schema::on_chain_serialization::enc_count;
use crate::schema::on_chain_serialization::enc_node;
use crate::schema::on_chain_serialization::dec_node;
use crate::schema::on_chain_serialization::node_encodable;
use crate::schema::on_chain_serialization::lemma_round_trip_node;

/// The decoder of one instruction: its declared account-role names, in
/// order, and the schema of its argument payload.
#[derive(Debug)]
pub struct InstructionDecoder {
    pub accounts: Vec<String>,
    pub instruction_args_parser: SchemaNode,
}

/// Mathematical view of an `InstructionDecoder`.
#[verifier::ext_equal]
pub struct InstructionDecoderView {
    pub accounts: Seq<Seq<char>>,
    pub instruction_args_parser: SchemaNodeView,
}

/// The compiled program index.
#[derive(Debug)]
pub struct OnChainIdl {
    pub program_name: String,
    pub account_disc_len: u8,
    pub instruction_disc_len: u8,
    pub accounts: Vec<(u64, SchemaNode)>,
    pub instruction_params: Vec<(u64, InstructionDecoder)>,
}

/// Mathematical view of an `OnChainIdl`.
#[verifier::ext_equal]
pub struct OnChainIdlView {
    pub program_name: Seq<char>,
    pub account_disc_len: u8,
    pub instruction_disc_len: u8,
    pub accounts: Seq<(u64, SchemaNodeView)>,
    pub instruction_params: Seq<(u64, InstructionDecoderView)>,
}

pub open spec fn strings_view(ss: Seq<String>) -> Seq<Seq<char>> {
    Seq::new(ss.len(), |i: int| ss[i]@)
}

pub open spec fn instr_view(d: InstructionDecoder) -> InstructionDecoderView {
    InstructionDecoderView {
        accounts: strings_view(d.accounts@),
        instruction_args_parser: crate::schema::node_view(d.instruction_args_parser),
    }
}

pub open spec fn acct_pairs_view(ps: Seq<(u64, SchemaNode)>) -> Seq<(u64, SchemaNodeView)> {
    Seq::new(ps.len(), |i: int| (ps[i].0, crate::schema::node_view(ps[i].1)))
}

pub open spec fn instr_pairs_view(ps: Seq<(u64, InstructionDecoder)>) -> Seq<
    (u64, InstructionDecoderView),
> {
    Seq::new(ps.len(), |i: int| (ps[i].0, instr_view(ps[i].1)))
}

impl View for InstructionDecoder {
    type V = InstructionDecoderView;

    open spec fn view(&self) -> InstructionDecoderView {
        instr_view(*self)
    }
}

impl View for OnChainIdl {
    type V = OnChainIdlView;

    open spec fn view(&self) -> OnChainIdlView {
        OnChainIdlView {
            program_name: self.program_name@,
            account_disc_len: self.account_disc_len,
            instruction_disc_len: self.instruction_disc_len,
            accounts: acct_pairs_view(self.accounts@),
            instruction_params: instr_pairs_view(self.instruction_params@),
        }
    }
}

/// A short byte prefix zero-padded to 8 bytes.
pub open spec fn zero_pad8(s: Seq<u8>) -> Seq<u8>
    recommends
        s.len() <= 8,
{
    s + Seq::new((8 - s.len()) as nat, |i: int| 0u8)
}

/// The discriminator of a buffer under the given byte width: the first
/// `min(width, 8)` bytes, zero-padded to 8, read little-endian.
pub open spec fn spec_discriminator(data: Seq<u8>, width: nat) -> u64
    recommends
        data.len() >= vstd::math::min(width as int, 8),
{
    spec_u64_from_le_bytes(zero_pad8(data.subrange(0, vstd::math::min(width as int, 8))))
}

/// Extracts a discriminator: copies the first `min(width, 8)` bytes into an
/// 8-byte little-endian word, zero-padded.
pub fn extract_discriminator(data: &[u8], width: u8) -> (r: u64)
    requires
        data@.len() >= vstd::math::min(width as int, 8),
    ensures
        r == spec_discriminator(data@, width as nat),
{
    let w: usize = if (width as usize) < 8 {
        width as usize
    } else {
        8
    };
    let mut padded: Vec<u8> = Vec::new();
    let mut i: usize = 0;
    while i < w
        invariant
            i <= w,
            w == vstd::math::min(width as int, 8),
            w <= data@.len(),
            padded@.len() == i as nat,
            forall|j: int| 0 <= j < i ==> padded@[j] == data@[j],
        decreases w - i,
    {
        padded.push(*vstd::slice::slice_index_get(data, i));
        i = i + 1;
    }
    while i < 8
        invariant
            w <= i <= 8,
            w == vstd::math::min(width as int, 8),
            padded@.len() == i as nat,
            forall|j: int| 0 <= j < w ==> padded@[j] == data@[j],
            forall|j: int| w <= j < i ==> padded@[j] == 0u8,
        decreases 8 - i,
    {
        padded.push(0u8);
        i = i + 1;
    }
    proof {
        assert(padded@ =~= zero_pad8(data@.subrange(0, w as int)));
    }
    vstd::bytes::u64_from_le_bytes(padded.as_slice())
}

/// The first schema mapped to `key`, scanning in order.
pub open spec fn find_account(accounts: Seq<(u64, SchemaNodeView)>, key: u64) -> Option<
    SchemaNodeView,
>
    decreases accounts.len(),
{
    if accounts.len() == 0 {
        None
    } else if accounts.first().0 == key {
        Some(accounts.first().1)
    } else {
        find_account(accounts.drop_first(), key)
    }
}

/// The first instruction decoder mapped to `key`, scanning in order.
pub open spec fn find_instruction(
    params: Seq<(u64, InstructionDecoderView)>,
    key: u64,
) -> Option<InstructionDecoderView>
    decreases params.len(),
{
    if params.len() == 0 {
        None
    } else if params.first().0 == key {
        Some(params.first().1)
    } else {
        find_instruction(params.drop_first(), key)
    }
}

/// The positional account-name list of a decoded instruction: index `i`
/// takes the declared role name when one exists, otherwise a synthesized
/// placeholder.
pub open spec fn spec_account_names(declared: Seq<Seq<char>>, n: nat) -> Seq<Seq<char>> {
    Seq::new(
        n,
        |i: int|
            if i < declared.len() {
                declared[i]
            } else {
                "Account "@ + crate::text::spec_dec_digits((i + 1) as nat)
            },
    )
}

/// What decoding an account buffer yields: the matched schema's name and
/// type and the decoded value, or nothing when the buffer is short, no entry
/// matches, or the payload does not decode to a visible value.
pub open spec fn spec_parse_account(idl: OnChainIdlView, data: Seq<u8>, show: bool) -> Option<
    (Seq<char>, SchemaTypeView, TypedValueView),
> {
    if data.len() < idl.account_disc_len {
        None
    } else {
        let key = spec_discriminator(data, idl.account_disc_len as nat);
        match find_account(idl.accounts, key) {
            Some(schema) => match dv_node(schema, data.skip(idl.account_disc_len as int), show) {
                Some((Some(vn), _)) => Some((schema.name, schema.typ, vn.value)),
                _ => None,
            },
            None => None,
        }
    }
}

/// Mathematical view of a `ParsedInstructionResult`.
#[verifier::ext_equal]
pub struct ParsedInstructionResultView {
    pub name: Seq<char>,
    pub schema: SchemaTypeView,
    pub accounts: Seq<Seq<char>>,
    pub accounts_map: Seq<(Seq<char>, Seq<char>)>,
    pub value: TypedValueView,
}

/// What decoding an instruction buffer yields.
pub open spec fn spec_parse_instruction(
    idl: OnChainIdlView,
    data: Seq<u8>,
    keys: Seq<Seq<char>>,
    show: bool,
) -> Option<ParsedInstructionResultView> {
    if data.len() < idl.instruction_disc_len {
        None
    } else {
        let key = spec_discriminator(data, idl.instruction_disc_len as nat);
        match find_instruction(idl.instruction_params, key) {
            Some(dec) => match dv_node(
                dec.instruction_args_parser,
                data.skip(idl.instruction_disc_len as int),
                show,
            ) {
                Some((Some(vn), _)) => {
                    let names = spec_account_names(dec.accounts, keys.len());
                    Some(
                        ParsedInstructionResultView {
                            name: dec.instruction_args_parser.name,
                            schema: dec.instruction_args_parser.typ,
                            accounts: names,
                            accounts_map: Seq::new(keys.len(), |i: int| (names[i], keys[i])),
                            value: vn.value,
                        },
                    )
                },
                _ => None,
            },
            None => None,
        }
    }
}

/// The decoded form of one instruction: its name, argument schema, account
/// names (positional), the name-to-address pairs, and the decoded value.
#[derive(Debug)]
pub struct ParsedInstructionResult {
    pub name: String,
    pub schema: SchemaType,
    pub accounts: Vec<String>,
    pub accounts_map: Vec<(String, String)>,
    pub value: TypedValue,
}

pub open spec fn string_pairs_view(ps: Seq<(String, String)>) -> Seq<(Seq<char>, Seq<char>)> {
    Seq::new(ps.len(), |i: int| (ps[i].0@, ps[i].1@))
}

impl View for ParsedInstructionResult {
    type V = ParsedInstructionResultView;

    open spec fn view(&self) -> ParsedInstructionResultView {
        ParsedInstructionResultView {
            name: self.name@,
            schema: self.schema@,
            accounts: strings_view(self.accounts@),
            accounts_map: string_pairs_view(self.accounts_map@),
            value: self.value@,
        }
    }
}

impl ParsedInstructionResult {
    /// Assembles the result from the matched schema node and the account
    /// lists; the node's name and type become the result's name and schema.
    pub fn new(
        schema: SchemaNode,
        accounts: Vec<String>,
        accounts_map: Vec<(String, String)>,
        value: TypedValue,
    ) -> (r: Self)
        ensures
            r@.name == schema@.name,
            r@.schema == schema@.typ,
            r@.accounts == strings_view(accounts@),
            r@.accounts_map == string_pairs_view(accounts_map@),
            r@.value == value@,
    {
        ParsedInstructionResult {
            name: schema.name,
            schema: schema.typ,
            accounts,
            accounts_map,
            value,
        }
    }
}

/// Mathematical view of a `ParsedAccountResult`.
#[verifier::ext_equal]
pub struct ParsedAccountResultView {
    pub name: Seq<char>,
    pub schema: SchemaTypeView,
    pub value: TypedValueView,
}

/// The decoded form of one account: its name, schema, and decoded value.
#[derive(Debug)]
pub struct ParsedAccountResult {
    pub name: String,
    pub schema: SchemaType,
    pub value: TypedValue,
}

impl View for ParsedAccountResult {
    type V = ParsedAccountResultView;

    open spec fn view(&self) -> ParsedAccountResultView {
        ParsedAccountResultView { name: self.name@, schema: self.schema@, value: self.value@ }
    }
}

impl ParsedAccountResult {
    /// Assembles the result from the matched schema node and decoded value.
    pub fn new(schema: SchemaNode, value: TypedValue) -> (r: Self)
        ensures
            r@.name == schema@.name,
            r@.schema == schema@.typ,
            r@.value == value@,
    {
        ParsedAccountResult { name: schema.name, schema: schema.typ, value }
    }
}

/// The wire bytes of a list of length-prefixed strings.
pub open spec fn enc_strs(ss: Seq<Seq<char>>) -> Seq<u8>
    decreases ss.len(),
{
    if ss.len() == 0 {
        Seq::empty()
    } else {
        enc_str(ss.first()) + enc_strs(ss.drop_first())
    }
}

/// The wire bytes of an instruction decoder: account-name list, then the
/// argument schema node.
pub open spec fn enc_instr(d: InstructionDecoderView) -> Seq<u8> {
    enc_count(d.accounts.len()) + enc_strs(d.accounts) + enc_node(d.instruction_args_parser)
}

/// The wire bytes of the discriminator-to-schema pairs.
pub open spec fn enc_acct_pairs(ps: Seq<(u64, SchemaNodeView)>) -> Seq<u8>
    decreases ps.len(),
{
    if ps.len() == 0 {
        Seq::empty()
    } else {
        spec_u64_to_le_bytes(ps.first().0) + enc_node(ps.first().1) + enc_acct_pairs(
            ps.drop_first(),
        )
    }
}

/// The wire bytes of the discriminator-to-instruction pairs.
pub open spec fn enc_instr_pairs(ps: Seq<(u64, InstructionDecoderView)>) -> Seq<u8>
    decreases ps.len(),
{
    if ps.len() == 0 {
        Seq::empty()
    } else {
        spec_u64_to_le_bytes(ps.first().0) + enc_instr(ps.first().1) + enc_instr_pairs(
            ps.drop_first(),
        )
    }
}

/// The wire bytes of a whole program index.
pub open spec fn enc_idl(v: OnChainIdlView) -> Seq<u8> {
    enc_str(v.program_name) + seq![v.account_disc_len, v.instruction_disc_len] + enc_count(
        v.accounts.len(),
    ) + enc_acct_pairs(v.accounts) + enc_count(v.instruction_params.len()) + enc_instr_pairs(
        v.instruction_params,
    )
}

pub open spec fn strs_encodable(ss: Seq<Seq<char>>) -> bool {
    forall|i: int| 0 <= i < ss.len() ==> vstd::utf8::encode_utf8(#[trigger] ss[i]).len() <= u64::MAX
}

pub open spec fn instr_encodable(d: InstructionDecoderView) -> bool {
    d.accounts.len() <= u64::MAX && strs_encodable(d.accounts) && node_encodable(
        d.instruction_args_parser,
    )
}

pub open spec fn idl_encodable(v: OnChainIdlView) -> bool {
    &&& vstd::utf8::encode_utf8(v.program_name).len() <= u64::MAX
    &&& v.accounts.len() <= u64::MAX
    &&& (forall|i: int| 0 <= i < v.accounts.len() ==> node_encodable(#[trigger] v.accounts[i].1))
    &&& v.instruction_params.len() <= u64::MAX
    &&& (forall|i: int|
        0 <= i < v.instruction_params.len() ==> instr_encodable(
            #[trigger] v.instruction_params[i].1,
        ))
}

/// Decodes one length-prefixed string from the front of `data`.
pub open spec fn dec_str(data: Seq<u8>) -> Option<(Seq<char>, nat)> {
    if data.len() < 8 {
        None
    } else {
        let blen = spec_u64_from_le_bytes(data.subrange(0, 8)) as nat;
        if 8 + blen > data.len() {
            None
        } else {
            let bs = data.subrange(8, (8 + blen) as int);
            if vstd::utf8::valid_utf8(bs) {
                Some((vstd::utf8::decode_utf8(bs), (8 + blen) as nat))
            } else {
                None
            }
        }
    }
}

/// Decodes `n` consecutive length-prefixed strings.
pub open spec fn dec_strs(data: Seq<u8>, n: nat) -> Option<(Seq<Seq<char>>, nat)>
    decreases data.len(), n,
{
    if n == 0 {
        Some((Seq::empty(), 0))
    } else {
        match dec_str(data) {
            Some((s, k)) => if 1 <= k <= data.len() {
                match dec_strs(data.skip(k as int), (n - 1) as nat) {
                    Some((ss, k2)) => Some((seq![s] + ss, (k + k2) as nat)),
                    None => None,
                }
            } else {
                None
            },
            None => None,
        }
    }
}

/// Decodes one instruction decoder.
pub open spec fn dec_instr(data: Seq<u8>) -> Option<(InstructionDecoderView, nat)> {
    if data.len() < 8 {
        None
    } else {
        let n = spec_u64_from_le_bytes(data.subrange(0, 8));
        match dec_strs(data.skip(8), n as nat) {
            Some((ss, k)) => if k <= data.len() - 8 {
                match dec_node(data.skip(8 + k as int)) {
                    Some((nd, k2)) => Some(
                        (
                            InstructionDecoderView { accounts: ss, instruction_args_parser: nd },
                            (8 + k + k2) as nat,
                        ),
                    ),
                    None => None,
                }
            } else {
                None
            },
            None => None,
        }
    }
}

/// Decodes `n` consecutive discriminator-to-schema pairs.
pub open spec fn dec_acct_pairs(data: Seq<u8>, n: nat) -> Option<(Seq<(u64, SchemaNodeView)>, nat)>
    decreases data.len(), n,
{
    if n == 0 {
        Some((Seq::empty(), 0))
    } else if data.len() < 8 {
        None
    } else {
        let key = spec_u64_from_le_bytes(data.subrange(0, 8));
        match dec_node(data.skip(8)) {
            Some((nd, k)) => if k <= data.len() - 8 {
                match dec_acct_pairs(data.skip(8 + k as int), (n - 1) as nat) {
                    Some((ps, k2)) => Some((seq![(key, nd)] + ps, (8 + k + k2) as nat)),
                    None => None,
                }
            } else {
                None
            },
            None => None,
        }
    }
}

/// Decodes `n` consecutive discriminator-to-instruction pairs.
pub open spec fn dec_instr_pairs(data: Seq<u8>, n: nat) -> Option<
    (Seq<(u64, InstructionDecoderView)>, nat),
>
    decreases data.len(), n,
{
    if n == 0 {
        Some((Seq::empty(), 0))
    } else if data.len() < 8 {
        None
    } else {
        let key = spec_u64_from_le_bytes(data.subrange(0, 8));
        match dec_instr(data.skip(8)) {
            Some((d, k)) => if 1 <= k <= data.len() - 8 {
                match dec_instr_pairs(data.skip(8 + k as int), (n - 1) as nat) {
                    Some((ps, k2)) => Some((seq![(key, d)] + ps, (8 + k + k2) as nat)),
                    None => None,
                }
            } else {
                None
            },
            None => None,
        }
    }
}

/// Decodes a whole program index from the front of `data`.
pub open spec fn dec_idl(data: Seq<u8>) -> Option<(OnChainIdlView, nat)> {
    match dec_str(data) {
        Some((name, k1)) => if k1 + 2 <= data.len() {
            let adl = data[k1 as int];
            let idl_w = data[k1 as int + 1];
            let d2 = data.skip(k1 as int + 2);
            if d2.len() >= 8 {
                let n1 = spec_u64_from_le_bytes(d2.subrange(0, 8));
                match dec_acct_pairs(d2.skip(8), n1 as nat) {
                    Some((accts, k2)) => if k2 <= d2.len() - 8 {
                        let d3 = d2.skip(8 + k2 as int);
                        if d3.len() >= 8 {
                            let n2 = spec_u64_from_le_bytes(d3.subrange(0, 8));
                            match dec_instr_pairs(d3.skip(8), n2 as nat) {
                                Some((ix, k3)) => Some(
                                    (
                                        OnChainIdlView {
                                            program_name: name,
                                            account_disc_len: adl,
                                            instruction_disc_len: idl_w,
                                            accounts: accts,
                                            instruction_params: ix,
                                        },
                                        (k1 + 2 + 8 + k2 + 8 + k3) as nat,
                                    ),
                                ),
                                None => None,
                            }
                        } else {
                            None
                        }
                    } else {
                        None
                    },
                    None => None,
                }
            } else {
                None
            }
        } else {
            None
        },
        None => None,
    }
}

/// Round trip for one length-prefixed string.
pub proof fn lemma_round_trip_str(s: Seq<char>, rest: Seq<u8>)
    requires
        vstd::utf8::encode_utf8(s).len() <= u64::MAX,
    ensures
        enc_str(s).len() >= 8,
        dec_str(enc_str(s) + rest) == Some((s, enc_str(s).len() as nat)),
{
    vstd::bytes::lemma_auto_spec_u64_to_from_le_bytes();
    broadcast use vstd::utf8::group_utf8_lib;

    let bs = vstd::utf8::encode_utf8(s);
    let data = enc_str(s) + rest;
    assert(data.subrange(0, 8) =~= spec_u64_to_le_bytes(bs.len() as u64));
    assert(data.subrange(8, 8 + bs.len() as int) =~= bs);
    assert(vstd::utf8::valid_utf8(bs));
    assert(vstd::utf8::decode_utf8(bs) == s);
}

/// Round trip for a list of length-prefixed strings.
pub proof fn lemma_round_trip_strs(ss: Seq<Seq<char>>, rest: Seq<u8>)
    requires
        strs_encodable(ss),
    ensures
        dec_strs(enc_strs(ss) + rest, ss.len()) == Some((ss, enc_strs(ss).len() as nat)),
    decreases ss.len(),
{
    if ss.len() == 0 {
        assert(enc_strs(ss) + rest =~= rest);
    } else {
        let first = ss.first();
        let tail = ss.drop_first();
        let e1 = enc_str(first);
        let e2 = enc_strs(tail);
        let data = enc_strs(ss) + rest;
        assert(data =~= e1 + (e2 + rest));
        lemma_round_trip_str(first, e2 + rest);
        assert(data.skip(e1.len() as int) =~= e2 + rest);
        assert(strs_encodable(tail)) by {
            assert(forall|i: int|
                0 <= i < tail.len() ==> #[trigger] tail[i] == ss[i + 1]
                    && vstd::utf8::encode_utf8(ss[i + 1]).len() <= u64::MAX);
        }
        lemma_round_trip_strs(tail, rest);
        assert(seq![first] + tail =~= ss);
    }
}

/// Round trip for an instruction decoder.
pub proof fn lemma_round_trip_instr(d: InstructionDecoderView, rest: Seq<u8>)
    requires
        instr_encodable(d),
    ensures
        enc_instr(d).len() >= 8,
        dec_instr(enc_instr(d) + rest) == Some((d, enc_instr(d).len() as nat)),
{
    vstd::bytes::lemma_auto_spec_u64_to_from_le_bytes();
    let e1 = enc_strs(d.accounts);
    let e2 = enc_node(d.instruction_args_parser);
    let data = enc_instr(d) + rest;
    assert(data.subrange(0, 8) =~= spec_u64_to_le_bytes(d.accounts.len() as u64));
    assert(data.skip(8) =~= e1 + (e2 + rest));
    lemma_round_trip_strs(d.accounts, e2 + rest);
    assert(data.skip(8).skip(e1.len() as int) =~= e2 + rest);
    lemma_round_trip_node(d.instruction_args_parser, rest);
    assert(data.skip(8 + e1.len() as int) =~= e2 + rest);
    assert((InstructionDecoderView {
        accounts: d.accounts,
        instruction_args_parser: d.instruction_args_parser,
    }) =~= d);
}

/// Round trip for the discriminator-to-schema pairs.
#[verifier::spinoff_prover]
#[verifier::rlimit(60)]
pub proof fn lemma_round_trip_acct_pairs(ps: Seq<(u64, SchemaNodeView)>, rest: Seq<u8>)
    requires
        forall|i: int| 0 <= i < ps.len() ==> node_encodable(#[trigger] ps[i].1),
    ensures
        dec_acct_pairs(enc_acct_pairs(ps) + rest, ps.len()) == Some(
            (ps, enc_acct_pairs(ps).len() as nat),
        ),
    decreases ps.len(),
{
    vstd::bytes::lemma_auto_spec_u64_to_from_le_bytes();
    if ps.len() == 0 {
        assert(enc_acct_pairs(ps) + rest =~= rest);
    } else {
        let first = ps.first();
        let tail = ps.drop_first();
        let e1 = enc_node(first.1);
        let e2 = enc_acct_pairs(tail);
        let data = enc_acct_pairs(ps) + rest;
        assert(data.subrange(0, 8) =~= spec_u64_to_le_bytes(first.0));
        assert(data.skip(8) =~= e1 + (e2 + rest));
        lemma_round_trip_node(first.1, e2 + rest);
        assert(data.skip(8).skip(e1.len() as int) =~= e2 + rest);
        assert(data.skip(8 + e1.len() as int) =~= e2 + rest);
        assert(forall|i: int|
            0 <= i < tail.len() ==> #[trigger] tail[i] == ps[i + 1] && node_encodable(
                ps[i + 1].1,
            ));
        lemma_round_trip_acct_pairs(tail, rest);
        assert(seq![(first.0, first.1)] + tail =~= ps);
    }
}

/// Round trip for the discriminator-to-instruction pairs.
#[verifier::spinoff_prover]
#[verifier::rlimit(60)]
pub proof fn lemma_round_trip_instr_pairs(ps: Seq<(u64, InstructionDecoderView)>, rest: Seq<u8>)
    requires
        forall|i: int| 0 <= i < ps.len() ==> instr_encodable(#[trigger] ps[i].1),
    ensures
        dec_instr_pairs(enc_instr_pairs(ps) + rest, ps.len()) == Some(
            (ps, enc_instr_pairs(ps).len() as nat),
        ),
    decreases ps.len(),
{
    vstd::bytes::lemma_auto_spec_u64_to_from_le_bytes();
    if ps.len() == 0 {
        assert(enc_instr_pairs(ps) + rest =~= rest);
    } else {
        let first = ps.first();
        let tail = ps.drop_first();
        let e1 = enc_instr(first.1);
        let e2 = enc_instr_pairs(tail);
        let data = enc_instr_pairs(ps) + rest;
        assert(data.subrange(0, 8) =~= spec_u64_to_le_bytes(first.0));
        assert(data.skip(8) =~= e1 + (e2 + rest));
        lemma_round_trip_instr(first.1, e2 + rest);
        assert(data.skip(8).skip(e1.len() as int) =~= e2 + rest);
        assert(data.skip(8 + e1.len() as int) =~= e2 + rest);
        assert(forall|i: int|
            0 <= i < tail.len() ==> #[trigger] tail[i] == ps[i + 1] && instr_encodable(
                ps[i + 1].1,
            ));
        lemma_round_trip_instr_pairs(tail, rest);
        assert(seq![(first.0, first.1)] + tail =~= ps);
    }
}

/// Round trip of the program-index wire form: decoding an encoding yields
/// the original index and consumes exactly its encoding.
#[verifier::spinoff_prover]
#[verifier::rlimit(60)]
pub proof fn lemma_round_trip_idl(v: OnChainIdlView, rest: Seq<u8>)
    requires
        idl_encodable(v),
    ensures
        dec_idl(enc_idl(v) + rest) == Some((v, enc_idl(v).len() as nat)),
{
    vstd::bytes::lemma_auto_spec_u64_to_from_le_bytes();
    let e0 = enc_str(v.program_name);
    let eflags = seq![v.account_disc_len, v.instruction_disc_len];
    let ea = enc_acct_pairs(v.accounts);
    let ei = enc_instr_pairs(v.instruction_params);
    let data = enc_idl(v) + rest;
    let tail0 = eflags + enc_count(v.accounts.len()) + ea + enc_count(v.instruction_params.len())
        + ei + rest;
    assert(data =~= e0 + tail0);
    lemma_round_trip_str(v.program_name, tail0);
    let k1 = e0.len();
    assert(data.skip(k1 as int) =~= tail0);
    assert(data[k1 as int] == v.account_disc_len);
    assert(data[k1 as int + 1] == v.instruction_disc_len);
    let d2 = data.skip(k1 as int + 2);
    assert(d2 =~= enc_count(v.accounts.len()) + (ea + (enc_count(v.instruction_params.len()) + (ei
        + rest))));
    assert(d2.subrange(0, 8) =~= spec_u64_to_le_bytes(v.accounts.len() as u64));
    assert(d2.skip(8) =~= ea + (enc_count(v.instruction_params.len()) + (ei + rest)));
    lemma_round_trip_acct_pairs(v.accounts, enc_count(v.instruction_params.len()) + (ei + rest));
    let k2 = ea.len();
    assert(d2.skip(8).skip(k2 as int) =~= enc_count(v.instruction_params.len()) + (ei + rest));
    let d3 = d2.skip(8 + k2 as int);
    assert(d3 =~= enc_count(v.instruction_params.len()) + (ei + rest));
    assert(d3.subrange(0, 8) =~= spec_u64_to_le_bytes(v.instruction_params.len() as u64));
    assert(d3.skip(8) =~= ei + rest);
    lemma_round_trip_instr_pairs(v.instruction_params, rest);
    assert((OnChainIdlView {
        program_name: v.program_name,
        account_disc_len: v.account_disc_len,
        instruction_disc_len: v.instruction_disc_len,
        accounts: v.accounts,
        instruction_params: v.instruction_params,
    }) =~= v);
}

/// Extending the string list extends its encoding at the end.
pub proof fn lemma_enc_strs_push(ss: Seq<Seq<char>>, s: Seq<char>)
    ensures
        enc_strs(ss.push(s)) == enc_strs(ss) + enc_str(s),
    decreases ss.len(),
{
    reveal_with_fuel(enc_strs, 3);
    if ss.len() == 0 {
        assert(ss.push(s).drop_first() =~= Seq::<Seq<char>>::empty());
        assert(enc_strs(ss.push(s)) =~= enc_strs(ss) + enc_str(s));
    } else {
        assert(ss.push(s).first() == ss.first());
        assert(ss.push(s).drop_first() =~= ss.drop_first().push(s));
        lemma_enc_strs_push(ss.drop_first(), s);
        assert(enc_strs(ss.push(s)) =~= enc_strs(ss) + enc_str(s));
    }
}

/// Extending the account pairs extends their encoding at the end.
pub proof fn lemma_enc_acct_pairs_push(ps: Seq<(u64, SchemaNodeView)>, p: (u64, SchemaNodeView))
    ensures
        enc_acct_pairs(ps.push(p)) == enc_acct_pairs(ps) + spec_u64_to_le_bytes(p.0) + enc_node(
            p.1,
        ),
    decreases ps.len(),
{
    reveal_with_fuel(enc_acct_pairs, 3);
    if ps.len() == 0 {
        assert(ps.push(p).drop_first() =~= Seq::<(u64, SchemaNodeView)>::empty());
        assert(enc_acct_pairs(ps.push(p)) =~= enc_acct_pairs(ps) + spec_u64_to_le_bytes(p.0)
            + enc_node(p.1));
    } else {
        assert(ps.push(p).first() == ps.first());
        assert(ps.push(p).drop_first() =~= ps.drop_first().push(p));
        lemma_enc_acct_pairs_push(ps.drop_first(), p);
        assert(enc_acct_pairs(ps.push(p)) =~= enc_acct_pairs(ps) + spec_u64_to_le_bytes(p.0)
            + enc_node(p.1));
    }
}

/// Extending the instruction pairs extends their encoding at the end.
pub proof fn lemma_enc_instr_pairs_push(
    ps: Seq<(u64, InstructionDecoderView)>,
    p: (u64, InstructionDecoderView),
)
    ensures
        enc_instr_pairs(ps.push(p)) == enc_instr_pairs(ps) + spec_u64_to_le_bytes(p.0)
            + enc_instr(p.1),
    decreases ps.len(),
{
    reveal_with_fuel(enc_instr_pairs, 3);
    if ps.len() == 0 {
        assert(ps.push(p).drop_first() =~= Seq::<(u64, InstructionDecoderView)>::empty());
        assert(enc_instr_pairs(ps.push(p)) =~= enc_instr_pairs(ps) + spec_u64_to_le_bytes(p.0)
            + enc_instr(p.1));
    } else {
        assert(ps.push(p).first() == ps.first());
        assert(ps.push(p).drop_first() =~= ps.drop_first().push(p));
        lemma_enc_instr_pairs_push(ps.drop_first(), p);
        assert(enc_instr_pairs(ps.push(p)) =~= enc_instr_pairs(ps) + spec_u64_to_le_bytes(p.0)
            + enc_instr(p.1));
    }
}

fn append_wire_count(out: &mut Vec<u8>, n: usize)
    ensures
        final(out)@ == old(out)@ + enc_count(n as nat),
{
    let mut cb = vstd::bytes::u64_to_le_bytes(n as u64);
    out.append(&mut cb);
}

fn append_wire_key(out: &mut Vec<u8>, key: u64)
    ensures
        final(out)@ == old(out)@ + spec_u64_to_le_bytes(key),
{
    let mut kb = vstd::bytes::u64_to_le_bytes(key);
    out.append(&mut kb);
}

fn append_wire_str(out: &mut Vec<u8>, s: &String)
    ensures
        vstd::utf8::encode_utf8(s@).len() <= u64::MAX,
        final(out)@ == old(out)@ + enc_str(s@),
{
    let bs = s.as_str().as_bytes();
    append_wire_count(out, bs.len());
    crate::text::append_bytes(out, bs);
    proof {
        assert(out@ =~= old(out)@ + enc_str(s@));
    }
}

fn append_wire_strs(out: &mut Vec<u8>, ss: &Vec<String>)
    ensures
        strs_encodable(strings_view(ss@)),
        strings_view(ss@).len() == ss@.len(),
        final(out)@ == old(out)@ + enc_strs(strings_view(ss@)),
{
    let ghost full = strings_view(ss@);
    let mut i: usize = 0;
    proof {
        assert(full.take(0) =~= Seq::<Seq<char>>::empty());
        assert(out@ =~= old(out)@ + enc_strs(full.take(0)));
    }
    while i < ss.len()
        invariant
            i <= ss@.len(),
            full == strings_view(ss@),
            full.len() == ss@.len(),
            forall|j: int| 0 <= j < ss@.len() ==> full[j] == ss@[j]@,
            forall|j: int|
                0 <= j < i ==> vstd::utf8::encode_utf8(#[trigger] full[j]).len() <= u64::MAX,
            out@ == old(out)@ + enc_strs(full.take(i as int)),
        decreases ss@.len() - i,
    {
        append_wire_str(out, &ss[i]);
        proof {
            lemma_enc_strs_push(full.take(i as int), full[i as int]);
            assert(full.take(i + 1) =~= full.take(i as int).push(full[i as int]));
            assert(out@ =~= old(out)@ + enc_strs(full.take(i + 1)));
        }
        i = i + 1;
    }
    proof {
        assert(full.take(ss@.len() as int) =~= full);
    }
}

impl InstructionDecoder {
    /// Appends the wire bytes of this instruction decoder to `out`.
    pub fn wire_encode(&self, out: &mut Vec<u8>)
        ensures
            instr_encodable(self@),
            final(out)@ == old(out)@ + enc_instr(self@),
    {
        append_wire_count(out, self.accounts.len());
        append_wire_strs(out, &self.accounts);
        self.instruction_args_parser.wire_encode(out);
        proof {
            assert(out@ =~= old(out)@ + enc_instr(self@));
        }
    }
}

impl OnChainIdl {
    /// The complete wire bytes of this program index.
    pub fn wire_encode(&self) -> (r: Vec<u8>)
        ensures
            idl_encodable(self@),
            r@ == enc_idl(self@),
    {
        let ghost av = acct_pairs_view(self.accounts@);
        let ghost iv = instr_pairs_view(self.instruction_params@);
        let mut out: Vec<u8> = Vec::new();
        append_wire_str(&mut out, &self.program_name);
        out.push(self.account_disc_len);
        out.push(self.instruction_disc_len);
        append_wire_count(&mut out, self.accounts.len());
        let ghost base_a = out@;
        let mut i: usize = 0;
        proof {
            assert(av.take(0) =~= Seq::<(u64, SchemaNodeView)>::empty());
            assert(out@ =~= base_a + enc_acct_pairs(av.take(0)));
        }
        while i < self.accounts.len()
            invariant
                i <= self.accounts@.len(),
                av == acct_pairs_view(self.accounts@),
                av.len() == self.accounts@.len(),
                forall|j: int|
                    0 <= j < self.accounts@.len() ==> av[j] == (
                    self.accounts@[j].0,
                    crate::schema::node_view(self.accounts@[j].1),
                ),
                forall|j: int| 0 <= j < i ==> node_encodable(#[trigger] av[j].1),
                out@ == base_a + enc_acct_pairs(av.take(i as int)),
            decreases self.accounts@.len() - i,
        {
            append_wire_key(&mut out, self.accounts[i].0);
            self.accounts[i].1.wire_encode(&mut out);
            proof {
                lemma_enc_acct_pairs_push(av.take(i as int), av[i as int]);
                assert(av.take(i + 1) =~= av.take(i as int).push(av[i as int]));
                assert(out@ =~= base_a + enc_acct_pairs(av.take(i + 1)));
            }
            i = i + 1;
        }
        proof {
            assert(av.take(self.accounts@.len() as int) =~= av);
        }
        append_wire_count(&mut out, self.instruction_params.len());
        let ghost base_i = out@;
        let mut j: usize = 0;
        proof {
            assert(iv.take(0) =~= Seq::<(u64, InstructionDecoderView)>::empty());
            assert(out@ =~= base_i + enc_instr_pairs(iv.take(0)));
        }
        while j < self.instruction_params.len()
            invariant
                j <= self.instruction_params@.len(),
                iv == instr_pairs_view(self.instruction_params@),
                iv.len() == self.instruction_params@.len(),
                forall|k: int|
                    0 <= k < self.instruction_params@.len() ==> iv[k] == (
                    self.instruction_params@[k].0,
                    instr_view(self.instruction_params@[k].1),
                ),
                forall|k: int| 0 <= k < j ==> instr_encodable(#[trigger] iv[k].1),
                out@ == base_i + enc_instr_pairs(iv.take(j as int)),
            decreases self.instruction_params@.len() - j,
        {
            append_wire_key(&mut out, self.instruction_params[j].0);
            self.instruction_params[j].1.wire_encode(&mut out);
            proof {
                lemma_enc_instr_pairs_push(iv.take(j as int), iv[j as int]);
                assert(iv.take(j + 1) =~= iv.take(j as int).push(iv[j as int]));
                assert(out@ =~= base_i + enc_instr_pairs(iv.take(j + 1)));
            }
            j = j + 1;
        }
        proof {
            assert(iv.take(self.instruction_params@.len() as int) =~= iv);
            assert(out@ =~= enc_idl(self@));
        }
        out
    }

    /// The discriminator of an account buffer under this index's account
    /// width.
    pub fn get_account_discriminator(&self, account_data: &[u8]) -> (r: u64)
        requires
            account_data@.len() >= vstd::math::min(self.account_disc_len as int, 8),
        ensures
            r == spec_discriminator(account_data@, self.account_disc_len as nat),
    {
        extract_discriminator(account_data, self.account_disc_len)
    }

    /// The discriminator of an instruction buffer under this index's
    /// instruction width.
    pub fn get_instruction_discriminator(&self, data: &[u8]) -> (r: u64)
        requires
            data@.len() >= vstd::math::min(self.instruction_disc_len as int, 8),
        ensures
            r == spec_discriminator(data@, self.instruction_disc_len as nat),
    {
        extract_discriminator(data, self.instruction_disc_len)
    }

    fn find_account_schema(&self, key: u64) -> (r: Option<&SchemaNode>)
        ensures
            match r {
                Some(n) => find_account(self@.accounts, key) == Some(n@),
                None => find_account(self@.accounts, key) is None,
            },
    {
        let ghost full = self@.accounts;
        let mut i: usize = 0;
        proof {
            assert(full.skip(0) =~= full);
        }
        while i < self.accounts.len()
            invariant
                i <= self.accounts@.len(),
                full == acct_pairs_view(self.accounts@),
                full.len() == self.accounts@.len(),
                find_account(full, key) == find_account(full.skip(i as int), key),
            decreases self.accounts@.len() - i,
        {
            proof {
                assert(full.skip(i as int).len() > 0);
                assert(full.skip(i as int).first() == full[i as int]);
                assert(full.skip(i as int).drop_first() =~= full.skip(i + 1));
            }
            if self.accounts[i].0 == key {
                return Some(&self.accounts[i].1);
            }
            i = i + 1;
        }
        proof {
            assert(full.skip(self.accounts@.len() as int).len() == 0);
        }
        None
    }

    fn find_instruction_decoder(&self, key: u64) -> (r: Option<&InstructionDecoder>)
        ensures
            match r {
                Some(d) => find_instruction(self@.instruction_params, key) == Some(d@),
                None => find_instruction(self@.instruction_params, key) is None,
            },
    {
        let ghost full = self@.instruction_params;
        let mut i: usize = 0;
        proof {
            assert(full.skip(0) =~= full);
        }
        while i < self.instruction_params.len()
            invariant
                i <= self.instruction_params@.len(),
                full == instr_pairs_view(self.instruction_params@),
                full.len() == self.instruction_params@.len(),
                find_instruction(full, key) == find_instruction(full.skip(i as int), key),
            decreases self.instruction_params@.len() - i,
        {
            proof {
                assert(full.skip(i as int).len() > 0);
                assert(full.skip(i as int).first() == full[i as int]);
                assert(full.skip(i as int).drop_first() =~= full.skip(i + 1));
            }
            if self.instruction_params[i].0 == key {
                return Some(&self.instruction_params[i].1);
            }
            i = i + 1;
        }
        proof {
            assert(full.skip(self.instruction_params@.len() as int).len() == 0);
        }
        None
    }

    /// Decodes an account buffer: extracts the discriminator, looks up the
    /// matching schema, and decodes the remaining bytes against it.
    pub fn get_parsed_account(&self, account_data: Vec<u8>, show_hidden: bool) -> (r: Result<
        ParsedAccountResult,
        DecodeError,
    >)
        ensures
            match r {
                Ok(res) => spec_parse_account(self@, account_data@, show_hidden) == Some(
                    (res@.name, res@.schema, res@.value),
                ),
                Err(_) => spec_parse_account(self@, account_data@, show_hidden) is None,
            },
    {
        if account_data.len() < self.account_disc_len as usize {
            return Err(DecodeError::new("account data is too short"));
        }
        let discriminant = self.get_account_discriminator(account_data.as_slice());
        let account_schema = match self.find_account_schema(discriminant) {
            Some(schema) => schema.clone(),
            None => {
                return Err(DecodeError::new("account discriminant not found"));
            },
        };
        let (opt, _end) = account_schema.deserialize_bytes(
            account_data.as_slice(),
            self.account_disc_len as usize,
            show_hidden,
        )?;
        proof {
            assert(account_data@.skip(self.account_disc_len as int) == account_data@.skip(
                self@.account_disc_len as int,
            ));
        }
        match opt {
            Some(value) => Ok(ParsedAccountResult::new(account_schema, value.value)),
            None => Err(DecodeError::new("an account's top-level schema cannot be hidden")),
        }
    }

    /// Decodes an instruction buffer: extracts the discriminator, looks up
    /// the matching decoder, builds the positional account-name list, and
    /// decodes the remaining bytes against the argument schema.
    #[verifier::spinoff_prover]
    #[verifier::rlimit(60)]
    pub fn get_parsed_instruction(
        &self,
        instruction_data: Vec<u8>,
        account_keys: &[String],
        show_hidden: bool,
    ) -> (r: Result<ParsedInstructionResult, DecodeError>)
        ensures
            match r {
                Ok(res) => spec_parse_instruction(
                    self@,
                    instruction_data@,
                    strings_view(account_keys@),
                    show_hidden,
                ) == Some(res@),
                Err(_) => spec_parse_instruction(
                    self@,
                    instruction_data@,
                    strings_view(account_keys@),
                    show_hidden,
                ) is None,
            },
    {
        let data = instruction_data;
        if data.len() < self.instruction_disc_len as usize {
            return Err(DecodeError::new("instruction data is too short"));
        }
        let discriminant = self.get_instruction_discriminator(data.as_slice());
        let instruction_decoder = match self.find_instruction_decoder(discriminant) {
            Some(dec) => dec,
            None => {
                return Err(DecodeError::new("instruction discriminant not found"));
            },
        };
        let ghost names_spec = spec_account_names(
            instruction_decoder@.accounts,
            account_keys@.len(),
        );
        let mut account_names: Vec<String> = Vec::new();
        let mut accounts_map: Vec<(String, String)> = Vec::new();
        let mut i: usize = 0;
        while i < account_keys.len()
            invariant
                i <= account_keys@.len(),
                names_spec == spec_account_names(
                    instruction_decoder@.accounts,
                    account_keys@.len(),
                ),
                names_spec.len() == account_keys@.len(),
                account_names@.len() == i as nat,
                accounts_map@.len() == i as nat,
                instruction_decoder@.accounts.len() == instruction_decoder.accounts@.len(),
                forall|j: int|
                    0 <= j < instruction_decoder.accounts@.len()
                        ==> instruction_decoder@.accounts[j]
                        == instruction_decoder.accounts@[j]@,
                forall|j: int| 0 <= j < i ==> account_names@[j]@ == names_spec[j],
                forall|j: int|
                    0 <= j < i ==> accounts_map@[j].0@ == names_spec[j] && accounts_map@[j].1@
                        == account_keys@[j]@,
            decreases account_keys@.len() - i,
    {
            let name: String = if i < instruction_decoder.accounts.len() {
                instruction_decoder.accounts[i].clone()
            } else {
                let mut synth = "Account ".to_owned();
                crate::text::append_dec_u64(&mut synth, (i as u64) + 1);
                synth
            };
            let address = vstd::slice::slice_index_get(account_keys, i).clone();
            proof {
                assert(name@ == names_spec[i as int]);
            }
            account_names.push(name.clone());
            accounts_map.push((name, address));
            proof {
                assert(accounts_map@[i as int].0@ == names_spec[i as int]);
                assert(accounts_map@[i as int].1@ == account_keys@[i as int]@);
            }
            i = i + 1;
        }
        let schema = instruction_decoder.instruction_args_parser.clone();
        let (opt, _end) = schema.deserialize_bytes(
            data.as_slice(),
            self.instruction_disc_len as usize,
            show_hidden,
        )?;
        proof {
            assert(data@.skip(self.instruction_disc_len as int) == data@.skip(
                self@.instruction_disc_len as int,
            ));
        }
        let args = match opt {
            Some(args) => args,
            None => {
                return Err(DecodeError::new("an instruction's schema cannot be hidden"));
            },
        };
        let res = ParsedInstructionResult::new(schema, account_names, accounts_map, args.value);
        proof {
            assert(res@ =~= spec_parse_instruction(
                self@,
                data@,
                strings_view(account_keys@),
                show_hidden,
            )->Some_0);
        }
        Ok(res)
    }
}


fn wire_decode_str(data: &[u8], pos: usize) -> (r: Result<(String, usize), crate::errors::CodecError>)
    requires
        pos <= data@.len(),
    ensures
        match r {
            Ok((s, end)) => pos <= end <= data@.len() && dec_str(data@.skip(pos as int)) == Some(
                (s@, (end - pos) as nat),
            ),
            Err(_) => dec_str(data@.skip(pos as int)) is None,
        },
{
    let ghost s0 = data@.skip(pos as int);
    if data.len() - pos < 8 {
        return Err(crate::errors::CodecError::new("index bytes end inside a string length"));
    }
    let blen64 = vstd::bytes::u64_from_le_bytes(vstd::slice::slice_subrange(data, pos, pos + 8));
    proof {
        assert(data@.subrange(pos as int, (pos + 8) as int) =~= s0.subrange(0, 8));
    }
    if blen64 > (data.len() - pos - 8) as u64 {
        return Err(crate::errors::CodecError::new("index bytes end inside a string"));
    }
    let blen = blen64 as usize;
    let bs = vstd::slice::slice_subrange(data, pos + 8, pos + 8 + blen);
    proof {
        assert(bs@ =~= s0.subrange(8, 8 + blen64 as int));
    }
    match crate::text::string_from_utf8(vstd::slice::slice_to_vec(bs)) {
        Some(text) => Ok((text, pos + 8 + blen)),
        None => Err(crate::errors::CodecError::new("string bytes are not valid text")),
    }
}

proof fn lemma_dec_str_bounds(data: Seq<u8>)
    ensures
        match dec_str(data) {
            Some((s, k)) => 8 <= k,
            None => true,
        },
{
}

fn wire_decode_strs(data: &[u8], pos: usize, cnt: u64) -> (r: Result<
    (Vec<String>, usize),
    crate::errors::CodecError,
>)
    requires
        pos <= data@.len(),
    ensures
        match r {
            Ok((ss, end)) => pos <= end <= data@.len() && dec_strs(
                data@.skip(pos as int),
                cnt as nat,
            ) == Some((strings_view(ss@), (end - pos) as nat)),
            Err(_) => dec_strs(data@.skip(pos as int), cnt as nat) is None,
        },
{
    let mut items: Vec<String> = Vec::new();
    let mut p: usize = pos;
    let mut remaining: u64 = cnt;
    proof {
        assert(strings_view(items@) =~= Seq::<Seq<char>>::empty());
    }
    while remaining > 0
        invariant
            pos <= p <= data@.len(),
            strings_view(items@).len() == items@.len(),
            dec_strs(data@.skip(pos as int), cnt as nat) == (match dec_strs(
                data@.skip(p as int),
                remaining as nat,
            ) {
                Some((ss2, k2)) => Some((strings_view(items@) + ss2, ((p - pos) + k2) as nat)),
                None => None::<(Seq<Seq<char>>, nat)>,
            }),
        decreases remaining,
    {
        let ghost items_pre = items@;
        match wire_decode_str(data, p) {
            Err(e) => {
                return Err(e);
            },
            Ok((s, end)) => {
                proof {
                    lemma_dec_str_bounds(data@.skip(p as int));
                    assert(data@.skip(p as int).skip((end - p) as int) =~= data@.skip(end as int));
                    assert(strings_view(items_pre.push(s)) =~= strings_view(items_pre).push(s@));
                }
                let ghost sv = s@;
                items.push(s);
                proof {
                    assert forall|ss3: Seq<Seq<char>>|
                        true implies strings_view(items_pre) + (seq![sv] + ss3) =~= strings_view(
                        items@,
                    ) + ss3 by {}
                }
                p = end;
                remaining = remaining - 1;
            },
        }
    }
    proof {
        assert(strings_view(items@) + Seq::<Seq<char>>::empty() =~= strings_view(items@));
    }
    Ok((items, p))
}

impl InstructionDecoder {
    /// Decodes one instruction decoder from `data` at `pos`.
    pub fn wire_decode(data: &[u8], pos: usize) -> (r: Result<
        (InstructionDecoder, usize),
        crate::errors::CodecError,
    >)
        requires
            pos <= data@.len(),
        ensures
            match r {
                Ok((d, end)) => pos <= end <= data@.len() && dec_instr(data@.skip(pos as int))
                    == Some((d@, (end - pos) as nat)),
                Err(_) => dec_instr(data@.skip(pos as int)) is None,
            },
    {
        let ghost s0 = data@.skip(pos as int);
        if data.len() - pos < 8 {
            return Err(crate::errors::CodecError::new("index bytes end inside a count"));
        }
        let cnt = vstd::bytes::u64_from_le_bytes(vstd::slice::slice_subrange(data, pos, pos + 8));
        proof {
            assert(data@.subrange(pos as int, (pos + 8) as int) =~= s0.subrange(0, 8));
            assert(s0.skip(8) =~= data@.skip((pos + 8) as int));
        }
        let (accounts, mid) = wire_decode_strs(data, pos + 8, cnt)?;
        proof {
            assert(s0.skip(8).skip((mid - (pos + 8)) as int) =~= data@.skip(mid as int));
            assert(s0.skip(8 + (mid - (pos + 8)) as int) =~= data@.skip(mid as int));
        }
        let (node, end) = SchemaNode::wire_decode(data, mid)?;
        let d = InstructionDecoder { accounts, instruction_args_parser: node };
        proof {
            assert(d@ =~= dec_instr(s0)->Some_0.0);
        }
        Ok((d, end))
    }
}

fn wire_decode_acct_pairs(data: &[u8], pos: usize, cnt: u64) -> (r: Result<
    (Vec<(u64, SchemaNode)>, usize),
    crate::errors::CodecError,
>)
    requires
        pos <= data@.len(),
    ensures
        match r {
            Ok((ps, end)) => pos <= end <= data@.len() && dec_acct_pairs(
                data@.skip(pos as int),
                cnt as nat,
            ) == Some((acct_pairs_view(ps@), (end - pos) as nat)),
            Err(_) => dec_acct_pairs(data@.skip(pos as int), cnt as nat) is None,
        },
{
    let mut items: Vec<(u64, SchemaNode)> = Vec::new();
    let mut p: usize = pos;
    let mut remaining: u64 = cnt;
    proof {
        assert(acct_pairs_view(items@) =~= Seq::<(u64, SchemaNodeView)>::empty());
    }
    while remaining > 0
        invariant
            pos <= p <= data@.len(),
            acct_pairs_view(items@).len() == items@.len(),
            dec_acct_pairs(data@.skip(pos as int), cnt as nat) == (match dec_acct_pairs(
                data@.skip(p as int),
                remaining as nat,
            ) {
                Some((ps2, k2)) => Some((acct_pairs_view(items@) + ps2, ((p - pos) + k2) as nat)),
                None => None::<(Seq<(u64, SchemaNodeView)>, nat)>,
            }),
        decreases remaining,
    {
        let ghost items_pre = items@;
        let ghost sp = data@.skip(p as int);
        if data.len() - p < 8 {
            return Err(crate::errors::CodecError::new("index bytes end inside a key"));
        }
        let key = vstd::bytes::u64_from_le_bytes(vstd::slice::slice_subrange(data, p, p + 8));
        proof {
            assert(data@.subrange(p as int, (p + 8) as int) =~= sp.subrange(0, 8));
            assert(sp.skip(8) =~= data@.skip((p + 8) as int));
        }
        match SchemaNode::wire_decode(data, p + 8) {
            Err(e) => {
                return Err(e);
            },
            Ok((node, end)) => {
                proof {
                    assert(sp.skip(8 + (end - (p + 8)) as int) =~= data@.skip(end as int));
                    assert(acct_pairs_view(items_pre.push((key, node))) =~= acct_pairs_view(
                        items_pre,
                    ).push((key, node@)));
                }
                let ghost nv = node@;
                items.push((key, node));
                proof {
                    assert forall|ps3: Seq<(u64, SchemaNodeView)>|
                        true implies acct_pairs_view(items_pre) + (seq![(key, nv)] + ps3)
                        =~= acct_pairs_view(items@) + ps3 by {}
                }
                p = end;
                remaining = remaining - 1;
            },
        }
    }
    proof {
        assert(acct_pairs_view(items@) + Seq::<(u64, SchemaNodeView)>::empty() =~= acct_pairs_view(
            items@,
        ));
    }
    Ok((items, p))
}

proof fn lemma_dec_instr_bounds(data: Seq<u8>)
    ensures
        match dec_instr(data) {
            Some((d, k)) => 8 <= k,
            None => true,
        },
{
}

#[verifier::spinoff_prover]
#[verifier::rlimit(100)]
fn wire_decode_instr_pairs(data: &[u8], pos: usize, cnt: u64) -> (r: Result<
    (Vec<(u64, InstructionDecoder)>, usize),
    crate::errors::CodecError,
>)
    requires
        pos <= data@.len(),
    ensures
        match r {
            Ok((ps, end)) => pos <= end <= data@.len() && dec_instr_pairs(
                data@.skip(pos as int),
                cnt as nat,
            ) == Some((instr_pairs_view(ps@), (end - pos) as nat)),
            Err(_) => dec_instr_pairs(data@.skip(pos as int), cnt as nat) is None,
        },
{
    let mut items: Vec<(u64, InstructionDecoder)> = Vec::new();
    let mut p: usize = pos;
    let mut remaining: u64 = cnt;
    proof {
        assert(instr_pairs_view(items@) =~= Seq::<(u64, InstructionDecoderView)>::empty());
    }
    while remaining > 0
        invariant
            pos <= p <= data@.len(),
            instr_pairs_view(items@).len() == items@.len(),
            dec_instr_pairs(data@.skip(pos as int), cnt as nat) == (match dec_instr_pairs(
                data@.skip(p as int),
                remaining as nat,
            ) {
                Some((ps2, k2)) => Some((instr_pairs_view(items@) + ps2, ((p - pos) + k2) as nat)),
                None => None::<(Seq<(u64, InstructionDecoderView)>, nat)>,
            }),
        decreases remaining,
    {
        let ghost items_pre = items@;
        let ghost sp = data@.skip(p as int);
        if data.len() - p < 8 {
            return Err(crate::errors::CodecError::new("index bytes end inside a key"));
        }
        let key = vstd::bytes::u64_from_le_bytes(vstd::slice::slice_subrange(data, p, p + 8));
        proof {
            assert(data@.subrange(p as int, (p + 8) as int) =~= sp.subrange(0, 8));
            assert(sp.skip(8) =~= data@.skip((p + 8) as int));
        }
        match InstructionDecoder::wire_decode(data, p + 8) {
            Err(e) => {
                return Err(e);
            },
            Ok((dec, end)) => {
                proof {
                    lemma_dec_instr_bounds(data@.skip((p + 8) as int));
                    assert(sp.skip(8 + (end - (p + 8)) as int) =~= data@.skip(end as int));
                    assert(instr_pairs_view(items_pre.push((key, dec))) =~= instr_pairs_view(
                        items_pre,
                    ).push((key, dec@)));
                }
                let ghost dv_ = dec@;
                items.push((key, dec));
                proof {
                    assert forall|ps3: Seq<(u64, InstructionDecoderView)>|
                        true implies instr_pairs_view(items_pre) + (seq![(key, dv_)] + ps3)
                        =~= instr_pairs_view(items@) + ps3 by {}
                }
                p = end;
                remaining = remaining - 1;
            },
        }
    }
    proof {
        assert(instr_pairs_view(items@) + Seq::<(u64, InstructionDecoderView)>::empty()
            =~= instr_pairs_view(items@));
    }
    Ok((items, p))
}

impl OnChainIdl {
    /// Decodes a program index from `data` at `pos`.
    #[verifier::spinoff_prover]
    #[verifier::rlimit(100)]
    pub fn wire_decode(data: &[u8], pos: usize) -> (r: Result<
        (OnChainIdl, usize),
        crate::errors::CodecError,
    >)
        requires
            pos <= data@.len(),
        ensures
            match r {
                Ok((idl, end)) => pos <= end <= data@.len() && dec_idl(data@.skip(pos as int))
                    == Some((idl@, (end - pos) as nat)),
                Err(_) => dec_idl(data@.skip(pos as int)) is None,
            },
    {
        let ghost s0 = data@.skip(pos as int);
        let (program_name, k1) = wire_decode_str(data, pos)?;
        if data.len() - k1 < 2 {
            return Err(crate::errors::CodecError::new("index bytes end inside the widths"));
        }
        let account_disc_len = *vstd::slice::slice_index_get(data, k1);
        let instruction_disc_len = *vstd::slice::slice_index_get(data, k1 + 1);
        proof {
            assert(s0[(k1 - pos) as int] == data@[k1 as int]);
            assert(s0[(k1 - pos) as int + 1] == data@[k1 as int + 1]);
            assert(s0.skip((k1 - pos) as int + 2) =~= data@.skip((k1 + 2) as int));
        }
        let ghost d2 = s0.skip((k1 - pos) as int + 2);
        if data.len() - k1 - 2 < 8 {
            return Err(crate::errors::CodecError::new("index bytes end inside a count"));
        }
        let n1 = vstd::bytes::u64_from_le_bytes(vstd::slice::slice_subrange(data, k1 + 2, k1 + 10));
        proof {
            assert(data@.subrange((k1 + 2) as int, (k1 + 10) as int) =~= d2.subrange(0, 8));
            assert(d2.skip(8) =~= data@.skip((k1 + 10) as int));
        }
        let (accounts, k2) = wire_decode_acct_pairs(data, k1 + 10, n1)?;
        proof {
            assert(d2.skip(8).skip((k2 - (k1 + 10)) as int) =~= data@.skip(k2 as int));
            assert(d2.skip(8 + (k2 - (k1 + 10)) as int) =~= data@.skip(k2 as int));
        }
        let ghost d3 = d2.skip(8 + (k2 - (k1 + 10)) as int);
        if data.len() - k2 < 8 {
            return Err(crate::errors::CodecError::new("index bytes end inside a count"));
        }
        let n2 = vstd::bytes::u64_from_le_bytes(vstd::slice::slice_subrange(data, k2, k2 + 8));
        proof {
            assert(data@.subrange(k2 as int, (k2 + 8) as int) =~= d3.subrange(0, 8));
            assert(d3.skip(8) =~= data@.skip((k2 + 8) as int));
        }
        let (instruction_params, k3) = wire_decode_instr_pairs(data, k2 + 8, n2)?;
        let idl = OnChainIdl {
            program_name,
            account_disc_len,
            instruction_disc_len,
            accounts,
            instruction_params,
        };
        proof {
            assert(idl@ =~= dec_idl(s0)->Some_0.0);
        }
        Ok((idl, k3))
    }
}

fn strings_eq(a: &Vec<String>, b: &Vec<String>) -> (r: bool)
    ensures
        r == (strings_view(a@) == strings_view(b@)),
{
    if a.len() != b.len() {
        proof {
            if strings_view(a@) == strings_view(b@) {
                assert(strings_view(a@).len() == strings_view(b@).len());
            }
        }
        return false;
    }
    let mut i: usize = 0;
    while i < a.len()
        invariant
            i <= a@.len(),
            a@.len() == b@.len(),
            forall|j: int| 0 <= j < i ==> a@[j]@ == b@[j]@,
        decreases a@.len() - i,
    {
        if !crate::text::str_eq(a[i].as_str(), b[i].as_str()) {
            proof {
                assert(strings_view(a@)[i as int] != strings_view(b@)[i as int]);
            }
            return false;
        }
        i = i + 1;
    }
    proof {
        assert(strings_view(a@) =~= strings_view(b@));
    }
    true
}

impl PartialEq for InstructionDecoder {
    fn eq(&self, other: &Self) -> (r: bool) {
        let r = strings_eq(&self.accounts, &other.accounts) && self.instruction_args_parser
            == other.instruction_args_parser;
        proof {
            if r {
                assert(self@ =~= other@);
            }
        }
        r
    }
}

impl vstd::std_specs::cmp::PartialEqSpecImpl for InstructionDecoder {
    open spec fn obeys_eq_spec() -> bool {
        true
    }

    open spec fn eq_spec(&self, other: &Self) -> bool {
        self@ == other@
    }
}

fn acct_pairs_eq(a: &Vec<(u64, SchemaNode)>, b: &Vec<(u64, SchemaNode)>) -> (r: bool)
    ensures
        r == (acct_pairs_view(a@) == acct_pairs_view(b@)),
{
    if a.len() != b.len() {
        proof {
            if acct_pairs_view(a@) == acct_pairs_view(b@) {
                assert(acct_pairs_view(a@).len() == acct_pairs_view(b@).len());
            }
        }
        return false;
    }
    let mut i: usize = 0;
    while i < a.len()
        invariant
            i <= a@.len(),
            a@.len() == b@.len(),
            forall|j: int|
                0 <= j < i ==> a@[j].0 == b@[j].0 && crate::schema::node_view(a@[j].1)
                    == crate::schema::node_view(b@[j].1),
        decreases a@.len() - i,
    {
        if a[i].0 != b[i].0 || !(a[i].1 == b[i].1) {
            proof {
                assert(acct_pairs_view(a@)[i as int] != acct_pairs_view(b@)[i as int]);
            }
            return false;
        }
        i = i + 1;
    }
    proof {
        assert(acct_pairs_view(a@) =~= acct_pairs_view(b@));
    }
    true
}

fn instr_pairs_eq(a: &Vec<(u64, InstructionDecoder)>, b: &Vec<(u64, InstructionDecoder)>) -> (r:
    bool)
    ensures
        r == (instr_pairs_view(a@) == instr_pairs_view(b@)),
{
    if a.len() != b.len() {
        proof {
            if instr_pairs_view(a@) == instr_pairs_view(b@) {
                assert(instr_pairs_view(a@).len() == instr_pairs_view(b@).len());
            }
        }
        return false;
    }
    let mut i: usize = 0;
    while i < a.len()
        invariant
            i <= a@.len(),
            a@.len() == b@.len(),
            forall|j: int|
                0 <= j < i ==> a@[j].0 == b@[j].0 && instr_view(a@[j].1) == instr_view(b@[j].1),
        decreases a@.len() - i,
    {
        if a[i].0 != b[i].0 || !(a[i].1 == b[i].1) {
            proof {
                assert(instr_pairs_view(a@)[i as int] != instr_pairs_view(b@)[i as int]);
            }
            return false;
        }
        i = i + 1;
    }
    proof {
        assert(instr_pairs_view(a@) =~= instr_pairs_view(b@));
    }
    true
}

impl PartialEq for OnChainIdl {
    fn eq(&self, other: &Self) -> (r: bool) {
        let r = crate::text::str_eq(self.program_name.as_str(), other.program_name.as_str())
            && self.account_disc_len == other.account_disc_len && self.instruction_disc_len
            == other.instruction_disc_len && acct_pairs_eq(&self.accounts, &other.accounts)
            && instr_pairs_eq(&self.instruction_params, &other.instruction_params);
        proof {
            if r {
                assert(self@ =~= other@);
            }
        }
        r
    }
}

impl vstd::std_specs::cmp::PartialEqSpecImpl for OnChainIdl {
    open spec fn obeys_eq_spec() -> bool {
        true
    }

    open spec fn eq_spec(&self, other: &Self) -> bool {
        self@ == other@
    }
}


use crate::text::spec_json_string;
use crate::value::render_value;
use crate::schema::json_serialize::render_type;
use crate::errors::RenderError;

/// The comma-joined renderings of a string list.
pub open spec fn render_string_list(ss: Seq<Seq<char>>) -> Seq<char>
    decreases ss.len(),
{
    if ss.len() == 0 {
        Seq::empty()
    } else {
        let r = spec_json_string(ss.last());
        if ss.len() == 1 {
            r
        } else {
            render_string_list(ss.drop_last()) + seq![','] + r
        }
    }
}

/// The comma-joined `name: address` members of the account map rendering.
pub open spec fn render_string_pairs(ps: Seq<(Seq<char>, Seq<char>)>) -> Seq<char>
    decreases ps.len(),
{
    if ps.len() == 0 {
        Seq::empty()
    } else {
        let entry = spec_json_string(ps.last().0) + seq![':'] + spec_json_string(ps.last().1);
        if ps.len() == 1 {
            entry
        } else {
            render_string_pairs(ps.drop_last()) + seq![','] + entry
        }
    }
}

/// The output text of a decoded account result.
pub open spec fn render_parsed_account(v: ParsedAccountResultView) -> Option<Seq<char>> {
    match render_value(v.value) {
        Some(rv) => Some(
            "{\"name\":"@ + spec_json_string(v.name) + ",\"schema\":"@ + render_type(v.schema)
                + ",\"value\":"@ + rv + seq!['}'],
        ),
        None => None,
    }
}

/// The output text of a decoded instruction result.
pub open spec fn render_parsed_instruction(v: ParsedInstructionResultView) -> Option<Seq<char>> {
    match render_value(v.value) {
        Some(rv) => Some(
            "{\"name\":"@ + spec_json_string(v.name) + ",\"schema\":"@ + render_type(v.schema)
                + ",\"accounts\":["@ + render_string_list(v.accounts) + "],\"accounts_map\":{"@
                + render_string_pairs(v.accounts_map) + "},\"value\":"@ + rv + seq!['}'],
        ),
        None => None,
    }
}

fn append_string_list_json(ss: &Vec<String>, out: &mut String)
    ensures
        final(out)@ == old(out)@ + render_string_list(strings_view(ss@)),
{
    let ghost full = strings_view(ss@);
    let mut i: usize = 0;
    proof {
        assert(full.take(0) =~= Seq::<Seq<char>>::empty());
        assert(render_string_list(full.take(0)) =~= Seq::<char>::empty());
    }
    while i < ss.len()
        invariant
            i <= ss@.len(),
            full == strings_view(ss@),
            full.len() == ss@.len(),
            out@ == old(out)@ + render_string_list(full.take(i as int)),
        decreases ss@.len() - i,
    {
        proof {
            assert(full.take(i + 1).drop_last() =~= full.take(i as int));
            assert(full.take(i + 1).last() == full[i as int]);
        }
        if i > 0 {
            crate::text::push_char(out, ',');
        }
        crate::text::append_json_string(out, ss[i].as_str());
        proof {
            assert(out@ =~= old(out)@ + render_string_list(full.take(i + 1)));
        }
        i = i + 1;
    }
    proof {
        assert(full.take(ss@.len() as int) =~= full);
    }
}

fn append_string_pairs_json(ps: &Vec<(String, String)>, out: &mut String)
    ensures
        final(out)@ == old(out)@ + render_string_pairs(string_pairs_view(ps@)),
{
    let ghost full = string_pairs_view(ps@);
    let mut i: usize = 0;
    proof {
        assert(full.take(0) =~= Seq::<(Seq<char>, Seq<char>)>::empty());
        assert(render_string_pairs(full.take(0)) =~= Seq::<char>::empty());
    }
    while i < ps.len()
        invariant
            i <= ps@.len(),
            full == string_pairs_view(ps@),
            full.len() == ps@.len(),
            out@ == old(out)@ + render_string_pairs(full.take(i as int)),
        decreases ps@.len() - i,
    {
        proof {
            assert(full.take(i + 1).drop_last() =~= full.take(i as int));
            assert(full.take(i + 1).last() == full[i as int]);
        }
        if i > 0 {
            crate::text::push_char(out, ',');
        }
        crate::text::append_json_string(out, ps[i].0.as_str());
        crate::text::push_char(out, ':');
        crate::text::append_json_string(out, ps[i].1.as_str());
        proof {
            assert(out@ =~= old(out)@ + render_string_pairs(full.take(i + 1)));
        }
        i = i + 1;
    }
    proof {
        assert(full.take(ps@.len() as int) =~= full);
    }
}

impl ParsedAccountResult {
    /// This result's rendering as output text. Fails only on
    /// floating-point data.
    pub fn to_json_string(&self) -> (r: Result<String, RenderError>)
        ensures
            match r {
                Ok(s) => render_parsed_account(self@) == Some(s@),
                Err(_) => render_parsed_account(self@) is None,
            },
    {
        let mut out = String::new();
        crate::text::append_lit(&mut out, "{\"name\":");
        crate::text::append_json_string(&mut out, self.name.as_str());
        crate::text::append_lit(&mut out, ",\"schema\":");
        self.schema.append_json(&mut out);
        crate::text::append_lit(&mut out, ",\"value\":");
        self.value.append_json(&mut out)?;
        crate::text::push_char(&mut out, '}');
        proof {
            assert(out@ =~= render_parsed_account(self@)->Some_0);
        }
        Ok(out)
    }
}

impl ParsedInstructionResult {
    /// This result's rendering as output text. Fails only on
    /// floating-point data.
    pub fn to_json_string(&self) -> (r: Result<String, RenderError>)
        ensures
            match r {
                Ok(s) => render_parsed_instruction(self@) == Some(s@),
                Err(_) => render_parsed_instruction(self@) is None,
            },
    {
        let mut out = String::new();
        crate::text::append_lit(&mut out, "{\"name\":");
        crate::text::append_json_string(&mut out, self.name.as_str());
        crate::text::append_lit(&mut out, ",\"schema\":");
        self.schema.append_json(&mut out);
        crate::text::append_lit(&mut out, ",\"accounts\":[");
        append_string_list_json(&self.accounts, &mut out);
        crate::text::append_lit(&mut out, "],\"accounts_map\":{");
        append_string_pairs_json(&self.accounts_map, &mut out);
        crate::text::append_lit(&mut out, "},\"value\":");
        self.value.append_json(&mut out)?;
        crate::text::push_char(&mut out, '}');
        proof {
            assert(out@ =~= render_parsed_instruction(self@)->Some_0);
        }
        Ok(out)
    }
}
} // verus!
