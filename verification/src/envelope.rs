//! The request and result envelopes: the JSON-shaped record types and
//! their conversion into typed VM inputs.
//!
//! JSON text is parsed by the outside crate into a generic value tree;
//! every walk over that tree, every default for an absent field and every
//! conversion into typed inputs is verified code.

use vstd::prelude::*;
use vstd::string::*;

use crate::advice::{
    advice_entries_view, build_advice_provider, parse_advice_map, spec_parse_advice_map, AdviceMap,
    AdviceProvider,
};
use crate::codec::decode_word;
use crate::errors::ParseError;
use crate::field::Word;
use crate::json::{
    json_as_array, json_as_string, json_as_u64, json_from_str, json_get, json_is_object,
    json_object_entries, obj_lookup, json_parse, json_view, JsonModel,
};
use crate::merkle::{
    item_builds_nodes, item_builds_nodes_m, item_faulty, item_faulty_m, item_provided,
    item_provided_m, merkle_item_model, parse_merkle_store, parse_merkle_tree,
    parse_sparse_merkle_tree, MerkleData, MerkleItemModel, MerkleStore,
};
use crate::stack::{
    parse_field_values, parse_stack_values, spec_parse_felts, strings_view, StackInputs,
    StackOutputs,
};

verus! {

/// A request, as its JSON document describes it. Every field is
/// independently optional and defaults to empty or absent.
pub struct InputFile {
    /// The initial operand stack, top element first, as decimal strings.
    pub operand_stack: Option<Vec<String>>,
    /// The initial advice stack, as decimal strings.
    pub advice_stack: Option<Vec<String>>,
    /// The advice-map entries: a 64-hex-char key and its values.
    pub advice_map: Option<Vec<(String, Vec<u64>)>>,
    /// The Merkle data loaded into the initial store.
    pub merkle_store: Option<Vec<MerkleData>>,
}

impl InputFile {
    /// The advice-stack strings, or empty when absent.
    pub open spec fn spec_advice_stack(&self) -> Seq<Seq<char>> {
        match self.advice_stack {
            Some(v) => strings_view(v@),
            None => Seq::empty(),
        }
    }

    /// The advice-map entries, or empty when absent.
    pub open spec fn spec_advice_map(&self) -> Seq<(Seq<char>, Seq<u64>)> {
        match self.advice_map {
            Some(v) => advice_entries_view(v@),
            None => Seq::empty(),
        }
    }

    /// The Merkle items, or empty when absent.
    pub open spec fn spec_merkle_items(&self) -> Seq<MerkleData> {
        match self.merkle_store {
            Some(v) => v@,
            None => Seq::empty(),
        }
    }

    /// Parses the advice stack: absent input yields an empty tape.
    pub fn parse_advice_stack(&self) -> (r: Result<Vec<u64>, ParseError>)
        ensures
            match r {
                Ok(v) => spec_parse_felts(self.spec_advice_stack()) == Ok::<Seq<u64>, ParseError>(
                    v@,
                ) && forall|i: int|
                    0 <= i < v@.len() ==> crate::field::is_felt(#[trigger] v@[i]),
                Err(e) => spec_parse_felts(self.spec_advice_stack()) == Err::<Seq<u64>, ParseError>(
                    e,
                ),
            },
    {
        match &self.advice_stack {
            Some(values) => parse_field_values(values),
            None => Ok(Vec::new()),
        }
    }

    /// Parses the advice map: absent input yields an empty map.
    pub fn parse_advice_map(&self) -> (r: Result<AdviceMap, ParseError>)
        ensures
            match r {
                Ok(m) => m.wf() && spec_parse_advice_map(self.spec_advice_map()) == Ok::<
                    Seq<(Seq<u8>, Seq<u64>)>,
                    ParseError,
                >(m.model()),
                Err(e) => spec_parse_advice_map(self.spec_advice_map()) == Err::<
                    Seq<(Seq<u8>, Seq<u64>)>,
                    ParseError,
                >(e),
            },
    {
        match &self.advice_map {
            Some(entries) => parse_advice_map(entries),
            None => Ok(AdviceMap::new()),
        }
    }

    /// Parses the Merkle store: absent input yields an empty store.
    pub fn parse_merkle_store(&self) -> (r: Result<MerkleStore, ParseError>)
        ensures
            match r {
                Ok(store) => store.wf() && forall|i: int|
                    0 <= i < self.spec_merkle_items().len() ==> item_provided(
                        #[trigger] self.spec_merkle_items()[i],
                        store,
                    ),
                Err(e) => (e == ParseError::MerkleStoreConflict && exists|i: int|
                    0 <= i < self.spec_merkle_items().len() && item_builds_nodes(
                        #[trigger] self.spec_merkle_items()[i],
                    )) || exists|i: int|
                    0 <= i < self.spec_merkle_items().len() && item_faulty(
                        #[trigger] self.spec_merkle_items()[i],
                        e,
                    ),
            },
    {
        match &self.merkle_store {
            Some(items) => {
                proof {
                    assert(self.spec_merkle_items() == items@);
                }
                parse_merkle_store(items)
            },
            None => {
                proof {
                    assert(self.spec_merkle_items() =~= Seq::<MerkleData>::empty());
                }
                Ok(MerkleStore::new())
            },
        }
    }

    /// Decodes the leaves of one dense Merkle tree.
    pub fn parse_merkle_tree(tree: &Vec<String>) -> (r: Result<Vec<Word>, ParseError>)
        ensures
            match r {
                Ok(ws) => crate::merkle::spec_parse_words(strings_view(tree@)) == Ok::<
                    Seq<Seq<u64>>,
                    ParseError,
                >(crate::merkle::words_view(ws@)),
                Err(e) => crate::merkle::spec_parse_words(strings_view(tree@)) == Err::<
                    Seq<Seq<u64>>,
                    ParseError,
                >(e),
            },
    {
        parse_merkle_tree(tree)
    }

    /// Decodes the (index, leaf) entries of one sparse Merkle tree.
    pub fn parse_sparse_merkle_tree(tree: &Vec<(u64, String)>) -> (r: Result<
        Vec<(u64, Word)>,
        ParseError,
    >)
        ensures
            match r {
                Ok(es) => crate::merkle::spec_parse_entries(crate::merkle::pairs_view(tree@))
                    == Ok::<Seq<(u64, Seq<u64>)>, ParseError>(
                    crate::merkle::sparse_entries_view(es@),
                ),
                Err(e) => crate::merkle::spec_parse_entries(crate::merkle::pairs_view(tree@))
                    == Err::<Seq<(u64, Seq<u64>)>, ParseError>(e),
            },
    {
        parse_sparse_merkle_tree(tree)
    }

    /// Decodes a word from its 64-hex-char canonical form.
    pub fn parse_word(word_hex: &str) -> (r: Result<Word, ParseError>)
        ensures
            match r {
                Ok(w) => crate::codec::word_hex_ok(word_hex@) && crate::codec::word_in_field(
                    word_hex@,
                ) && w.wf() && w.elements@ =~= crate::codec::word_elems(word_hex@),
                Err(e) => !(crate::codec::word_hex_ok(word_hex@) && crate::codec::word_in_field(
                    word_hex@,
                )) && ((e == ParseError::InvalidHexLength) <==> !crate::codec::word_hex_ok(
                    word_hex@,
                )) && (crate::codec::word_hex_ok(word_hex@) ==> e == ParseError::FieldOverflow),
            },
    {
        decode_word(word_hex)
    }

    /// Parses the initial operand stack, top element first; an absent or
    /// empty list yields the default single-zero stack.
    pub fn parse_stack_inputs(&self) -> (r: Result<StackInputs, ParseError>)
        ensures
            match r {
                Ok(si) => si.wf() && (match self.operand_stack {
                    Some(v) => if v@.len() == 0 {
                        si.elements@ =~= seq![0u64]
                    } else {
                        spec_parse_felts(strings_view(v@)) == Ok::<Seq<u64>, ParseError>(
                            si.elements@,
                        )
                    },
                    None => si.elements@ =~= seq![0u64],
                }),
                Err(e) => match self.operand_stack {
                    Some(v) => v@.len() > 0 && spec_parse_felts(strings_view(v@)) == Err::<
                        Seq<u64>,
                        ParseError,
                    >(e),
                    None => false,
                },
            },
    {
        match &self.operand_stack {
            Some(values) => parse_stack_values(values),
            None => Ok(StackInputs::default_stack()),
        }
    }

    /// Builds the advice provider from the request's three advice fields;
    /// the build never partially succeeds.
    pub fn parse_advice_provider(&self) -> (r: Result<AdviceProvider, ParseError>)
        ensures
            match r {
                Ok(p) => p.wf() && spec_parse_felts(self.spec_advice_stack()) == Ok::<
                    Seq<u64>,
                    ParseError,
                >(p.stack@) && spec_parse_advice_map(self.spec_advice_map()) == Ok::<
                    Seq<(Seq<u8>, Seq<u64>)>,
                    ParseError,
                >(p.map.model()) && forall|i: int|
                    0 <= i < self.spec_merkle_items().len() ==> item_provided(
                        #[trigger] self.spec_merkle_items()[i],
                        p.store,
                    ),
                Err(e) => spec_parse_felts(self.spec_advice_stack()) == Err::<
                    Seq<u64>,
                    ParseError,
                >(e) || (spec_parse_felts(self.spec_advice_stack()) is Ok
                    && spec_parse_advice_map(self.spec_advice_map()) == Err::<
                    Seq<(Seq<u8>, Seq<u64>)>,
                    ParseError,
                >(e)) || (spec_parse_felts(self.spec_advice_stack()) is Ok
                    && spec_parse_advice_map(self.spec_advice_map()) is Ok && ((e
                    == ParseError::MerkleStoreConflict && exists|i: int|
                    0 <= i < self.spec_merkle_items().len() && item_builds_nodes(
                        #[trigger] self.spec_merkle_items()[i],
                    )) || exists|i: int|
                    0 <= i < self.spec_merkle_items().len() && item_faulty(
                        #[trigger] self.spec_merkle_items()[i],
                        e,
                    ))),
            },
    {
        let empty_values: Vec<String> = Vec::new();
        let empty_entries: Vec<(String, Vec<u64>)> = Vec::new();
        let empty_items: Vec<MerkleData> = Vec::new();
        let stack_values = match &self.advice_stack {
            Some(v) => v,
            None => &empty_values,
        };
        let map_entries = match &self.advice_map {
            Some(v) => v,
            None => &empty_entries,
        };
        let merkle_items = match &self.merkle_store {
            Some(v) => v,
            None => &empty_items,
        };
        proof {
            assert(self.spec_advice_stack() =~= strings_view(stack_values@));
            assert(self.spec_advice_map() =~= advice_entries_view(map_entries@));
            assert(self.spec_merkle_items() =~= merkle_items@);
        }
        build_advice_provider(stack_values, map_entries, merkle_items)
    }
}

// ---------------------------------------------------------------------------
// Result envelope
// ---------------------------------------------------------------------------

/// A result document, as a verifier replays it against a proof:
/// `stack_output` is required, the rest optional.
pub struct Outputs {
    pub stack_output: Vec<u64>,
    pub trace_len: Option<u64>,
    pub overflow_addrs: Option<Vec<u64>>,
    pub proof_bytes: Option<Vec<u8>>,
}

/// The stack outputs a result document describes: its stack values, and
/// its overflow addresses or empty when absent.
pub fn outputs_to_stack_outputs(o: &Outputs) -> (r: StackOutputs)
    ensures
        r.stack@ == o.stack_output@,
        r.overflow_addrs@ == match o.overflow_addrs {
            Some(v) => v@,
            None => Seq::<u64>::empty(),
        },
{
    let stack = crate::stack::clone_u64_vec(&o.stack_output);
    let overflow = match &o.overflow_addrs {
        Some(v) => crate::stack::clone_u64_vec(v),
        None => Vec::new(),
    };
    proof {
        if o.overflow_addrs is None {
            assert(overflow@ =~= Seq::<u64>::empty());
        }
    }
    StackOutputs::new(stack, overflow)
}

// ---------------------------------------------------------------------------
// JSON walking
// ---------------------------------------------------------------------------

/// The character has the Unicode white-space property.
pub open spec fn is_space(c: char) -> bool {
    c == '\u{09}' || c == '\u{0a}' || c == '\u{0b}' || c == '\u{0c}' || c == '\u{0d}' || c == ' '
        || c == '\u{85}' || c == '\u{a0}' || c == '\u{1680}' || ('\u{2000}' <= c && c
        <= '\u{200a}') || c == '\u{2028}' || c == '\u{2029}' || c == '\u{202f}' || c == '\u{205f}'
        || c == '\u{3000}'
}

/// Every character is whitespace: the document trims to nothing.
pub open spec fn spec_blank(s: Seq<char>) -> bool {
    forall|i: int| 0 <= i < s.len() ==> is_space(#[trigger] s[i])
}

/// Whether the character has the Unicode white-space property.
fn is_space_char(c: char) -> (r: bool)
    ensures
        r == is_space(c),
{
    c == '\u{09}' || c == '\u{0a}' || c == '\u{0b}' || c == '\u{0c}' || c == '\u{0d}' || c == ' '
        || c == '\u{85}' || c == '\u{a0}' || c == '\u{1680}' || ('\u{2000}' <= c && c
        <= '\u{200a}') || c == '\u{2028}' || c == '\u{2029}' || c == '\u{202f}' || c == '\u{205f}'
        || c == '\u{3000}'
}

/// Whether the string holds only whitespace.
fn is_blank(s: &str) -> (r: bool)
    ensures
        r == spec_blank(s@),
{
    let n = s.unicode_len();
    let mut i: usize = 0;
    while i < n
        invariant
            i <= n,
            n == s@.len(),
            forall|k: int| 0 <= k < i ==> is_space(#[trigger] s@[k]),
        decreases n - i,
    {
        let c = s.get_char(i);
        if !is_space_char(c) {
            return false;
        }
        i += 1;
    }
    true
}

/// The texts of a sequence of JSON strings, front to back; any other
/// value fails the walk.
pub open spec fn spec_texts(items: Seq<JsonModel>) -> Result<Seq<Seq<char>>, ParseError>
    decreases items.len(),
{
    if items.len() == 0 {
        Ok(Seq::empty())
    } else {
        match items[0] {
            JsonModel::Text(s) => match spec_texts(items.drop_first()) {
                Ok(rest) => Ok(seq![s] + rest),
                Err(e) => Err(e),
            },
            _ => Err(ParseError::InvalidJson),
        }
    }
}

/// The texts of a JSON array of strings.
pub open spec fn spec_string_array(j: JsonModel) -> Result<Seq<Seq<char>>, ParseError> {
    match j {
        JsonModel::Arr(items) => spec_texts(items),
        _ => Err(ParseError::InvalidJson),
    }
}

/// The values of a sequence of unsigned 64-bit JSON numbers.
pub open spec fn spec_nums(items: Seq<JsonModel>) -> Result<Seq<u64>, ParseError>
    decreases items.len(),
{
    if items.len() == 0 {
        Ok(Seq::empty())
    } else {
        match items[0] {
            JsonModel::Num(Some(n)) => match spec_nums(items.drop_first()) {
                Ok(rest) => Ok(seq![n] + rest),
                Err(e) => Err(e),
            },
            _ => Err(ParseError::InvalidJson),
        }
    }
}

/// The values of a JSON array of unsigned 64-bit numbers.
pub open spec fn spec_u64_array(j: JsonModel) -> Result<Seq<u64>, ParseError> {
    match j {
        JsonModel::Arr(items) => spec_nums(items),
        _ => Err(ParseError::InvalidJson),
    }
}

/// The values narrowed to bytes; one above 255 fails the walk.
pub open spec fn spec_bytes_of(ns: Seq<u64>) -> Result<Seq<u8>, ParseError>
    decreases ns.len(),
{
    if ns.len() == 0 {
        Ok(Seq::empty())
    } else if ns[0] > 255 {
        Err(ParseError::InvalidJson)
    } else {
        match spec_bytes_of(ns.drop_first()) {
            Ok(rest) => Ok(seq![ns[0] as u8] + rest),
            Err(e) => Err(e),
        }
    }
}

/// The bytes of a JSON array of numbers below 256.
pub open spec fn spec_byte_array(j: JsonModel) -> Result<Seq<u8>, ParseError> {
    match spec_u64_array(j) {
        Ok(ns) => spec_bytes_of(ns),
        Err(e) => Err(e),
    }
}

/// The advice-map entries of an object's members, in the object's order.
pub open spec fn spec_map_entries(ms: Seq<(Seq<char>, JsonModel)>) -> Result<
    Seq<(Seq<char>, Seq<u64>)>,
    ParseError,
>
    decreases ms.len(),
{
    if ms.len() == 0 {
        Ok(Seq::empty())
    } else {
        match spec_u64_array(ms[0].1) {
            Ok(ns) => match spec_map_entries(ms.drop_first()) {
                Ok(rest) => Ok(seq![(ms[0].0, ns)] + rest),
                Err(e) => Err(e),
            },
            Err(e) => Err(e),
        }
    }
}

/// The advice-map entries of a JSON object of integer arrays.
pub open spec fn spec_advice_entries(j: JsonModel) -> Result<
    Seq<(Seq<char>, Seq<u64>)>,
    ParseError,
> {
    match j {
        JsonModel::Obj(ms) => spec_map_entries(ms),
        _ => Err(ParseError::InvalidJson),
    }
}

/// The (index, leaf text) pairs of a sequence of two-element JSON arrays.
pub open spec fn spec_sparse_pairs(items: Seq<JsonModel>) -> Result<
    Seq<(u64, Seq<char>)>,
    ParseError,
>
    decreases items.len(),
{
    if items.len() == 0 {
        Ok(Seq::empty())
    } else {
        match items[0] {
            JsonModel::Arr(pair) => if pair.len() != 2 {
                Err(ParseError::InvalidJson)
            } else {
                match (pair[0], pair[1]) {
                    (JsonModel::Num(Some(idx)), JsonModel::Text(s)) => match spec_sparse_pairs(
                        items.drop_first(),
                    ) {
                        Ok(rest) => Ok(seq![(idx, s)] + rest),
                        Err(e) => Err(e),
                    },
                    _ => Err(ParseError::InvalidJson),
                }
            },
            _ => Err(ParseError::InvalidJson),
        }
    }
}

/// One Merkle item: an object with a `merkle_tree` member (an array of
/// leaf words) or a `sparse_merkle_tree` member (an array of
/// [index, leaf] pairs).
pub open spec fn spec_merkle_item(j: JsonModel) -> Result<MerkleItemModel, ParseError> {
    match j {
        JsonModel::Obj(ms) => match obj_lookup(ms, "merkle_tree"@) {
            Some(x) => match spec_string_array(x) {
                Ok(texts) => Ok(MerkleItemModel::Dense(texts)),
                Err(e) => Err(e),
            },
            None => match obj_lookup(ms, "sparse_merkle_tree"@) {
                Some(x) => match x {
                    JsonModel::Arr(items) => match spec_sparse_pairs(items) {
                        Ok(pairs) => Ok(MerkleItemModel::Sparse(pairs)),
                        Err(e) => Err(e),
                    },
                    _ => Err(ParseError::InvalidJson),
                },
                None => Err(ParseError::InvalidJson),
            },
        },
        _ => Err(ParseError::InvalidJson),
    }
}

/// The Merkle items of a sequence of JSON values.
pub open spec fn spec_merkle_items_walk(items: Seq<JsonModel>) -> Result<
    Seq<MerkleItemModel>,
    ParseError,
>
    decreases items.len(),
{
    if items.len() == 0 {
        Ok(Seq::empty())
    } else {
        match spec_merkle_item(items[0]) {
            Ok(m) => match spec_merkle_items_walk(items.drop_first()) {
                Ok(rest) => Ok(seq![m] + rest),
                Err(e) => Err(e),
            },
            Err(e) => Err(e),
        }
    }
}

/// The Merkle items of a JSON array.
pub open spec fn spec_merkle_array(j: JsonModel) -> Result<Seq<MerkleItemModel>, ParseError> {
    match j {
        JsonModel::Arr(items) => spec_merkle_items_walk(items),
        _ => Err(ParseError::InvalidJson),
    }
}

/// The plain-value images of parsed Merkle items.
pub open spec fn merkle_items_model(items: Seq<MerkleData>) -> Seq<MerkleItemModel> {
    items.map_values(|item: MerkleData| merkle_item_model(item))
}

/// The strings of a JSON array of strings.
fn string_array(v: &serde_json::Value) -> (r: Result<Vec<String>, ParseError>)
    ensures
        match r {
            Ok(out) => spec_string_array(json_view(*v)) == Ok::<Seq<Seq<char>>, ParseError>(
                strings_view(out@),
            ),
            Err(e) => spec_string_array(json_view(*v)) == Err::<Seq<Seq<char>>, ParseError>(e),
        },
{
    let items = match json_as_array(v) {
        Some(items) => items,
        None => {
            return Err(ParseError::InvalidJson);
        },
    };
    let ghost arr = json_view(*v)->Arr_0;
    let mut out: Vec<String> = Vec::new();
    let mut i: usize = 0;
    proof {
        assert(arr.skip(0) =~= arr);
        if spec_texts(arr) is Ok {
            assert(strings_view(out@) + spec_texts(arr)->Ok_0 =~= spec_texts(arr)->Ok_0);
        }
    }
    while i < items.len()
        invariant
            i <= items@.len(),
            json_view(*v) is Arr,
            arr == json_view(*v)->Arr_0,
            items@.len() == arr.len(),
            forall|k: int| 0 <= k < items@.len() ==> json_view(#[trigger] items@[k]) == arr[k],
            out@.len() == i,
            spec_texts(arr) == match spec_texts(arr.skip(i as int)) {
                Ok(rest) => Ok::<Seq<Seq<char>>, ParseError>(strings_view(out@) + rest),
                Err(e) => Err::<Seq<Seq<char>>, ParseError>(e),
            },
        decreases items@.len() - i,
    {
        proof {
            assert(arr.skip(i as int)[0] == arr[i as int]);
            assert(arr.skip(i as int).drop_first() =~= arr.skip(i as int + 1));
        }
        match json_as_string(&items[i]) {
            Some(s) => {
                let ghost out0 = strings_view(out@);
                let ghost text = arr[i as int]->Text_0;
                out.push(s);
                proof {
                    assert(strings_view(out@) =~= out0 + seq![text]);
                    match spec_texts(arr.skip(i as int + 1)) {
                        Ok(rest) => {
                            assert(out0 + (seq![text] + rest) =~= strings_view(out@) + rest);
                        },
                        Err(_) => {},
                    }
                }
            },
            None => {
                return Err(ParseError::InvalidJson);
            },
        }
        i += 1;
    }
    proof {
        assert(arr.skip(i as int) =~= Seq::<JsonModel>::empty());
        assert(strings_view(out@) + Seq::<Seq<char>>::empty() =~= strings_view(out@));
    }
    Ok(out)
}

/// The integers of a JSON array of unsigned 64-bit numbers.
fn u64_array(v: &serde_json::Value) -> (r: Result<Vec<u64>, ParseError>)
    ensures
        match r {
            Ok(out) => spec_u64_array(json_view(*v)) == Ok::<Seq<u64>, ParseError>(out@),
            Err(e) => spec_u64_array(json_view(*v)) == Err::<Seq<u64>, ParseError>(e),
        },
{
    let items = match json_as_array(v) {
        Some(items) => items,
        None => {
            return Err(ParseError::InvalidJson);
        },
    };
    let ghost arr = json_view(*v)->Arr_0;
    let mut out: Vec<u64> = Vec::new();
    let mut i: usize = 0;
    proof {
        assert(arr.skip(0) =~= arr);
        if spec_nums(arr) is Ok {
            assert(out@ + spec_nums(arr)->Ok_0 =~= spec_nums(arr)->Ok_0);
        }
    }
    while i < items.len()
        invariant
            i <= items@.len(),
            json_view(*v) is Arr,
            arr == json_view(*v)->Arr_0,
            items@.len() == arr.len(),
            forall|k: int| 0 <= k < items@.len() ==> json_view(#[trigger] items@[k]) == arr[k],
            out@.len() == i,
            spec_nums(arr) == match spec_nums(arr.skip(i as int)) {
                Ok(rest) => Ok::<Seq<u64>, ParseError>(out@ + rest),
                Err(e) => Err::<Seq<u64>, ParseError>(e),
            },
        decreases items@.len() - i,
    {
        proof {
            assert(arr.skip(i as int)[0] == arr[i as int]);
            assert(arr.skip(i as int).drop_first() =~= arr.skip(i as int + 1));
        }
        match json_as_u64(&items[i]) {
            Some(n) => {
                let ghost out0 = out@;
                out.push(n);
                proof {
                    assert(out@ =~= out0 + seq![n]);
                    match spec_nums(arr.skip(i as int + 1)) {
                        Ok(rest) => {
                            assert(out0 + (seq![n] + rest) =~= out@ + rest);
                        },
                        Err(_) => {},
                    }
                }
            },
            None => {
                return Err(ParseError::InvalidJson);
            },
        }
        i += 1;
    }
    proof {
        assert(arr.skip(i as int) =~= Seq::<JsonModel>::empty());
        assert(out@ + Seq::<u64>::empty() =~= out@);
    }
    Ok(out)
}

/// The bytes of a JSON array of numbers below 256.
fn byte_array(v: &serde_json::Value) -> (r: Result<Vec<u8>, ParseError>)
    ensures
        match r {
            Ok(out) => spec_byte_array(json_view(*v)) == Ok::<Seq<u8>, ParseError>(out@),
            Err(e) => spec_byte_array(json_view(*v)) == Err::<Seq<u8>, ParseError>(e),
        },
{
    let nums = match u64_array(v) {
        Ok(nums) => nums,
        Err(e) => {
            return Err(e);
        },
    };
    let ghost ns = nums@;
    let mut out: Vec<u8> = Vec::new();
    let mut i: usize = 0;
    proof {
        assert(ns.skip(0) =~= ns);
        if spec_bytes_of(ns) is Ok {
            assert(out@ + spec_bytes_of(ns)->Ok_0 =~= spec_bytes_of(ns)->Ok_0);
        }
    }
    while i < nums.len()
        invariant
            i <= ns.len(),
            ns == nums@,
            spec_u64_array(json_view(*v)) == Ok::<Seq<u64>, ParseError>(ns),
            out@.len() == i,
            spec_bytes_of(ns) == match spec_bytes_of(ns.skip(i as int)) {
                Ok(rest) => Ok::<Seq<u8>, ParseError>(out@ + rest),
                Err(e) => Err::<Seq<u8>, ParseError>(e),
            },
        decreases ns.len() - i,
    {
        proof {
            assert(ns.skip(i as int)[0] == ns[i as int]);
            assert(ns.skip(i as int).drop_first() =~= ns.skip(i as int + 1));
        }
        let n = nums[i];
        if n > 255 {
            return Err(ParseError::InvalidJson);
        }
        let ghost out0 = out@;
        out.push(n as u8);
        proof {
            assert(out@ =~= out0 + seq![ns[i as int] as u8]);
            match spec_bytes_of(ns.skip(i as int + 1)) {
                Ok(rest) => {
                    assert(out0 + (seq![ns[i as int] as u8] + rest) =~= out@ + rest);
                },
                Err(_) => {},
            }
        }
        i += 1;
    }
    proof {
        assert(ns.skip(i as int) =~= Seq::<u64>::empty());
        assert(out@ + Seq::<u8>::empty() =~= out@);
    }
    Ok(out)
}

/// The advice-map entries of a JSON object mapping hex keys to integer
/// arrays.
fn advice_map_entries(v: &serde_json::Value) -> (r: Result<Vec<(String, Vec<u64>)>, ParseError>)
    ensures
        match r {
            Ok(out) => spec_advice_entries(json_view(*v)) == Ok::<
                Seq<(Seq<char>, Seq<u64>)>,
                ParseError,
            >(advice_entries_view(out@)),
            Err(e) => spec_advice_entries(json_view(*v)) == Err::<
                Seq<(Seq<char>, Seq<u64>)>,
                ParseError,
            >(e),
        },
{
    let members = match json_object_entries(v) {
        Some(members) => members,
        None => {
            return Err(ParseError::InvalidJson);
        },
    };
    let ghost ms = json_view(*v)->Obj_0;
    let mut out: Vec<(String, Vec<u64>)> = Vec::new();
    let mut i: usize = 0;
    proof {
        assert(ms.skip(0) =~= ms);
        if spec_map_entries(ms) is Ok {
            assert(advice_entries_view(out@) + spec_map_entries(ms)->Ok_0 =~= spec_map_entries(
                ms,
            )->Ok_0);
        }
    }
    while i < members.len()
        invariant
            i <= members@.len(),
            json_view(*v) is Obj,
            ms == json_view(*v)->Obj_0,
            members@.len() == ms.len(),
            forall|k: int|
                0 <= k < members@.len() ==> (#[trigger] members@[k]).0@ == ms[k].0 && json_view(
                    members@[k].1,
                ) == ms[k].1,
            out@.len() == i,
            spec_map_entries(ms) == match spec_map_entries(ms.skip(i as int)) {
                Ok(rest) => Ok::<Seq<(Seq<char>, Seq<u64>)>, ParseError>(
                    advice_entries_view(out@) + rest,
                ),
                Err(e) => Err::<Seq<(Seq<char>, Seq<u64>)>, ParseError>(e),
            },
        decreases members@.len() - i,
    {
        proof {
            assert(ms.skip(i as int)[0] == ms[i as int]);
            assert(ms.skip(i as int).drop_first() =~= ms.skip(i as int + 1));
        }
        let values = match u64_array(&members[i].1) {
            Ok(values) => values,
            Err(e) => {
                return Err(e);
            },
        };
        let key = members[i].0.clone();
        let ghost out0 = advice_entries_view(out@);
        let ghost entry = (ms[i as int].0, spec_u64_array(ms[i as int].1)->Ok_0);
        out.push((key, values));
        proof {
            assert(advice_entries_view(out@) =~= out0 + seq![entry]);
            match spec_map_entries(ms.skip(i as int + 1)) {
                Ok(rest) => {
                    assert(out0 + (seq![entry] + rest) =~= advice_entries_view(out@) + rest);
                },
                Err(_) => {},
            }
        }
        i += 1;
    }
    proof {
        assert(ms.skip(i as int) =~= Seq::<(Seq<char>, JsonModel)>::empty());
        assert(advice_entries_view(out@) + Seq::<(Seq<char>, Seq<u64>)>::empty()
            =~= advice_entries_view(out@));
    }
    Ok(out)
}

/// The (index, leaf) pairs of a sparse tree's JSON array.
fn sparse_pair_array(v: &serde_json::Value) -> (r: Result<Vec<(u64, String)>, ParseError>)
    ensures
        match r {
            Ok(out) => json_view(*v) is Arr && spec_sparse_pairs(json_view(*v)->Arr_0) == Ok::<
                Seq<(u64, Seq<char>)>,
                ParseError,
            >(crate::merkle::pairs_view(out@)),
            Err(e) => e == ParseError::InvalidJson && (json_view(*v) is Arr ==> spec_sparse_pairs(
                json_view(*v)->Arr_0,
            ) == Err::<Seq<(u64, Seq<char>)>, ParseError>(e)),
        },
{
    let items = match json_as_array(v) {
        Some(items) => items,
        None => {
            return Err(ParseError::InvalidJson);
        },
    };
    let ghost arr = json_view(*v)->Arr_0;
    let mut out: Vec<(u64, String)> = Vec::new();
    let mut i: usize = 0;
    proof {
        assert(arr.skip(0) =~= arr);
        if spec_sparse_pairs(arr) is Ok {
            assert(crate::merkle::pairs_view(out@) + spec_sparse_pairs(arr)->Ok_0
                =~= spec_sparse_pairs(arr)->Ok_0);
        }
    }
    while i < items.len()
        invariant
            i <= items@.len(),
            json_view(*v) is Arr,
            arr == json_view(*v)->Arr_0,
            items@.len() == arr.len(),
            forall|k: int| 0 <= k < items@.len() ==> json_view(#[trigger] items@[k]) == arr[k],
            out@.len() == i,
            spec_sparse_pairs(arr) == match spec_sparse_pairs(arr.skip(i as int)) {
                Ok(rest) => Ok::<Seq<(u64, Seq<char>)>, ParseError>(
                    crate::merkle::pairs_view(out@) + rest,
                ),
                Err(e) => Err::<Seq<(u64, Seq<char>)>, ParseError>(e),
            },
        decreases items@.len() - i,
    {
        proof {
            assert(arr.skip(i as int)[0] == arr[i as int]);
            assert(arr.skip(i as int).drop_first() =~= arr.skip(i as int + 1));
        }
        let pair = match json_as_array(&items[i]) {
            Some(pair) => pair,
            None => {
                return Err(ParseError::InvalidJson);
            },
        };
        if pair.len() != 2 {
            return Err(ParseError::InvalidJson);
        }
        let index = match json_as_u64(&pair[0]) {
            Some(n) => n,
            None => {
                return Err(ParseError::InvalidJson);
            },
        };
        let leaf = match json_as_string(&pair[1]) {
            Some(s) => s,
            None => {
                return Err(ParseError::InvalidJson);
            },
        };
        let ghost out0 = crate::merkle::pairs_view(out@);
        let ghost entry = (index, arr[i as int]->Arr_0[1]->Text_0);
        out.push((index, leaf));
        proof {
            assert(crate::merkle::pairs_view(out@) =~= out0 + seq![entry]);
            match spec_sparse_pairs(arr.skip(i as int + 1)) {
                Ok(rest) => {
                    assert(out0 + (seq![entry] + rest) =~= crate::merkle::pairs_view(out@) + rest);
                },
                Err(_) => {},
            }
        }
        i += 1;
    }
    proof {
        assert(arr.skip(i as int) =~= Seq::<JsonModel>::empty());
        assert(crate::merkle::pairs_view(out@) + Seq::<(u64, Seq<char>)>::empty()
            =~= crate::merkle::pairs_view(out@));
    }
    Ok(out)
}

/// One Merkle item of the request: an object with a `merkle_tree` or a
/// `sparse_merkle_tree` member.
fn merkle_item(v: &serde_json::Value) -> (r: Result<MerkleData, ParseError>)
    ensures
        match r {
            Ok(item) => spec_merkle_item(json_view(*v)) == Ok::<MerkleItemModel, ParseError>(
                merkle_item_model(item),
            ),
            Err(e) => spec_merkle_item(json_view(*v)) == Err::<MerkleItemModel, ParseError>(e),
        },
{
    if let Some(leaves) = json_get(v, "merkle_tree") {
        let tree = match string_array(leaves) {
            Ok(tree) => tree,
            Err(e) => {
                return Err(e);
            },
        };
        return Ok(MerkleData::MerkleTree(tree));
    }
    if let Some(entries) = json_get(v, "sparse_merkle_tree") {
        let pairs = match sparse_pair_array(entries) {
            Ok(pairs) => pairs,
            Err(e) => {
                return Err(e);
            },
        };
        return Ok(MerkleData::SparseMerkleTree(pairs));
    }
    Err(ParseError::InvalidJson)
}

/// The Merkle items of the request's `merkle_store` array.
fn merkle_item_array(v: &serde_json::Value) -> (r: Result<Vec<MerkleData>, ParseError>)
    ensures
        match r {
            Ok(out) => spec_merkle_array(json_view(*v)) == Ok::<Seq<MerkleItemModel>, ParseError>(
                merkle_items_model(out@),
            ),
            Err(e) => spec_merkle_array(json_view(*v)) == Err::<Seq<MerkleItemModel>, ParseError>(
                e,
            ),
        },
{
    let items = match json_as_array(v) {
        Some(items) => items,
        None => {
            return Err(ParseError::InvalidJson);
        },
    };
    let ghost arr = json_view(*v)->Arr_0;
    let mut out: Vec<MerkleData> = Vec::new();
    let mut i: usize = 0;
    proof {
        assert(arr.skip(0) =~= arr);
        if spec_merkle_items_walk(arr) is Ok {
            assert(merkle_items_model(out@) + spec_merkle_items_walk(arr)->Ok_0
                =~= spec_merkle_items_walk(arr)->Ok_0);
        }
    }
    while i < items.len()
        invariant
            i <= items@.len(),
            json_view(*v) is Arr,
            arr == json_view(*v)->Arr_0,
            items@.len() == arr.len(),
            forall|k: int| 0 <= k < items@.len() ==> json_view(#[trigger] items@[k]) == arr[k],
            out@.len() == i,
            spec_merkle_items_walk(arr) == match spec_merkle_items_walk(arr.skip(i as int)) {
                Ok(rest) => Ok::<Seq<MerkleItemModel>, ParseError>(merkle_items_model(out@) + rest),
                Err(e) => Err::<Seq<MerkleItemModel>, ParseError>(e),
            },
        decreases items@.len() - i,
    {
        proof {
            assert(arr.skip(i as int)[0] == arr[i as int]);
            assert(arr.skip(i as int).drop_first() =~= arr.skip(i as int + 1));
        }
        let item = match merkle_item(&items[i]) {
            Ok(item) => item,
            Err(e) => {
                return Err(e);
            },
        };
        let ghost out0 = merkle_items_model(out@);
        let ghost m = merkle_item_model(item);
        out.push(item);
        proof {
            assert(merkle_items_model(out@) =~= out0 + seq![m]);
            match spec_merkle_items_walk(arr.skip(i as int + 1)) {
                Ok(rest) => {
                    assert(out0 + (seq![m] + rest) =~= merkle_items_model(out@) + rest);
                },
                Err(_) => {},
            }
        }
        i += 1;
    }
    proof {
        assert(arr.skip(i as int) =~= Seq::<JsonModel>::empty());
        assert(merkle_items_model(out@) + Seq::<MerkleItemModel>::empty() =~= merkle_items_model(
            out@,
        ));
    }
    Ok(out)
}

// ---------------------------------------------------------------------------
// The request and result documents
// ---------------------------------------------------------------------------

/// The plain-value image of a request.
pub ghost struct InputFileModel {
    pub operand_stack: Option<Seq<Seq<char>>>,
    pub advice_stack: Option<Seq<Seq<char>>>,
    pub advice_map: Option<Seq<(Seq<char>, Seq<u64>)>>,
    pub merkle_store: Option<Seq<MerkleItemModel>>,
}

/// The request's fields as plain values.
pub open spec fn file_model(f: &InputFile) -> InputFileModel {
    InputFileModel {
        operand_stack: match f.operand_stack {
            Some(v) => Some(strings_view(v@)),
            None => None,
        },
        advice_stack: match f.advice_stack {
            Some(v) => Some(strings_view(v@)),
            None => None,
        },
        advice_map: match f.advice_map {
            Some(v) => Some(advice_entries_view(v@)),
            None => None,
        },
        merkle_store: match f.merkle_store {
            Some(v) => Some(merkle_items_model(v@)),
            None => None,
        },
    }
}

/// An optional string-array field, read under its primary name first and
/// its legacy name second.
pub open spec fn field_texts(
    ms: Seq<(Seq<char>, JsonModel)>,
    primary: Seq<char>,
    legacy: Seq<char>,
) -> Result<Option<Seq<Seq<char>>>, ParseError> {
    match obj_lookup(ms, primary) {
        Some(x) => match spec_string_array(x) {
            Ok(t) => Ok(Some(t)),
            Err(e) => Err(e),
        },
        None => match obj_lookup(ms, legacy) {
            Some(x) => match spec_string_array(x) {
                Ok(t) => Ok(Some(t)),
                Err(e) => Err(e),
            },
            None => Ok(None),
        },
    }
}

/// The request a JSON value describes: an object whose fields are all
/// optional, with `stack_init` and `advice_tape` accepted as legacy names.
pub open spec fn spec_parse_input_file(j: JsonModel) -> Result<InputFileModel, ParseError> {
    match j {
        JsonModel::Obj(ms) => match field_texts(ms, "operand_stack"@, "stack_init"@) {
            Err(e) => Err(e),
            Ok(operand_stack) => match field_texts(ms, "advice_stack"@, "advice_tape"@) {
                Err(e) => Err(e),
                Ok(advice_stack) => match (match obj_lookup(ms, "advice_map"@) {
                    Some(x) => match spec_advice_entries(x) {
                        Ok(entries) => Ok(Some(entries)),
                        Err(e) => Err(e),
                    },
                    None => Ok(None),
                }) {
                    Err(e) => Err::<InputFileModel, ParseError>(e),
                    Ok(advice_map) => match (match obj_lookup(ms, "merkle_store"@) {
                        Some(x) => match spec_merkle_array(x) {
                            Ok(items) => Ok(Some(items)),
                            Err(e) => Err(e),
                        },
                        None => Ok(None),
                    }) {
                        Err(e) => Err::<InputFileModel, ParseError>(e),
                        Ok(merkle_store) => Ok(
                            InputFileModel { operand_stack, advice_stack, advice_map, merkle_store },
                        ),
                    },
                },
            },
        },
        _ => Err(ParseError::InvalidJson),
    }
}

/// An optional string-array field of the request object.
fn opt_string_field(v: &serde_json::Value, primary: &str, legacy: &str) -> (r: Result<
    Option<Vec<String>>,
    ParseError,
>)
    requires
        json_view(*v) is Obj,
    ensures
        match r {
            Ok(Some(vs)) => field_texts(json_view(*v)->Obj_0, primary@, legacy@) == Ok::<
                Option<Seq<Seq<char>>>,
                ParseError,
            >(Some(strings_view(vs@))),
            Ok(None) => field_texts(json_view(*v)->Obj_0, primary@, legacy@) == Ok::<
                Option<Seq<Seq<char>>>,
                ParseError,
            >(None),
            Err(e) => field_texts(json_view(*v)->Obj_0, primary@, legacy@) == Err::<
                Option<Seq<Seq<char>>>,
                ParseError,
            >(e),
        },
{
    match json_get(v, primary) {
        Some(x) => match string_array(x) {
            Ok(vs) => Ok(Some(vs)),
            Err(e) => Err(e),
        },
        None => match json_get(v, legacy) {
            Some(x) => match string_array(x) {
                Ok(vs) => Ok(Some(vs)),
                Err(e) => Err(e),
            },
            None => Ok(None),
        },
    }
}

/// Reads a request from its JSON value tree. The value must be an object;
/// `operand_stack` falls back to the legacy name `stack_init`, and
/// `advice_stack` to `advice_tape`.
pub fn parse_input_file(v: &serde_json::Value) -> (r: Result<InputFile, ParseError>)
    ensures
        match r {
            Ok(f) => spec_parse_input_file(json_view(*v)) == Ok::<InputFileModel, ParseError>(
                file_model(&f),
            ),
            Err(e) => spec_parse_input_file(json_view(*v)) == Err::<InputFileModel, ParseError>(e),
        },
{
    if !json_is_object(v) {
        return Err(ParseError::InvalidJson);
    }
    let operand_stack = match opt_string_field(v, "operand_stack", "stack_init") {
        Ok(f) => f,
        Err(e) => {
            return Err(e);
        },
    };
    let advice_stack = match opt_string_field(v, "advice_stack", "advice_tape") {
        Ok(f) => f,
        Err(e) => {
            return Err(e);
        },
    };
    let advice_map = match json_get(v, "advice_map") {
        Some(x) => match advice_map_entries(x) {
            Ok(entries) => Some(entries),
            Err(e) => {
                return Err(e);
            },
        },
        None => None,
    };
    let merkle_store = match json_get(v, "merkle_store") {
        Some(x) => match merkle_item_array(x) {
            Ok(items) => Some(items),
            Err(e) => {
                return Err(e);
            },
        },
        None => None,
    };
    Ok(InputFile { operand_stack, advice_stack, advice_map, merkle_store })
}

/// The plain-value image of a result document.
pub ghost struct OutputsModel {
    pub stack_output: Seq<u64>,
    pub trace_len: Option<u64>,
    pub overflow_addrs: Option<Seq<u64>>,
    pub proof_bytes: Option<Seq<u8>>,
}

/// The result record's fields as plain values.
pub open spec fn outputs_model(o: &Outputs) -> OutputsModel {
    OutputsModel {
        stack_output: o.stack_output@,
        trace_len: o.trace_len,
        overflow_addrs: match o.overflow_addrs {
            Some(v) => Some(v@),
            None => None,
        },
        proof_bytes: match o.proof_bytes {
            Some(v) => Some(v@),
            None => None,
        },
    }
}

/// An optional unsigned 64-bit number field.
pub open spec fn field_u64(ms: Seq<(Seq<char>, JsonModel)>, key: Seq<char>) -> Result<
    Option<u64>,
    ParseError,
> {
    match obj_lookup(ms, key) {
        Some(x) => match x {
            JsonModel::Num(Some(n)) => Ok(Some(n)),
            _ => Err(ParseError::InvalidJson),
        },
        None => Ok(None),
    }
}

/// The result document a JSON value describes: an object with a required
/// `stack_output` array; `trace_len`, `overflow_addrs` and `proof` are
/// optional.
pub open spec fn spec_parse_outputs(j: JsonModel) -> Result<OutputsModel, ParseError> {
    match j {
        JsonModel::Obj(ms) => match obj_lookup(ms, "stack_output"@) {
            None => Err(ParseError::InvalidJson),
            Some(x) => match spec_u64_array(x) {
                Err(e) => Err(e),
                Ok(stack_output) => match field_u64(ms, "trace_len"@) {
                    Err(e) => Err(e),
                    Ok(trace_len) => match (match obj_lookup(ms, "overflow_addrs"@) {
                        Some(x2) => match spec_u64_array(x2) {
                            Ok(ov) => Ok(Some(ov)),
                            Err(e) => Err(e),
                        },
                        None => Ok(None),
                    }) {
                        Err(e) => Err::<OutputsModel, ParseError>(e),
                        Ok(overflow_addrs) => match (match obj_lookup(ms, "proof"@) {
                            Some(x2) => match spec_byte_array(x2) {
                                Ok(pb) => Ok(Some(pb)),
                                Err(e) => Err(e),
                            },
                            None => Ok(None),
                        }) {
                            Err(e) => Err::<OutputsModel, ParseError>(e),
                            Ok(proof_bytes) => Ok(
                                OutputsModel { stack_output, trace_len, overflow_addrs, proof_bytes },
                            ),
                        },
                    },
                },
            },
        },
        _ => Err(ParseError::InvalidJson),
    }
}

/// Reads a result document from its JSON value tree: `stack_output` is
/// required, the rest optional.
pub fn parse_outputs(v: &serde_json::Value) -> (r: Result<Outputs, ParseError>)
    ensures
        match r {
            Ok(o) => spec_parse_outputs(json_view(*v)) == Ok::<OutputsModel, ParseError>(
                outputs_model(&o),
            ),
            Err(e) => spec_parse_outputs(json_view(*v)) == Err::<OutputsModel, ParseError>(e),
        },
{
    if !json_is_object(v) {
        return Err(ParseError::InvalidJson);
    }
    let stack_output = match json_get(v, "stack_output") {
        Some(x) => match u64_array(x) {
            Ok(so) => so,
            Err(e) => {
                return Err(e);
            },
        },
        None => {
            return Err(ParseError::InvalidJson);
        },
    };
    let trace_len = match json_get(v, "trace_len") {
        Some(x) => match json_as_u64(x) {
            Some(n) => Some(n),
            None => {
                return Err(ParseError::InvalidJson);
            },
        },
        None => None,
    };
    let overflow_addrs = match json_get(v, "overflow_addrs") {
        Some(x) => match u64_array(x) {
            Ok(ov) => Some(ov),
            Err(e) => {
                return Err(e);
            },
        },
        None => None,
    };
    let proof_bytes = match json_get(v, "proof") {
        Some(x) => match byte_array(x) {
            Ok(pb) => Some(pb),
            Err(e) => {
                return Err(e);
            },
        },
        None => None,
    };
    Ok(Outputs { stack_output, trace_len, overflow_addrs, proof_bytes })
}

/// The request a document's text describes: parse, then walk.
pub open spec fn spec_request(s: Seq<char>) -> Result<InputFileModel, ParseError> {
    match json_parse(s) {
        Some(j) => spec_parse_input_file(j),
        None => Err(ParseError::InvalidJson),
    }
}

/// The result record a document's text describes: parse, then walk.
pub open spec fn spec_outputs_doc(s: Seq<char>) -> Result<OutputsModel, ParseError> {
    match json_parse(s) {
        Some(j) => spec_parse_outputs(j),
        None => Err(ParseError::InvalidJson),
    }
}

/// An optional list of strings, or empty when absent.
pub open spec fn texts_or_empty(o: Option<Seq<Seq<char>>>) -> Seq<Seq<char>> {
    match o {
        Some(v) => v,
        None => Seq::empty(),
    }
}

/// Optional advice-map entries, or empty when absent.
pub open spec fn entries_or_empty(o: Option<Seq<(Seq<char>, Seq<u64>)>>) -> Seq<
    (Seq<char>, Seq<u64>),
> {
    match o {
        Some(v) => v,
        None => Seq::empty(),
    }
}

/// Optional Merkle items, or empty when absent.
pub open spec fn items_or_empty(o: Option<Seq<MerkleItemModel>>) -> Seq<MerkleItemModel> {
    match o {
        Some(v) => v,
        None => Seq::empty(),
    }
}

/// The request's operand stack parses (vacuously when absent or empty).
pub open spec fn operand_parse_ok(f: InputFileModel) -> bool {
    match f.operand_stack {
        Some(vs) => vs.len() == 0 || spec_parse_felts(vs) is Ok,
        None => true,
    }
}

/// The typed inputs a parsed request yields: the operand stack (default
/// single zero when absent or empty), the advice tape, the advice map, and
/// a node store providing every Merkle item.
pub open spec fn request_inputs_ok(f: InputFileModel, si: StackInputs, p: AdviceProvider) -> bool {
    &&& si.wf()
    &&& p.wf()
    &&& (match f.operand_stack {
        Some(vs) => if vs.len() == 0 {
            si.elements@ =~= seq![0u64]
        } else {
            spec_parse_felts(vs) == Ok::<Seq<u64>, ParseError>(si.elements@)
        },
        None => si.elements@ =~= seq![0u64],
    })
    &&& spec_parse_felts(texts_or_empty(f.advice_stack)) == Ok::<Seq<u64>, ParseError>(p.stack@)
    &&& spec_parse_advice_map(entries_or_empty(f.advice_map)) == Ok::<
        Seq<(Seq<u8>, Seq<u64>)>,
        ParseError,
    >(p.map.model())
    &&& (forall|i: int|
        0 <= i < items_or_empty(f.merkle_store).len() ==> item_provided_m(
            #[trigger] items_or_empty(f.merkle_store)[i],
            p.store,
        ))
}

/// Why a parsed request fails to yield typed inputs: the first failing
/// stage in order — operand stack, advice tape, advice map, Merkle store.
pub open spec fn request_inputs_err(f: InputFileModel, e: ParseError) -> bool {
    ||| (match f.operand_stack {
        Some(vs) => vs.len() > 0 && spec_parse_felts(vs) == Err::<Seq<u64>, ParseError>(e),
        None => false,
    })
    ||| (operand_parse_ok(f) && spec_parse_felts(texts_or_empty(f.advice_stack)) == Err::<
        Seq<u64>,
        ParseError,
    >(e))
    ||| (operand_parse_ok(f) && spec_parse_felts(texts_or_empty(f.advice_stack)) is Ok
        && spec_parse_advice_map(entries_or_empty(f.advice_map)) == Err::<
        Seq<(Seq<u8>, Seq<u64>)>,
        ParseError,
    >(e))
    ||| (operand_parse_ok(f) && spec_parse_felts(texts_or_empty(f.advice_stack)) is Ok
        && spec_parse_advice_map(entries_or_empty(f.advice_map)) is Ok && ((e
        == ParseError::MerkleStoreConflict && exists|i: int|
        0 <= i < items_or_empty(f.merkle_store).len() && item_builds_nodes_m(
            #[trigger] items_or_empty(f.merkle_store)[i],
        )) || exists|i: int|
        0 <= i < items_or_empty(f.merkle_store).len() && item_faulty_m(
            #[trigger] items_or_empty(f.merkle_store)[i],
            e,
        )))
}

// ---------------------------------------------------------------------------
// The combined inputs a session carries
// ---------------------------------------------------------------------------

/// The typed inputs of a run, prove or verify call: the initial stack,
/// the advice provider, and — for verification replay — the outputs.
pub struct Inputs {
    pub stack_inputs: StackInputs,
    pub advice_provider: AdviceProvider,
    pub stack_outputs: StackOutputs,
}

impl Inputs {
    /// Everything well-formed.
    pub open spec fn wf(&self) -> bool {
        self.stack_inputs.wf() && self.advice_provider.wf()
    }

    /// The defaults: a single-zero stack, an empty advice provider, empty
    /// outputs.
    pub fn new() -> (r: Inputs)
        ensures
            r.wf(),
            r.stack_inputs.elements@ =~= seq![0u64],
            r.advice_provider.stack@ =~= Seq::<u64>::empty(),
            r.advice_provider.map.model() =~= Seq::<(Seq<u8>, Seq<u64>)>::empty(),
            r.advice_provider.store.nodes@ =~= Seq::<crate::merkle::MerkleNode>::empty(),
            r.stack_outputs.stack@ =~= Seq::<u64>::empty(),
            r.stack_outputs.overflow_addrs@ =~= Seq::<u64>::empty(),
    {
        Inputs {
            stack_inputs: StackInputs::default_stack(),
            advice_provider: AdviceProvider::empty(),
            stack_outputs: StackOutputs::new(Vec::new(), Vec::new()),
        }
    }

    /// Replaces the stack inputs and advice provider with what the JSON
    /// request describes. A blank request leaves the defaults in place; a
    /// malformed document or a field that fails to parse changes nothing
    /// and reports the error.
    ///
    /// A caveat on duplicate advice-map keys: the JSON parser keeps one
    /// member per byte-identical key, so a document that repeats a key
    /// verbatim reaches this function with only the last value, and only
    /// the advice-map builder's own duplicate check (which also catches
    /// keys differing in hex-digit case) can fire. Callers that must
    /// reject verbatim repetition need a duplicate-preserving reading of
    /// the document, which the generic JSON value cannot represent.
    pub fn deserialize_inputs(&mut self, inputs: &str) -> (r: Result<(), ParseError>)
        ensures
            final(self).stack_outputs == old(self).stack_outputs,
            spec_blank(inputs@) ==> r is Ok && *final(self) == *old(self),
            match r {
                Ok(()) => spec_blank(inputs@) || (spec_request(inputs@) is Ok
                    && request_inputs_ok(
                    spec_request(inputs@)->Ok_0,
                    final(self).stack_inputs,
                    final(self).advice_provider,
                )),
                Err(e) => *final(self) == *old(self) && !spec_blank(inputs@) && (spec_request(
                    inputs@,
                ) == Err::<InputFileModel, ParseError>(e) || (spec_request(inputs@) is Ok
                    && request_inputs_err(spec_request(inputs@)->Ok_0, e))),
            },
    {
        if is_blank(inputs) {
            return Ok(());
        }
        let parsed = match json_from_str(inputs) {
            Some(v) => v,
            None => {
                return Err(ParseError::InvalidJson);
            },
        };
        let input_file = match parse_input_file(&parsed) {
            Ok(f) => f,
            Err(e) => {
                return Err(e);
            },
        };
        let ghost f = file_model(&input_file);
        proof {
            assert(spec_request(inputs@) == Ok::<InputFileModel, ParseError>(f));
            assert(input_file.spec_advice_stack() =~= texts_or_empty(f.advice_stack));
            assert(input_file.spec_advice_map() =~= entries_or_empty(f.advice_map));
            assert(merkle_items_model(input_file.spec_merkle_items()) =~= items_or_empty(
                f.merkle_store,
            ));
        }
        let stack_inputs = match input_file.parse_stack_inputs() {
            Ok(si) => si,
            Err(e) => {
                return Err(e);
            },
        };
        let advice_provider = match input_file.parse_advice_provider() {
            Ok(p) => p,
            Err(e) => {
                proof {
                    assert(operand_parse_ok(f));
                    if !(spec_parse_felts(texts_or_empty(f.advice_stack)) == Err::<
                        Seq<u64>,
                        ParseError,
                    >(e)) && spec_parse_felts(texts_or_empty(f.advice_stack)) is Ok
                        && !(spec_parse_advice_map(entries_or_empty(f.advice_map)) == Err::<
                        Seq<(Seq<u8>, Seq<u64>)>,
                        ParseError,
                    >(e)) && spec_parse_advice_map(entries_or_empty(f.advice_map)) is Ok {
                        let items = items_or_empty(f.merkle_store);
                        if e == ParseError::MerkleStoreConflict && exists|i: int|
                            0 <= i < input_file.spec_merkle_items().len() && item_builds_nodes(
                                #[trigger] input_file.spec_merkle_items()[i],
                            ) {
                            let i = choose|i: int|
                                0 <= i < input_file.spec_merkle_items().len() && item_builds_nodes(
                                    #[trigger] input_file.spec_merkle_items()[i],
                                );
                            assert(items[i] == merkle_item_model(
                                input_file.spec_merkle_items()[i],
                            ));
                            assert(item_builds_nodes_m(items[i]));
                        } else {
                            let i = choose|i: int|
                                0 <= i < input_file.spec_merkle_items().len() && item_faulty(
                                    #[trigger] input_file.spec_merkle_items()[i],
                                    e,
                                );
                            assert(items[i] == merkle_item_model(
                                input_file.spec_merkle_items()[i],
                            ));
                            assert(item_faulty_m(items[i], e));
                        }
                    }
                    assert(request_inputs_err(f, e));
                }
                return Err(e);
            },
        };
        proof {
            assert forall|i: int| 0 <= i < items_or_empty(f.merkle_store).len() implies
                item_provided_m(
                #[trigger] items_or_empty(f.merkle_store)[i],
                advice_provider.store,
            ) by {
                assert(items_or_empty(f.merkle_store)[i] == merkle_item_model(
                    input_file.spec_merkle_items()[i],
                ));
                assert(item_provided(input_file.spec_merkle_items()[i], advice_provider.store));
            }
            assert(request_inputs_ok(f, stack_inputs, advice_provider));
        }
        self.stack_inputs = stack_inputs;
        self.advice_provider = advice_provider;
        Ok(())
    }

    /// Replaces the stack outputs with what the JSON result document
    /// describes: its stack values, and its overflow addresses or empty
    /// when absent. It fails exactly when the document is malformed JSON
    /// or its fields fail the walk (a missing `stack_output` included),
    /// and then changes nothing.
    pub fn deserialize_outputs(&mut self, outputs_as_str: &str) -> (r: Result<(), ParseError>)
        ensures
            final(self).stack_inputs == old(self).stack_inputs,
            final(self).advice_provider == old(self).advice_provider,
            match r {
                Ok(()) => match spec_outputs_doc(outputs_as_str@) {
                    Ok(m) => final(self).stack_outputs.stack@ == m.stack_output
                        && final(self).stack_outputs.overflow_addrs@ == (match m.overflow_addrs {
                        Some(v) => v,
                        None => Seq::<u64>::empty(),
                    }),
                    Err(_) => false,
                },
                Err(e) => *final(self) == *old(self) && spec_outputs_doc(outputs_as_str@) == Err::<
                    OutputsModel,
                    ParseError,
                >(e),
            },
    {
        let parsed = match json_from_str(outputs_as_str) {
            Some(v) => v,
            None => {
                return Err(ParseError::InvalidJson);
            },
        };
        let outputs = match parse_outputs(&parsed) {
            Ok(o) => o,
            Err(e) => {
                return Err(e);
            },
        };
        self.stack_outputs = outputs_to_stack_outputs(&outputs);
        Ok(())
    }
}

} // verus!
