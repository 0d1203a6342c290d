//! Program inputs and outputs as plain values, and their parsing.
use vstd::prelude::*;
use crate::field::{is_felt, MODULUS};
use crate::text::{
    decimal_text, decode_hex32, hex_bytes, is_hex_text, le8, parse_u64, read_le8, u64_of_text,
    u64_text,
};

verus! {

/// Indicates whether debug mode is on or off.
pub enum Debug {
    On,
    Off,
}

impl Debug {
    /// Returns true if debug mode is on.
    pub fn is_on(&self) -> (r: bool)
        ensures
            r == (*self is On),
    {
        match self {
            Debug::On => true,
            Debug::Off => false,
        }
    }
}

/// Merkle data of an input file: a Merkle tree as its leaves, a sparse Merkle tree as
/// (leaf index, leaf) pairs, or a partial Merkle tree as ((depth, index), node) pairs. Every
/// leaf or node is a word written as `0x` and 64 hexadecimal digits.
pub enum MerkleData {
    MerkleTree(Vec<String>),
    SparseMerkleTree(Vec<(u64, String)>),
    PartialMerkleTree(Vec<((u8, u64), String)>),
}

/// The inputs of a program as text: the operand stack, and optionally the advice stack, the
/// advice map (key as 64 hexadecimal digits, values as integers) and Merkle data.
pub struct InputFile {
    pub operand_stack: Vec<String>,
    pub advice_stack: Option<Vec<String>>,
    pub advice_map: Option<Vec<(String, Vec<u64>)>>,
    pub merkle_store: Option<Vec<MerkleData>>,
}

/// Why input or output data could not be read.
#[derive(Clone, Copy, Debug, PartialEq, Eq, Structural)]
pub enum DataError {
    /// The entry at this position is not a decimal `u64`.
    InvalidNumber(usize),
    /// This value is not below the field modulus.
    NotFieldElement(u64),
    /// A word is not `0x` followed by 64 hexadecimal digits.
    InvalidHex,
    /// Element `i` of a word is not below the field modulus.
    WordElementOutOfRange(usize),
    /// A node index whose index does not fit in its depth.
    InvalidNodeIndex(u8, u64),
}

/// The error a program run reports: from assembling the program, or from executing it.
pub enum ProgramError {
    AssemblyError(String),
    ExecutionError(String),
}

/// Merkle data whose words have been parsed.
pub enum ParsedMerkleData {
    MerkleTree(Vec<Vec<u64>>),
    SparseMerkleTree(Vec<(u64, Vec<u64>)>),
    PartialMerkleTree(Vec<(NodeIndex, Vec<u64>)>),
}

/// The initial advice data: the advice stack, the advice map with 32-byte keys, and the Merkle
/// data for the Merkle store.
pub struct AdviceInputs {
    pub stack: Vec<u64>,
    pub map: Option<Vec<(Vec<u8>, Vec<u64>)>>,
    pub merkle_store: Option<Vec<ParsedMerkleData>>,
}

/// The initial operand stack, one field element per entry, in the order given.
pub struct StackInputs {
    pub values: Vec<u64>,
}

/// The final operand stack and the overflow-table addresses, as field elements.
pub struct StackOutputs {
    pub stack: Vec<u64>,
    pub overflow_addrs: Vec<u64>,
}

/// Every value is a field element.
pub open spec fn all_felts(s: Seq<u64>) -> bool {
    forall|i: int| 0 <= i < s.len() ==> is_felt(#[trigger] s[i] as int)
}

/// `i` is the index of the first value that is not a field element.
pub open spec fn first_non_felt(s: Seq<u64>, i: int) -> bool {
    0 <= i < s.len() && !is_felt(s[i] as int) && forall|j: int| 0 <= j < i ==> is_felt(
        #[trigger] s[j] as int,
    )
}

/// The texts as a sequence of views.
pub open spec fn texts(v: Seq<String>) -> Seq<Seq<char>> {
    v.map_values(|s: String| s@)
}

/// Every text denotes a `u64`.
pub open spec fn all_numbers(t: Seq<Seq<char>>) -> bool {
    forall|i: int| 0 <= i < t.len() ==> #[trigger] u64_of_text(t[i]) is Some
}

/// `i` is the first text that denotes no `u64`.
pub open spec fn first_non_number(t: Seq<Seq<char>>, i: int) -> bool {
    0 <= i < t.len() && u64_of_text(t[i]) is None && forall|j: int| 0 <= j < i ==> #[trigger] u64_of_text(t[j]) is Some
}

/// `v` holds the numbers the texts denote.
pub open spec fn numbers_of(t: Seq<Seq<char>>, v: Seq<u64>) -> bool {
    v.len() == t.len() && forall|i: int| 0 <= i < t.len() ==> #[trigger] u64_of_text(t[i]) == Some(v[i])
}

/// The numbers the texts denote, where every text denotes one.
pub open spec fn parsed_numbers(t: Seq<Seq<char>>) -> Seq<u64> {
    t.map_values(|x: Seq<char>| u64_of_text(x)->Some_0)
}

/// `e` reports the first value of `v` that is not a field element.
pub open spec fn felt_error(v: Seq<u64>, e: DataError) -> bool {
    exists|i: int| first_non_felt(v, i) && e == DataError::NotFieldElement(v[i])
}

/// The texts denote numbers, all of them field elements.
pub open spec fn felts_text_ok(t: Seq<Seq<char>>) -> bool {
    all_numbers(t) && all_felts(parsed_numbers(t))
}

/// `e` reports the first text that is not a number, or, when all are, the first number that is
/// not a field element.
pub open spec fn felts_text_error(t: Seq<Seq<char>>, e: DataError) -> bool {
    if !all_numbers(t) {
        exists|i: int| first_non_number(t, i) && e == DataError::InvalidNumber(i as usize)
    } else {
        felt_error(parsed_numbers(t), e)
    }
}

/// Parses every text as a `u64`, or returns the position of the first that is not one.
pub fn parse_numbers(strs: &Vec<String>) -> (r: Result<Vec<u64>, usize>)
    ensures
        r is Ok <==> all_numbers(texts(strs@)),
        r matches Ok(v) ==> numbers_of(texts(strs@), v@) && v@ == parsed_numbers(texts(strs@)),
        r matches Err(i) ==> first_non_number(texts(strs@), i as int),
{
    let ghost t = texts(strs@);
    let mut out: Vec<u64> = Vec::new();
    let mut i: usize = 0;
    while i < strs.len()
        invariant
            t == texts(strs@),
            i <= strs@.len(),
            out@.len() == i,
            forall|j: int| 0 <= j < i ==> #[trigger] u64_of_text(t[j]) == Some(out@[j]),
        decreases strs@.len() - i,
    {
        match parse_u64(strs[i].as_str()) {
            Some(v) => {
                assert(t[i as int] == strs@[i as int]@);
                out.push(v);
            },
            None => {
                assert(t[i as int] == strs@[i as int]@);
                return Err(i);
            },
        }
        i += 1;
    }
    assert(out@ =~= parsed_numbers(t));
    Ok(out)
}

/// Returns the index of the first value that is not a field element.
fn find_non_felt(s: &Vec<u64>) -> (r: Option<usize>)
    ensures
        r is None <==> all_felts(s@),
        r matches Some(i) ==> first_non_felt(s@, i as int),
{
    let mut i: usize = 0;
    while i < s.len()
        invariant
            i <= s@.len(),
            forall|j: int| 0 <= j < i ==> is_felt(#[trigger] s@[j] as int),
        decreases s@.len() - i,
    {
        if s[i] >= MODULUS {
            return Some(i);
        }
        i += 1;
    }
    None
}

impl StackInputs {
    /// Stack inputs from integers, each of which must be a field element.
    pub fn try_from_values(values: Vec<u64>) -> (r: Result<StackInputs, DataError>)
        ensures
            r is Ok <==> all_felts(values@),
            r matches Ok(s) ==> s.values@ == values@,
            r matches Err(e) ==> exists|i: int|
                first_non_felt(values@, i) && e == DataError::NotFieldElement(values@[i]),
    {
        match find_non_felt(&values) {
            Some(i) => Err(DataError::NotFieldElement(values[i])),
            None => Ok(StackInputs { values }),
        }
    }
}

impl StackOutputs {
    /// Stack outputs from integers, each of which must be a field element.
    pub fn new(stack: Vec<u64>, overflow_addrs: Vec<u64>) -> (r: Result<StackOutputs, DataError>)
        ensures
            r is Ok <==> all_felts(stack@) && all_felts(overflow_addrs@),
            r matches Ok(s) ==> s.stack@ == stack@ && s.overflow_addrs@ == overflow_addrs@,
            r matches Err(e) ==> (exists|i: int|
                first_non_felt(stack@, i) && e == DataError::NotFieldElement(stack@[i])) || (
            all_felts(stack@) && exists|i: int|
                first_non_felt(overflow_addrs@, i) && e == DataError::NotFieldElement(
                    overflow_addrs@[i],
                )),
    {
        match find_non_felt(&stack) {
            Some(i) => {
                return Err(DataError::NotFieldElement(stack[i]));
            },
            None => {},
        }
        match find_non_felt(&overflow_addrs) {
            Some(i) => Err(DataError::NotFieldElement(overflow_addrs[i])),
            None => Ok(StackOutputs { stack, overflow_addrs }),
        }
    }
}

/// The four elements of a word as the hexadecimal text denotes them, eight little-endian
/// bytes each.
pub open spec fn word_values(digits: Seq<char>) -> Seq<int> {
    Seq::new(4, |i: int| le8(hex_bytes(digits), 8 * i))
}

/// The number of bytes of a character in UTF-8.
pub open spec fn utf8_len(c: char) -> int {
    if (c as u32) < 0x80 {
        1
    } else if (c as u32) < 0x800 {
        2
    } else if (c as u32) < 0x10000 {
        3
    } else {
        4
    }
}

/// How many characters the first two bytes of the text hold, or 0 when the text is shorter
/// than two bytes or no character ends at byte 2.
pub open spec fn prefix_chars(s: Seq<char>) -> int {
    if s.len() >= 1 && utf8_len(s[0]) == 2 {
        1
    } else if s.len() >= 2 && utf8_len(s[0]) == 1 && utf8_len(s[1]) == 1 {
        2
    } else {
        0
    }
}

/// The digits of a word's text, after its two-byte prefix.
pub open spec fn word_digits(s: Seq<char>) -> Seq<char> {
    s.subrange(prefix_chars(s), s.len() as int)
}

/// The text is a well-formed word.
pub open spec fn word_ok(s: Seq<char>) -> bool {
    prefix_chars(s) > 0 && is_hex_text(word_digits(s), 32) && forall|i: int|
        0 <= i < 4 ==> is_felt(#[trigger] word_values(word_digits(s))[i])
}

/// The elements of a well-formed word.
pub open spec fn word_of(s: Seq<char>) -> Seq<u64> {
    Seq::new(4, |i: int| word_values(word_digits(s))[i] as u64)
}

/// The position of the first of four values that is not a field element.
pub open spec fn first_big(v: Seq<int>) -> usize {
    if !is_felt(v[0]) {
        0
    } else if !is_felt(v[1]) {
        1
    } else if !is_felt(v[2]) {
        2
    } else {
        3
    }
}

/// The error for a text that is not a well-formed word.
pub open spec fn word_error(s: Seq<char>) -> DataError {
    if prefix_chars(s) == 0 || !is_hex_text(word_digits(s), 32) {
        DataError::InvalidHex
    } else {
        DataError::WordElementOutOfRange(first_big(word_values(word_digits(s))))
    }
}

/// `value` has at most `depth` binary digits.
pub open spec fn fits_depth(value: nat, depth: nat) -> bool
    decreases depth,
{
    if depth == 0 {
        value == 0
    } else {
        fits_depth(value / 2, (depth - 1) as nat)
    }
}

/// The position of a node in a Merkle tree: its depth and its index at that depth.
#[derive(Clone, Copy, Debug, PartialEq, Eq, Structural)]
pub struct NodeIndex {
    pub depth: u8,
    pub value: u64,
}

impl NodeIndex {
    /// The node at `depth` and `value`, which must have at most `depth` binary digits.
    pub fn new(depth: u8, value: u64) -> (r: Result<NodeIndex, DataError>)
        ensures
            r is Ok <==> fits_depth(value as nat, depth as nat),
            r matches Ok(n) ==> n.depth == depth && n.value == value,
            r matches Err(e) ==> e == DataError::InvalidNodeIndex(depth, value),
    {
        let mut v: u64 = value;
        let mut k: u8 = 0;
        while k < depth
            invariant
                k <= depth,
                fits_depth(value as nat, depth as nat) == fits_depth(v as nat, (depth - k) as nat),
            decreases depth - k,
        {
            v = v / 2;
            k += 1;
        }
        if v == 0 {
            Ok(NodeIndex { depth, value })
        } else {
            Err(DataError::InvalidNodeIndex(depth, value))
        }
    }
}

/// A partial Merkle tree entry whose index fits its depth and whose node is a word.
pub open spec fn partial_entry_ok(e: ((u8, u64), String)) -> bool {
    fits_depth(e.0.1 as nat, e.0.0 as nat) && word_ok(e.1@)
}

/// The error for a partial Merkle tree entry that does not parse: its index is checked first.
pub open spec fn partial_entry_error(e: ((u8, u64), String)) -> DataError {
    if !fits_depth(e.0.1 as nat, e.0.0 as nat) {
        DataError::InvalidNodeIndex(e.0.0, e.0.1)
    } else {
        word_error(e.1@)
    }
}

/// `w` holds the words of the leaves `t`.
pub open spec fn tree_parsed(t: Seq<String>, w: Seq<Vec<u64>>) -> bool {
    w.len() == t.len() && forall|i: int| 0 <= i < t.len() ==> #[trigger] w[i]@ == word_of(t[i]@)
}

/// `w` holds the indices and words of the sparse tree entries `t`.
pub open spec fn sparse_parsed(t: Seq<(u64, String)>, w: Seq<(u64, Vec<u64>)>) -> bool {
    w.len() == t.len() && forall|i: int|
        0 <= i < t.len() ==> #[trigger] w[i].0 == t[i].0 && w[i].1@ == word_of(t[i].1@)
}

/// `w` holds the node indices and words of the partial tree entries `t`.
pub open spec fn partial_parsed(t: Seq<((u8, u64), String)>, w: Seq<(NodeIndex, Vec<u64>)>) -> bool {
    w.len() == t.len() && forall|i: int|
        0 <= i < t.len() ==> #[trigger] w[i].0 == (NodeIndex { depth: t[i].0.0, value: t[i].0.1 })
            && w[i].1@ == word_of(t[i].1@)
}

/// `e` is the error of the first leaf of `t` that is not a word.
pub open spec fn tree_error(t: Seq<String>, e: DataError) -> bool {
    exists|i: int|
        0 <= i < t.len() && !word_ok(t[i]@) && (forall|j: int| 0 <= j < i ==> word_ok(#[trigger] t[j]@))
            && e == word_error(t[i]@)
}

/// `e` is the error of the first sparse tree entry whose leaf is not a word.
pub open spec fn sparse_error(t: Seq<(u64, String)>, e: DataError) -> bool {
    exists|i: int|
        0 <= i < t.len() && !word_ok(t[i].1@) && (forall|j: int|
            0 <= j < i ==> word_ok(#[trigger] t[j].1@)) && e == word_error(t[i].1@)
}

/// `e` is the error of the first partial tree entry that does not parse.
pub open spec fn partial_error(t: Seq<((u8, u64), String)>, e: DataError) -> bool {
    exists|i: int|
        0 <= i < t.len() && !partial_entry_ok(t[i]) && (forall|j: int|
            0 <= j < i ==> partial_entry_ok(#[trigger] t[j])) && e == partial_entry_error(t[i])
}

/// Merkle data whose every entry parses.
pub open spec fn merkle_data_ok(d: MerkleData) -> bool {
    match d {
        MerkleData::MerkleTree(t) => forall|i: int| 0 <= i < t@.len() ==> word_ok(#[trigger] t@[i]@),
        MerkleData::SparseMerkleTree(t) => forall|i: int|
            0 <= i < t@.len() ==> word_ok(#[trigger] t@[i].1@),
        MerkleData::PartialMerkleTree(t) => forall|i: int|
            0 <= i < t@.len() ==> partial_entry_ok(#[trigger] t@[i]),
    }
}

/// `p` is the parse of the Merkle data `d`.
pub open spec fn merkle_data_parsed(d: MerkleData, p: ParsedMerkleData) -> bool {
    match (d, p) {
        (MerkleData::MerkleTree(t), ParsedMerkleData::MerkleTree(w)) => tree_parsed(t@, w@),
        (MerkleData::SparseMerkleTree(t), ParsedMerkleData::SparseMerkleTree(w)) => sparse_parsed(t@, w@),
        (MerkleData::PartialMerkleTree(t), ParsedMerkleData::PartialMerkleTree(w)) => partial_parsed(
            t@,
            w@,
        ),
        _ => false,
    }
}

/// `e` is the error of the first entry of the Merkle data `d` that does not parse.
pub open spec fn merkle_data_error(d: MerkleData, e: DataError) -> bool {
    match d {
        MerkleData::MerkleTree(t) => tree_error(t@, e),
        MerkleData::SparseMerkleTree(t) => sparse_error(t@, e),
        MerkleData::PartialMerkleTree(t) => partial_error(t@, e),
    }
}

/// Every Merkle data entry parses.
pub open spec fn merkle_entries_ok(d: Seq<MerkleData>) -> bool {
    forall|i: int| 0 <= i < d.len() ==> merkle_data_ok(#[trigger] d[i])
}

/// Entry `i` of `p` is the parse of datum `i` of `d`.
pub open spec fn merkle_entries_parsed(d: Seq<MerkleData>, p: Seq<ParsedMerkleData>) -> bool {
    p.len() == d.len() && forall|i: int| 0 <= i < d.len() ==> #[trigger] merkle_data_parsed(d[i], p[i])
}

/// `e` is the error of the first Merkle datum that does not parse.
pub open spec fn merkle_entries_error(d: Seq<MerkleData>, e: DataError) -> bool {
    exists|i: int|
        0 <= i < d.len() && !merkle_data_ok(d[i]) && (forall|j: int|
            0 <= j < i ==> merkle_data_ok(#[trigger] d[j])) && merkle_data_error(d[i], e)
}

/// An advice map entry whose key is 64 hexadecimal digits and whose values are field elements.
pub open spec fn map_entry_ok(e: (String, Vec<u64>)) -> bool {
    is_hex_text(e.0@, 32) && all_felts(e.1@)
}

/// The error of an advice map entry: a bad key first, then the first value that is not a
/// field element.
pub open spec fn map_entry_error(en: (String, Vec<u64>), e: DataError) -> bool {
    if !is_hex_text(en.0@, 32) {
        e == DataError::InvalidHex
    } else {
        felt_error(en.1@, e)
    }
}

/// Every advice map entry is well formed.
pub open spec fn map_entries_ok(m: Seq<(String, Vec<u64>)>) -> bool {
    forall|i: int| 0 <= i < m.len() ==> map_entry_ok(#[trigger] m[i])
}

/// `e` is the error of the first advice map entry that is not well formed.
pub open spec fn map_entries_error(m: Seq<(String, Vec<u64>)>, e: DataError) -> bool {
    exists|i: int|
        0 <= i < m.len() && !map_entry_ok(m[i]) && (forall|j: int|
            0 <= j < i ==> map_entry_ok(#[trigger] m[j])) && map_entry_error(m[i], e)
}

/// `out` holds the decoded keys and the values of the advice map entries `m`.
pub open spec fn entries_decoded(m: Seq<(String, Vec<u64>)>, out: Seq<(Vec<u8>, Vec<u64>)>) -> bool {
    out.len() == m.len() && forall|i: int|
        0 <= i < m.len() ==> #[trigger] out[i].0@ == hex_bytes(m[i].0@) && out[i].1@ == m[i].1@
}

/// The texts of the advice stack; an absent advice stack has none.
pub open spec fn advice_texts(f: InputFile) -> Seq<Seq<char>> {
    match f.advice_stack {
        None => Seq::empty(),
        Some(a) => texts(a@),
    }
}

/// The advice stack, advice map and Merkle data of the file all parse.
pub open spec fn advice_ok(f: InputFile) -> bool {
    &&& felts_text_ok(advice_texts(f))
    &&& match f.advice_map {
        None => true,
        Some(m) => map_entries_ok(m@),
    }
    &&& match f.merkle_store {
        None => true,
        Some(d) => merkle_entries_ok(d@),
    }
}

/// `e` is the error of the first part of the file's advice data that fails: the advice stack,
/// then the advice map, then the Merkle data.
pub open spec fn advice_error(f: InputFile, e: DataError) -> bool {
    if !felts_text_ok(advice_texts(f)) {
        felts_text_error(advice_texts(f), e)
    } else if f.advice_map is Some && !map_entries_ok(f.advice_map->Some_0@) {
        map_entries_error(f.advice_map->Some_0@, e)
    } else {
        f.merkle_store is Some && merkle_entries_error(f.merkle_store->Some_0@, e)
    }
}

impl InputFile {
    /// Parses the advice map: keys as 32 bytes from hexadecimal, values checked as field
    /// elements; `None` when the file has no advice map.
    pub fn parse_advice_map(&self) -> (r: Result<Option<Vec<(Vec<u8>, Vec<u64>)>>, DataError>)
        ensures
            self.advice_map is None ==> r matches Ok(None),
            self.advice_map is Some ==> ((r is Ok) == map_entries_ok(self.advice_map->Some_0@)),
            self.advice_map is Some && r is Ok ==> r->Ok_0 is Some && entries_decoded(
                self.advice_map->Some_0@,
                r->Ok_0->Some_0@,
            ),
            r matches Err(e) ==> self.advice_map is Some && map_entries_error(
                self.advice_map->Some_0@,
                e,
            ),
    {
        let m = match &self.advice_map {
            None => {
                return Ok(None);
            },
            Some(m) => m,
        };
        let mut out: Vec<(Vec<u8>, Vec<u64>)> = Vec::new();
        let mut i: usize = 0;
        while i < m.len()
            invariant
                self.advice_map == Some(*m),
                i <= m@.len(),
                out@.len() == i,
                forall|j: int| 0 <= j < i ==> map_entry_ok(#[trigger] m@[j]),
                forall|j: int|
                    0 <= j < i ==> #[trigger] out@[j].0@ == hex_bytes(m@[j].0@) && out@[j].1@
                        == m@[j].1@,
            decreases m@.len() - i,
        {
            let (k, v) = &m[i];
            let key = match decode_hex32(k.as_str()) {
                Some(b) => b,
                None => {
                    assert(!map_entry_ok(m@[i as int]));
                    assert(map_entry_error(m@[i as int], DataError::InvalidHex));
                    return Err(DataError::InvalidHex);
                },
            };
            match find_non_felt(v) {
                Some(j) => {
                    assert(!map_entry_ok(m@[i as int]));
                    assert(map_entry_error(m@[i as int], DataError::NotFieldElement(v@[j as int])));
                    return Err(DataError::NotFieldElement(v[j]));
                },
                None => {},
            }
            out.push((key, v.clone()));
            i += 1;
        }
        Ok(Some(out))
    }

    /// Parses the Merkle data; `None` when the file has none.
    pub fn parse_merkle_store(&self) -> (r: Result<Option<Vec<ParsedMerkleData>>, DataError>)
        ensures
            self.merkle_store is None ==> r matches Ok(None),
            self.merkle_store is Some ==> ((r is Ok) == merkle_entries_ok(self.merkle_store->Some_0@)),
            self.merkle_store is Some && r is Ok ==> r->Ok_0 is Some && merkle_entries_parsed(
                self.merkle_store->Some_0@,
                r->Ok_0->Some_0@,
            ),
            r matches Err(e) ==> self.merkle_store is Some && merkle_entries_error(
                self.merkle_store->Some_0@,
                e,
            ),
    {
        let d = match &self.merkle_store {
            None => {
                return Ok(None);
            },
            Some(d) => d,
        };
        let mut out: Vec<ParsedMerkleData> = Vec::new();
        let mut i: usize = 0;
        while i < d.len()
            invariant
                self.merkle_store == Some(*d),
                i <= d@.len(),
                out@.len() == i,
                forall|j: int| 0 <= j < i ==> merkle_data_ok(#[trigger] d@[j]),
                forall|j: int| 0 <= j < i ==> #[trigger] merkle_data_parsed(d@[j], out@[j]),
            decreases d@.len() - i,
        {
            let parsed = match &d[i] {
                MerkleData::MerkleTree(t) => match Self::parse_merkle_tree(t) {
                    Ok(w) => ParsedMerkleData::MerkleTree(w),
                    Err(e) => {
                        assert(merkle_data_error(d@[i as int], e));
                        return Err(e);
                    },
                },
                MerkleData::SparseMerkleTree(t) => match Self::parse_sparse_merkle_tree(t) {
                    Ok(w) => ParsedMerkleData::SparseMerkleTree(w),
                    Err(e) => {
                        assert(merkle_data_error(d@[i as int], e));
                        return Err(e);
                    },
                },
                MerkleData::PartialMerkleTree(t) => match Self::parse_partial_merkle_tree(t) {
                    Ok(w) => ParsedMerkleData::PartialMerkleTree(w),
                    Err(e) => {
                        assert(merkle_data_error(d@[i as int], e));
                        return Err(e);
                    },
                },
            };
            out.push(parsed);
            i += 1;
        }
        Ok(Some(out))
    }

    /// Parses the advice data of the file: the advice stack, whose values must be field
    /// elements, the advice map and the Merkle data. The first part that fails decides the error.
    pub fn parse_advice_provider(&self) -> (r: Result<AdviceInputs, DataError>)
        ensures
            r is Ok <==> advice_ok(*self),
            r matches Ok(a) ==> a.stack@ == parsed_numbers(advice_texts(*self)),
            r matches Ok(a) ==> (self.advice_map is None ==> a.map is None),
            r matches Ok(a) ==> (self.advice_map is Some ==> a.map is Some && entries_decoded(
                self.advice_map->Some_0@,
                a.map->Some_0@,
            )),
            r matches Ok(a) ==> (self.merkle_store is None ==> a.merkle_store is None),
            r matches Ok(a) ==> (self.merkle_store is Some ==> a.merkle_store is Some
                && merkle_entries_parsed(self.merkle_store->Some_0@, a.merkle_store->Some_0@)),
            r matches Err(e) ==> advice_error(*self, e),
    {
        let stack = match self.parse_advice_stack() {
            Ok(s) => s,
            Err(e) => {
                return Err(e);
            },
        };
        match find_non_felt(&stack) {
            Some(i) => {
                assert(felt_error(stack@, DataError::NotFieldElement(stack@[i as int])));
                return Err(DataError::NotFieldElement(stack[i]));
            },
            None => {},
        }
        let map = self.parse_advice_map()?;
        let merkle_store = self.parse_merkle_store()?;
        Ok(AdviceInputs { stack, map, merkle_store })
    }

    /// Parses a word: two bytes of prefix (`0x`, not checked), then 64 hexadecimal digits for
    /// four little-endian field elements.
    pub fn parse_word(word_hex: &str) -> (r: Result<Vec<u64>, DataError>)
        ensures
            r is Ok <==> word_ok(word_hex@),
            r matches Ok(w) ==> w@ == word_of(word_hex@),
            r matches Err(e) ==> e == word_error(word_hex@),
    {
        let len = word_hex.unicode_len();
        let mut skip: usize = 0;
        if len >= 1 {
            let c0 = word_hex.get_char(0) as u32;
            if c0 >= 0x80 && c0 < 0x800 {
                skip = 1;
            } else if c0 < 0x80 && len >= 2 && (word_hex.get_char(1) as u32) < 0x80 {
                skip = 2;
            }
        }
        assert(skip as int == prefix_chars(word_hex@));
        if skip == 0 {
            return Err(DataError::InvalidHex);
        }
        let digits = word_hex.substring_char(skip, len);
        let bytes = match decode_hex32(digits) {
            Some(b) => b,
            None => {
                return Err(DataError::InvalidHex);
            },
        };
        let ghost vals = word_values(word_digits(word_hex@));
        assert(digits@ == word_digits(word_hex@));
        assert(is_hex_text(word_digits(word_hex@), 32));
        let mut word: Vec<u64> = Vec::new();
        let mut i: usize = 0;
        while i < 4
            invariant
                prefix_chars(word_hex@) > 0,
                is_hex_text(word_digits(word_hex@), 32),
                bytes@ == hex_bytes(digits@),
                bytes@.len() == 32,
                digits@ == word_digits(word_hex@),
                vals == word_values(word_digits(word_hex@)),
                i <= 4,
                word@.len() == i,
                forall|j: int| 0 <= j < i ==> #[trigger] word@[j] as int == vals[j],
                forall|j: int| 0 <= j < i ==> is_felt(#[trigger] vals[j]),
            decreases 4 - i,
        {
            let v = read_le8(&bytes, 8 * i);
            assert(vals[i as int] == le8(bytes@, 8 * i as int));
            if v >= MODULUS {
                assert(first_big(vals) == i);
                return Err(DataError::WordElementOutOfRange(i));
            }
            word.push(v);
            i += 1;
        }
        assert(word@ =~= word_of(word_hex@));
        Ok(word)
    }

    /// Parses the leaves of a Merkle tree.
    pub fn parse_merkle_tree(tree: &Vec<String>) -> (r: Result<Vec<Vec<u64>>, DataError>)
        ensures
            r is Ok <==> forall|i: int| 0 <= i < tree@.len() ==> word_ok(#[trigger] tree@[i]@),
            r matches Ok(ws) ==> tree_parsed(tree@, ws@),
            r matches Err(e) ==> tree_error(tree@, e),
    {
        let mut out: Vec<Vec<u64>> = Vec::new();
        let mut i: usize = 0;
        while i < tree.len()
            invariant
                i <= tree@.len(),
                out@.len() == i,
                forall|j: int| 0 <= j < i ==> word_ok(#[trigger] tree@[j]@),
                forall|j: int| 0 <= j < i ==> #[trigger] out@[j]@ == word_of(tree@[j]@),
            decreases tree@.len() - i,
        {
            match Self::parse_word(tree[i].as_str()) {
                Ok(w) => out.push(w),
                Err(e) => {
                    assert(!word_ok(tree@[i as int]@));
                    return Err(e);
                },
            }
            i += 1;
        }
        Ok(out)
    }

    /// Parses the (leaf index, leaf) entries of a sparse Merkle tree.
    pub fn parse_sparse_merkle_tree(tree: &Vec<(u64, String)>) -> (r: Result<Vec<(u64, Vec<u64>)>, DataError>)
        ensures
            r is Ok <==> forall|i: int| 0 <= i < tree@.len() ==> word_ok(#[trigger] tree@[i].1@),
            r matches Ok(es) ==> sparse_parsed(tree@, es@),
            r matches Err(e) ==> sparse_error(tree@, e),
    {
        let mut out: Vec<(u64, Vec<u64>)> = Vec::new();
        let mut i: usize = 0;
        while i < tree.len()
            invariant
                i <= tree@.len(),
                out@.len() == i,
                forall|j: int| 0 <= j < i ==> word_ok(#[trigger] tree@[j].1@),
                forall|j: int|
                    0 <= j < i ==> #[trigger] out@[j].0 == tree@[j].0 && out@[j].1@ == word_of(
                        tree@[j].1@,
                    ),
            decreases tree@.len() - i,
        {
            match Self::parse_word(tree[i].1.as_str()) {
                Ok(w) => {
                    out.push((tree[i].0, w));
                    assert(out@[i as int].0 == tree@[i as int].0);
                    assert(out@[i as int].1@ == word_of(tree@[i as int].1@));
                },
                Err(e) => {
                    assert(!word_ok(tree@[i as int].1@));
                    return Err(e);
                },
            }
            i += 1;
        }
        assert(sparse_parsed(tree@, out@));
        Ok(out)
    }

    /// Parses the ((depth, index), node) entries of a partial Merkle tree; the index of each
    /// entry is checked before its node.
    pub fn parse_partial_merkle_tree(tree: &Vec<((u8, u64), String)>) -> (r: Result<
        Vec<(NodeIndex, Vec<u64>)>,
        DataError,
    >)
        ensures
            r is Ok <==> forall|i: int| 0 <= i < tree@.len() ==> partial_entry_ok(#[trigger] tree@[i]),
            r matches Ok(es) ==> partial_parsed(tree@, es@),
            r matches Err(e) ==> partial_error(tree@, e),
    {
        let mut out: Vec<(NodeIndex, Vec<u64>)> = Vec::new();
        let mut i: usize = 0;
        while i < tree.len()
            invariant
                i <= tree@.len(),
                out@.len() == i,
                forall|j: int| 0 <= j < i ==> partial_entry_ok(#[trigger] tree@[j]),
                forall|j: int|
                    0 <= j < i ==> #[trigger] out@[j].0 == (NodeIndex {
                        depth: tree@[j].0.0,
                        value: tree@[j].0.1,
                    }) && out@[j].1@ == word_of(tree@[j].1@),
            decreases tree@.len() - i,
        {
            let ((depth, index), text) = &tree[i];
            let node = match NodeIndex::new(*depth, *index) {
                Ok(n) => n,
                Err(e) => {
                    assert(!partial_entry_ok(tree@[i as int]));
                    return Err(e);
                },
            };
            let w = match Self::parse_word(text.as_str()) {
                Ok(w) => w,
                Err(e) => {
                    assert(!partial_entry_ok(tree@[i as int]));
                    return Err(e);
                },
            };
            out.push((node, w));
            i += 1;
        }
        Ok(out)
    }

    /// Parses and returns the stack inputs for the program: each entry a decimal number that
    /// is a field element, in the order given.
    pub fn parse_stack_inputs(&self) -> (r: Result<StackInputs, DataError>)
        ensures
            r is Ok <==> felts_text_ok(texts(self.operand_stack@)),
            r matches Ok(s) ==> s.values@ == parsed_numbers(texts(self.operand_stack@)),
            r matches Err(e) ==> felts_text_error(texts(self.operand_stack@), e),
    {
        let values = match parse_numbers(&self.operand_stack) {
            Ok(v) => v,
            Err(i) => {
                return Err(DataError::InvalidNumber(i));
            },
        };
        StackInputs::try_from_values(values)
    }

    /// Parses the advice stack; an absent advice stack is empty.
    pub fn parse_advice_stack(&self) -> (r: Result<Vec<u64>, DataError>)
        ensures
            r is Ok <==> all_numbers(advice_texts(*self)),
            r matches Ok(v) ==> v@ == parsed_numbers(advice_texts(*self)),
            r matches Err(e) ==> exists|i: int|
                first_non_number(advice_texts(*self), i) && e == DataError::InvalidNumber(i as usize),
    {
        match &self.advice_stack {
            None => {
                assert(parsed_numbers(advice_texts(*self)) =~= Seq::<u64>::empty());
                Ok(Vec::new())
            },
            Some(a) => match parse_numbers(a) {
                Ok(v) => Ok(v),
                Err(i) => Err(DataError::InvalidNumber(i)),
            },
        }
    }
}

/// `e` is the error of the first failure in reading outputs: a stack text that is not a
/// number, then an address text, then a stack value that is not a field element, then an
/// address value.
pub open spec fn output_error(ts: Seq<Seq<char>>, ta: Seq<Seq<char>>, e: DataError) -> bool {
    if !all_numbers(ts) {
        felts_text_error(ts, e)
    } else if !all_numbers(ta) {
        felts_text_error(ta, e)
    } else if !all_felts(parsed_numbers(ts)) {
        felt_error(parsed_numbers(ts), e)
    } else {
        felt_error(parsed_numbers(ta), e)
    }
}

/// The final stack and overflow addresses as decimal text.
pub struct OutputFile {
    pub stack: Vec<String>,
    pub overflow_addrs: Vec<String>,
}

/// `t` holds the decimal texts of `v`.
pub open spec fn decimal_texts(v: Seq<u64>, t: Seq<String>) -> bool {
    t.len() == v.len() && forall|i: int| 0 <= i < v.len() ==> #[trigger] t[i]@ == decimal_text(v[i] as nat)
}

/// Writes every value in decimal.
fn to_texts(v: &Vec<u64>) -> (r: Vec<String>)
    ensures
        decimal_texts(v@, r@),
{
    let mut out: Vec<String> = Vec::new();
    let mut i: usize = 0;
    while i < v.len()
        invariant
            i <= v@.len(),
            out@.len() == i,
            forall|j: int| 0 <= j < i ==> #[trigger] out@[j]@ == decimal_text(v@[j] as nat),
        decreases v@.len() - i,
    {
        out.push(u64_text(v[i]));
        i += 1;
    }
    out
}

impl OutputFile {
    /// Returns a new output file holding the given outputs in decimal.
    pub fn new(stack_outputs: &StackOutputs) -> (r: OutputFile)
        ensures
            decimal_texts(stack_outputs.stack@, r.stack@),
            decimal_texts(stack_outputs.overflow_addrs@, r.overflow_addrs@),
    {
        OutputFile { stack: to_texts(&stack_outputs.stack), overflow_addrs: to_texts(&stack_outputs.overflow_addrs) }
    }

    /// Converts the decimal texts back into stack outputs.
    pub fn stack_outputs(&self) -> (r: Result<StackOutputs, DataError>)
        ensures
            r is Ok <==> felts_text_ok(texts(self.stack@)) && felts_text_ok(texts(self.overflow_addrs@)),
            r matches Ok(out) ==> out.stack@ == parsed_numbers(texts(self.stack@))
                && out.overflow_addrs@ == parsed_numbers(texts(self.overflow_addrs@)),
            r matches Err(e) ==> output_error(texts(self.stack@), texts(self.overflow_addrs@), e),
    {
        let stack = match parse_numbers(&self.stack) {
            Ok(v) => v,
            Err(i) => {
                return Err(DataError::InvalidNumber(i));
            },
        };
        let addrs = match parse_numbers(&self.overflow_addrs) {
            Ok(v) => v,
            Err(i) => {
                return Err(DataError::InvalidNumber(i));
            },
        };
        StackOutputs::new(stack, addrs)
    }
}

} // verus!

verus! {

/// Decimal texts of values read back as those values.
pub proof fn lemma_decimal_texts_read_back(v: Seq<u64>, t: Seq<String>)
    requires
        decimal_texts(v, t),
    ensures
        numbers_of(texts(t), v),
{
    assert forall|i: int| 0 <= i < t.len() implies #[trigger] u64_of_text(texts(t)[i]) == Some(v[i]) by {
        crate::text::lemma_decimal_round_trip(v[i]);
        assert(texts(t)[i] == t[i]@);
    }
}

/// Writing stack outputs to an output file and converting the file back gives the same
/// outputs: for outputs `s` and the file `f` that `OutputFile::new(s)` returns, the texts of
/// `f` denote exactly the values of `s`, and they meet the condition on which
/// `OutputFile::stack_outputs` succeeds.
pub proof fn lemma_output_file_round_trip(s: StackOutputs, f: OutputFile)
    requires
        all_felts(s.stack@),
        all_felts(s.overflow_addrs@),
        decimal_texts(s.stack@, f.stack@),
        decimal_texts(s.overflow_addrs@, f.overflow_addrs@),
    ensures
        numbers_of(texts(f.stack@), s.stack@),
        numbers_of(texts(f.overflow_addrs@), s.overflow_addrs@),
        exists|a: Seq<u64>, b: Seq<u64>|
            numbers_of(texts(f.stack@), a) && numbers_of(texts(f.overflow_addrs@), b) && all_felts(a)
                && all_felts(b),
{
    lemma_decimal_texts_read_back(s.stack@, f.stack@);
    lemma_decimal_texts_read_back(s.overflow_addrs@, f.overflow_addrs@);
}

} // verus!
