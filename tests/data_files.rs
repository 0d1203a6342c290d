use miden_aux::data::{
    DataError, InputFile, MerkleData, NodeIndex, OutputFile, ParsedMerkleData, StackOutputs,
};

fn input(stack: &[&str]) -> InputFile {
    InputFile {
        operand_stack: stack.iter().map(|s| s.to_string()).collect(),
        advice_stack: None,
        advice_map: None,
        merkle_store: None,
    }
}

fn word(prefix: &str) -> String {
    let mut s = format!("0x{}", prefix);
    while s.len() < 66 {
        s.push('0');
    }
    s
}

#[test]
fn test_merkle_data_parsing() {
    let pmt = vec![
        ((2u8, 0u64), word("14")),
        ((2, 1), word("15")),
        ((1, 1), word("0b")),
    ];
    let parsed = InputFile::parse_partial_merkle_tree(&pmt).unwrap();
    assert_eq!(parsed.len(), 3);
    assert_eq!(parsed[2].0, NodeIndex { depth: 1, value: 1 });
    assert_eq!(parsed[2].1, vec![11, 0, 0, 0]);

    let smt = vec![(0u64, word("14")), (1, word("15")), (3, word("17"))];
    let parsed = InputFile::parse_sparse_merkle_tree(&smt).unwrap();
    assert_eq!(parsed[2], (3, vec![0x17, 0, 0, 0]));

    let tree = vec![word("14"), word("15"), word("16"), word("17")];
    let parsed = InputFile::parse_merkle_tree(&tree).unwrap();
    assert_eq!(parsed[1], vec![0x15, 0, 0, 0]);

    let mut inputs = input(&["1"]);
    inputs.merkle_store = Some(vec![MerkleData::PartialMerkleTree(pmt)]);
    assert!(inputs.parse_merkle_store().unwrap().is_some());
    inputs.merkle_store = Some(vec![MerkleData::SparseMerkleTree(smt)]);
    assert!(inputs.parse_merkle_store().unwrap().is_some());
    inputs.merkle_store = Some(vec![MerkleData::MerkleTree(tree)]);
    let store = inputs.parse_merkle_store().unwrap().unwrap();
    assert_eq!(store.len(), 1);
    match &store[0] {
        ParsedMerkleData::MerkleTree(w) => assert_eq!(w[3], vec![0x17, 0, 0, 0]),
        _ => panic!("expected a Merkle tree"),
    }
}

#[test]
fn word_prefix_is_two_bytes() {
    let two_byte = format!("\u{e9}{}", "0".repeat(64));
    assert_eq!(InputFile::parse_word(&two_byte), Ok(vec![0, 0, 0, 0]));
    let split = format!("0\u{e9}{}", "0".repeat(63));
    assert_eq!(InputFile::parse_word(&split), Err(DataError::InvalidHex));
    let three_byte = format!("\u{20ac}{}", "0".repeat(64));
    assert_eq!(InputFile::parse_word(&three_byte), Err(DataError::InvalidHex));
}

#[test]
fn first_bad_leaf_decides_the_error() {
    let big = format!("0x{}", "f".repeat(64));
    let tree = vec![word("14"), big.clone(), "0x".to_string()];
    assert_eq!(InputFile::parse_merkle_tree(&tree), Err(DataError::WordElementOutOfRange(0)));
    let pmt = vec![((1u8, 5u64), "bad".to_string())];
    assert_eq!(InputFile::parse_partial_merkle_tree(&pmt), Err(DataError::InvalidNodeIndex(1, 5)));
    let mut inputs = input(&[]);
    inputs.merkle_store = Some(vec![
        MerkleData::MerkleTree(vec![word("01")]),
        MerkleData::SparseMerkleTree(vec![(0, "0x12".to_string())]),
        MerkleData::MerkleTree(vec![big]),
    ]);
    assert_eq!(inputs.parse_merkle_store().err(), Some(DataError::InvalidHex));
}

#[test]
fn advice_provider_checks_every_part() {
    let mut f = input(&[]);
    f.advice_stack = Some(vec!["3".to_string(), "18446744073709551615".to_string()]);
    assert_eq!(f.parse_advice_provider().err(), Some(DataError::NotFieldElement(u64::MAX)));
    f.advice_stack = Some(vec!["3".to_string()]);
    f.advice_map = Some(vec![(
        "0100000000000000000000000000000000000000000000000000000000000000".to_string(),
        vec![5, u64::MAX],
    )]);
    f.merkle_store = Some(vec![MerkleData::MerkleTree(vec!["x".to_string()])]);
    assert_eq!(f.parse_advice_provider().err(), Some(DataError::NotFieldElement(u64::MAX)));
    f.advice_map = Some(vec![("zz".to_string(), vec![5])]);
    assert_eq!(f.parse_advice_provider().err(), Some(DataError::InvalidHex));
    f.advice_map = Some(vec![(
        "0100000000000000000000000000000000000000000000000000000000000000".to_string(),
        vec![5, 6],
    )]);
    assert_eq!(f.parse_advice_provider().err(), Some(DataError::InvalidHex));
    f.merkle_store = Some(vec![MerkleData::MerkleTree(vec![word("02")])]);
    let a = f.parse_advice_provider().ok().unwrap();
    assert_eq!(a.stack, vec![3]);
    let map = a.map.unwrap();
    assert_eq!(map[0].0[0], 1);
    assert_eq!(map[0].1, vec![5, 6]);
    assert_eq!(a.merkle_store.unwrap().len(), 1);
}

#[test]
fn first_non_field_value_is_reported() {
    let r = input(&["1", "18446744073709551614", "18446744073709551615"]).parse_stack_inputs();
    assert_eq!(r.err(), Some(DataError::NotFieldElement(18446744073709551614)));
    let file = OutputFile {
        stack: vec!["18446744073709551615".to_string()],
        overflow_addrs: vec!["18446744073709551614".to_string()],
    };
    assert_eq!(file.stack_outputs().err(), Some(DataError::NotFieldElement(u64::MAX)));
}

#[test]
fn word_elements_are_little_endian() {
    let w = InputFile::parse_word(&word("0102000000000000ff")).unwrap();
    assert_eq!(w, vec![0x0201, 0xff, 0, 0]);
    let upper = InputFile::parse_word(&word("0A")).unwrap();
    assert_eq!(upper[0], 10);
}

#[test]
fn malformed_words_are_rejected() {
    assert_eq!(InputFile::parse_word("0"), Err(DataError::InvalidHex));
    assert_eq!(InputFile::parse_word("0x12"), Err(DataError::InvalidHex));
    assert_eq!(InputFile::parse_word(&word("zz")), Err(DataError::InvalidHex));
    let big = format!("0x{}{}", "0".repeat(16), "f".repeat(16));
    assert_eq!(InputFile::parse_word(&word(&big[2..])), Err(DataError::WordElementOutOfRange(1)));
}

#[test]
fn bad_partial_tree_index_is_rejected() {
    let pmt = vec![((2u8, 4u64), word("14"))];
    assert_eq!(
        InputFile::parse_partial_merkle_tree(&pmt),
        Err(DataError::InvalidNodeIndex(2, 4))
    );
}

#[test]
fn node_index_bounds() {
    assert!(NodeIndex::new(2, 3).is_ok());
    assert_eq!(NodeIndex::new(2, 4), Err(DataError::InvalidNodeIndex(2, 4)));
    assert!(NodeIndex::new(0, 0).is_ok());
    assert!(NodeIndex::new(64, u64::MAX).is_ok());
    assert!(NodeIndex::new(63, u64::MAX).is_err());
}

#[test]
fn stack_inputs_are_parsed() {
    let s = input(&["1", "+2", "18446744069414584320"]).parse_stack_inputs().unwrap();
    assert_eq!(s.values, vec![1, 2, 18446744069414584320]);
    assert_eq!(input(&[]).parse_stack_inputs().unwrap().values, Vec::<u64>::new());
}

#[test]
fn stack_input_errors() {
    assert_eq!(input(&["1", "x"]).parse_stack_inputs().err(), Some(DataError::InvalidNumber(1)));
    assert_eq!(input(&["-1"]).parse_stack_inputs().err(), Some(DataError::InvalidNumber(0)));
    assert_eq!(
        input(&["18446744069414584321"]).parse_stack_inputs().err(),
        Some(DataError::NotFieldElement(18446744069414584321))
    );
}

#[test]
fn advice_stack_parsing() {
    let mut f = input(&[]);
    assert_eq!(f.parse_advice_stack(), Ok(vec![]));
    f.advice_stack = Some(vec!["5".to_string(), "6".to_string()]);
    assert_eq!(f.parse_advice_stack(), Ok(vec![5, 6]));
    f.advice_stack = Some(vec!["5".to_string(), "".to_string()]);
    assert_eq!(f.parse_advice_stack(), Err(DataError::InvalidNumber(1)));
}

#[test]
fn output_file_round_trip() {
    let outputs = StackOutputs::new(vec![0, 1234, 7], vec![18446744069414584320]).ok().unwrap();
    let file = OutputFile::new(&outputs);
    assert_eq!(file.stack, vec!["0", "1234", "7"]);
    assert_eq!(file.overflow_addrs, vec!["18446744069414584320"]);
    let back = file.stack_outputs().ok().unwrap();
    assert_eq!(back.stack, vec![0, 1234, 7]);
    assert_eq!(back.overflow_addrs, vec![18446744069414584320]);
}

#[test]
fn output_file_errors() {
    let file = OutputFile { stack: vec!["1".to_string(), "a".to_string()], overflow_addrs: vec![] };
    assert_eq!(file.stack_outputs().err(), Some(DataError::InvalidNumber(1)));
    let file = OutputFile {
        stack: vec!["1".to_string()],
        overflow_addrs: vec!["18446744073709551615".to_string()],
    };
    assert_eq!(file.stack_outputs().err(), Some(DataError::NotFieldElement(u64::MAX)));
    assert!(StackOutputs::new(vec![u64::MAX], vec![]).is_err());
}

#[test]
fn debug_flag() {
    assert!(miden_aux::data::Debug::On.is_on());
    assert!(!miden_aux::data::Debug::Off.is_on());
}
