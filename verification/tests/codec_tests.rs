use acvm_server::codec::{decode, encode};
use acvm_server::errors::CliError;
use acvm_server::witness::{FieldElement, WitnessMap};

fn fe(last: u8) -> FieldElement {
    let mut bytes = vec![0u8; 32];
    bytes[31] = last;
    FieldElement::from_bytes(bytes).unwrap()
}

#[test]
fn encode_decode_round_trip() {
    let mut w = WitnessMap::new();
    w.insert(0, fe(5));
    w.insert(7, fe(1));
    w.insert(42, fe(255));
    let bytes = encode(&w);
    assert_eq!(bytes.len(), 3 * 36);
    let back = decode(&bytes).unwrap();
    assert_eq!(back.len(), 3);
    assert_eq!(back.get(0).unwrap().as_bytes(), fe(5).as_bytes());
    assert_eq!(back.get(7).unwrap().as_bytes(), fe(1).as_bytes());
    assert_eq!(back.get(42).unwrap().as_bytes(), fe(255).as_bytes());
    assert_eq!(encode(&back), bytes);
}

#[test]
fn encoding_ignores_insertion_order() {
    let mut a = WitnessMap::new();
    a.insert(1, fe(10));
    a.insert(5, fe(20));
    a.insert(3, fe(30));
    let mut b = WitnessMap::new();
    b.insert(5, fe(20));
    b.insert(3, fe(30));
    b.insert(1, fe(99));
    b.insert(1, fe(10));
    assert_eq!(encode(&a), encode(&b));
}

#[test]
fn encoding_is_sorted_by_index() {
    let mut w = WitnessMap::new();
    w.insert(9, fe(9));
    w.insert(2, fe(2));
    let bytes = encode(&w);
    assert_eq!(&bytes[0..4], &[0, 0, 0, 2]);
    assert_eq!(bytes[35], 2);
    assert_eq!(&bytes[36..40], &[0, 0, 0, 9]);
    assert_eq!(bytes[71], 9);
}

#[test]
fn decode_empty_bytes_gives_empty_map() {
    let w = decode(&[]).unwrap();
    assert_eq!(w.len(), 0);
}

#[test]
fn decode_rejects_partial_record() {
    let r = decode(&[0u8; 35]);
    assert!(matches!(r, Err(CliError::MalformedWitness)));
    let r = decode(&[0u8; 37]);
    assert!(matches!(r, Err(CliError::MalformedWitness)));
}

#[test]
fn decode_last_record_wins_on_duplicate_index() {
    let mut bytes = vec![0u8; 72];
    bytes[3] = 1;
    bytes[35] = 5;
    bytes[39] = 1;
    bytes[71] = 9;
    let w = decode(&bytes).unwrap();
    assert_eq!(w.len(), 1);
    assert_eq!(w.get(1).unwrap().as_bytes(), fe(9).as_bytes());
}

#[test]
fn insert_overwrites_prior_value() {
    let mut w = WitnessMap::new();
    w.insert(4, fe(5));
    w.insert(4, fe(9));
    assert_eq!(w.len(), 1);
    assert_eq!(w.get(4).unwrap().as_bytes(), fe(9).as_bytes());
    assert!(w.get(3).is_none());
}

#[test]
fn from_pairs_builds_map_last_pair_wins() {
    let pairs = vec![(3u32, fe(1).as_bytes().clone()), (1u32, fe(2).as_bytes().clone()), (
        3u32,
        fe(7).as_bytes().clone(),
    )];
    let w = WitnessMap::from_pairs(&pairs).unwrap();
    assert_eq!(w.len(), 2);
    assert_eq!(w.get(1).unwrap().as_bytes(), fe(2).as_bytes());
    assert_eq!(w.get(3).unwrap().as_bytes(), fe(7).as_bytes());
}

#[test]
fn from_pairs_rejects_wrong_width() {
    let pairs = vec![(0u32, vec![0u8; 32]), (1u32, vec![0u8; 31])];
    assert!(WitnessMap::from_pairs(&pairs).is_none());
}

#[test]
fn field_element_needs_canonical_width() {
    assert!(FieldElement::from_bytes(vec![0u8; 31]).is_none());
    assert!(FieldElement::from_bytes(vec![0u8; 33]).is_none());
    assert!(FieldElement::from_bytes(vec![0u8; 32]).is_some());
}
