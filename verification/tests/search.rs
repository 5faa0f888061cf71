use berkle::search::{partition_point_le, search_key};
use berkle::KeyWithCounter;

fn keys(bytes: &[u8]) -> Vec<KeyWithCounter<1>> {
    bytes.iter().map(|b| KeyWithCounter([*b], 0)).collect()
}

#[test]
fn partition_point_is_after_equal_keys() {
    let ks = keys(&[1, 3, 3, 5]);
    assert_eq!(partition_point_le(&ks, &[0]), 0);
    assert_eq!(partition_point_le(&ks, &[1]), 1);
    assert_eq!(partition_point_le(&ks, &[3]), 3);
    assert_eq!(partition_point_le(&ks, &[4]), 3);
    assert_eq!(partition_point_le(&ks, &[9]), 4);
    assert_eq!(partition_point_le(&keys(&[]), &[9]), 0);
}

#[test]
fn search_finds_present_keys_and_gaps() {
    let ks = keys(&[1, 3, 3, 5]);
    assert_eq!(search_key(&ks, &[1]), Ok(0));
    assert_eq!(search_key(&ks, &[5]), Ok(3));
    let i = search_key(&ks, &[3]).unwrap();
    assert!(i == 1 || i == 2);
    assert_eq!(search_key(&ks, &[0]), Err(0));
    assert_eq!(search_key(&ks, &[2]), Err(1));
    assert_eq!(search_key(&ks, &[4]), Err(3));
    assert_eq!(search_key(&ks, &[6]), Err(4));
    assert_eq!(search_key(&keys(&[]), &[6]), Err(0));
}

#[test]
fn keys_compare_bytes_from_the_first() {
    let ks: Vec<KeyWithCounter<2>> = vec![KeyWithCounter([1, 9], 0), KeyWithCounter([2, 0], 0)];
    assert_eq!(partition_point_le(&ks, &[1, 255]), 1);
    assert_eq!(search_key(&ks, &[2, 0]), Ok(1));
}
