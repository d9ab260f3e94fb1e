use connect_4::value_ai::{parse_layout, valid_dimensions, WEIGHT_COUNT};

fn v2(dims: &[u32], weights: usize) -> Vec<u8> {
    let mut bytes = b"C4V2".to_vec();
    bytes.extend((dims.len() as u32).to_le_bytes());
    for d in dims {
        bytes.extend(d.to_le_bytes());
    }
    bytes.extend(vec![0u8; weights * 4]);
    bytes
}

#[test]
fn legacy_layout() {
    let mut bytes = b"C4V1".to_vec();
    bytes.extend(vec![0u8; WEIGHT_COUNT * 4]);
    let layout = parse_layout(&bytes).unwrap();
    assert_eq!(layout.dimensions, vec![84, 128, 128, 1]);
    assert_eq!(layout.weights_start, 4);
    bytes.push(0);
    assert!(parse_layout(&bytes).is_none());
}

#[test]
fn versioned_layout() {
    let bytes = v2(&[84, 1, 1], 87);
    let layout = parse_layout(&bytes).unwrap();
    assert_eq!(layout.dimensions, vec![84, 1, 1]);
    assert_eq!(layout.weights_start, 20);
    assert!(parse_layout(&v2(&[84, 1, 1], 86)).is_none());
    assert!(parse_layout(&v2(&[84, 1], 86)).is_none());
    assert!(parse_layout(&v2(&[85, 1, 1], 88)).is_none());
    assert!(parse_layout(&v2(&[84, 0, 1], 1)).is_none());
    assert!(parse_layout(&v2(&[84, 4097, 1], 84 * 4097 + 4097 + 4097 + 1)).is_none());
    assert!(parse_layout(b"C4V3").is_none());
    assert!(parse_layout(b"C4V2\x03\x00").is_none());
    assert!(parse_layout(b"C4").is_none());
}

#[test]
fn rejects_wrong_weight_counts() {
    assert!(!valid_dimensions(&vec![84, 128, 128, 1], 0));
    assert!(valid_dimensions(&vec![84, 128, 128, 1], WEIGHT_COUNT));
    assert!(valid_dimensions(&vec![84, 512, 512, 256, 1], 437_761));
}
