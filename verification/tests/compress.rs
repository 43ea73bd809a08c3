use halld::compress::{bits_of, compress_data, covers};
use halld::error::LinkError;
use halld::script::VpkSettings;

fn sample() -> Vec<u8> {
    (0..400u32).map(|i| ((i / 3) % 11) as u8).collect()
}

fn settings(method: Option<u8>, offsets: Option<&str>, lengths: Option<&str>) -> VpkSettings {
    VpkSettings { method, offsets: offsets.map(String::from), lengths: lengths.map(String::from) }
}

#[test]
fn compresses_with_one_sample_by_default() {
    let out = compress_data(sample(), None).unwrap();
    assert_eq!(&out[0..4], b"vpk0");
    assert_eq!(&out[4..8], &400u32.to_be_bytes());
    assert_eq!(out[8], 0);
    assert!(out.len() < 400);
    assert_eq!(vpk0::decode_bytes(&out).unwrap(), sample());
    let same = compress_data(sample(), Some(&settings(None, None, None))).unwrap();
    assert_eq!(same[8], 0);
    assert_eq!(vpk0::decode_bytes(&same).unwrap(), sample());
}

#[test]
fn compresses_with_two_samples_when_asked() {
    let out = compress_data(sample(), Some(&settings(Some(1), None, None))).unwrap();
    assert_eq!(&out[0..4], b"vpk0");
    assert_eq!(out[8], 1);
    assert_eq!(vpk0::decode_bytes(&out).unwrap(), sample());
}

#[test]
fn compresses_nothing_to_a_header() {
    let out = compress_data(Vec::new(), None).unwrap();
    assert_eq!(&out[0..9], &[0x76, 0x70, 0x6B, 0x30, 0, 0, 0, 0, 0]);
    assert_eq!(vpk0::decode_bytes(&out).unwrap(), Vec::<u8>::new());
}

#[test]
fn unknown_method_is_bad_config() {
    assert_eq!(
        compress_data(sample(), Some(&settings(Some(2), None, None))),
        Err(LinkError::BadConfig)
    );
    assert_eq!(
        compress_data(sample(), Some(&settings(Some(255), None, None))),
        Err(LinkError::BadConfig)
    );
}

#[test]
fn compresses_with_given_trees() {
    let trees = settings(Some(0), Some("((9, 11), (13, (14, 16)))"), Some("((3, 5), (7, 8))"));
    let out = compress_data(sample(), Some(&trees)).unwrap();
    assert_eq!(&out[0..4], b"vpk0");
    assert_eq!(vpk0::decode_bytes(&out).unwrap(), sample());
    let plain = compress_data(sample(), None).unwrap();
    assert_ne!(out, plain);
}

#[test]
fn trees_that_may_lack_a_code_are_bad_config() {
    // 400 bytes: a distance can take nine bits, a length eight
    let short_offsets = settings(Some(0), Some("(3, (5, 8))"), None);
    assert_eq!(compress_data(sample(), Some(&short_offsets)), Err(LinkError::BadConfig));
    let short_lengths = settings(Some(0), None, Some("(3, 5)"));
    assert_eq!(compress_data(sample(), Some(&short_lengths)), Err(LinkError::BadConfig));
    let wide_blank = settings(Some(0), Some("(3,\u{2003}16)"), None);
    assert_eq!(compress_data(sample(), Some(&wide_blank)), Err(LinkError::BadConfig));
}

#[test]
fn trees_are_held_against_the_length_of_the_data() {
    let text = b"sam I am I am sam".to_vec();
    let trees = settings(None, Some("(3, (7, 10))"), Some("((3, 5), (7, (12, 16)))"));
    let out = compress_data(text.clone(), Some(&trees)).unwrap();
    assert_eq!(vpk0::decode_bytes(&out).unwrap(), text);
    // the same tree for the distances serves 400 bytes, but not 2000
    let offsets = settings(None, Some("(3, (7, 10))"), None);
    let out = compress_data(sample(), Some(&offsets)).unwrap();
    assert_eq!(vpk0::decode_bytes(&out).unwrap(), sample());
    let long: Vec<u8> = (0..2000u32).map(|i| (i % 5) as u8).collect();
    assert_eq!(compress_data(long, Some(&offsets)), Err(LinkError::BadConfig));
}

#[test]
fn smallest_trees_that_are_accepted_serve_every_match() {
    for method in [0u8, 1] {
        for len in 0..300usize {
            for seed in [1u32, 7, 31] {
                let data: Vec<u8> = (0..len as u32)
                    .map(|i| ((i.wrapping_mul(seed).wrapping_add(i / 9)) % 3) as u8)
                    .collect();
                let offsets = format!("{}", usize::BITS - len.min(0xFFFF).leading_zeros());
                let lengths = format!("{}", usize::BITS - len.min(0xFF).leading_zeros());
                let trees = settings(Some(method), Some(&offsets), Some(&lengths));
                let out = compress_data(data.clone(), Some(&trees)).unwrap();
                assert_eq!(vpk0::decode_bytes(&out).unwrap(), data);
            }
        }
    }
}

#[test]
fn tree_that_the_codec_cannot_read_fails_in_the_codec() {
    let unclosed = settings(Some(0), Some("(3, 16"), None);
    assert_eq!(compress_data(sample(), Some(&unclosed)), Err(LinkError::Compress));
    let odd = settings(Some(0), Some("(3, x16)"), None);
    assert_eq!(compress_data(sample(), Some(&odd)), Err(LinkError::Compress));
}

fn full_tree(depth: u32) -> String {
    if depth == 0 {
        "16".to_string()
    } else {
        format!("({}, {})", full_tree(depth - 1), full_tree(depth - 1))
    }
}

#[test]
fn covers_looks_at_the_tree_proper() {
    assert!(covers("16", 16));
    assert!(covers("  17  ", 16));
    assert!(!covers("15", 16));
    assert!(covers("(1, (4, 16))", 16));
    assert!(covers("((9, 11), (13, (14, 16)))", 16));
    assert!(!covers("(1, (4, 7))", 8));
    assert!(covers("(1, (4, 8))", 8));
    assert!(covers("(1,\x0B(4,\x0C8))", 8));
    // what stands behind the tree is not part of it
    assert!(!covers("(1, 2) 16", 16));
    assert!(!covers("5 16", 16));
    assert!(covers("", 0));
    assert!(!covers("", 1));
}

#[test]
fn covers_refuses_what_is_not_ascii_and_deep_trees() {
    assert!(covers("(1, 16]", 16));
    assert!(!covers("(1,\u{2003}16)", 16));
    assert!(!covers("(1,\u{e9}16)", 16));
    assert!(!covers("sixteen", 16));
    let deep = format!("{}16{}", "(1,".repeat(32), ")".repeat(32));
    assert!(!covers(&deep, 16));
    let fine = format!("{}16{}", "(1,".repeat(31), ")".repeat(31));
    assert!(covers(&fine, 16));
    // many parentheses, none of them deep
    assert!(covers(&full_tree(6), 16));
    // parentheses behind the tree proper do not count
    let tail = format!("(1, 16) {}", "(".repeat(40));
    assert!(covers(&tail, 16));
}

#[test]
fn bits_of_counts_the_bits_of_a_number() {
    assert_eq!(bits_of(0), 0);
    assert_eq!(bits_of(1), 1);
    assert_eq!(bits_of(2), 2);
    assert_eq!(bits_of(3), 2);
    assert_eq!(bits_of(255), 8);
    assert_eq!(bits_of(256), 9);
    assert_eq!(bits_of(65535), 16);
}
