use expense_store::codec::{decode, encode, FIXED_ENCODED_LEN, MAX_ENCODED_LEN};
use expense_store::record::{Expense, MAX_DESC_BYTES};

fn sample(updated_at: Option<u64>) -> Expense {
    Expense {
        id: 7,
        description: String::from("coffee & cake \u{00e9}"),
        amount: 1234,
        date: 1_700_000_000,
        created_at: 1_700_000_001,
        updated_at,
    }
}

#[test]
fn round_trip_without_update_timestamp() {
    let r = sample(None);
    let bytes = encode(&r);
    let back = decode(bytes.as_slice()).expect("encoding must decode");
    assert_eq!(back, r);
}

#[test]
fn round_trip_with_update_timestamp() {
    let r = sample(Some(1_700_000_123));
    let bytes = encode(&r);
    let back = decode(bytes.as_slice()).expect("encoding must decode");
    assert_eq!(back, r);
}

#[test]
fn encoded_length_is_fixed_part_plus_description_bytes() {
    let r = sample(None);
    let bytes = encode(&r);
    assert_eq!(bytes.len(), FIXED_ENCODED_LEN + r.description.len());
    assert!(bytes.len() <= MAX_ENCODED_LEN);
}

#[test]
fn longest_valid_description_stays_within_bound() {
    let mut d = String::new();
    for _ in 0..MAX_DESC_BYTES {
        d.push('x');
    }
    let r = Expense {
        id: u64::MAX,
        description: d,
        amount: i64::MAX,
        date: u64::MAX,
        created_at: u64::MAX,
        updated_at: Some(u64::MAX),
    };
    let bytes = encode(&r);
    assert_eq!(bytes.len(), MAX_ENCODED_LEN);
    assert_eq!(decode(bytes.as_slice()).expect("encoding must decode"), r);
}

#[test]
fn truncated_bytes_do_not_decode() {
    let r = sample(None);
    let bytes = encode(&r);
    assert!(decode(&bytes[..bytes.len() - 1]).is_none());
    assert!(decode(&[]).is_none());
}

#[test]
fn noncanonical_bytes_do_not_decode() {
    let r = sample(None);
    let bytes = encode(&r);
    let dlen = r.description.len();

    // A zero date word is no encoding of a valid record.
    let mut zero_date = bytes.clone();
    for b in &mut zero_date[24 + dlen..32 + dlen] {
        *b = 0;
    }
    assert!(decode(&zero_date).is_none());

    // With the update tag absent, the trailing word must be zero.
    let mut dirty_tail = bytes.clone();
    dirty_tail[41 + dlen] = 1;
    assert!(decode(&dirty_tail).is_none());

    // A whitespace-only description is no encoding of a valid record.
    let blank_desc = encode_raw_with_description("   ");
    assert!(decode(&blank_desc).is_none());
}

fn encode_raw_with_description(desc: &str) -> Vec<u8> {
    let valid = Expense {
        id: 1,
        description: String::from("ok!"),
        amount: 5,
        date: 9,
        created_at: 9,
        updated_at: None,
    };
    let mut bytes = encode(&valid);
    // Splice in the replacement description of the same byte length.
    assert_eq!(desc.len(), valid.description.len());
    bytes[16..16 + desc.len()].copy_from_slice(desc.as_bytes());
    bytes
}
