use thrift_sniffer::service::{format_i64, GetItemRequest, S};

#[test]
fn format_i64_exact_values() {
    assert_eq!(format_i64(0), b"0".to_vec());
    assert_eq!(format_i64(7), b"7".to_vec());
    assert_eq!(format_i64(-1), b"-1".to_vec());
    assert_eq!(format_i64(1024), b"1024".to_vec());
    assert_eq!(format_i64(i64::MAX), b"9223372036854775807".to_vec());
    assert_eq!(format_i64(i64::MIN), b"-9223372036854775808".to_vec());
}

#[test]
fn get_item_builds_texts_from_id() {
    let resp = S.get_item(GetItemRequest { id: 1024 });
    assert_eq!(resp.item.id, 1024);
    assert_eq!(resp.item.title, b"Item 1024".to_vec());
    assert_eq!(
        resp.item.content,
        b"This is the content for item 1024".to_vec()
    );
    assert_eq!(resp.item.extra, Some(vec![]));
}

#[test]
fn get_item_negative_id() {
    let resp = S.get_item(GetItemRequest { id: -3 });
    assert_eq!(resp.item.title, b"Item -3".to_vec());
}
