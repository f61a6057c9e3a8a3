use tagbar::tags::{decode_view_tags, is_tag_in_mask, is_tag_occupied, resolve_focused};

#[test]
fn decode_empty_stream() {
    let bytes: Vec<u8> = Vec::new();
    let views = decode_view_tags(&bytes);
    assert!(views.is_empty());
}

#[test]
fn decode_two_views_little_endian() {
    let bytes: Vec<u8> = vec![0x01, 0x00, 0x00, 0x00, 0x02, 0x01, 0x00, 0x00];
    let views = decode_view_tags(&bytes);
    assert_eq!(views, vec![0x0000_0001, 0x0000_0102]);
}

#[test]
fn decode_drops_trailing_partial_chunk() {
    let bytes: Vec<u8> = vec![0x04, 0x00, 0x00, 0x00, 0xff, 0xff];
    let views = decode_view_tags(&bytes);
    assert_eq!(views, vec![4]);
}

#[test]
fn decode_partial_only_is_empty() {
    let bytes: Vec<u8> = vec![0xde, 0xad, 0xbe];
    let views = decode_view_tags(&bytes);
    assert!(views.is_empty());
}

#[test]
fn decode_preserves_order_and_duplicates() {
    let bytes: Vec<u8> = vec![2, 0, 0, 0, 1, 0, 0, 0, 2, 0, 0, 0];
    let views = decode_view_tags(&bytes);
    assert_eq!(views, vec![2, 1, 2]);
}

#[test]
fn focused_round_trip_every_index() {
    for n in 0..32u32 {
        assert_eq!(resolve_focused(1u32 << n), Some(n));
    }
}

#[test]
fn focused_of_zero_is_none() {
    assert_eq!(resolve_focused(0), None);
}

#[test]
fn focused_multi_bit_takes_lowest() {
    assert_eq!(resolve_focused(0b1010_0100), Some(2));
    assert_eq!(resolve_focused(u32::MAX), Some(0));
    assert_eq!(resolve_focused(0x8000_0000), Some(31));
}

#[test]
fn tag_mask_membership() {
    assert!(is_tag_in_mask(0b101, 0));
    assert!(!is_tag_in_mask(0b101, 1));
    assert!(is_tag_in_mask(0b101, 2));
    assert!(is_tag_in_mask(0x8000_0000, 31));
}

#[test]
fn occupied_membership_across_views() {
    let views = vec![0b001u32, 0b110u32];
    assert!(is_tag_occupied(&views, 0));
    assert!(is_tag_occupied(&views, 1));
    assert!(is_tag_occupied(&views, 2));
    assert!(!is_tag_occupied(&views, 3));
    let none: Vec<u32> = Vec::new();
    assert!(!is_tag_occupied(&none, 0));
}
