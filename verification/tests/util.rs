use xbridge::trunk::util::{
    branch_from, ensure_to_tag, generate_branch, generate_tag, hex_encode,
    reject_reason_to_sip_code, to_with_tag, uuid_from, uuid_v4,
};

#[test]
fn hex_encode_empty() {
    assert_eq!(hex_encode(&[]), "");
}

#[test]
fn hex_encode_bytes() {
    assert_eq!(hex_encode(&[0x0a, 0xff, 0x00]), "0aff00");
}

#[test]
fn tag_format() {
    let tag = generate_tag();
    assert_eq!(tag.len(), 16);
    assert!(tag.chars().all(|c| c.is_ascii_hexdigit()));
}

#[test]
fn branch_format() {
    let branch = generate_branch();
    assert!(branch.starts_with("z9hG4bK"));
    assert_eq!(branch.len(), 7 + 24);
}

#[test]
fn uuid_format() {
    let id = uuid_v4();
    assert_eq!(id.len(), 36);
    assert_eq!(id.chars().filter(|c| *c == '-').count(), 4);
    assert_eq!(id.chars().nth(14), Some('4'));
}

#[test]
fn ensure_to_tag_adds_for_200() {
    let result = ensure_to_tag("<sip:1002@pbx>", 200);
    assert!(result.contains("tag="));
}

#[test]
fn ensure_to_tag_skips_for_100() {
    let result = ensure_to_tag("<sip:1002@pbx>", 100);
    assert!(!result.contains("tag="));
}

#[test]
fn ensure_to_tag_preserves_existing() {
    let result = ensure_to_tag("<sip:1002@pbx>;tag=existing", 200);
    assert!(result.contains("tag=existing"));
    // Should not have double tags.
    assert_eq!(result.matches("tag=").count(), 1);
}

#[test]
fn reject_reason_codes() {
    assert_eq!(reject_reason_to_sip_code("busy"), 486);
    assert_eq!(reject_reason_to_sip_code("declined"), 603);
    assert_eq!(reject_reason_to_sip_code("anything-else"), 486);
}

#[test]
fn branch_and_uuid_of_given_bytes() {
    assert_eq!(
        branch_from(&[0, 1, 2, 3, 4, 5, 6, 7, 8, 9, 0xab, 0xff]),
        "z9hG4bK00010203040506070809abff"
    );
    assert_eq!(
        uuid_from(&[0xff; 16]),
        "ffffffff-ffff-4fff-bfff-ffffffffffff"
    );
    assert_eq!(
        uuid_from(&[0; 16]),
        "00000000-0000-4000-8000-000000000000"
    );
}

#[test]
fn to_tag_of_a_given_value() {
    assert_eq!(to_with_tag("<sip:a@b>", 180, "t1"), "<sip:a@b>;tag=t1");
    assert_eq!(to_with_tag("<sip:a@b>", 100, "t1"), "<sip:a@b>");
    assert_eq!(to_with_tag("<sip:a@b>;tag=x", 200, "t1"), "<sip:a@b>;tag=x");
}

#[test]
fn ids_are_not_repeated() {
    assert_ne!(generate_tag(), generate_tag());
    assert_ne!(generate_branch(), generate_branch());
    assert_ne!(uuid_v4(), uuid_v4());
}
