use probe_blocks::hash::calculate_content_hash;

#[test]
fn hash_of_empty_content_is_the_offset_basis() {
    assert_eq!(calculate_content_hash(""), 14695981039346656037u64);
}

#[test]
fn hash_of_one_letter() {
    // FNV-1a of "a"
    assert_eq!(calculate_content_hash("a"), 0xaf63dc4c8601ec8cu64);
}

#[test]
fn hash_of_a_word() {
    // FNV-1a of "foobar"
    assert_eq!(calculate_content_hash("foobar"), 0x85944171f73967e8u64);
}
