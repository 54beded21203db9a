use my_cont_srv::path_codec::{decode, encode};

#[test]
fn encode_gives_url_safe_unpadded_token() {
    assert_eq!(encode("res_dir/v2.epub"), "cmVzX2Rpci92Mi5lcHVi");
    assert_eq!(encode("res_dir/nav.epub"), "cmVzX2Rpci9uYXYuZXB1Yg");
    assert_eq!(encode("res_dir/v3.epub"), "cmVzX2Rpci92My5lcHVi");
}

#[test]
fn decode_inverts_encode() {
    for path in ["", "a", "ab", "abc", "res_dir/v2.epub", "目录/书.epub", "a?b>c~d"] {
        let token = encode(path);
        assert!(!token.contains('/'));
        assert!(!token.contains('='));
        assert!(!token.contains('+'));
        assert_eq!(decode(&token).ok(), Some(path.to_string()));
    }
}

#[test]
fn decode_rejects_what_is_no_token() {
    let err = decode("not base64!").err().unwrap();
    assert_eq!(err.token, "not base64!");
    assert!(err.message().starts_with("Invalid file path [not base64!]: base64 decoding failed: "));
    assert!(decode("cmVzX2Rpci92Mi5lcHVi==").is_err());
    assert!(decode("a").is_err());
}

#[test]
fn decode_repairs_bytes_that_are_not_utf8() {
    assert_eq!(decode("_w").ok(), Some("\u{fffd}".to_string()));
}
