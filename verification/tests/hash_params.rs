use zk_membership::hash_params::{hash_params_from_body, hash_params_or_default};

#[test]
fn a_list_of_strings_is_kept() {
    let body = br#"["leaf params", "two-to-one params"]"#;
    assert_eq!(
        hash_params_from_body(body),
        vec!["leaf params".to_string(), "two-to-one params".to_string()]
    );
}

#[test]
fn an_empty_list_is_kept() {
    assert_eq!(hash_params_from_body(b"[]"), Vec::<String>::new());
}

#[test]
fn anything_else_reads_as_no_data() {
    for body in [&b""[..], b"not json", b"{\"a\": 1}", b"[1, 2]", b"\"text\""] {
        assert_eq!(hash_params_from_body(body), vec!["NO_DATA".to_string()]);
    }
}

#[test]
fn default_applies_only_without_a_list() {
    assert_eq!(hash_params_or_default(None), vec!["NO_DATA".to_string()]);
    assert_eq!(
        hash_params_or_default(Some(vec!["x".to_string()])),
        vec!["x".to_string()]
    );
}
