use wasmbus_rpc::digest::invocation_hash;

#[test]
fn hash_of_nothing_is_the_digest_of_the_empty_message() {
    assert_eq!(
        invocation_hash("", "", "", &[]),
        "E3B0C44298FC1C149AFBF4C8996FB92427AE41E4649B934CA495991B7852B855"
    );
}

#[test]
fn hash_takes_the_origin_before_the_target() {
    // SHA-256 of "ab": the origin "a" is hashed first, then the target "b".
    assert_eq!(
        invocation_hash("b", "a", "", &[]),
        "FB8E20FC2E4C3F248C60C39BD652F3C1347298BB977B8B4D5903B85055620603"
    );
    assert_ne!(invocation_hash("b", "a", "", &[]), invocation_hash("a", "b", "", &[]));
}

#[test]
fn hash_takes_the_method_and_then_the_payload() {
    // SHA-256 of "abc", spread over the four parts in their order.
    let expected = "BA7816BF8F01CFEA414140DE5DAE2223B00361A396177A9CB410FF61F20015AD";
    assert_eq!(invocation_hash("b", "a", "c", &[]), expected);
    assert_eq!(invocation_hash("", "a", "b", b"c"), expected);
    assert_eq!(invocation_hash("", "", "", b"abc"), expected);
}

#[test]
fn hash_matches_a_known_digest() {
    assert_eq!(
        invocation_hash("", "hello, world", "", &[]),
        "09CA7E4EAA6E8AE9C7D261167129184883644D07DFBA7CBFBC4C8A2E08360D5B"
    );
}

#[test]
fn hash_of_the_hello_invocation() {
    assert_eq!(
        invocation_hash("wasmbus://A2/Hello", "wasmbus://A1", "Hello", &[0x80]),
        "560556BE252C6E903A1F0DC93680DEEA9FEF08274D1580C79527E2F919F275E9"
    );
}

#[test]
fn hash_is_the_same_each_time() {
    let first = invocation_hash("wasmbus://P1/default/Get", "wasmbus://A1", "Get", &[1, 2, 3]);
    let second = invocation_hash("wasmbus://P1/default/Get", "wasmbus://A1", "Get", &[1, 2, 3]);
    assert_eq!(first, second);
    assert_eq!(first, "91907EC6DF88976D9000A6890A4DE14FD7452BFF408174F480C5F37A0545AFF3");
}

#[test]
fn hash_changes_with_one_byte_of_any_part() {
    let base = invocation_hash("wasmbus://A2/Hello", "wasmbus://A1", "Hello", &[0x80]);
    assert_ne!(base, invocation_hash("wasmbus://A3/Hello", "wasmbus://A1", "Hello", &[0x80]));
    assert_ne!(base, invocation_hash("wasmbus://A2/Hello", "wasmbus://B1", "Hello", &[0x80]));
    assert_ne!(base, invocation_hash("wasmbus://A2/Hello", "wasmbus://A1", "Hella", &[0x80]));
    assert_eq!(
        invocation_hash("wasmbus://A2/Hello", "wasmbus://A1", "Hello", &[0x81]),
        "DCB8A272B4CCD6CC22A9AE7799841E16ECE79D4D66991A42240DD099FA644020"
    );
}

#[test]
fn hash_is_64_upper_case_hex_digits() {
    let hash = invocation_hash("t", "o", "m", &[0xff, 0x00]);
    assert_eq!(hash.len(), 64);
    assert!(hash.chars().all(|c| c.is_ascii_digit() || ('A'..='F').contains(&c)));
}
