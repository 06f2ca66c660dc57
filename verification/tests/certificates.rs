use lightscale_server::pem::{
    choose_certs, choose_key, load_certs, load_private_key, KeyDer, PemError,
};

fn section(label: &str, body: &str) -> String {
    format!("-----BEGIN {}-----\n{}\n-----END {}-----\n", label, body, label)
}

fn cert(body: &str) -> String {
    section("CERTIFICATE", body)
}

fn pkcs8(body: &str) -> String {
    section("PRIVATE KEY", body)
}

fn rsa(body: &str) -> String {
    section("RSA PRIVATE KEY", body)
}

fn ec(body: &str) -> String {
    section("EC PRIVATE KEY", body)
}

fn certs_in(pem: &str) -> Result<Vec<Vec<u8>>, PemError> {
    load_certs(&pem.as_bytes().to_vec())
}

fn key_in(pem: &str) -> Result<(u8, Vec<u8>), PemError> {
    told(load_private_key(&pem.as_bytes().to_vec()))
}

fn told(key: Result<KeyDer, PemError>) -> Result<(u8, Vec<u8>), PemError> {
    key.map(|key| match key {
        KeyDer::Pkcs8(der) => (8, der),
        KeyDer::Pkcs1(der) => (1, der),
        KeyDer::Sec1(der) => (2, der),
    })
}

#[test]
fn certificates_keep_their_order() {
    let pem = format!(
        "a note\n{}{}{}{}",
        cert("AQID"),
        pkcs8("BwgJ"),
        section("SOMETHING ELSE", "AAAA"),
        cert("BAUG")
    );
    assert_eq!(certs_in(&pem), Ok(vec![vec![1, 2, 3], vec![4, 5, 6]]));
}

#[test]
fn a_file_without_certificates_is_refused() {
    assert_eq!(certs_in(""), Err(PemError::NoCerts));
    assert_eq!(certs_in(&ec("AQID")), Err(PemError::NoCerts));
}

#[test]
fn unreadable_certificates_are_refused() {
    let open_ended = format!("{}-----BEGIN CERTIFICATE-----\nAQID\n", cert("AQID"));
    assert_eq!(certs_in(&open_ended), Err(PemError::Certs));
    assert_eq!(certs_in(&cert("A?ID")), Err(PemError::Certs));
    assert_eq!(certs_in("-----BEGIN CERTIFICATE---\n"), Err(PemError::Certs));
}

#[test]
fn the_last_key_of_the_first_kind_is_taken() {
    assert_eq!(key_in(&pkcs8("AQID")), Ok((8, vec![1, 2, 3])));
    assert_eq!(key_in(&rsa("AQID")), Ok((1, vec![1, 2, 3])));
    assert_eq!(key_in(&ec("AQID")), Ok((2, vec![1, 2, 3])));

    let all = format!("{}{}{}{}", pkcs8("AQID"), pkcs8("BAUG"), rsa("BwgJ"), ec("AAAA"));
    assert_eq!(key_in(&all), Ok((8, vec![4, 5, 6])));
    let without_pkcs8 = format!("{}{}{}", rsa("AQID"), rsa("BwgJ"), ec("AAAA"));
    assert_eq!(key_in(&without_pkcs8), Ok((1, vec![7, 8, 9])));
    let ec_only = format!("{}{}{}", ec("AQID"), cert("BAUG"), ec("BwgJ"));
    assert_eq!(key_in(&ec_only), Ok((2, vec![7, 8, 9])));
}

#[test]
fn a_file_without_a_key_is_refused() {
    assert_eq!(key_in(""), Err(PemError::NoKey));
    assert_eq!(key_in(&cert("AQID")), Err(PemError::NoKey));
    assert_eq!(key_in(&format!("{}{}", pkcs8("AQID"), rsa("A?ID"))), Err(PemError::Pkcs8Key));
}

#[test]
fn what_was_read_decides_on_the_certificates() {
    assert_eq!(choose_certs(None), Err(PemError::Certs));
    assert_eq!(choose_certs(Some(vec![])), Err(PemError::NoCerts));
    assert_eq!(choose_certs(Some(vec![vec![2], vec![1]])), Ok(vec![vec![2], vec![1]]));
}

#[test]
fn what_was_read_decides_on_the_key() {
    let none = || Some(vec![]);
    let two = || Some(vec![vec![1], vec![2]]);
    assert_eq!(told(choose_key(None, two(), two())), Err(PemError::Pkcs8Key));
    assert_eq!(told(choose_key(two(), None, None)), Ok((8, vec![2])));
    assert_eq!(told(choose_key(none(), None, two())), Err(PemError::RsaKey));
    assert_eq!(told(choose_key(none(), two(), None)), Ok((1, vec![2])));
    assert_eq!(told(choose_key(none(), none(), None)), Err(PemError::EcKey));
    assert_eq!(told(choose_key(none(), none(), two())), Ok((2, vec![2])));
    assert_eq!(told(choose_key(none(), none(), none())), Err(PemError::NoKey));
}

#[test]
fn errors_name_the_file() {
    let cases = [
        (PemError::Certs, "failed to read certs from a.pem"),
        (PemError::NoCerts, "no certs in a.pem"),
        (PemError::Pkcs8Key, "failed to read private key from a.pem"),
        (PemError::RsaKey, "failed to read rsa private key from a.pem"),
        (PemError::EcKey, "failed to read ec private key from a.pem"),
        (PemError::NoKey, "no private key found in a.pem"),
    ];
    for (error, words) in cases {
        assert_eq!(error.text("a.pem"), words);
    }
}
