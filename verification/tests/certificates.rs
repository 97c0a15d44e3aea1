//! Certificates and private keys.

use connman::connman::ConnmanBuilder;
use connman::setup::{
    choose_private_key, configure_tls, host_of_names, load_certificates_from_pem,
    load_private_key_from_file, tls_host, Error,
};

/// For `example.org`, `*.first.example` and `*.example.org`.
const TWO_WILDCARDS: &str = "-----BEGIN CERTIFICATE-----
MIIBADCBs6ADAgECAgEBMAUGAytlcDAMMQowCAYDVQQDDAFhMB4XDTI0MDEwMTAw
MDAwMFoXDTM0MDEwMTAwMDAwMFowDDEKMAgGA1UEAwwBYTAqMAUGAytlcAMhACDC
v7v9NiKhnsoIORjNiz+eu3i/wQFSdeF+z4si6XAfozowODA2BgNVHREELzAtggtl
eGFtcGxlLm9yZ4IPKi5maXJzdC5leGFtcGxlgg0qLmV4YW1wbGUub3JnMAUGAytl
cANBAJgIx5KQvUNHkkrn5HJpkgChfmSRvkCRxvO1xtDPvuD4yZrNEyhI1P99TcuQ
0XGYTjL6oWQKrn36YM8pPViQYwc=
-----END CERTIFICATE-----
";

/// For `plain.example.net`.
const NO_WILDCARD: &str = "-----BEGIN CERTIFICATE-----
MIHmMIGZoAMCAQICAQEwBQYDK2VwMAwxCjAIBgNVBAMMAWIwHhcNMjQwMTAxMDAw
MDAwWhcNMzQwMTAxMDAwMDAwWjAMMQowCAYDVQQDDAFiMCowBQYDK2VwAyEAIMK/
u/02IqGeygg5GM2LP567eL/BAVJ14X7PiyLpcB+jIDAeMBwGA1UdEQQVMBOCEXBs
YWluLmV4YW1wbGUubmV0MAUGAytlcANBAJa1Ye+fef0oU/DUyFdEwrQpCjIOznWK
UMY/oBBUamfdGFkLfLMdicXR6DJj4sbz+S4PzSQtZlD+BfpGYaFw7Qs=
-----END CERTIFICATE-----
";

/// For `*.last.example` and `www.last.example`.
const WILDCARD_FIRST: &str = "-----BEGIN CERTIFICATE-----
MIH1MIGooAMCAQICAQEwBQYDK2VwMAwxCjAIBgNVBAMMAWMwHhcNMjQwMTAxMDAw
MDAwWhcNMzQwMTAxMDAwMDAwWjAMMQowCAYDVQQDDAFjMCowBQYDK2VwAyEAIMK/
u/02IqGeygg5GM2LP567eL/BAVJ14X7PiyLpcB+jLzAtMCsGA1UdEQQkMCKCDiou
bGFzdC5leGFtcGxlghB3d3cubGFzdC5leGFtcGxlMAUGAytlcANBANbhsckfUB0Y
vItEHcyA/fyyApeE+gvInX6mzjwoLuQaS9/bELaPXby1nRzfXhKEJaJ5A1rhHF1H
otfLSKSFhw4=
-----END CERTIFICATE-----
";

fn certs(texts: &[&str]) -> Vec<Vec<u8>> {
    load_certificates_from_pem(texts.concat().as_bytes()).ok().unwrap()
}

/// A PEM section of the kind that holds a private key, around four bytes.
fn key_section() -> String {
    let kind = "PRIVATE KEY";
    format!("-----BEGIN {kind}-----\nAQIDBA==\n-----END {kind}-----\n")
}

fn names(texts: &[&str]) -> Result<Vec<String>, String> {
    Ok(texts.iter().map(|text| text.to_string()).collect())
}

#[test]
fn certificates_are_read() {
    assert!(certs(&[]).is_empty());
    let read = certs(&[TWO_WILDCARDS, &key_section(), NO_WILDCARD]);
    assert_eq!(read.len(), 2);
    assert_eq!(read[0].len(), 260);
    assert_eq!(read[0][..4], [0x30, 0x82, 0x01, 0x00]);
}

#[test]
fn broken_file_is_refused() {
    let broken = "-----BEGIN CERTIFICATE-----\nAQID\n";
    let error = load_certificates_from_pem(broken.as_bytes()).err().unwrap();
    assert!(matches!(&error, Error::Pem(_)));
    assert_eq!(error.to_string(), "section end \"-----END CERTIFICATE-----\" missing");
    let error = load_private_key_from_file(broken.as_bytes(), "\"key.pem\"").err().unwrap();
    assert!(matches!(error, Error::Pem(_)));
}

#[test]
fn one_private_key_is_read() {
    let text = format!("{NO_WILDCARD}{}", key_section());
    let key = load_private_key_from_file(text.as_bytes(), "\"key.pem\"");
    assert_eq!(key.ok().unwrap(), vec![1, 2, 3, 4]);
}

#[test]
fn no_private_key_and_several_are_refused() {
    let error = load_private_key_from_file(NO_WILDCARD.as_bytes(), "\"key.pem\"").err().unwrap();
    assert_eq!(error.to_string(), "No PKCS8-encoded private key found in \"key.pem\"");
    let twice = key_section() + &key_section();
    let error = load_private_key_from_file(twice.as_bytes(), "\"key.pem\"").err().unwrap();
    assert_eq!(error.to_string(), "More than one PKCS8-encoded private key found in \"key.pem\"");
}

#[test]
fn key_is_chosen_among_those_read() {
    assert_eq!(choose_private_key(Ok(vec![vec![7]]), "k").ok().unwrap(), vec![7]);
    assert!(matches!(choose_private_key(Ok(vec![]), "k"), Err(Error::NoKey(path)) if path == "k"));
    assert!(matches!(
        choose_private_key(Ok(vec![vec![7], vec![8]]), "k"),
        Err(Error::ManyKeys(path)) if path == "k"
    ));
    assert!(matches!(
        choose_private_key(Err("bad".to_string()), "k"),
        Err(Error::Pem(text)) if text == "bad"
    ));
}

#[test]
fn last_wildcard_is_the_host() {
    assert_eq!(tls_host(&certs(&[TWO_WILDCARDS])).ok().unwrap(), "example.org");
    assert_eq!(tls_host(&certs(&[NO_WILDCARD])).ok().unwrap(), "");
    let all = certs(&[TWO_WILDCARDS, WILDCARD_FIRST, NO_WILDCARD]);
    assert_eq!(tls_host(&all).ok().unwrap(), "last.example");
    let other = certs(&[WILDCARD_FIRST, TWO_WILDCARDS]);
    assert_eq!(tls_host(&other).ok().unwrap(), "example.org");
}

#[test]
fn unreadable_certificate_is_refused() {
    let error = tls_host(&vec![vec![1, 2, 3]]).err().unwrap();
    assert!(matches!(&error, Error::Certificate(_)));
    assert_eq!(error.to_string(), "BadDer");
}

#[test]
fn host_is_found_among_names() {
    let listings = vec![names(&["a", "*.b"]), names(&[]), names(&["*.c", "d"])];
    assert_eq!(host_of_names(listings).ok().unwrap(), "c");
    assert_eq!(host_of_names(vec![]).ok().unwrap(), "");
    let bad = vec![names(&["*.a"]), Err("one".to_string()), Err("two".to_string())];
    assert!(matches!(host_of_names(bad), Err(Error::Certificate(text)) if text == "one"));
}

#[test]
fn encrypted_connections_are_served_below_a_wildcard() {
    let builder = ConnmanBuilder::new().with_docker("10.0.0.1".to_string(), 6969);
    let cert = certs(&[TWO_WILDCARDS]);
    let built = configure_tls(builder, cert.clone(), vec![7]).ok().unwrap().build().ok().unwrap();
    let listener = built.tls.unwrap();
    assert_eq!(*listener.cert(), cert);
    assert_eq!(*listener.key(), vec![7]);
    let builder = ConnmanBuilder::new().with_docker("10.0.0.1".to_string(), 6969);
    let plain = configure_tls(builder, certs(&[NO_WILDCARD]), vec![7]).ok().unwrap();
    assert!(plain.build().ok().unwrap().tls.is_none());
    let builder = ConnmanBuilder::new();
    assert!(matches!(configure_tls(builder, vec![vec![0]], vec![7]), Err(Error::Certificate(_))));
}
