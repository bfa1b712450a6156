use mesh_gateway::certs::{
    certificates_from, load_cert, load_private_key, private_key_from, CertificateError,
};
use mesh_gateway::client::{check_response, identity_pem, is_success};

const CERT_BODY: &str =
    "MIIBCgMKERgfJi00O0JJUFdeZWxzeoGIj5adpKuyucDHztXc4+rx+P8GDRQbIikw\n\
Nz5FTFNaYWhvdn2Ei5KZoKeutbzDytHY3+bt9PsCCRAXHiUsMzpBSE9WXWRrcnmA\n\
h46VnKOqsbi/xs3U2+Lp8Pf+BQwTGiEoLzY9REtSWWBnbnV8g4qRmJ+mrbS7wsnQ\n\
197l7PP6AQgPFh0kKzI5QEdOVVxjanF4f4aNlJuiqbC3vsXM09rh6O/2/QQLEhkg\n\
Jy41PENKUVhfZm10e4KJkJeepayzusHIz9bd5Ovy+QAHDhUcIyoxOD9GTVRbYmlw\n\
d36FjJOaoaivtr3Ey9LZ4Ofu9fwDChEYHyYtNDtC";
const KEY_BODY: &str =
    "MIGHAgEABRAbJjE8R1JdaHN+iZSfqrXAy9bh7PcCDRgjLjlET1plcHuGkZynsr3I\n\
097p9P8KFSArNkFMV2JteIOOmaSvusXQ2+bx/AcSHSgzPklUX2p1gIuWoay3ws3Y\n\
4+75BA8aJTA7RlFcZ3J9iJOeqbS/ytXg6/YBDBciLThDTllkb3qFkJum";

/// A PEM section with the given label around the given Base64 text.
fn section(label: &str, body: &str) -> String {
    format!("-----BEGIN {}-----\n{}\n-----END {}-----\n", label, body, label)
}

fn cert(body: &str) -> String {
    section("CERTIFICATE", body)
}

fn key(body: &str) -> String {
    section("PRIVATE KEY", body)
}

fn rsa_key(body: &str) -> String {
    section("RSA PRIVATE KEY", body)
}

#[test]
fn test_load_gateway_cert() {
    let cert = load_cert(cert(CERT_BODY).as_bytes());
    assert!(cert.is_ok(), "Failed to load gateway certificate");
    assert!(!cert.unwrap().is_empty(), "Certificate list is empty");
}

#[test]
fn test_load_private_key() {
    let key = load_private_key(key(KEY_BODY).as_bytes());
    assert!(key.is_ok(), "Failed to load private key");
}

#[test]
fn a_certificate_of_several_lines_is_read_whole() {
    let certs = load_cert(cert(CERT_BODY).as_bytes()).unwrap();
    assert_eq!(certs.len(), 1);
    assert_eq!(certs[0].0.len(), 270);
    assert_eq!(certs[0].0[..6], [0x30, 0x82, 0x01, 0x0a, 3, 10]);
    let key = load_private_key(key(KEY_BODY).as_bytes()).unwrap();
    assert_eq!(key.key.0.len(), 138);
    assert_eq!(key.key.0[..8], [0x30, 0x81, 0x87, 0x02, 0x01, 0x00, 5, 16]);
    assert!(!key.others_ignored);
}

#[test]
fn a_certificate_file_gives_its_certificates_in_order() {
    let one = load_cert(cert("AQID").as_bytes()).unwrap();
    assert_eq!(one.len(), 1);
    assert_eq!(one[0].0, vec![1u8, 2, 3]);
    let two = load_cert(format!("{}{}", cert("AQID"), cert("BAUGBw==")).as_bytes()).unwrap();
    assert_eq!(two.len(), 2);
    assert_eq!(two[0].0, vec![1u8, 2, 3]);
    assert_eq!(two[1].0, vec![4u8, 5, 6, 7]);
}

#[test]
fn other_sections_of_a_certificate_file_are_passed_over() {
    let mixed = format!(
        "{}{}{}{}",
        key("CQgH"),
        cert("AQID"),
        cert("BAUGBw=="),
        rsa_key("CQgH")
    );
    let certs = load_cert(mixed.as_bytes()).unwrap();
    assert_eq!(certs.len(), 2);
    assert_eq!(certs[1].0, vec![4u8, 5, 6, 7]);
}

#[test]
fn a_file_without_certificate_is_refused() {
    assert_eq!(load_cert(b"").err(), Some(CertificateError::NoCertificates));
    assert_eq!(
        load_cert(b"just some text\n").err(),
        Some(CertificateError::NoCertificates)
    );
    assert_eq!(
        load_cert(key("CQgH").as_bytes()).err(),
        Some(CertificateError::NoCertificates)
    );
}

#[test]
fn a_broken_certificate_file_is_malformed() {
    assert_eq!(
        load_cert(cert("AQID").replace("-----END CERTIFICATE-----\n", "").as_bytes()).err(),
        Some(CertificateError::Malformed)
    );
    assert_eq!(
        load_cert(cert("!!!!").as_bytes()).err(),
        Some(CertificateError::Malformed)
    );
}

#[test]
fn a_key_file_gives_its_key() {
    let choice = load_private_key(key("CQgH").as_bytes()).unwrap();
    assert_eq!(choice.key.0, vec![9u8, 8, 7]);
    assert!(!choice.others_ignored);
}

#[test]
fn of_several_keys_the_first_is_taken() {
    let choice = load_private_key(format!("{}{}", key("CQgH"), key("AQID")).as_bytes()).unwrap();
    assert_eq!(choice.key.0, vec![9u8, 8, 7]);
    assert!(choice.others_ignored);
}

#[test]
fn a_file_without_pkcs8_key_is_refused() {
    assert_eq!(
        load_private_key(b"").err(),
        Some(CertificateError::NoPrivateKey)
    );
    assert_eq!(
        load_private_key(rsa_key("CQgH").as_bytes()).err(),
        Some(CertificateError::NoPrivateKey)
    );
    assert_eq!(
        load_private_key(cert("AQID").as_bytes()).err(),
        Some(CertificateError::NoPrivateKey)
    );
}

#[test]
fn a_broken_key_file_is_malformed() {
    assert_eq!(
        load_private_key(key("CQgH").replace("-----END PRIVATE KEY-----\n", "").as_bytes()).err(),
        Some(CertificateError::Malformed)
    );
}

#[test]
fn extracted_sections_become_certificates() {
    assert_eq!(
        certificates_from(None).err(),
        Some(CertificateError::Malformed)
    );
    assert_eq!(
        certificates_from(Some(vec![])).err(),
        Some(CertificateError::NoCertificates)
    );
    let certs = certificates_from(Some(vec![vec![1], vec![], vec![2, 3]])).unwrap();
    assert_eq!(certs.len(), 3);
    assert_eq!(certs[0].0, vec![1u8]);
    assert_eq!(certs[1].0, Vec::<u8>::new());
    assert_eq!(certs[2].0, vec![2u8, 3]);
}

#[test]
fn extracted_sections_become_a_key() {
    assert_eq!(
        private_key_from(None).err(),
        Some(CertificateError::Malformed)
    );
    assert_eq!(
        private_key_from(Some(vec![])).err(),
        Some(CertificateError::NoPrivateKey)
    );
    let one = private_key_from(Some(vec![vec![5, 6]])).unwrap();
    assert_eq!(one.key.0, vec![5u8, 6]);
    assert!(!one.others_ignored);
    let more = private_key_from(Some(vec![vec![5, 6], vec![7], vec![8]])).unwrap();
    assert_eq!(more.key.0, vec![5u8, 6]);
    assert!(more.others_ignored);
}

#[test]
fn success_is_a_status_from_200_to_299() {
    assert!(!is_success(0));
    assert!(!is_success(199));
    assert!(is_success(200));
    assert!(is_success(204));
    assert!(is_success(299));
    assert!(!is_success(300));
    assert!(!is_success(404));
    assert!(!is_success(500));
    assert!(!is_success(u16::MAX));
}

#[test]
fn a_successful_answer_gives_its_body() {
    assert_eq!(check_response(200, "ok".to_string()).unwrap(), "ok");
    assert_eq!(check_response(299, String::new()).unwrap(), "");
}

#[test]
fn any_other_answer_is_a_failure_with_status_and_body() {
    let failure = check_response(404, "not here".to_string()).unwrap_err();
    assert_eq!(failure.status, 404);
    assert_eq!(failure.body, "not here");
    let failure = check_response(199, "early".to_string()).unwrap_err();
    assert_eq!(failure.status, 199);
    let failure = check_response(300, "moved".to_string()).unwrap_err();
    assert_eq!(failure.status, 300);
    assert_eq!(failure.body, "moved");
}

#[test]
fn an_identity_is_certificate_then_key() {
    assert_eq!(identity_pem(b"cert\n", b"key\n"), b"cert\nkey\n".to_vec());
    assert_eq!(identity_pem(b"", b"key"), b"key".to_vec());
    assert_eq!(identity_pem(b"cert", b""), b"cert".to_vec());
    assert_eq!(identity_pem(b"", b""), Vec::<u8>::new());
}
