//! The authority of the proxy and the certificates that it signs.

use aiwork::device_proxy::ca::{
    ca_error, ca_plan, ensure_ca, files_to_write, generate_ca, leaf_of, leaf_plan, load_ca, made_of,
    make_leaf, may_sign, CaFault, CaSource, KeyUse,
};
use base64::Engine;
use rcgen::{CertificateParams, DnType, DnValue, IsCa, KeyPair, PublicKeyData};
use tokio_rustls::rustls::pki_types::{CertificateDer, PrivateKeyDer};
use tokio_rustls::rustls::ServerConfig;

const NOW: i64 = 1_700_000_000;

fn holds(bytes: &[u8], part: &[u8]) -> bool {
    bytes.windows(part.len()).any(|w| w == part)
}

fn pem(label: &str, der: &[u8]) -> String {
    let text = base64::engine::general_purpose::STANDARD.encode(der);
    let lines: Vec<&str> = text.as_bytes().chunks(64).map(|c| std::str::from_utf8(c).unwrap()).collect();
    format!("-----BEGIN {label}-----\n{}\n-----END {label}-----\n", lines.join("\n"))
}

fn server_config(leaf: (Vec<u8>, Vec<u8>)) -> ServerConfig {
    let provider = tokio_rustls::rustls::crypto::aws_lc_rs::default_provider();
    let mut cfg = ServerConfig::builder_with_provider(std::sync::Arc::new(provider))
        .with_safe_default_protocol_versions()
        .unwrap()
        .with_no_client_auth()
        .with_single_cert(vec![CertificateDer::from(leaf.0)], PrivateKeyDer::try_from(leaf.1).unwrap())
        .unwrap();
    cfg.alpn_protocols = vec![b"http/1.1".to_vec()];
    cfg
}

#[test]
fn generated_ca_roundtrip_and_leaf() {
    assert_eq!(ensure_ca(false, false), CaSource::Generate);
    let made = generate_ca(NOW, 7).expect("ensure_ca should generate");
    let (cert, key) = (made.cert_pem.clone(), made.key_pem.clone());
    let files = files_to_write(made);
    let file = |n: &str| files.iter().find(|f| f.name == n);
    assert!(file("ca.crt").is_some());
    assert!(file("ca.key").is_some());
    assert!(file("ca.cer").is_some());
    assert_eq!(ensure_ca(true, true), CaSource::Load);
    let cert2 = String::from_utf8(file("ca.crt").unwrap().bytes.clone()).unwrap();
    let key2 = String::from_utf8(file("ca.key").unwrap().bytes.clone()).unwrap();
    load_ca(&cert2, &key2).expect("reload");
    let _ = server_config(make_leaf(&cert2, &key2, "api.trae.cn", NOW, 8).unwrap());

    let cfg = server_config(make_leaf(&cert, &key, "api.trae.cn", NOW, 9).unwrap());
    assert!(!cfg.alpn_protocols.is_empty());
}

#[test]
fn plans_say_what_certificates_hold() {
    let leaf = leaf_plan("api.trae.cn", NOW, 5);
    assert_eq!(leaf.common_name, "api.trae.cn");
    assert_eq!(leaf.names, vec!["api.trae.cn"]);
    assert_eq!((leaf.not_before, leaf.not_after), (1_699_913_600, 2_015_273_600));
    assert!(!leaf.authority && leaf.uses.is_empty() && leaf.names_authority_key && leaf.serial == 5);
    let ca = ca_plan(NOW, 6);
    assert_eq!(ca.common_name, "TraeDeviceProxyCA");
    assert!(ca.names.is_empty());
    assert_eq!((ca.not_before, ca.not_after), (1_699_913_600, 2_015_360_000));
    assert_eq!(ca.uses, vec![KeyUse::Certificates, KeyUse::Revocations]);
    assert!(ca.authority && !ca.names_authority_key && ca.serial == 6);
}

#[test]
fn certificates_hold_what_the_plans_say() {
    let made = generate_ca(NOW, 0x0102_0304_0506_0708).unwrap();
    let der = &made.cert_der;
    assert!(holds(der, b"TraeDeviceProxyCA"));
    assert!(holds(der, b"231113221320Z") && holds(der, b"331111221320Z"));
    assert!(holds(der, &[2, 8, 1, 2, 3, 4, 5, 6, 7, 8]));
    // basic constraints with the flag of an authority, and the two uses of its key
    assert!(holds(der, &[0x55, 0x1d, 0x13, 1, 1, 0xff, 4, 5, 0x30, 3, 1, 1, 0xff]));
    assert!(holds(der, &[0x55, 0x1d, 0x0f, 1, 1, 0xff, 4, 4, 3, 2, 1, 6]));
    let (leaf, key) = make_leaf(&made.cert_pem, &made.key_pem, "a.trae.cn", NOW, 0x1122_3344).unwrap();
    assert!(holds(&leaf, b"a.trae.cn") && holds(&leaf, b"TraeDeviceProxyCA"));
    assert!(holds(&leaf, b"231113221320Z") && holds(&leaf, b"331110221320Z"));
    assert!(holds(&leaf, &[2, 4, 0x11, 0x22, 0x33, 0x44]));
    // the names of the subject, the key of the authority, and no constraints
    assert!(holds(&leaf, &[0x55, 0x1d, 0x11]) && holds(&leaf, &[0x55, 0x1d, 0x23]));
    assert!(!holds(&leaf, &[0x55, 0x1d, 0x13]));
    let pair = KeyPair::from_pem(&made.key_pem).unwrap();
    assert_eq!(key, pair.serialize_der());
    assert!(holds(&leaf, pair.der_bytes()));
    let ip = make_leaf(&made.cert_pem, &made.key_pem, "127.0.0.1", NOW, 1).unwrap();
    assert!(holds(&ip.0, &[0x87, 4, 127, 0, 0, 1]));
}

#[test]
fn two_authorities_differ() {
    let a = generate_ca(NOW, 1).unwrap();
    let b = generate_ca(NOW, 1).unwrap();
    assert_ne!(a.key_pem, b.key_pem);
    assert_ne!(a.cert_der, b.cert_der);
}

#[test]
fn keys_of_the_older_form_are_loaded() {
    let rsa = KeyPair::generate_rsa_for(&rcgen::PKCS_RSA_SHA256, rcgen::RsaKeySize::_2048).unwrap();
    let mut params = CertificateParams::default();
    params.distinguished_name.push(DnType::CommonName, "TraeDeviceProxyCA");
    params.is_ca = IsCa::Ca(rcgen::BasicConstraints::Unconstrained);
    let cert_pem = params.self_signed(&rsa).unwrap().pem();
    let der = rsa.serialize_der();
    // the key itself begins after the header of 26 bytes
    assert_eq!(der[26], 0x30);
    let key_pem = pem("RSA PRIVATE KEY", &der[26..]);
    assert_eq!(load_ca(&cert_pem, &key_pem), Ok(()));
    let leaf = make_leaf(&cert_pem, &key_pem, "api.trae.cn", NOW, 1).unwrap();
    assert_eq!(leaf.1, der[26..].to_vec());
    let _ = server_config(leaf);
}

#[test]
fn what_is_no_authority_is_refused_key_first() {
    let made = generate_ca(NOW, 1).unwrap();
    let e = load_ca("x", "y").unwrap_err();
    assert!(e.starts_with("解析 CA 私钥失败: "), "{e}");
    assert!(load_ca(&made.cert_pem, &made.cert_pem).unwrap_err().starts_with("解析 CA 私钥失败: "));
    assert_eq!(load_ca("x", &made.key_pem), Err("解析 CA 证书失败: Could not parse certificate".to_string()));
    assert_eq!(
        make_leaf("x", &made.key_pem, "h", NOW, 1),
        Err("解析 CA 证书失败: Could not parse certificate".to_string())
    );
    assert_eq!(make_leaf("x", "y", "h", NOW, 1), Err(e));
}

#[test]
fn errors_say_where_an_authority_is_not_had() {
    assert_eq!(ca_error(CaFault::MakeKey, "x"), "生成 CA 密钥失败: x");
    assert_eq!(ca_error(CaFault::Sign, "x"), "自签 CA 失败: x");
    assert_eq!(ca_error(CaFault::ReadBack, "x"), "构建 CA 签发器失败: x");
    assert_eq!(ca_error(CaFault::ReadKey, "x"), "解析 CA 私钥失败: x");
    assert_eq!(ca_error(CaFault::ReadCert, "x"), "解析 CA 证书失败: x");
    assert_eq!(leaf_of(Ok(vec![1]), vec![2]), Ok((vec![1], vec![2])));
    assert_eq!(
        leaf_of(Err("x".to_string()), vec![2]),
        Err("failed to sign leaf certificate: x".to_string())
    );
}

#[test]
fn hosts_are_ascii() {
    let made = generate_ca(NOW, 1).unwrap();
    assert_eq!(
        make_leaf(&made.cert_pem, &made.key_pem, "主机", NOW, 1),
        Err("leaf certificate params".to_string())
    );
}

fn authority(kind: DnType, name: DnValue, from: &[u8], to: &[u8]) -> (String, String) {
    let key = KeyPair::generate().unwrap();
    let mut params = CertificateParams::default();
    params.distinguished_name.push(kind, name);
    let mut der = params.self_signed(&key).unwrap().der().to_vec();
    let n = from.len();
    for i in 0..der.len() - n {
        if &der[i..i + n] == from {
            der[i..i + n].copy_from_slice(to);
        }
    }
    (pem("CERTIFICATE", &der), key.serialize_pem())
}

#[test]
fn subjects_that_cannot_be_written_sign_nothing() {
    let odd = Err("authority subject cannot be written".to_string());
    let text = |t: &str| DnValue::PrintableString(t.try_into().unwrap());
    let cn = DnType::CommonName;
    let (cert, key) = authority(cn.clone(), text("What.now"), b"What.now", b"What?now");
    assert_eq!(load_ca(&cert, &key), Ok(()));
    assert_eq!(make_leaf(&cert, &key, "h", NOW, 1), odd);
    let (cert, key) = authority(cn.clone(), text("What.now"), b"", b"");
    assert!(make_leaf(&cert, &key, "h", NOW, 1).is_ok());
    let (cert, key) = authority(cn, DnValue::Utf8String("What?".to_string()), b"", b"");
    assert!(make_leaf(&cert, &key, "h", NOW, 1).is_ok());
    let tricky = "CustomDnType([9 \" PrintableString(\"?\") \\";
    let (cert, key) = authority(DnType::CommonName, DnValue::Utf8String(tricky.to_string()), b"", b"");
    assert!(make_leaf(&cert, &key, "h", NOW, 1).is_ok());
    let mail = || DnType::CustomDnType(vec![1, 2, 840, 113549, 1, 9, 1]);
    let (cert, key) = authority(mail(), text("m"), b"", b"");
    assert!(make_leaf(&cert, &key, "h", NOW, 1).is_ok());
    let oid = [0x2a, 0x86, 0x48, 0x86, 0xf7, 0x0d, 1, 9, 1];
    let other = [0x88, 0x37, 0x48, 0x86, 0xf7, 0x0d, 1, 9, 1];
    let (cert, key) = authority(mail(), text("m"), &oid, &other);
    assert_eq!(load_ca(&cert, &key), Ok(()));
    assert_eq!(make_leaf(&cert, &key, "h", NOW, 1), odd);
}

#[test]
fn an_authority_signs_by_how_it_is_shown() {
    let odd = Err("authority subject cannot be written".to_string());
    assert_eq!(may_sign(""), Ok(()));
    assert_eq!(may_sign("PrintableString(\"a?\")"), odd);
    assert_eq!(may_sign("PrintableString(\"a\"), Utf8String(\"?\")"), Ok(()));
    assert_eq!(may_sign("CustomDnType([3, 1])"), odd);
    assert_eq!(may_sign("CustomDnType([2])"), odd);
    assert_eq!(may_sign("CustomDnType([2, 5])"), Ok(()));
    assert_eq!(may_sign("Utf8String(\"CustomDnType([9\")"), Ok(()));
    assert_eq!(may_sign("Utf8String(\"\\\"\"), CustomDnType([9, 1])"), odd);
    assert_eq!(may_sign("Utf8String(\"\\\\\"), CustomDnType([9, 1])"), odd);
}

#[test]
fn an_authority_is_made_where_its_certificate_reads_back() {
    let a = generate_ca(NOW, 1).unwrap();
    let (cert, key, der) = (a.cert_pem.clone(), a.key_pem.clone(), a.cert_der.clone());
    let made = made_of(a.key_pem, a.cert_pem, a.cert_der).unwrap();
    assert_eq!((&made.cert_pem, &made.key_pem, &made.cert_der), (&cert, &key, &der));
    match made_of(key, "x".to_string(), der) {
        Err(e) => assert_eq!(e, "构建 CA 签发器失败: Could not parse certificate"),
        Ok(_) => panic!("no certificate"),
    }
}
