use std::path::PathBuf;

use lightbulb::tls::{
    acme_common_name, redirect_target, AcmeChallengeHandler, CertError, CertificateManager,
    CertificateSource, ChallengeReply, TlsConfig,
};

fn self_signed(enabled: bool, force_https: bool, bind: Option<&str>) -> TlsConfig {
    TlsConfig {
        enabled,
        cert_source: CertificateSource::SelfSigned {
            common_name: "test".to_string(),
            san_list: vec![],
            cert_dir: PathBuf::from("/tmp"),
        },
        https_bind_address: bind.map(|s| s.to_string()),
        force_https,
    }
}

#[test]
fn test_https_bind_address() {
    let manager = CertificateManager::new(self_signed(true, false, None));
    assert_eq!(manager.https_bind_address("0.0.0.0:8080"), "0.0.0.0:8443");
    assert_eq!(manager.https_bind_address("0.0.0.0:80"), "0.0.0.0:443");
    assert_eq!(manager.https_bind_address("0.0.0.0:3000"), "0.0.0.0:8443");
}

#[test]
fn bind_address_edge_cases_follow_string_replacement() {
    let manager = CertificateManager::new(self_signed(true, false, None));
    // Every occurrence is replaced, and ":80" matches inside ":8000".
    assert_eq!(manager.https_bind_address("a:8080,b:8080"), "a:8443,b:8443");
    assert_eq!(manager.https_bind_address("h:8000"), "h:44300");
    assert_eq!(manager.https_bind_address("localhost"), "localhost:8443");
    assert_eq!(manager.https_bind_address(""), ":8443");
    let configured = CertificateManager::new(self_signed(true, false, Some("1.2.3.4:9443")));
    assert_eq!(configured.https_bind_address("0.0.0.0:8080"), "1.2.3.4:9443");
}

#[test]
fn test_should_force_https() {
    let manager = CertificateManager::new(self_signed(true, false, None));
    assert!(!manager.should_force_https());

    let config_force = TlsConfig { enabled: true, force_https: true, ..Default::default() };
    let manager_force = CertificateManager::new(config_force);
    assert!(manager_force.should_force_https());

    let disabled = CertificateManager::new(self_signed(false, true, None));
    assert!(!disabled.should_force_https());
}

#[test]
fn test_disabled_tls_serves_no_certificate() {
    let config = TlsConfig { enabled: false, ..Default::default() };
    let manager = CertificateManager::new(config);
    assert!(manager.server_source().is_none());
    let on = CertificateManager::new(self_signed(true, false, None));
    assert!(matches!(on.server_source(), Some(CertificateSource::SelfSigned { .. })));
}

#[test]
fn default_config_is_self_signed_for_localhost() {
    let d = TlsConfig::default();
    assert!(!d.enabled && !d.force_https && d.https_bind_address.is_none());
    match d.cert_source {
        CertificateSource::SelfSigned { common_name, san_list, cert_dir } => {
            assert_eq!(common_name, "localhost");
            assert_eq!(san_list, vec!["127.0.0.1".to_string(), "::1".to_string()]);
            assert_eq!(cert_dir, PathBuf::from("./certs"));
        }
        _ => panic!("expected a self-signed source"),
    }
}

fn now_secs() -> u64 {
    std::time::SystemTime::now().duration_since(std::time::UNIX_EPOCH).unwrap().as_secs()
}

#[test]
fn test_certificate_validation() {
    let certified = rcgen::generate_simple_self_signed(vec!["validation.test".to_string()]).unwrap();
    let pem = certified.cert.pem();
    let manager = CertificateManager::new(self_signed(true, false, None));
    // rcgen's default validity ends in the year 4096.
    assert!(matches!(manager.is_certificate_valid(pem.as_bytes(), now_secs()), Ok(true)));
    // Within thirty days of that end it is due for renewal.
    let near_end: u64 = 67_090_118_400 - 10 * 24 * 3600;
    assert!(matches!(manager.is_certificate_valid(pem.as_bytes(), near_end), Ok(false)));
    // CRLF line endings read the same.
    let crlf = pem.replace('\n', "\r\n");
    assert!(matches!(manager.is_certificate_valid(crlf.as_bytes(), now_secs()), Ok(true)));
}

#[test]
fn malformed_certificates_are_errors() {
    let manager = CertificateManager::new(self_signed(true, false, None));
    assert!(matches!(manager.is_certificate_valid(&[0xff, 0xfe], 0), Err(CertError::InvalidUtf8)));
    let not_b64 = "-----BEGIN CERTIFICATE-----\n!!!\n-----END CERTIFICATE-----\n";
    assert!(matches!(manager.is_certificate_valid(not_b64.as_bytes(), 0), Err(CertError::BadBase64)));
    let not_der = "-----BEGIN CERTIFICATE-----\naGVsbG8=\n-----END CERTIFICATE-----\n";
    assert!(matches!(
        manager.is_certificate_valid(not_der.as_bytes(), 0),
        Err(CertError::BadCertificate(_))
    ));
}

#[test]
fn redirect_targets_keep_authority_path_and_query() {
    assert_eq!(
        redirect_target(false, false, Some("example.com"), Some("/test")).as_deref(),
        Some("https://example.com/test")
    );
    assert_eq!(redirect_target(true, false, Some("example.com"), Some("/test")), None);
    assert_eq!(redirect_target(false, true, Some("example.com"), Some("/test")), None);
    assert_eq!(
        redirect_target(false, false, Some("api.example.com"), Some("/api/endpoint?key=value&foo=bar"))
            .as_deref(),
        Some("https://api.example.com/api/endpoint?key=value&foo=bar")
    );
    assert_eq!(redirect_target(false, false, None, None).as_deref(), Some("https://localhost/"));
}

#[test]
fn acme_challenges_are_stored_answered_and_removed() {
    let mut h = AcmeChallengeHandler::new();
    h.add_challenge("tok1".to_string(), "auth1".to_string());
    h.add_challenge("tok2".to_string(), "auth2".to_string());
    h.add_challenge("tok1".to_string(), "auth1b".to_string());
    assert_eq!(h.get_challenge("tok1").as_deref(), Some("auth1b"));
    assert_eq!(h.get_challenge("tok2").as_deref(), Some("auth2"));
    assert!(matches!(
        h.challenge_reply("/.well-known/acme-challenge/tok2"),
        ChallengeReply::Found(a) if a == "auth2"
    ));
    assert!(matches!(h.challenge_reply("/.well-known/acme-challenge/zzz"), ChallengeReply::NotFound));
    assert!(matches!(h.challenge_reply("/index.html"), ChallengeReply::NotAChallenge));
    h.remove_challenge("tok1");
    assert_eq!(h.get_challenge("tok1"), None);
    assert_eq!(h.get_challenge("tok2").as_deref(), Some("auth2"));
    h.remove_challenge("never-there");
    assert_eq!(h.get_challenge("tok2").as_deref(), Some("auth2"));
}

#[test]
fn acme_falls_back_to_the_first_domain_or_localhost() {
    assert_eq!(acme_common_name(&["a.example".to_string(), "b.example".to_string()]), "a.example");
    assert_eq!(acme_common_name(&[]), "localhost");
}
