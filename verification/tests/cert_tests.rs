use boring_proxy::cert_manager::{
    ca_init_action, leaf_template, resolve_root, root_template, CaInitAction, CertManager,
    CertName, ExtKeyUsageKind, ExtensionKind, KeyAlgorithm, KeyUsageBit, LeafMaterial,
    RootMaterial, SignatureDigest, CERT_TTL_MS,
};

fn test_root() -> RootMaterial {
    RootMaterial {
        cert_der: vec![0xde, 0xad, 0xbe, 0xef],
        cert_pem: "-----BEGIN CERTIFICATE-----\nAAAA\n-----END CERTIFICATE-----\n".to_string(),
        subject: CertName {
            common_name: "<BORING-PROXY CA>".to_string(),
            organization: "Boring Proxy".to_string(),
        },
    }
}

fn material(leaf: u8, key: u8) -> LeafMaterial {
    LeafMaterial { leaf_der: vec![leaf; 8], key_der: vec![key; 8] }
}

#[test]
fn init_loads_only_when_both_files_present() {
    assert_eq!(ca_init_action(true, true), CaInitAction::LoadExisting);
    assert_eq!(ca_init_action(true, false), CaInitAction::GenerateNew);
    assert_eq!(ca_init_action(false, true), CaInitAction::GenerateNew);
    assert_eq!(ca_init_action(false, false), CaInitAction::GenerateNew);
}

#[test]
fn init_is_idempotent_over_persisted_root() {
    let persisted = test_root();
    let fingerprint = persisted.cert_der.clone();
    let fresh = RootMaterial {
        cert_der: vec![1, 2, 3],
        cert_pem: "other".to_string(),
        subject: CertName {
            common_name: "<BORING-PROXY CA>".to_string(),
            organization: "Boring Proxy".to_string(),
        },
    };
    let resolved = resolve_root(Some(persisted), fresh);
    assert_eq!(resolved.cert_der, fingerprint);
}

#[test]
fn init_uses_fresh_root_when_nothing_persisted() {
    let fresh = test_root();
    let fingerprint = fresh.cert_der.clone();
    let resolved = resolve_root(None, fresh);
    assert_eq!(resolved.cert_der, fingerprint);
}

#[test]
fn leaf_template_is_well_formed() {
    let root = test_root();
    let host = "example.test".to_string();
    let t = leaf_template(&host, &root.subject);
    assert_eq!(t.subject.common_name, "example.test");
    assert_eq!(t.subject.organization, "Boring Proxy");
    assert_eq!(t.issuer.common_name, root.subject.common_name);
    assert_eq!(t.issuer.organization, root.subject.organization);
    assert_eq!(t.key_algorithm, KeyAlgorithm::Rsa);
    assert_eq!(t.key_bits, 4096);
    assert_eq!(t.serial_bits, 159);
    assert_eq!(t.validity_days, 90);
    assert_eq!(t.x509_version, 3);
    assert_eq!(t.signature_digest, SignatureDigest::Sha256);
    assert!(!t.is_ca);
    assert!(!t.basic_constraints_critical);
    assert_eq!(t.san, vec!["example.test".to_string(), "*.example.test".to_string()]);
    assert!(t.key_usage_critical);
    assert_eq!(
        t.key_usage,
        vec![
            KeyUsageBit::DigitalSignature,
            KeyUsageBit::NonRepudiation,
            KeyUsageBit::KeyEncipherment
        ]
    );
    assert!(t.ext_key_usage.contains(&ExtKeyUsageKind::ServerAuth));
    assert!(t.ext_key_usage.contains(&ExtKeyUsageKind::ClientAuth));
    assert_eq!(
        t.extension_order,
        vec![
            ExtensionKind::BasicConstraints,
            ExtensionKind::KeyUsage,
            ExtensionKind::SubjectKeyId,
            ExtensionKind::AuthorityKeyId,
            ExtensionKind::SubjectAltName,
            ExtensionKind::ExtendedKeyUsage
        ]
    );
}

#[test]
fn root_template_is_a_ca() {
    let t = root_template();
    assert_eq!(t.subject.common_name, "<BORING-PROXY CA>");
    assert_eq!(t.issuer.common_name, "<BORING-PROXY CA>");
    assert!(t.is_ca);
    assert!(t.basic_constraints_critical);
    assert_eq!(t.key_algorithm, KeyAlgorithm::Rsa);
    assert_eq!(t.key_bits, 4096);
    assert_eq!(t.x509_version, 3);
    assert_eq!(t.signature_digest, SignatureDigest::Sha256);
    assert!(t.key_usage_critical);
    assert_eq!(t.key_usage, vec![KeyUsageBit::KeyCertSign, KeyUsageBit::CrlSign]);
    assert!(t.san.is_empty());
    assert!(t.ext_key_usage.is_empty());
}

#[test]
fn mint_returns_leaf_and_root_chain() {
    let root = test_root();
    let root_der = root.cert_der.clone();
    let mut mgr = CertManager::new(root);
    let (chain, key) = mgr.get_or_create_cert(&"x.test".to_string(), 1000, material(7, 9));
    assert_eq!(chain.len(), 2);
    assert_eq!(chain[0], vec![7; 8]);
    assert_eq!(chain[1], root_der);
    assert_eq!(key, vec![9; 8]);
}

#[test]
fn mint_deduplicates_concurrent_material() {
    let mut mgr = CertManager::new(test_root());
    let host = "x.test".to_string();
    let (first_chain, first_key) = mgr.get_or_create_cert(&host, 0, material(1, 2));
    for round in 0..32u8 {
        let (chain, key) = mgr.get_or_create_cert(&host, 0, material(round + 10, round + 50));
        assert_eq!(chain, first_chain);
        assert_eq!(key, first_key);
    }
}

#[test]
fn mint_per_host_is_independent() {
    let mut mgr = CertManager::new(test_root());
    let (chain_a, _) = mgr.get_or_create_cert(&"a.test".to_string(), 0, material(1, 2));
    let (chain_b, _) = mgr.get_or_create_cert(&"b.test".to_string(), 0, material(3, 4));
    assert_eq!(chain_a[0], vec![1; 8]);
    assert_eq!(chain_b[0], vec![3; 8]);
}

#[test]
fn cached_cert_expires_with_ttl() {
    let mut mgr = CertManager::new(test_root());
    let host = "x.test".to_string();
    let _ = mgr.get_or_create_cert(&host, 0, material(1, 2));
    assert!(mgr.cached_cert(&host, CERT_TTL_MS - 1).is_some());
    assert!(mgr.cached_cert(&host, CERT_TTL_MS).is_none());
    let (chain, _) = mgr.get_or_create_cert(&host, CERT_TTL_MS, material(5, 6));
    assert_eq!(chain[0], vec![5; 8]);
}

#[test]
fn ca_pem_is_returned_verbatim() {
    let root = test_root();
    let pem = root.cert_pem.clone();
    let mgr = CertManager::new(root);
    assert_eq!(mgr.get_ca_cert_pem(), pem);
}
