use askar_store::keys::{KeyAlg, KeyCategory, KeyEntry, KeyParams, PassKey};
use askar_store::types::{sorted_tags, str_compare, EntryTag, SecretBytes};

#[test]
fn key_params_roundtrip() {
    let params = KeyParams {
        alg: KeyAlg::ED25519,
        metadata: Some("meta".to_string()),
        reference: None,
        pub_key: Some(vec![0, 0, 0, 0]),
        prv_key: Some(SecretBytes::from_vec(vec![1, 1, 1, 1])),
    };
    let enc_params = params.to_vec().unwrap();
    let p2 = KeyParams::from_slice(&enc_params).unwrap();
    assert!(p2 == params);
}

#[test]
fn key_params_roundtrip_escapes() {
    let params = KeyParams {
        alg: KeyAlg::Other("my \"alg\"\n".to_string()),
        metadata: Some("line\tone\\two".to_string()),
        reference: Some("ref/1".to_string()),
        pub_key: None,
        prv_key: None,
    };
    let enc = params.to_vec().unwrap();
    let p2 = KeyParams::from_slice(&enc).unwrap();
    assert!(p2 == params);
}

#[test]
fn key_params_rejects_garbage() {
    assert!(KeyParams::from_slice(b"not json").is_err());
    assert!(KeyParams::from_slice(b"{\"meta\":\"x\"}").is_err());
    assert!(KeyParams::from_slice(b"{\"alg\":[]}").is_err());
}

#[test]
fn key_alg_strings() {
    assert_eq!(KeyAlg::ED25519.as_str(), "ed25519");
    assert_eq!(KeyAlg::Other("bls".to_string()).as_str(), "bls");
    assert!(KeyAlg::from_str("ed25519") == KeyAlg::ED25519);
    assert!(KeyAlg::from_str("bls") == KeyAlg::Other("bls".to_string()));
}

#[test]
fn key_category_strings() {
    assert_eq!(KeyCategory::PublicKey.as_str(), "public");
    assert_eq!(KeyCategory::KeyPair.as_str(), "keypair");
    assert_eq!(KeyCategory::KeyPair.into_string(), "keypair".to_string());
    assert_eq!(
        KeyCategory::Other("misc".to_string()).into_string(),
        "misc".to_string()
    );
    assert!(KeyCategory::from_str("public") == KeyCategory::PublicKey);
    assert!(KeyCategory::from_str("keypair") == KeyCategory::KeyPair);
    assert!(KeyCategory::from_str("misc") == KeyCategory::Other("misc".to_string()));
}

#[test]
fn key_entry_is_local() {
    let mut entry = KeyEntry {
        category: KeyCategory::KeyPair,
        ident: "id".to_string(),
        params: KeyParams {
            alg: KeyAlg::ED25519,
            metadata: None,
            reference: None,
            pub_key: None,
            prv_key: None,
        },
        tags: None,
    };
    assert!(entry.is_local());
    entry.params.reference = Some("external".to_string());
    assert!(!entry.is_local());
}

#[test]
fn key_entry_equality_ignores_tag_order() {
    let make = |tags: Vec<EntryTag>| KeyEntry {
        category: KeyCategory::KeyPair,
        ident: "id".to_string(),
        params: KeyParams {
            alg: KeyAlg::ED25519,
            metadata: None,
            reference: None,
            pub_key: None,
            prv_key: None,
        },
        tags: Some(tags),
    };
    let a = make(vec![
        EntryTag::Plaintext("p".to_string(), "1".to_string()),
        EntryTag::Encrypted("e".to_string(), "2".to_string()),
    ]);
    let b = make(vec![
        EntryTag::Encrypted("e".to_string(), "2".to_string()),
        EntryTag::Plaintext("p".to_string(), "1".to_string()),
    ]);
    assert!(a == b);
    let c = make(vec![EntryTag::Encrypted("e".to_string(), "2".to_string())]);
    assert!(!(a == c));
}

#[test]
fn sorted_tags_orders_encrypted_first() {
    let tags = vec![
        EntryTag::Plaintext("b".to_string(), "2".to_string()),
        EntryTag::Encrypted("c".to_string(), "3".to_string()),
        EntryTag::Plaintext("a".to_string(), "1".to_string()),
    ];
    let sorted = sorted_tags(&tags).unwrap();
    assert!(sorted[0] == EntryTag::Encrypted("c".to_string(), "3".to_string()));
    assert!(sorted[1] == EntryTag::Plaintext("a".to_string(), "1".to_string()));
    assert!(sorted[2] == EntryTag::Plaintext("b".to_string(), "2".to_string()));
    assert!(sorted_tags(&Vec::new()).is_none());
}

#[test]
fn pass_key_states() {
    let absent = PassKey::empty();
    assert!(absent.is_none());
    let k = PassKey::new(Some("secret".to_string()));
    assert!(!k.is_none());
    let copy = k.as_ref();
    assert!(copy == k);
    let owned = k.into_owned();
    assert!(!owned.is_none());
    // an absent pass key reads as the empty string
    assert!(PassKey::empty() == PassKey::new(Some(String::new())));
    let mut z = PassKey::new(Some("wipe me".to_string()));
    z.zeroize();
    assert!(z.is_none());
}

#[test]
fn string_ordering() {
    assert_eq!(str_compare("abc", "abc"), 0);
    assert!(str_compare("abc", "abd") < 0);
    assert!(str_compare("abc", "ab") > 0);
    assert!(str_compare("", "a") < 0);
    assert!(str_compare("B", "a") < 0);
}

#[test]
fn secret_bytes_scrubs() {
    let mut s = SecretBytes::from_vec(vec![9, 9, 9]);
    assert_eq!(s.len(), 3);
    assert!(s.bytes() == &vec![9, 9, 9]);
    s.zeroize();
    assert_eq!(s.len(), 0);
}

#[test]
fn recipient_lists_split_on_commas() {
    let empty: Vec<String> = Vec::new();
    assert_eq!(askar_store::types::split_recipients(""), empty);
    assert_eq!(
        askar_store::types::split_recipients("vk1"),
        vec!["vk1".to_string()]
    );
    assert_eq!(
        askar_store::types::split_recipients("vk1,vk2,vk3"),
        vec!["vk1".to_string(), "vk2".to_string(), "vk3".to_string()]
    );
    // segments before commas are kept as written; a final empty one is dropped
    assert_eq!(
        askar_store::types::split_recipients("a,,b,"),
        vec!["a".to_string(), String::new(), "b".to_string()]
    );
}
