use askar_store::cache::{KeyCache, StoreKey};
use askar_store::error::ErrorKind;
use askar_store::keys::{KeyAlg, KeyCategory, KeyEntry, KeyParams, PassKey};
use askar_store::kms::{
    create_keypair, export_key_entry, fetch_key, pack_message, sign_message, unpack_message,
    update_key,
};
use indy_utils::keys::{KeyType, VerKey};
use askar_store::registry::{EntrySetHandle, Registry};
use askar_store::store::{EntrySet, Store};
use askar_store::types::{EntryTag, SecretBytes};
use askar_store::wrap::WrapKeyMethod;

const NOW: i64 = 1_000;

#[test]
fn registry_handles_are_fresh_and_nonzero() {
    let mut reg: Registry<u32> = Registry::new();
    assert_eq!(Registry::<u32>::invalid_handle(), 0);
    let h1 = reg.create(10);
    let h2 = reg.create(20);
    assert_ne!(h1, 0);
    assert_ne!(h2, 0);
    assert_ne!(h1, h2);
    let unknown = reg.borrow(777).unwrap_err();
    assert!(unknown.kind() == ErrorKind::NotFound);
}

#[test]
fn concurrent_borrow_reports_busy() {
    let mut reg: Registry<u32> = Registry::new();
    let h = reg.create(5);
    let v = reg.borrow(h).unwrap();
    assert_eq!(v, 5);
    // a second checkout while the first is outstanding
    let busy = reg.borrow(h).unwrap_err();
    assert!(busy.kind() == ErrorKind::Busy);
    reg.release(h, v).unwrap();
    assert_eq!(reg.borrow(h).unwrap(), 5);
}

#[test]
fn remove_with_outstanding_borrow_reports_busy() {
    let mut reg: Registry<u32> = Registry::new();
    let h = reg.create(5);
    let v = reg.borrow(h).unwrap();
    // the removal is refused as busy, but the handle is gone all the
    // same: the outstanding borrower cannot put the value back
    let busy = reg.remove(h).unwrap_err();
    assert!(busy.kind() == ErrorKind::Busy);
    let stale = reg.release(h, v).unwrap_err();
    assert!(stale.kind() == ErrorKind::NotFound);
    let gone = reg.remove(h).unwrap_err();
    assert!(gone.kind() == ErrorKind::NotFound);

    // an unborrowed slot is removed with its value handed back
    let h2 = reg.create(7);
    assert_eq!(reg.remove(h2).unwrap(), 7);
}

fn provisioned() -> Store {
    Store::provision(
        WrapKeyMethod::default_method(),
        PassKey::new(Some("password".to_string())),
        None,
    )
    .unwrap()
}

#[test]
fn keypair_round_trip() {
    let mut store = provisioned();
    let sess = store.session(None, false).unwrap();
    let seed = vec![7u8; 32];
    let entry = create_keypair(
        &mut store,
        &sess,
        KeyAlg::ED25519,
        Some("my key".to_string()),
        Some(seed.clone()),
        Some(vec![EntryTag::Plaintext("use".to_string(), "sign".to_string())]),
    )
    .unwrap();
    assert!(!entry.ident.is_empty());
    assert!(entry.is_local());

    let fetched = fetch_key(&store, &sess, KeyCategory::KeyPair, &entry.ident, false, NOW)
        .unwrap()
        .unwrap();
    assert!(fetched.params == entry.params);
    assert_eq!(fetched.ident, entry.ident);

    // the same seed deterministically gives the same identifier
    let mut store2 = provisioned();
    let sess2 = store2.session(None, false).unwrap();
    let entry2 = create_keypair(&mut store2, &sess2, KeyAlg::ED25519, None, Some(seed), None)
        .unwrap();
    assert_eq!(entry2.ident, entry.ident);
}

#[test]
fn keypair_rejections() {
    let mut store = provisioned();
    let sess = store.session(None, false).unwrap();
    let unsupported = match create_keypair(
        &mut store,
        &sess,
        KeyAlg::Other("bls".to_string()),
        None,
        None,
        None,
    ) {
        Ok(_) => panic!("an unsupported algorithm must be rejected"),
        Err(e) => e,
    };
    assert!(unsupported.kind() == ErrorKind::Unsupported);

    let seed = vec![9u8; 32];
    create_keypair(&mut store, &sess, KeyAlg::ED25519, None, Some(seed.clone()), None).unwrap();
    let dup = match create_keypair(&mut store, &sess, KeyAlg::ED25519, None, Some(seed), None) {
        Ok(_) => panic!("a repeated identifier must be rejected"),
        Err(e) => e,
    };
    assert!(dup.kind() == ErrorKind::Duplicate);

    let missing = fetch_key(&store, &sess, KeyCategory::KeyPair, &"nope".to_string(), false, NOW)
        .unwrap();
    assert!(missing.is_none());
}

#[test]
fn update_key_changes_metadata_only() {
    let mut store = provisioned();
    let sess = store.session(None, false).unwrap();
    let seed = vec![3u8; 32];
    let entry = create_keypair(&mut store, &sess, KeyAlg::ED25519, None, Some(seed), None)
        .unwrap();
    update_key(
        &mut store,
        &sess,
        KeyCategory::KeyPair,
        &entry.ident,
        Some("annotated".to_string()),
        None,
        NOW,
    )
    .unwrap();
    let fetched = fetch_key(&store, &sess, KeyCategory::KeyPair, &entry.ident, false, NOW)
        .unwrap()
        .unwrap();
    assert_eq!(fetched.params.metadata, Some("annotated".to_string()));
    assert!(fetched.params.pub_key == entry.params.pub_key);
    assert!(fetched.params.prv_key == entry.params.prv_key);

    let missing = update_key(
        &mut store,
        &sess,
        KeyCategory::KeyPair,
        &"nope".to_string(),
        None,
        None,
        NOW,
    )
    .unwrap_err();
    assert!(missing.kind() == ErrorKind::NotFound);
}

#[test]
fn signing_is_deterministic_and_verifies() {
    let mut store = provisioned();
    let sess = store.session(None, false).unwrap();
    let entry = create_keypair(&mut store, &sess, KeyAlg::ED25519, None, Some(vec![1u8; 32]), None)
        .unwrap();
    let message = b"hello".to_vec();
    let sig1 = sign_message(&store, &sess, &entry.ident, &message, NOW).unwrap();
    let sig2 = sign_message(&store, &sess, &entry.ident, &message, NOW).unwrap();
    assert_eq!(sig1, sig2);
    assert_eq!(sig1.len(), 64);
    let pk = entry.params.pub_key.clone().unwrap();
    let verkey = VerKey::new(&pk, Some(KeyType::ED25519));
    assert!(verkey.verify_signature(&message, &sig1).unwrap());
    // a wrong message is refused, whether by a false result or an error
    assert!(!verkey.verify_signature(b"other", &sig1).unwrap_or(false));

    let missing = sign_message(&store, &sess, &"nope".to_string(), &message, NOW).unwrap_err();
    assert!(missing.kind() == ErrorKind::NotFound);
}

#[test]
fn entry_set_handles() {
    assert_eq!(EntrySetHandle::invalid().value(), 0);
    assert_eq!(EntrySetHandle::from_value(7).value(), 7);
    assert!(EntrySetHandle::invalid() == EntrySetHandle::from_value(0));
}

#[test]
fn export_key_entry_serializes_params() {
    let entry = KeyEntry {
        category: KeyCategory::KeyPair,
        ident: "abc".to_string(),
        params: KeyParams {
            alg: KeyAlg::ED25519,
            metadata: Some("m".to_string()),
            reference: None,
            pub_key: Some(vec![1, 2, 3]),
            prv_key: None,
        },
        tags: None,
    };
    let exported = export_key_entry(entry).unwrap();
    assert_eq!(exported.category, "keypair");
    assert_eq!(exported.name, "abc");
    let round = KeyParams::from_slice(&exported.value).unwrap();
    assert_eq!(round.metadata, Some("m".to_string()));
    assert_eq!(round.pub_key, Some(vec![1, 2, 3]));
}

fn bundle(fill: u8) -> StoreKey {
    StoreKey {
        category: SecretBytes::from_vec(vec![fill; 32]),
        name: SecretBytes::from_vec(vec![fill; 32]),
        value: SecretBytes::from_vec(vec![fill; 32]),
        tag_name: SecretBytes::from_vec(vec![fill; 32]),
        tag_value: SecretBytes::from_vec(vec![fill; 32]),
        tags_hmac: SecretBytes::from_vec(vec![fill; 32]),
    }
}

#[test]
fn key_cache_single_decrypt_per_profile() {
    let mut cache = KeyCache::new(SecretBytes::from_vec(vec![1; 32]));
    assert!(cache.add_profile("default".to_string(), 1, bundle(2)));
    assert!(cache.add_profile("other".to_string(), 2, bundle(3)));
    // a second decrypt of the same profile is not stored
    assert!(!cache.add_profile("default".to_string(), 9, bundle(4)));
    assert_eq!(cache.len(), 2);
    let (id, sk) = cache.get_profile(&"default".to_string()).unwrap();
    assert_eq!(id, 1);
    assert_eq!(sk.category.len(), 32);
    assert!(cache.get_profile(&"missing".to_string()).is_none());
    cache.clear();
    assert_eq!(cache.len(), 0);
}

#[test]
fn pack_and_unpack_round_trip() {
    let mut store = provisioned();
    let sess = store.session(None, false).unwrap();
    let alice = create_keypair(&mut store, &sess, KeyAlg::ED25519, None, Some(vec![11u8; 32]), None)
        .unwrap();
    let bob = create_keypair(&mut store, &sess, KeyAlg::ED25519, None, Some(vec![22u8; 32]), None)
        .unwrap();
    let message = b"hello".to_vec();

    // authenticated envelope: the recipient learns the sender
    let packed = pack_message(
        &store,
        &sess,
        &vec![bob.ident.clone()],
        Some(&alice.ident),
        &message,
        NOW,
    )
    .unwrap();
    let (opened, recipient, sender) = unpack_message(&store, &sess, &packed, NOW).unwrap();
    assert_eq!(opened, message);
    assert_eq!(recipient, bob.ident);
    assert_eq!(sender, Some(alice.ident.clone()));

    // anonymous envelope: no sender is reported
    let packed2 = pack_message(&store, &sess, &vec![bob.ident.clone()], None, &message, NOW)
        .unwrap();
    let (opened2, recipient2, sender2) = unpack_message(&store, &sess, &packed2, NOW).unwrap();
    assert_eq!(opened2, message);
    assert_eq!(recipient2, bob.ident);
    assert_eq!(sender2, None);
}

#[test]
fn pack_and_unpack_rejections() {
    let mut store = provisioned();
    let sess = store.session(None, false).unwrap();
    let bob = create_keypair(&mut store, &sess, KeyAlg::ED25519, None, Some(vec![22u8; 32]), None)
        .unwrap();
    let message = b"hello".to_vec();

    // an empty recipient list is an input error
    let empty = pack_message(&store, &sess, &Vec::new(), None, &message, NOW).unwrap_err();
    assert!(empty.kind() == ErrorKind::Input);
    // an unknown sender key is not found
    let missing = pack_message(
        &store,
        &sess,
        &vec![bob.ident.clone()],
        Some(&"nope".to_string()),
        &message,
        NOW,
    )
    .unwrap_err();
    assert!(missing.kind() == ErrorKind::NotFound);

    // a store without the recipient key cannot open the envelope
    let packed = pack_message(&store, &sess, &vec![bob.ident.clone()], None, &message, NOW)
        .unwrap();
    let mut stranger = provisioned();
    let stranger_sess = stranger.session(None, false).unwrap();
    create_keypair(&mut stranger, &stranger_sess, KeyAlg::ED25519, None, Some(vec![33u8; 32]), None)
        .unwrap();
    let denied = unpack_message(&stranger, &stranger_sess, &packed, NOW).unwrap_err();
    assert!(denied.kind() == ErrorKind::Encryption);
    // garbage is refused the same way
    let garbage = unpack_message(&store, &sess, &b"not an envelope".to_vec(), NOW).unwrap_err();
    assert!(garbage.kind() == ErrorKind::Encryption);
}

#[test]
fn key_entry_accessors() {
    let entry = KeyEntry {
        category: KeyCategory::KeyPair,
        ident: "abc".to_string(),
        params: KeyParams {
            alg: KeyAlg::ED25519,
            metadata: None,
            reference: None,
            pub_key: Some(vec![1, 2, 3]),
            prv_key: Some(SecretBytes::from_vec(vec![4, 5, 6])),
        },
        tags: None,
    };
    assert_eq!(entry.verkey().unwrap(), vec![1, 2, 3]);
    assert!(!entry.encoded_verkey().unwrap().is_empty());
    assert!(entry.private_key().unwrap().bytes() == &vec![4, 5, 6]);

    let bare = KeyEntry {
        category: KeyCategory::KeyPair,
        ident: "abc".to_string(),
        params: KeyParams {
            alg: KeyAlg::ED25519,
            metadata: None,
            reference: None,
            pub_key: None,
            prv_key: None,
        },
        tags: None,
    };
    assert!(bare.verkey().unwrap_err().kind() == ErrorKind::Input);
    let bare_prv = match bare.private_key() {
        Ok(_) => panic!("a key without private material must be refused"),
        Err(e) => e,
    };
    assert!(bare_prv.kind() == ErrorKind::Input);

    let odd = KeyEntry {
        category: KeyCategory::KeyPair,
        ident: "abc".to_string(),
        params: KeyParams {
            alg: KeyAlg::Other("bls".to_string()),
            metadata: None,
            reference: None,
            pub_key: Some(vec![1]),
            prv_key: Some(SecretBytes::from_vec(vec![2])),
        },
        tags: None,
    };
    assert!(odd.verkey().unwrap_err().kind() == ErrorKind::Unsupported);
    assert!(odd.encoded_verkey().unwrap_err().kind() == ErrorKind::Unsupported);
    let odd_prv = match odd.private_key() {
        Ok(_) => panic!("an unsupported algorithm must be refused"),
        Err(e) => e,
    };
    assert!(odd_prv.kind() == ErrorKind::Unsupported);
}

#[test]
fn entry_set_cursor_yields_in_order() {
    let rows = vec![
        askar_store::types::Entry::new("c".to_string(), "a".to_string(), vec![1], None),
        askar_store::types::Entry::new("c".to_string(), "b".to_string(), vec![2], None),
    ];
    let mut set = EntrySet::new(rows);
    assert_eq!(set.next().unwrap().name, "a");
    assert_eq!(set.next().unwrap().name, "b");
    assert!(set.next().is_none());
}

#[test]
fn stored_key_error_kinds() {
    let mut store = provisioned();
    let sess = store.session(None, false).unwrap();

    // a stored key of another algorithm is refused for signing
    let odd_params = KeyParams {
        alg: KeyAlg::Other("bls".to_string()),
        metadata: None,
        reference: None,
        pub_key: Some(vec![1, 2, 3]),
        prv_key: Some(SecretBytes::from_vec(vec![4, 5, 6])),
    };
    let value = odd_params.to_vec().unwrap();
    store
        .update(
            &sess,
            askar_store::types::EntryOperation::Insert,
            "keypair".to_string(),
            "odd".to_string(),
            Some(value),
            None,
            None,
        )
        .unwrap();
    let unsupported = sign_message(&store, &sess, &"odd".to_string(), &b"m".to_vec(), NOW)
        .unwrap_err();
    assert!(unsupported.kind() == ErrorKind::Unsupported);

    // a keypair record whose value is not key parameters is corrupt
    store
        .update(
            &sess,
            askar_store::types::EntryOperation::Insert,
            "keypair".to_string(),
            "garbled".to_string(),
            Some(b"not params".to_vec()),
            None,
            None,
        )
        .unwrap();
    let corrupt = match fetch_key(&store, &sess, KeyCategory::KeyPair, &"garbled".to_string(), false, NOW) {
        Ok(_) => panic!("an unreadable record must be reported"),
        Err(e) => e,
    };
    assert!(corrupt.kind() == ErrorKind::Unexpected);
    let corrupt_sign = sign_message(&store, &sess, &"garbled".to_string(), &b"m".to_vec(), NOW)
        .unwrap_err();
    assert!(corrupt_sign.kind() == ErrorKind::Unexpected);

    // a key without private material cannot sign
    let pub_only = KeyParams {
        alg: KeyAlg::ED25519,
        metadata: None,
        reference: None,
        pub_key: Some(vec![7; 32]),
        prv_key: None,
    };
    let value2 = pub_only.to_vec().unwrap();
    store
        .update(
            &sess,
            askar_store::types::EntryOperation::Insert,
            "keypair".to_string(),
            "pub-only".to_string(),
            Some(value2),
            None,
            None,
        )
        .unwrap();
    let no_prv = sign_message(&store, &sess, &"pub-only".to_string(), &b"m".to_vec(), NOW)
        .unwrap_err();
    assert!(no_prv.kind() == ErrorKind::Input);
}

#[test]
fn malformed_envelopes_are_rejected_up_front() {
    let mut store = provisioned();
    let sess = store.session(None, false).unwrap();
    create_keypair(&mut store, &sess, KeyAlg::ED25519, None, Some(vec![5u8; 32]), None).unwrap();

    // a structurally valid envelope whose sealed key is far too short
    // to carry an ephemeral public key
    let protected = indy_utils::base64::encode_urlsafe(
        b"{\"recipients\":[{\"header\":{\"kid\":\"x\"},\"encrypted_key\":\"AAAA\"}]}" as &[u8],
    );
    let message = format!(
        "{{\"protected\":\"{}\",\"iv\":\"AAAA\",\"ciphertext\":\"AAAA\",\"tag\":\"AAAA\"}}",
        protected
    );
    let short = unpack_message(&store, &sess, &message.into_bytes(), NOW).unwrap_err();
    assert!(short.kind() == ErrorKind::Encryption);

    // an authenticated recipient whose nonce is not 24 bytes
    let protected2 = indy_utils::base64::encode_urlsafe(
        b"{\"recipients\":[{\"header\":{\"kid\":\"x\",\"sender\":\"AAAAAAAAAAAAAAAAAAAAAAAAAAAAAAAAAAAAAAAAAAAA\",\"iv\":\"AAAA\"},\"encrypted_key\":\"AAAA\"}]}" as &[u8],
    );
    let message2 = format!(
        "{{\"protected\":\"{}\",\"iv\":\"AAAA\",\"ciphertext\":\"AAAA\",\"tag\":\"AAAA\"}}",
        protected2
    );
    let bad_iv = unpack_message(&store, &sess, &message2.into_bytes(), NOW).unwrap_err();
    assert!(bad_iv.kind() == ErrorKind::Encryption);
}
