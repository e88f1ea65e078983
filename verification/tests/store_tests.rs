use askar_store::error::ErrorKind;
use askar_store::filter::TagFilter;
use askar_store::keys::PassKey;
use askar_store::store::Store;
use askar_store::types::{EntryOperation, EntryTag};
use askar_store::wrap::{parse_spec_uri, BackendSpec, WrapKeyMethod};

const NOW: i64 = 1_000;

fn provisioned() -> Store {
    let method = WrapKeyMethod::parse_uri("kdf:argon2i").unwrap();
    Store::provision(method, PassKey::new(Some("password".to_string())), None).unwrap()
}

fn item_tags() -> Vec<EntryTag> {
    vec![
        EntryTag::Plaintext("plain".to_string(), "yes".to_string()),
        EntryTag::Encrypted("enc".to_string(), "42".to_string()),
    ]
}

#[test]
fn provision_and_round_trip() {
    // the URI selects the embedded engine; the store itself is the core
    match parse_spec_uri("sqlite://:memory:").unwrap() {
        BackendSpec::Sqlite(path) => assert_eq!(path, ":memory:"),
        BackendSpec::Postgres(_) => panic!("wrong backend"),
    }
    let mut store = provisioned();
    assert_eq!(store.get_profile_name(), "default");
    let sess = store.session(None, false).unwrap();
    store
        .update(
            &sess,
            EntryOperation::Insert,
            "cred".to_string(),
            "item1".to_string(),
            Some(vec![0x01, 0x02]),
            Some(item_tags()),
            None,
        )
        .unwrap();
    let entry = store
        .fetch(&sess, &"cred".to_string(), &"item1".to_string(), false, NOW)
        .unwrap()
        .unwrap();
    assert_eq!(entry.category, "cred");
    assert_eq!(entry.name, "item1");
    assert_eq!(entry.value, vec![0x01, 0x02]);
    let tags = entry.tags.unwrap();
    assert_eq!(tags.len(), 2);
    assert!(tags.contains(&EntryTag::Plaintext("plain".to_string(), "yes".to_string())));
    assert!(tags.contains(&EntryTag::Encrypted("enc".to_string(), "42".to_string())));
}

#[test]
fn filter_scan_finds_by_tag() {
    let mut store = provisioned();
    let sess = store.session(None, false).unwrap();
    store
        .update(
            &sess,
            EntryOperation::Insert,
            "cred".to_string(),
            "item1".to_string(),
            Some(vec![0x01, 0x02]),
            Some(item_tags()),
            None,
        )
        .unwrap();
    let yes = Some(TagFilter::from_str("{\"~plain\":\"yes\"}").unwrap());
    let mut scan = store
        .scan(None, &"cred".to_string(), &yes, 0, -1, NOW)
        .unwrap();
    let batch = scan.fetch_next().unwrap();
    assert_eq!(batch.len(), 1);
    assert_eq!(batch[0].name, "item1");
    assert!(scan.fetch_next().is_none());

    let no = Some(TagFilter::from_str("{\"enc\":\"43\"}").unwrap());
    let mut scan2 = store
        .scan(None, &"cred".to_string(), &no, 0, -1, NOW)
        .unwrap();
    assert!(scan2.fetch_next().is_none());
}

#[test]
fn rekey_preserves_entries() {
    // base58 text of exactly 32 bytes: '1' encodes a zero byte
    let k1 = PassKey::new(Some("11111111111111111111111111111111".to_string()));
    let k2 = PassKey::new(Some("11111111111111111111111111111112".to_string()));
    let mut store = Store::provision(WrapKeyMethod::RawKey, k1.as_ref(), None).unwrap();
    let sess = store.session(None, false).unwrap();
    for i in 0..10u8 {
        store
            .update(
                &sess,
                EntryOperation::Insert,
                "cred".to_string(),
                format!("item{}", i),
                Some(vec![i]),
                None,
                None,
            )
            .unwrap();
    }
    // re-keying needs exclusive ownership of the store
    let busy = store.rekey(WrapKeyMethod::RawKey, k2.as_ref()).unwrap_err();
    assert!(busy.kind() == ErrorKind::Busy);
    store.close_session(sess, true).unwrap();
    store.rekey(WrapKeyMethod::RawKey, k2.as_ref()).unwrap();
    // reopening with the new key succeeds, with the old key it fails
    assert!(store.open(Some(WrapKeyMethod::RawKey), &k2).is_ok());
    let denied = store.open(Some(WrapKeyMethod::RawKey), &k1).unwrap_err();
    assert!(denied.kind() == ErrorKind::Encryption);
    // every entry is still fetchable after the rotation
    let sess = store.session(None, false).unwrap();
    for i in 0..10u8 {
        let entry = store
            .fetch(&sess, &"cred".to_string(), &format!("item{}", i), false, NOW)
            .unwrap()
            .unwrap();
        assert_eq!(entry.value, vec![i]);
    }
}

#[test]
fn transactions_hold_the_store_exclusively() {
    let mut store = provisioned();
    // a transaction is refused while another session is live
    let sess = store.session(None, false).unwrap();
    let blocked = match store.session(None, true) {
        Ok(_) => panic!("a transaction must wait for other sessions"),
        Err(e) => e,
    };
    assert!(blocked.kind() == ErrorKind::Busy);
    store.close_session(sess, true).unwrap();

    // while a transaction is live, every other session is refused,
    // so its pending rows are invisible until it commits
    let txn = store.session(None, true).unwrap();
    store
        .update(
            &txn,
            EntryOperation::Insert,
            "cred".to_string(),
            "pending".to_string(),
            Some(vec![1]),
            None,
            None,
        )
        .unwrap();
    let shut_out = match store.session(None, false) {
        Ok(_) => panic!("a live transaction must shut other sessions out"),
        Err(e) => e,
    };
    assert!(shut_out.kind() == ErrorKind::Busy);
    store.close_session(txn, true).unwrap();
    let after = store.session(None, false).unwrap();
    assert!(store
        .fetch(&after, &"cred".to_string(), &"pending".to_string(), false, NOW)
        .unwrap()
        .is_some());
}

#[test]
fn transaction_rollback_discards_insert() {
    let mut store = provisioned();
    let txn = store.session(None, true).unwrap();
    store
        .update(
            &txn,
            EntryOperation::Insert,
            "cred".to_string(),
            "tmp".to_string(),
            Some(vec![1]),
            None,
            None,
        )
        .unwrap();
    store.close_session(txn, false).unwrap();
    let sess = store.session(None, false).unwrap();
    let fetched = store
        .fetch(&sess, &"cred".to_string(), &"tmp".to_string(), false, NOW)
        .unwrap();
    assert!(fetched.is_none());
}

#[test]
fn transaction_commit_keeps_insert() {
    let mut store = provisioned();
    let txn = store.session(None, true).unwrap();
    store
        .update(
            &txn,
            EntryOperation::Insert,
            "cred".to_string(),
            "kept".to_string(),
            Some(vec![1]),
            None,
            None,
        )
        .unwrap();
    store.close_session(txn, true).unwrap();
    let sess = store.session(None, false).unwrap();
    assert!(store
        .fetch(&sess, &"cred".to_string(), &"kept".to_string(), false, NOW)
        .unwrap()
        .is_some());
}

#[test]
fn scan_pagination_is_stable() {
    let mut store = provisioned();
    let sess = store.session(None, false).unwrap();
    for i in 0..25u8 {
        store
            .update(
                &sess,
                EntryOperation::Insert,
                "cred".to_string(),
                format!("item{:02}", i),
                Some(vec![i]),
                None,
                None,
            )
            .unwrap();
    }
    let mut scan = store
        .scan(None, &"cred".to_string(), &None, 10, 5, NOW)
        .unwrap();
    let batch = scan.fetch_next().unwrap();
    assert_eq!(batch.len(), 5);
    for (k, entry) in batch.iter().enumerate() {
        assert_eq!(entry.name, format!("item{:02}", 10 + k));
    }
    assert!(scan.fetch_next().is_none());
}

#[test]
fn limit_zero_and_unbounded() {
    let mut store = provisioned();
    let sess = store.session(None, false).unwrap();
    for i in 0..3u8 {
        store
            .update(
                &sess,
                EntryOperation::Insert,
                "cred".to_string(),
                format!("n{}", i),
                Some(vec![i]),
                None,
                None,
            )
            .unwrap();
    }
    let none = store
        .fetch_all(&sess, &"cred".to_string(), &None, 0, false, NOW)
        .unwrap();
    assert_eq!(none.len(), 0);
    let all = store
        .fetch_all(&sess, &"cred".to_string(), &None, -1, false, NOW)
        .unwrap();
    assert_eq!(all.len(), 3);
    let two = store
        .fetch_all(&sess, &"cred".to_string(), &None, 2, false, NOW)
        .unwrap();
    assert_eq!(two.len(), 2);
}

#[test]
fn empty_category_or_name_is_input() {
    let mut store = provisioned();
    let sess = store.session(None, false).unwrap();
    let e = store
        .fetch(&sess, &String::new(), &"x".to_string(), false, NOW)
        .unwrap_err();
    assert!(e.kind() == ErrorKind::Input);
    let e2 = store
        .fetch(&sess, &"cred".to_string(), &String::new(), false, NOW)
        .unwrap_err();
    assert!(e2.kind() == ErrorKind::Input);
    let e3 = store
        .update(
            &sess,
            EntryOperation::Insert,
            String::new(),
            "x".to_string(),
            Some(vec![1]),
            None,
            None,
        )
        .unwrap_err();
    assert!(e3.kind() == ErrorKind::Input);
    let e4 = store.count(&sess, &String::new(), &None, NOW).unwrap_err();
    assert!(e4.kind() == ErrorKind::Input);
}

#[test]
fn insert_duplicate_then_replace() {
    let mut store = provisioned();
    let sess = store.session(None, false).unwrap();
    store
        .update(
            &sess,
            EntryOperation::Insert,
            "cred".to_string(),
            "item".to_string(),
            Some(vec![1]),
            None,
            None,
        )
        .unwrap();
    let dup = store
        .update(
            &sess,
            EntryOperation::Insert,
            "cred".to_string(),
            "item".to_string(),
            Some(vec![2]),
            None,
            None,
        )
        .unwrap_err();
    assert!(dup.kind() == ErrorKind::Duplicate);
    store
        .update(
            &sess,
            EntryOperation::Replace,
            "cred".to_string(),
            "item".to_string(),
            Some(vec![3]),
            None,
            None,
        )
        .unwrap();
    let entry = store
        .fetch(&sess, &"cred".to_string(), &"item".to_string(), false, NOW)
        .unwrap()
        .unwrap();
    assert_eq!(entry.value, vec![3]);
}

#[test]
fn remove_and_remove_all() {
    let mut store = provisioned();
    let sess = store.session(None, false).unwrap();
    let missing = store
        .update(
            &sess,
            EntryOperation::Remove,
            "cred".to_string(),
            "ghost".to_string(),
            None,
            None,
            None,
        )
        .unwrap_err();
    assert!(missing.kind() == ErrorKind::NotFound);
    for i in 0..4u8 {
        store
            .update(
                &sess,
                EntryOperation::Insert,
                "cred".to_string(),
                format!("r{}", i),
                Some(vec![i]),
                Some(vec![EntryTag::Plaintext(
                    "keep".to_string(),
                    if i % 2 == 0 { "yes" } else { "no" }.to_string(),
                )]),
                None,
            )
            .unwrap();
    }
    let filt = Some(TagFilter::from_str("{\"~keep\":\"no\"}").unwrap());
    let removed = store
        .remove_all(&sess, &"cred".to_string(), &filt, NOW)
        .unwrap();
    assert_eq!(removed, 2);
    assert_eq!(store.count(&sess, &"cred".to_string(), &None, NOW).unwrap(), 2);
}

#[test]
fn expired_entries_are_invisible() {
    let mut store = provisioned();
    let sess = store.session(None, false).unwrap();
    store
        .update(
            &sess,
            EntryOperation::Insert,
            "cred".to_string(),
            "fleeting".to_string(),
            Some(vec![7]),
            None,
            Some(100),
        )
        .unwrap();
    // visible before the expiry time
    assert!(store
        .fetch(&sess, &"cred".to_string(), &"fleeting".to_string(), false, 50)
        .unwrap()
        .is_some());
    assert_eq!(store.count(&sess, &"cred".to_string(), &None, 50).unwrap(), 1);
    // invisible after it, to every read
    assert!(store
        .fetch(&sess, &"cred".to_string(), &"fleeting".to_string(), false, 200)
        .unwrap()
        .is_none());
    assert_eq!(store.count(&sess, &"cred".to_string(), &None, 200).unwrap(), 0);
    assert_eq!(
        store
            .fetch_all(&sess, &"cred".to_string(), &None, -1, false, 200)
            .unwrap()
            .len(),
        0
    );
    let mut scan = store
        .scan(None, &"cred".to_string(), &None, 0, -1, 200)
        .unwrap();
    assert!(scan.fetch_next().is_none());
}

#[test]
fn profiles_are_separate_namespaces() {
    let mut store = provisioned();
    store.create_profile("other".to_string()).unwrap();
    let dup = store.create_profile("other".to_string()).unwrap_err();
    assert!(dup.kind() == ErrorKind::Duplicate);

    let sess = store.session(None, false).unwrap();
    store
        .update(
            &sess,
            EntryOperation::Insert,
            "cred".to_string(),
            "shared-name".to_string(),
            Some(vec![1]),
            None,
            None,
        )
        .unwrap();
    let other = store.session(Some("other".to_string()), false).unwrap();
    assert!(store
        .fetch(&other, &"cred".to_string(), &"shared-name".to_string(), false, NOW)
        .unwrap()
        .is_none());

    // removal waits for every session to close, so no live session
    // can be left addressing a moved profile
    let busy = store.remove_profile(&"other".to_string()).unwrap_err();
    assert!(busy.kind() == ErrorKind::Busy);
    store.close_session(sess, true).unwrap();
    store.close_session(other, true).unwrap();

    let default_gone = store.remove_profile(&"default".to_string()).unwrap_err();
    assert!(default_gone.kind() == ErrorKind::Input);
    assert_eq!(store.remove_profile(&"other".to_string()).unwrap(), true);
    // removing a profile that is already gone reports success without
    // a removal
    assert_eq!(store.remove_profile(&"other".to_string()).unwrap(), false);
    let no_sess = match store.session(Some("other".to_string()), false) {
        Ok(_) => panic!("a removed profile must not open a session"),
        Err(e) => e,
    };
    assert!(no_sess.kind() == ErrorKind::NotFound);
}

#[test]
fn raw_wrap_keys_must_be_32_base58_bytes() {
    // not base58 of 32 bytes
    let bad = Store::provision(
        WrapKeyMethod::RawKey,
        PassKey::new(Some("too short".to_string())),
        None,
    );
    let err = match bad {
        Ok(_) => panic!("a malformed raw key must be rejected"),
        Err(e) => e,
    };
    assert!(err.kind() == ErrorKind::Input);

    let mut store = provisioned();
    let rekey_err = store
        .rekey(
            WrapKeyMethod::RawKey,
            PassKey::new(Some("not a key".to_string())),
        )
        .unwrap_err();
    assert!(rekey_err.kind() == ErrorKind::Input);
    // the derivation methods take any pass phrase
    store
        .rekey(
            WrapKeyMethod::parse_uri("kdf:argon2i:int").unwrap(),
            PassKey::new(Some("any passphrase".to_string())),
        )
        .unwrap();
}

#[test]
fn wrap_method_uris() {
    assert!(WrapKeyMethod::parse_uri("none").unwrap() == WrapKeyMethod::Unprotected);
    assert!(WrapKeyMethod::parse_uri("raw").unwrap() == WrapKeyMethod::RawKey);
    let m = WrapKeyMethod::parse_uri("kdf:argon2i").unwrap();
    assert!(WrapKeyMethod::parse_uri("kdf:argon2i:mod").unwrap() == m);
    assert!(WrapKeyMethod::parse_uri("kdf:argon2i:int").unwrap() != m);
    let bad = WrapKeyMethod::parse_uri("kdf:sha256").unwrap_err();
    assert!(bad.kind() == ErrorKind::Input);
    for uri in ["none", "raw", "kdf:argon2i:mod", "kdf:argon2i:int"] {
        let parsed = WrapKeyMethod::parse_uri(uri).unwrap();
        assert_eq!(parsed.to_uri(), uri.to_string());
    }
}

#[test]
fn error_codes_are_stable() {
    assert_eq!(askar_store::success_code(), 0);
    let pairs = [
        (ErrorKind::Backend, 1u8),
        (ErrorKind::Busy, 2),
        (ErrorKind::Duplicate, 3),
        (ErrorKind::Encryption, 4),
        (ErrorKind::Input, 5),
        (ErrorKind::NotFound, 6),
        (ErrorKind::Unexpected, 7),
        (ErrorKind::Unsupported, 8),
        (ErrorKind::Custom, 99),
    ];
    for (kind, code) in pairs {
        assert_eq!(kind.code(), code);
    }
}

#[test]
fn spec_uris_select_a_backend() {
    match parse_spec_uri("sqlite://:memory:").unwrap() {
        BackendSpec::Sqlite(path) => assert_eq!(path, ":memory:"),
        BackendSpec::Postgres(_) => panic!("wrong backend"),
    }
    match parse_spec_uri("postgres://user@host/db").unwrap() {
        BackendSpec::Postgres(info) => assert_eq!(info, "user@host/db"),
        BackendSpec::Sqlite(_) => panic!("wrong backend"),
    }
    let bad = match parse_spec_uri("redis://x") {
        Ok(_) => panic!("an unknown scheme must be rejected"),
        Err(e) => e,
    };
    assert!(bad.kind() == ErrorKind::Input);
}
