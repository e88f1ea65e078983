//! Key operations over the store: create, fetch and update stored
//! keypairs, sign messages with them, and seal or open per-recipient
//! encrypted envelopes. The ed25519 and envelope primitives are
//! supplied by an outside library; everything around them — argument
//! validation, key resolution, recipient matching and the decisions
//! on every outcome — is modeled and verified here.

use vstd::prelude::*;
use std::future::Future;
use std::task::{Context, Poll, Waker};
use indy_utils::keys::{EncodedVerKey, PrivateKey};
use crate::b64::{b64u_decode, b64u_decode_spec};
use crate::error::{Error, ErrorKind};
use crate::json::{
    json_model, json_models, lemma_json_models_index, lookup, obj_get, parse_document, sp_document,
    JsonModel, JsonValue,
};
use crate::keys::{
    alg_eq, b58_encode, b58_of, category_str, parsed_params, params_json, KeyAlg,
    KeyCategory, KeyEntry, KeyParams, ParamsModel,
};
use crate::store::{
    entry_live, has_row, opt_tag_views, row_index, row_views, session_wf, store_wf, with_entries,
    RowModel, Session, Store,
};
use crate::types::{
    copy_bytes, copy_tags, str_chars, string_from_utf8, tag_views, Entry, EntryOperation, EntryTag,
    SecretBytes,
};

verus! {

/// The ed25519 keypair a seed expands to: public key then secret key.
/// It is a function of the seed alone.
pub uninterp spec fn ed25519_seed_keypair(seed: Seq<u8>) -> Option<(Seq<u8>, Seq<u8>)>;

/// The ed25519 signature of a message under a secret key. Signing is
/// deterministic: a function of key and message alone.
pub uninterp spec fn ed25519_signature(sk: Seq<u8>, msg: Seq<u8>) -> Option<Seq<u8>>;

/// Relies on `indy_utils::keys::PrivateKey::from_seed` and
/// `public_key` (ursa Ed25519Sha512): the keypair is expanded from
/// the first 32 bytes of the seed, deterministically; any seed
/// shorter than 32 bytes is refused. The public key is 32 bytes and
/// the secret key 64.
#[verifier::external_body]
fn ed25519_from_seed(seed: &Vec<u8>) -> (r: Option<(Vec<u8>, Vec<u8>)>)
    ensures
        r is Some <==> seed@.len() >= 32,
        r matches Some((pk, sk)) ==> ed25519_seed_keypair(seed@) == Option::Some((pk@, sk@))
            && pk@.len() == 32 && sk@.len() == 64,
        r is None ==> ed25519_seed_keypair(seed@) is None,
{
    match indy_utils::keys::PrivateKey::from_seed(seed) {
        Result::Ok(sk) => match sk.public_key() {
            Result::Ok(pk) => Option::Some((pk.key_bytes(), sk.key_bytes())),
            Result::Err(_) => Option::None,
        },
        Result::Err(_) => Option::None,
    }
}

/// Relies on `indy_utils::keys::PrivateKey::generate` (ursa): a fresh
/// random ed25519 keypair, always produced: 32 public and 64 secret
/// key bytes. Nothing is promised of their values.
#[verifier::external_body]
fn ed25519_generate() -> (r: Option<(Vec<u8>, Vec<u8>)>)
    ensures
        r is Some,
        r matches Some((pk, sk)) ==> pk@.len() == 32 && sk@.len() == 64,
{
    match indy_utils::keys::PrivateKey::generate(Option::None) {
        Result::Ok(sk) => match sk.public_key() {
            Result::Ok(pk) => Option::Some((pk.key_bytes(), sk.key_bytes())),
            Result::Err(_) => Option::None,
        },
        Result::Err(_) => Option::None,
    }
}

/// Relies on `indy_utils::keys::PrivateKey::sign` (ursa
/// Ed25519Sha512): the deterministic ed25519 signature of the message
/// under the secret key.
#[verifier::external_body]
fn ed25519_sign(sk: &Vec<u8>, msg: &Vec<u8>) -> (r: Option<Vec<u8>>)
    ensures
        r matches Some(v) ==> ed25519_signature(sk@, msg@) == Option::Some(v@),
        r is None ==> ed25519_signature(sk@, msg@) is None,
{
    let key = indy_utils::keys::PrivateKey::new(sk, Option::Some(
        indy_utils::keys::KeyType::ED25519,
    ));
    match key.sign(msg) {
        Result::Ok(v) => Option::Some(v),
        Result::Err(_) => Option::None,
    }
}

/// Generate a keypair and store it under the session's profile as a
/// `keypair` record whose name is the base58 public key and whose
/// value is the serialized key parameters. A seed of any length other
/// than what the algorithm expects fails with `Input`; only ed25519
/// is supported.
pub fn create_keypair(
    store: &mut Store,
    sess: &Session,
    alg: KeyAlg,
    metadata: Option<String>,
    seed: Option<Vec<u8>>,
    tags: Option<Vec<EntryTag>>,
) -> (r: Result<KeyEntry, Error>)
    requires
        store_wf(old(store)@),
        session_wf(*sess, old(store)@),
        old(store)@.next_id < u64::MAX,
    ensures
        store_wf(final(store)@),
        session_wf(*sess, final(store)@),
        r is Err ==> final(store)@ == old(store)@,
        (r matches Err(e) && e.kind == ErrorKind::Unsupported) <==> !alg_eq(alg, KeyAlg::ED25519),
        alg_eq(alg, KeyAlg::ED25519) ==> ({
            let entries = old(store)@.profiles[sess.spec_profile()].entries;
            match seed {
                Option::Some(sd) => (match ed25519_seed_keypair(sd@) {
                    Option::None => (r matches Err(e) && e.kind == ErrorKind::Input),
                    Option::Some((pk, sk)) => {
                        let pm = (ParamsModel {
                            alg: "ed25519"@,
                            metadata: (match metadata {
                                Option::None => Option::<Seq<char>>::None,
                                Option::Some(m) => Option::Some(m@),
                            }),
                            reference: Option::<Seq<char>>::None,
                            pub_key: Option::Some(pk),
                            prv_key: Option::Some(sk),
                        });
                        if params_json(pm) is None {
                            r matches Err(e) && e.kind == ErrorKind::Unexpected
                        } else if has_row(entries, "keypair"@, b58_of(pk)) {
                            r matches Err(e) && e.kind == ErrorKind::Duplicate
                        } else {
                            r is Ok
                        }
                    },
                }),
                Option::None => (r matches Err(e) ==> e.kind == ErrorKind::Duplicate || e.kind
                    == ErrorKind::Unexpected),
            }
        }),
        r matches Ok(k) ==> {
            &&& k.category is KeyPair
            &&& k.params.pub_key is Some
            &&& k.params.prv_key is Some
            &&& (seed matches Some(s) ==> ed25519_seed_keypair(s@) == Option::Some(
                (k.params.pub_key->0@, k.params.prv_key->0@),
            ))
            &&& k.ident@ == b58_of(k.params.pub_key->0@)
            &&& k.params@.metadata == (match metadata {
                Option::None => Option::<Seq<char>>::None,
                Option::Some(m) => Option::Some(m@),
            })
            &&& k.params@.alg == "ed25519"@
            &&& params_json(k.params@) is Some
            &&& final(store)@ == with_entries(
                old(store)@,
                sess.spec_profile(),
                old(store)@.profiles[sess.spec_profile()].entries.push(
                    (RowModel {
                        id: old(store)@.next_id,
                        category: "keypair"@,
                        name: k.ident@,
                        value: vstd::utf8::encode_utf8(params_json(k.params@)->0),
                        tags: opt_tag_views(tags),
                        expiry_ms: Option::None,
                    }),
                ),
                (old(store)@.next_id + 1) as u64,
            )
        },
{
    proof {
        reveal_strlit("keypair");
        reveal_strlit("ed25519");
    }
    let is_ed = match &alg {
        KeyAlg::ED25519 => true,
        _ => false,
    };
    if !is_ed {
        return Result::Err(
            Error::new(ErrorKind::Unsupported, String::from_str("unsupported key algorithm")),
        );
    }
    let (pk, sk) = match &seed {
        Option::Some(s) => match ed25519_from_seed(s) {
            Option::None => {
                return Result::Err(
                    Error::new(ErrorKind::Input, String::from_str("invalid seed")),
                );
            },
            Option::Some(p) => p,
        },
        Option::None => match ed25519_generate() {
            Option::None => {
                return Result::Err(
                    Error::new(ErrorKind::Unexpected, String::from_str("key generation failed")),
                );
            },
            Option::Some(p) => p,
        },
    };
    let ident = b58_encode(&pk);
    proof {
        assert(ident@.len() > 0);
    }
    let params = KeyParams {
        alg: KeyAlg::ED25519,
        metadata,
        reference: Option::None,
        pub_key: Option::Some(pk),
        prv_key: Option::Some(SecretBytes::from_vec(sk)),
    };
    let value = match params.to_vec() {
        Result::Err(e) => {
            return Result::Err(e);
        },
        Result::Ok(v) => v,
    };
    let tags_copy = match &tags {
        Option::None => Option::None,
        Option::Some(t) => Option::Some(copy_tags(t)),
    };
    let ident2 = ident.clone();
    let category = String::from_str("keypair");
    match store.update(
        sess,
        EntryOperation::Insert,
        category,
        ident2,
        Option::Some(value),
        tags_copy,
        Option::None,
    ) {
        Result::Err(e) => Result::Err(e),
        Result::Ok(()) => {
            proof {
                assert(opt_tag_views(tags_copy) =~= opt_tag_views(tags));
            }
            Result::Ok(
                KeyEntry { category: KeyCategory::KeyPair, ident, params, tags },
            )
        },
    }
}

/// Fetch a stored key by category and identifier; `None` when there
/// is no such live record. A record whose value does not deserialize
/// as key parameters is reported as `Unexpected`.
pub fn fetch_key(
    store: &Store,
    sess: &Session,
    category: KeyCategory,
    ident: &String,
    for_update: bool,
    now_ms: i64,
) -> (r: Result<Option<KeyEntry>, Error>)
    requires
        store_wf(store@),
        session_wf(*sess, store@),
    ensures
        (category_str(category).len() == 0 || ident@.len() == 0) ==> r is Err && r->Err_0.kind
            == ErrorKind::Input,
        (category_str(category).len() > 0 && ident@.len() > 0) ==> ({
            let entries = store@.profiles[sess.spec_profile()].entries;
            let present = has_row(entries, category_str(category), ident@) && entry_live(
                entries[row_index(entries, category_str(category), ident@)],
                now_ms,
            );
            let row = entries[row_index(entries, category_str(category), ident@)];
            if !present {
                r == Result::<Option<KeyEntry>, Error>::Ok(Option::None)
            } else if parsed_params(row.value) is Some {
                r matches Ok(Some(k)) && k.ident@ == ident@ && category_eq_holds(
                    k.category,
                    category,
                ) && k.params@ == parsed_params(row.value)->0 && ((k.params.alg is ED25519)
                    <==> parsed_params(row.value)->0.alg == "ed25519"@) && (k.tags matches Some(ts)
                    && tag_views(ts@) == row.tags)
            } else {
                r is Err && r->Err_0.kind == ErrorKind::Unexpected
            }
        }),
{
    let cat_string = String::from_str(category.as_str());
    let entry = match store.fetch(sess, &cat_string, ident, for_update, now_ms) {
        Result::Err(e) => {
            return Result::Err(e);
        },
        Result::Ok(Option::None) => {
            return Result::Ok(Option::None);
        },
        Result::Ok(Option::Some(en)) => en,
    };
    let params = match KeyParams::from_slice(entry.value.as_slice()) {
        Result::Err(e) => {
            return Result::Err(e);
        },
        Result::Ok(p) => p,
    };
    let tags = match entry.tags {
        Option::None => Vec::new(),
        Option::Some(t) => t,
    };
    Result::Ok(
        Option::Some(
            KeyEntry {
                category,
                ident: ident.clone(),
                params,
                tags: Option::Some(tags),
            },
        ),
    )
}

/// Two key categories with the same canonical string.
pub open spec fn category_eq_holds(a: KeyCategory, b: KeyCategory) -> bool {
    category_str(a) == category_str(b)
}

/// Sign a message with the stored keypair the identifier names: the
/// result is its deterministic ed25519 signature. An empty identifier
/// reports `Input`; a missing key `NotFound`; an algorithm other than
/// ed25519 `Unsupported`; a key without private material `Input`.
pub fn sign_message(
    store: &Store,
    sess: &Session,
    key_ident: &String,
    message: &Vec<u8>,
    now_ms: i64,
) -> (r: Result<Vec<u8>, Error>)
    requires
        store_wf(store@),
        session_wf(*sess, store@),
    ensures
        ({
            let entries = store@.profiles[sess.spec_profile()].entries;
            let present = has_row(entries, "keypair"@, key_ident@) && entry_live(
                entries[row_index(entries, "keypair"@, key_ident@)],
                now_ms,
            );
            let pm = parsed_params(entries[row_index(entries, "keypair"@, key_ident@)].value);
            if key_ident@.len() == 0 {
                r matches Err(e) && e.kind == ErrorKind::Input
            } else if !present {
                r matches Err(e) && e.kind == ErrorKind::NotFound
            } else if pm is None {
                r matches Err(e) && e.kind == ErrorKind::Unexpected
            } else if pm->0.alg != "ed25519"@ {
                r matches Err(e) && e.kind == ErrorKind::Unsupported
            } else if pm->0.prv_key is None {
                r matches Err(e) && e.kind == ErrorKind::Input
            } else {
                match ed25519_signature(pm->0.prv_key->0, message@) {
                    Option::None => r matches Err(e) && e.kind == ErrorKind::Unexpected,
                    Option::Some(sig) => r matches Ok(v) && v@ == sig,
                }
            }
        }),
{
    proof {
        reveal_strlit("keypair");
    }
    let key = match fetch_key(store, sess, KeyCategory::KeyPair, key_ident, false, now_ms) {
        Result::Err(e) => {
            return Result::Err(e);
        },
        Result::Ok(Option::None) => {
            return Result::Err(Error::new(ErrorKind::NotFound, String::from_str("unknown key")));
        },
        Result::Ok(Option::Some(k)) => k,
    };
    let is_ed = match &key.params.alg {
        KeyAlg::ED25519 => true,
        _ => false,
    };
    if !is_ed {
        return Result::Err(
            Error::new(ErrorKind::Unsupported, String::from_str("unsupported key algorithm")),
        );
    }
    let sk = match &key.params.prv_key {
        Option::None => {
            return Result::Err(
                Error::new(ErrorKind::Input, String::from_str("undefined private key")),
            );
        },
        Option::Some(s) => s,
    };
    match ed25519_sign(sk.bytes(), message) {
        Option::None => Result::Err(
            Error::new(ErrorKind::Unexpected, String::from_str("signing failed")),
        ),
        Option::Some(sig) => Result::Ok(sig),
    }
}

/// Update the metadata and tags of a stored key; the key material,
/// algorithm, category and identifier are never touched. An empty
/// category or identifier reports `Input`; a missing key `NotFound`;
/// a record whose parameters cannot be read back or rewritten,
/// `Unexpected`. On any live, readable key the update succeeds.
pub fn update_key(
    store: &mut Store,
    sess: &Session,
    category: KeyCategory,
    ident: &String,
    metadata: Option<String>,
    tags: Option<Vec<EntryTag>>,
    now_ms: i64,
) -> (r: Result<(), Error>)
    requires
        store_wf(old(store)@),
        session_wf(*sess, old(store)@),
        old(store)@.next_id < u64::MAX,
    ensures
        store_wf(final(store)@),
        session_wf(*sess, final(store)@),
        r is Err ==> final(store)@ == old(store)@,
        ({
            let cs = category_str(category);
            let entries = old(store)@.profiles[sess.spec_profile()].entries;
            let present = has_row(entries, cs, ident@) && entry_live(
                entries[row_index(entries, cs, ident@)],
                now_ms,
            );
            let idx = row_index(entries, cs, ident@);
            let old_params = parsed_params(entries[idx].value);
            let pm2 = (ParamsModel {
                alg: old_params->0.alg,
                metadata: (match metadata {
                    Option::None => Option::<Seq<char>>::None,
                    Option::Some(m) => Option::Some(m@),
                }),
                reference: old_params->0.reference,
                pub_key: old_params->0.pub_key,
                prv_key: old_params->0.prv_key,
            });
            if cs.len() == 0 || ident@.len() == 0 {
                r matches Err(e) && e.kind == ErrorKind::Input
            } else if !present {
                r matches Err(e) && e.kind == ErrorKind::NotFound
            } else if old_params is None {
                r matches Err(e) && e.kind == ErrorKind::Unexpected
            } else if params_json(pm2) is None {
                r matches Err(e) && e.kind == ErrorKind::Unexpected
            } else {
                r is Ok && final(store)@ == with_entries(
                    old(store)@,
                    sess.spec_profile(),
                    entries.update(
                        idx,
                        (RowModel {
                            id: entries[idx].id,
                            category: cs,
                            name: ident@,
                            value: vstd::utf8::encode_utf8(params_json(pm2)->0),
                            tags: opt_tag_views(tags),
                            expiry_ms: Option::None,
                        }),
                    ),
                    old(store)@.next_id,
                )
            }
        }),
{
    let key = match fetch_key(store, sess, category.duplicate(), ident, true, now_ms) {
        Result::Err(e) => {
            return Result::Err(e);
        },
        Result::Ok(Option::None) => {
            return Result::Err(Error::new(ErrorKind::NotFound, String::from_str("unknown key")));
        },
        Result::Ok(Option::Some(k)) => k,
    };
    let params = KeyParams {
        alg: key.params.alg,
        metadata,
        reference: key.params.reference,
        pub_key: key.params.pub_key,
        prv_key: key.params.prv_key,
    };
    let value = match params.to_vec() {
        Result::Err(e) => {
            return Result::Err(e);
        },
        Result::Ok(v) => v,
    };
    let cat_string = String::from_str(category.as_str());
    let ident2 = ident.clone();
    store.update(
        sess,
        EntryOperation::Replace,
        cat_string,
        ident2,
        Option::Some(value),
        tags,
        Option::None,
    )
}

/// Turn a stored key entry into a plain record entry: the category
/// string, the identifier as the name, and the serialized parameters
/// as the value.
pub fn export_key_entry(key_entry: KeyEntry) -> (r: Result<Entry, Error>)
    ensures
        r matches Ok(en) ==> {
            &&& en@.category == category_str(key_entry.category)
            &&& en@.name == key_entry.ident@
            &&& params_json(key_entry.params@) is Some
            &&& en@.value == vstd::utf8::encode_utf8(params_json(key_entry.params@)->0)
            &&& en.tags == key_entry.tags
        },
        r matches Err(e) ==> e.kind == ErrorKind::Unexpected && params_json(
            key_entry.params@,
        ) is None,
{
    let (category, ident, params, tags) = key_entry.into_parts();
    let value = match params.to_vec() {
        Result::Err(e) => {
            return Result::Err(e);
        },
        Result::Ok(v) => v,
    };
    Result::Ok(Entry::new(category.into_string(), ident, value, tags))
}

/// Pick the recipient the held keys can open: the first listed key
/// identifier that names a held secret, with that secret's bytes.
fn match_recipient(kids: &Vec<String>, held: &Vec<(String, Vec<u8>)>) -> (r: Option<(
    usize,
    Vec<u8>,
)>)
    ensures
        r is None ==> (forall|i: int, j: int|
            0 <= i < kids@.len() && 0 <= j < held@.len() ==> (#[trigger] kids@[i])@ != (
            #[trigger] held@[j]).0@),
        r matches Some((i, sk)) ==> 0 <= i < kids@.len() && (exists|j: int|
            0 <= j < held@.len() && (#[trigger] held@[j]).0@ == kids@[i as int]@ && held@[j].1@
                == sk@) && (forall|i2: int, j: int|
            0 <= i2 < i && 0 <= j < held@.len() ==> (#[trigger] kids@[i2])@ != (
            #[trigger] held@[j]).0@),
{
    let mut i: usize = 0;
    while i < kids.len()
        invariant
            0 <= i <= kids@.len(),
            forall|i2: int, j: int|
                0 <= i2 < i && 0 <= j < held@.len() ==> (#[trigger] kids@[i2])@ != (
                #[trigger] held@[j]).0@,
        decreases kids@.len() - i,
    {
        let mut j: usize = 0;
        while j < held.len()
            invariant
                0 <= i < kids@.len(),
                0 <= j <= held@.len(),
                forall|i2: int, j2: int|
                    0 <= i2 < i && 0 <= j2 < held@.len() ==> (#[trigger] kids@[i2])@ != (
                    #[trigger] held@[j2]).0@,
                forall|j2: int|
                    0 <= j2 < j ==> (#[trigger] held@[j2]).0@ != kids@[i as int]@,
            decreases held@.len() - j,
        {
            if crate::types::str_compare(held[j].0.as_str(), kids[i].as_str()) == 0 {
                let sk = crate::types::copy_bytes(&held[j].1);
                return Option::Some((i, sk));
            }
            j = j + 1;
        }
        i = i + 1;
    }
    Option::None
}

/// Relies on `indy_utils::pack::pack_message` (crypto_box and
/// xchacha20poly1305): the sealed envelope over the message for the
/// given base58 recipient keys, authenticated by the sender key when
/// one is given. The content key and nonces are drawn fresh, so
/// nothing can be promised of the bytes; a malformed recipient key is
/// refused by the callee.
#[verifier::external_body]
fn pack_envelope(message: &Vec<u8>, recipients: &Vec<String>, sender_sk: Option<&SecretBytes>) -> (r:
    Option<Vec<u8>>)
    ensures
        r matches Some(v) ==> v@.len() > 0,
{
    let recip = recipients.iter().map(|vk| EncodedVerKey::new(vk, None, None)).collect();
    let sender = sender_sk.map(|sk| PrivateKey::new(sk.bytes(), None));
    indy_utils::pack::pack_message(message, recip, sender).ok()
}

/// Whether one envelope recipient is safe to hand to the opener: an
/// authenticated recipient (carrying both a sender and a nonce) must
/// have a sealed sender of at least 32 bytes and a 24-byte nonce; an
/// anonymous one must have a sealed key of at least 32 bytes. These
/// bound the splits the envelope library performs.
pub open spec fn recipient_safe(m: JsonModel) -> bool {
    m matches JsonModel::JObj(pairs) && (obj_get(pairs, "header"@) matches Some(
        JsonModel::JObj(hp),
    ) && (match (obj_get(hp, "sender"@), obj_get(hp, "iv"@)) {
        (Option::Some(sm), Option::Some(im)) => {
            &&& (sm matches JsonModel::JStr(sv) && (b64u_decode_spec(sv) matches Some(sb)
                && sb.len() >= 32))
            &&& (im matches JsonModel::JStr(ivv) && (b64u_decode_spec(ivv) matches Some(ib)
                && ib.len() == 24))
        },
        _ => (obj_get(pairs, "encrypted_key"@) matches Some(JsonModel::JStr(ek)) && (
        b64u_decode_spec(ek) matches Some(kb) && kb.len() >= 32)),
    }))
}

/// Whether every recipient in the list is safe.
pub open spec fn recips_safe(items: Seq<JsonModel>) -> bool
    decreases items,
{
    if items.len() == 0 {
        true
    } else {
        recipient_safe(items[0]) && recips_safe(items.skip(1))
    }
}

pub proof fn lemma_recips_safe_iff(items: Seq<JsonModel>)
    ensures
        recips_safe(items) <==> (forall|j: int|
            0 <= j < items.len() ==> recipient_safe(#[trigger] items[j])),
    decreases items,
{
    if items.len() > 0 {
        lemma_recips_safe_iff(items.skip(1));
        assert(forall|j: int| 0 < j < items.len() ==> #[trigger] items[j] == items.skip(1)[j - 1]);
        if recipient_safe(items[0]) && recips_safe(items.skip(1)) {
            assert forall|j: int| 0 <= j < items.len() implies recipient_safe(
                #[trigger] items[j],
            ) by {
                if j > 0 {
                    assert(items.skip(1)[j - 1] == items[j]);
                }
            }
        }
    }
}

/// Whether decoded protected-header text is safe: an object whose
/// recipients all pass [`recipient_safe`].
pub open spec fn protected_chars_safe(s: Seq<char>) -> bool {
    sp_document(s) matches Some(JsonModel::JObj(pp)) && (obj_get(pp, "recipients"@) matches Some(
        JsonModel::JArr(items),
    ) && recips_safe(items))
}

/// Whether envelope text is safe: an object whose protected field is
/// base64url text decoding to safe protected-header text.
pub open spec fn jwe_chars_safe(s: Seq<char>) -> bool {
    sp_document(s) matches Some(JsonModel::JObj(pairs)) && (obj_get(pairs, "protected"@)
        matches Some(JsonModel::JStr(prot)) && (b64u_decode_spec(prot) matches Some(pb) && (
    vstd::utf8::valid_utf8(pb) && protected_chars_safe(vstd::utf8::decode_utf8(pb)))))
}

/// Whether envelope bytes are safe to hand to the opener.
pub open spec fn envelope_ok(bytes: Seq<u8>) -> bool {
    vstd::utf8::valid_utf8(bytes) && jwe_chars_safe(vstd::utf8::decode_utf8(bytes))
}

/// Decide [`recipient_safe`] for one parsed recipient.
fn recipient_safe_exec(v: &JsonValue) -> (r: bool)
    ensures
        r == recipient_safe(json_model(*v)),
{
    let pairs = match v {
        JsonValue::JObj(pairs) => pairs,
        _ => {
            return false;
        },
    };
    let hp = match lookup(pairs, "header") {
        Option::Some(JsonValue::JObj(hp)) => hp,
        _ => {
            return false;
        },
    };
    match (lookup(hp, "sender"), lookup(hp, "iv")) {
        (Option::Some(sm), Option::Some(im)) => {
            let sv = match sm {
                JsonValue::JStr(sv) => sv,
                _ => {
                    return false;
                },
            };
            let ivv = match im {
                JsonValue::JStr(ivv) => ivv,
                _ => {
                    return false;
                },
            };
            let sender_ok = match b64u_decode(sv) {
                Option::Some(sb) => sb.len() >= 32,
                Option::None => false,
            };
            let iv_ok = match b64u_decode(ivv) {
                Option::Some(ib) => ib.len() == 24,
                Option::None => false,
            };
            sender_ok && iv_ok
        },
        _ => {
            match lookup(pairs, "encrypted_key") {
                Option::Some(JsonValue::JStr(ek)) => match b64u_decode(ek) {
                    Option::Some(kb) => kb.len() >= 32,
                    Option::None => false,
                },
                _ => false,
            }
        },
    }
}

/// Decide [`envelope_ok`] for a message before it is handed to the
/// envelope library.
fn envelope_precheck(message: &Vec<u8>) -> (r: bool)
    ensures
        r == envelope_ok(message@),
{
    proof {
        reveal_strlit("protected");
        reveal_strlit("recipients");
    }
    let text = match string_from_utf8(copy_bytes(message)) {
        Option::None => {
            return false;
        },
        Option::Some(t) => t,
    };
    let chars = str_chars(text.as_str());
    let doc = match parse_document(&chars) {
        Option::None => {
            return false;
        },
        Option::Some(d) => d,
    };
    let pairs = match &doc {
        JsonValue::JObj(pairs) => pairs,
        _ => {
            return false;
        },
    };
    let prot = match lookup(pairs, "protected") {
        Option::Some(JsonValue::JStr(prot)) => prot,
        _ => {
            return false;
        },
    };
    let pbytes = match b64u_decode(prot) {
        Option::None => {
            return false;
        },
        Option::Some(pb) => pb,
    };
    let ptext = match string_from_utf8(pbytes) {
        Option::None => {
            return false;
        },
        Option::Some(t) => t,
    };
    let pchars = str_chars(ptext.as_str());
    let pdoc = match parse_document(&pchars) {
        Option::None => {
            return false;
        },
        Option::Some(d) => d,
    };
    let pp = match &pdoc {
        JsonValue::JObj(pp) => pp,
        _ => {
            return false;
        },
    };
    let items = match lookup(pp, "recipients") {
        Option::Some(JsonValue::JArr(items)) => items,
        _ => {
            return false;
        },
    };
    let ghost gm = json_models(items@);
    let mut j: usize = 0;
    proof {
        lemma_json_models_index(items@);
        assert(envelope_ok(message@) == recips_safe(gm));
    }
    while j < items.len()
        invariant
            0 <= j <= items@.len(),
            gm == json_models(items@),
            gm.len() == items@.len(),
            envelope_ok(message@) == recips_safe(gm),
            forall|k: int| 0 <= k < items@.len() ==> #[trigger] gm[k] == json_model(items@[k]),
            forall|k: int| 0 <= k < j ==> recipient_safe(#[trigger] gm[k]),
        decreases items@.len() - j,
    {
        if !recipient_safe_exec(&items[j]) {
            proof {
                assert(!recipient_safe(gm[j as int]));
                lemma_recips_safe_iff(gm);
            }
            return false;
        }
        j = j + 1;
    }
    proof {
        lemma_recips_safe_iff(gm);
    }
    true
}

/// What opening an envelope with an ordered list of held keys yields:
/// the payload, the matched recipient key and the sender key of an
/// authenticated envelope. Opening is deterministic: the first listed
/// recipient naming a held key is used, and every cipher involved is
/// a function of its inputs.
pub uninterp spec fn open_of(message: Seq<u8>, held: Seq<(Seq<char>, Seq<u8>)>) -> Option<
    (Seq<u8>, Seq<char>, Option<Seq<char>>),
>;

/// Relies on `indy_utils::pack::unpack_message` (crypto_box and
/// xchacha20poly1305): opening the envelope with the first held key
/// matching a listed recipient, a deterministic function of the
/// message and the keys, named by [`open_of`]. The callee is
/// asynchronous only through its key lookup, which answers
/// immediately here, so its future is ready on the first poll. A
/// reported recipient is the matched entry of the lookup, so it names
/// one of the held keys. The preconditions rule the callee's slicing
/// panics out: 32-byte-plus held keys cover its public-key and
/// key-exchange splits, and [`envelope_ok`] bounds the sealed fields
/// (32 bytes before the ephemeral-key split) and the authenticated
/// nonce (exactly 24 bytes); every other length is checked by the
/// callee itself.
#[verifier::external_body]
fn open_envelope(message: &Vec<u8>, held: &Vec<(String, Vec<u8>)>) -> (r: Option<(
    Vec<u8>,
    String,
    Option<String>,
)>)
    requires
        envelope_ok(message@),
        forall|j: int| 0 <= j < held@.len() ==> (#[trigger] held@[j]).1@.len() >= 32,
    ensures
        r matches Some(t) ==> open_of(message@, held_views(held@)) == Option::Some(
            (t.0@, t.1@, opt_str_view(t.2)),
        ),
        r is None ==> open_of(message@, held_views(held@)) is None,
        r matches Some((_, recip, _)) ==> exists|j: int|
            0 <= j < held@.len() && (#[trigger] held@[j]).0@ == recip@,
{
    let lookup = indy_utils::pack::key_lookup_fn(|kids: &Vec<EncodedVerKey>| {
        let names = kids.iter().map(|k| k.key.clone()).collect();
        match_recipient(&names, held).map(|(i, sk)| (i, PrivateKey::new(sk, None)))
    });
    let waker = Waker::noop();
    let mut cx = Context::from_waker(&waker);
    let mut fut = Box::pin(indy_utils::pack::unpack_message(message, &lookup));
    match Future::poll(fut.as_mut(), &mut cx) {
        Poll::Ready(Ok((m, recip, sndr))) => Some((m, recip.key.clone(), sndr.map(|s| s.key.clone()))),
        _ => None,
    }
}

/// Whether a row is a live, usable keypair at the given time: filed
/// under the keypair category and carrying parseable parameters with
/// full 64-byte private key material.
pub open spec fn usable_keypair(row: RowModel, now_ms: i64) -> bool {
    &&& row.category == "keypair"@
    &&& entry_live(row, now_ms)
    &&& parsed_params(row.value) matches Some(pm) && pm.prv_key matches Some(sk) && sk.len() == 64
}

/// The views of a held key list.
pub open spec fn held_views(s: Seq<(String, Vec<u8>)>) -> Seq<(Seq<char>, Seq<u8>)> {
    s.map_values(|p: (String, Vec<u8>)| (p.0@, p.1@))
}

/// The view of an optional string.
pub open spec fn opt_str_view(o: Option<String>) -> Option<Seq<char>> {
    match o {
        Option::None => Option::None,
        Option::Some(s) => Option::Some(s@),
    }
}

/// The usable keypairs of a profile, in stored order: each row's name
/// with its private key bytes.
pub open spec fn spec_collect(rows: Seq<RowModel>, now_ms: i64) -> Seq<(Seq<char>, Seq<u8>)>
    decreases rows.len(),
{
    if rows.len() == 0 {
        Seq::empty()
    } else {
        let head = spec_collect(rows.drop_last(), now_ms);
        if usable_keypair(rows.last(), now_ms) {
            head.push((rows.last().name, parsed_params(rows.last().value)->0.prv_key->0))
        } else {
            head
        }
    }
}

/// Whether the collected pair at `j` reports a usable row: its name
/// and the private key its parameters carry.
pub open spec fn collected_from(
    c: Seq<(Seq<char>, Seq<u8>)>,
    j: int,
    rows: Seq<RowModel>,
    now_ms: i64,
) -> bool {
    exists|i: int|
        0 <= i < rows.len() && usable_keypair(#[trigger] rows[i], now_ms) && c[j].0 == rows[i].name
            && c[j].1 == parsed_params(rows[i].value)->0.prv_key->0
}

/// Every collected pair is a usable row's name and 64-byte private
/// key.
pub proof fn lemma_collect_sound(rows: Seq<RowModel>, now_ms: i64)
    ensures
        forall|j: int|
            0 <= j < spec_collect(rows, now_ms).len() ==> #[trigger] collected_from(
                spec_collect(rows, now_ms),
                j,
                rows,
                now_ms,
            ),
        forall|j: int|
            0 <= j < spec_collect(rows, now_ms).len() ==> (#[trigger] spec_collect(
                rows,
                now_ms,
            )[j]).1.len() == 64,
    decreases rows.len(),
{
    if rows.len() > 0 {
        lemma_collect_sound(rows.drop_last(), now_ms);
        let c = spec_collect(rows, now_ms);
        let ch = spec_collect(rows.drop_last(), now_ms);
        assert forall|j: int| 0 <= j < c.len() implies #[trigger] collected_from(
            c,
            j,
            rows,
            now_ms,
        ) by {
            if j < ch.len() {
                assert(c[j] == ch[j]);
                assert(collected_from(ch, j, rows.drop_last(), now_ms));
                let i0 = choose|i: int|
                    0 <= i < rows.drop_last().len() && usable_keypair(
                        #[trigger] rows.drop_last()[i],
                        now_ms,
                    ) && ch[j].0 == rows.drop_last()[i].name && ch[j].1 == parsed_params(
                        rows.drop_last()[i].value,
                    )->0.prv_key->0;
                assert(rows[i0] == rows.drop_last()[i0]);
            } else {
                assert(usable_keypair(rows.last(), now_ms));
                assert(rows[rows.len() - 1] == rows.last());
            }
        }
        assert forall|j: int| 0 <= j < c.len() implies (#[trigger] c[j]).1.len() == 64 by {
            assert(collected_from(c, j, rows, now_ms));
            let i0 = choose|i: int|
                0 <= i < rows.len() && usable_keypair(#[trigger] rows[i], now_ms) && c[j].0
                    == rows[i].name && c[j].1 == parsed_params(rows[i].value)->0.prv_key->0;
            assert(usable_keypair(rows[i0], now_ms));
        }
    }
}

/// Collect the session profile's usable keypairs, in stored order.
fn collect_keypairs(store: &Store, sess: &Session, now_ms: i64) -> (r: Vec<(String, Vec<u8>)>)
    requires
        store_wf(store@),
        session_wf(*sess, store@),
    ensures
        held_views(r@) == spec_collect(store@.profiles[sess.spec_profile()].entries, now_ms),
{
    proof {
        reveal_strlit("keypair");
    }
    let entries = store.profile_rows(sess);
    let ghost ev = store@.profiles[sess.spec_profile()].entries;
    let mut held: Vec<(String, Vec<u8>)> = Vec::new();
    let mut i: usize = 0;
    proof {
        assert(held_views(held@) =~= Seq::<(Seq<char>, Seq<u8>)>::empty());
        assert(ev.take(0) =~= Seq::<RowModel>::empty());
    }
    while i < entries.len()
        invariant
            0 <= i <= entries@.len(),
            row_views(entries@) == ev,
            held_views(held@) == spec_collect(ev.take(i as int), now_ms),
        decreases entries@.len() - i,
    {
        let row = &entries[i];
        proof {
            assert(ev[i as int] == entries@[i as int]@);
            assert(ev.take(i + 1).drop_last() =~= ev.take(i as int));
            assert(ev.take(i + 1).last() == ev[i as int]);
        }
        let cat_ok = crate::types::str_compare(row.category.as_str(), "keypair") == 0;
        let live = match row.expiry_ms {
            Option::None => true,
            Option::Some(x) => now_ms <= x,
        };
        let mut pushed = false;
        if cat_ok && live {
            match KeyParams::from_slice(row.value.as_slice()) {
                Result::Ok(params) => {
                    let ghost gp = params@;
                    proof {
                        assert(parsed_params(ev[i as int].value) == Option::Some(gp));
                    }
                    match params.prv_key {
                        Option::Some(sk) => {
                            if sk.len() == 64 {
                                let ghost pre = held@;
                                held.push((row.name.clone(), sk.into_vec()));
                                pushed = true;
                                proof {
                                    assert(usable_keypair(ev[i as int], now_ms));
                                    assert(held_views(held@) =~= held_views(pre).push(
                                        (ev[i as int].name, gp.prv_key->0),
                                    ));
                                }
                            } else {
                                proof {
                                    assert(gp.prv_key->0.len() != 64);
                                    assert(!usable_keypair(ev[i as int], now_ms));
                                }
                            }
                        },
                        Option::None => {
                            proof {
                                assert(gp.prv_key is None);
                                assert(!usable_keypair(ev[i as int], now_ms));
                            }
                        },
                    }
                },
                Result::Err(_) => {
                    proof {
                        assert(parsed_params(ev[i as int].value) is None);
                        assert(!usable_keypair(ev[i as int], now_ms));
                    }
                },
            }
        } else {
            proof {
                if !cat_ok {
                    assert(ev[i as int].category != "keypair"@);
                } else {
                    assert(!entry_live(ev[i as int], now_ms));
                }
                assert(!usable_keypair(ev[i as int], now_ms));
            }
        }
        proof {
            if !pushed {
                assert(!usable_keypair(ev[i as int], now_ms));
            }
        }
        i = i + 1;
    }
    proof {
        assert(ev.take(ev.len() as int) =~= ev);
    }
    held
}

/// Seal a message for the listed recipients, authenticated by the
/// named sender keypair when one is given. An empty recipient list is
/// rejected with `Input`; the sender key is resolved as for
/// [`sign_message`], with the same error kinds; a failure inside the
/// envelope construction itself is reported as `Unexpected`.
pub fn pack_message(
    store: &Store,
    sess: &Session,
    recipients: &Vec<String>,
    sender_ident: Option<&String>,
    message: &Vec<u8>,
    now_ms: i64,
) -> (r: Result<Vec<u8>, Error>)
    requires
        store_wf(store@),
        session_wf(*sess, store@),
    ensures
        recipients@.len() == 0 ==> (r matches Err(e) && e.kind == ErrorKind::Input),
        recipients@.len() > 0 ==> (match sender_ident {
            Option::None => (r matches Err(e) ==> e.kind == ErrorKind::Unexpected),
            Option::Some(ident) => ({
                let entries = store@.profiles[sess.spec_profile()].entries;
                let present = has_row(entries, "keypair"@, ident@) && entry_live(
                    entries[row_index(entries, "keypair"@, ident@)],
                    now_ms,
                );
                let pm = parsed_params(entries[row_index(entries, "keypair"@, ident@)].value);
                if ident@.len() == 0 {
                    r matches Err(e) && e.kind == ErrorKind::Input
                } else if !present {
                    r matches Err(e) && e.kind == ErrorKind::NotFound
                } else if pm is None {
                    r matches Err(e) && e.kind == ErrorKind::Unexpected
                } else if pm->0.alg != "ed25519"@ {
                    r matches Err(e) && e.kind == ErrorKind::Unsupported
                } else if pm->0.prv_key is None {
                    r matches Err(e) && e.kind == ErrorKind::Input
                } else {
                    r matches Err(e) ==> e.kind == ErrorKind::Unexpected
                }
            }),
        }),
        r matches Ok(v) ==> v@.len() > 0,
{
    proof {
        reveal_strlit("keypair");
    }
    if recipients.len() == 0 {
        return Result::Err(
            Error::new(ErrorKind::Input, String::from_str("no message recipients")),
        );
    }
    let sender_key = match sender_ident {
        Option::None => Option::None,
        Option::Some(ident) => {
            let key = match fetch_key(store, sess, KeyCategory::KeyPair, ident, false, now_ms) {
                Result::Err(e) => {
                    return Result::Err(e);
                },
                Result::Ok(Option::None) => {
                    return Result::Err(
                        Error::new(ErrorKind::NotFound, String::from_str("unknown key")),
                    );
                },
                Result::Ok(Option::Some(k)) => k,
            };
            let is_ed = match &key.params.alg {
                KeyAlg::ED25519 => true,
                _ => false,
            };
            if !is_ed {
                return Result::Err(
                    Error::new(
                        ErrorKind::Unsupported,
                        String::from_str("unsupported key algorithm"),
                    ),
                );
            }
            match key.params.prv_key {
                Option::None => {
                    return Result::Err(
                        Error::new(ErrorKind::Input, String::from_str("undefined private key")),
                    );
                },
                Option::Some(sk) => Option::Some(sk),
            }
        },
    };
    let sender_ref = match &sender_key {
        Option::None => Option::None,
        Option::Some(sk) => Option::Some(sk),
    };
    match pack_envelope(message, recipients, sender_ref) {
        Option::None => Result::Err(
            Error::new(ErrorKind::Unexpected, String::from_str("packing failed")),
        ),
        Option::Some(packed) => Result::Ok(packed),
    }
}

/// Open a packed envelope with the session profile's usable keypairs:
/// the result is exactly what opening the message with those keys
/// yields — the plaintext, the recipient key that opened it (always
/// one of the profile's usable keypair identifiers) and the sender
/// key of an authenticated envelope. Every failure — a malformed
/// envelope, no matching recipient or an authentication error — is
/// reported as `Encryption`.
pub fn unpack_message(store: &Store, sess: &Session, message: &Vec<u8>, now_ms: i64) -> (r: Result<
    (Vec<u8>, String, Option<String>),
    Error,
>)
    requires
        store_wf(store@),
        session_wf(*sess, store@),
    ensures
        r matches Err(e) ==> e.kind == ErrorKind::Encryption,
        ({
            let held = spec_collect(store@.profiles[sess.spec_profile()].entries, now_ms);
            if !envelope_ok(message@) {
                r is Err
            } else {
                match open_of(message@, held) {
                    Option::None => r is Err,
                    Option::Some(t) => r matches Ok(o) && o.0@ == t.0 && o.1@ == t.1
                        && opt_str_view(o.2) == t.2,
                }
            }
        }),
        r matches Ok((_, recip, _)) ==> ({
            let entries = store@.profiles[sess.spec_profile()].entries;
            exists|i: int|
                0 <= i < entries.len() && usable_keypair(#[trigger] entries[i], now_ms)
                    && entries[i].name == recip@
        }),
{
    let ghost entries = store@.profiles[sess.spec_profile()].entries;
    let held = collect_keypairs(store, sess, now_ms);
    proof {
        lemma_collect_sound(entries, now_ms);
        assert forall|j: int| 0 <= j < held@.len() implies (#[trigger] held@[j]).1@.len()
            >= 32 by {
            assert(held_views(held@)[j] == (held@[j].0@, held@[j].1@));
            assert(held_views(held@)[j].1.len() == 64);
        }
    }
    if !envelope_precheck(message) {
        return Result::Err(
            Error::new(ErrorKind::Encryption, String::from_str("malformed message envelope")),
        );
    }
    match open_envelope(message, &held) {
        Option::None => Result::Err(
            Error::new(
                ErrorKind::Encryption,
                String::from_str("no matching recipient or authentication failure"),
            ),
        ),
        Option::Some(opened) => {
            proof {
                let c = spec_collect(entries, now_ms);
                let j = choose|j: int|
                    0 <= j < held@.len() && (#[trigger] held@[j]).0@ == opened.1@;
                assert(held_views(held@)[j] == (held@[j].0@, held@[j].1@));
                assert(c[j].0 == opened.1@);
                assert(collected_from(c, j, entries, now_ms));
                let i0 = choose|i: int|
                    0 <= i < entries.len() && usable_keypair(#[trigger] entries[i], now_ms)
                        && c[j].0 == entries[i].name && c[j].1 == parsed_params(
                        entries[i].value,
                    )->0.prv_key->0;
                assert(usable_keypair(entries[i0], now_ms) && entries[i0].name == opened.1@);
            }
            Result::Ok(opened)
        },
    }
}

} // verus!
