//! Key algorithms, categories, stored-key parameters and pass keys.

use vstd::prelude::*;
use vstd::relations::sorted_by;
use vstd::std_specs::cmp::PartialEqSpec;
use crate::error::{Error, ErrorKind};
use crate::json::{
    esc, esc_char, json_pair_models, lookup, obj_get, parse_document, push_str_chars, sp_document,
    write_escaped, JsonModel, JsonValue,
};
use crate::types::{
    bytes_eq, chars_to_string, copy_bytes, sorted_tags, string_from_utf8, tag_order, tag_views,
    zeroize_string, EntryTag, SecretBytes, TagModel,
};

verus! {

/// Supported key algorithms.
#[derive(Clone, Debug)]
pub enum KeyAlg {
    /// The curve25519-based signature scheme.
    ED25519,
    /// An unrecognized algorithm, kept verbatim.
    Other(String),
}

/// The canonical string of a key algorithm.
pub open spec fn alg_str(a: KeyAlg) -> Seq<char> {
    match a {
        KeyAlg::ED25519 => "ed25519"@,
        KeyAlg::Other(o) => o@,
    }
}

impl KeyAlg {
    /// A string representing the algorithm.
    pub fn as_str(&self) -> (r: &str)
        ensures
            r@ == alg_str(*self),
    {
        match self {
            KeyAlg::ED25519 => "ed25519",
            KeyAlg::Other(other) => other.as_str(),
        }
    }

    /// Parse an algorithm name; anything but the known names is kept
    /// as [`KeyAlg::Other`].
    pub fn from_str(s: &str) -> (r: KeyAlg)
        ensures
            alg_str(r) == s@,
            r is ED25519 <==> s@ == "ed25519"@,
    {
        if crate::types::str_compare(s, "ed25519") == 0 {
            KeyAlg::ED25519
        } else {
            KeyAlg::Other(String::from_str(s))
        }
    }

    /// An owned copy, equal to the original.
    pub fn duplicate(&self) -> (r: KeyAlg)
        ensures
            r == *self,
    {
        match self {
            KeyAlg::ED25519 => KeyAlg::ED25519,
            KeyAlg::Other(o) => KeyAlg::Other(o.clone()),
        }
    }
}

impl PartialEq for KeyAlg {
    fn eq(&self, other: &KeyAlg) -> (r: bool) {
        match (self, other) {
            (KeyAlg::ED25519, KeyAlg::ED25519) => true,
            (KeyAlg::Other(a), KeyAlg::Other(b)) => a.eq(b),
            _ => false,
        }
    }
}

impl Eq for KeyAlg {}

/// Equality of key algorithms by contents.
pub open spec fn alg_eq(x: KeyAlg, y: KeyAlg) -> bool {
    match (x, y) {
        (KeyAlg::ED25519, KeyAlg::ED25519) => true,
        (KeyAlg::Other(a), KeyAlg::Other(b)) => a@ == b@,
        _ => false,
    }
}

impl vstd::std_specs::cmp::PartialEqSpecImpl for KeyAlg {
    open spec fn obeys_eq_spec() -> bool {
        true
    }

    open spec fn eq_spec(&self, other: &KeyAlg) -> bool {
        alg_eq(*self, *other)
    }
}

/// Categories of stored keys.
#[derive(Clone, Debug)]
pub enum KeyCategory {
    /// A public key only.
    PublicKey,
    /// A public and private key pair.
    KeyPair,
    /// An unrecognized category, kept verbatim.
    Other(String),
}

/// The canonical string of a key category.
pub open spec fn category_str(c: KeyCategory) -> Seq<char> {
    match c {
        KeyCategory::PublicKey => "public"@,
        KeyCategory::KeyPair => "keypair"@,
        KeyCategory::Other(o) => o@,
    }
}

impl KeyCategory {
    /// A string representing the category.
    pub fn as_str(&self) -> (r: &str)
        ensures
            r@ == category_str(*self),
    {
        match self {
            KeyCategory::PublicKey => "public",
            KeyCategory::KeyPair => "keypair",
            KeyCategory::Other(other) => other.as_str(),
        }
    }

    /// Convert the category into an owned string.
    pub fn into_string(self) -> (r: String)
        ensures
            r@ == category_str(self),
    {
        match self {
            KeyCategory::Other(other) => other,
            c => String::from_str(c.as_str()),
        }
    }

    /// Parse a category name; anything but the known names is kept as
    /// [`KeyCategory::Other`].
    pub fn from_str(s: &str) -> (r: KeyCategory)
        ensures
            category_str(r) == s@,
            r is PublicKey <==> s@ == "public"@,
            r is KeyPair <==> s@ == "keypair"@,
    {
        proof {
            reveal_strlit("public");
            reveal_strlit("keypair");
        }
        if crate::types::str_compare(s, "public") == 0 {
            KeyCategory::PublicKey
        } else if crate::types::str_compare(s, "keypair") == 0 {
            KeyCategory::KeyPair
        } else {
            KeyCategory::Other(String::from_str(s))
        }
    }

    /// An owned copy, equal to the original.
    pub fn duplicate(&self) -> (r: KeyCategory)
        ensures
            r == *self,
    {
        match self {
            KeyCategory::PublicKey => KeyCategory::PublicKey,
            KeyCategory::KeyPair => KeyCategory::KeyPair,
            KeyCategory::Other(o) => KeyCategory::Other(o.clone()),
        }
    }
}

impl PartialEq for KeyCategory {
    fn eq(&self, other: &KeyCategory) -> (r: bool) {
        match (self, other) {
            (KeyCategory::PublicKey, KeyCategory::PublicKey) => true,
            (KeyCategory::KeyPair, KeyCategory::KeyPair) => true,
            (KeyCategory::Other(a), KeyCategory::Other(b)) => a.eq(b),
            _ => false,
        }
    }
}

impl Eq for KeyCategory {}

/// Equality of key categories by contents.
pub open spec fn category_eq(x: KeyCategory, y: KeyCategory) -> bool {
    match (x, y) {
        (KeyCategory::PublicKey, KeyCategory::PublicKey) => true,
        (KeyCategory::KeyPair, KeyCategory::KeyPair) => true,
        (KeyCategory::Other(a), KeyCategory::Other(b)) => a@ == b@,
        _ => false,
    }
}

impl vstd::std_specs::cmp::PartialEqSpecImpl for KeyCategory {
    open spec fn obeys_eq_spec() -> bool {
        true
    }

    open spec fn eq_spec(&self, other: &KeyCategory) -> bool {
        category_eq(*self, *other)
    }
}

/// Parameters defining a stored key.
pub struct KeyParams {
    /// The key algorithm.
    pub alg: KeyAlg,
    /// Associated key metadata.
    pub metadata: Option<String>,
    /// An optional external reference for the key.
    pub reference: Option<String>,
    /// The public key in binary form.
    pub pub_key: Option<Vec<u8>>,
    /// The private key in binary form; confidential.
    pub prv_key: Option<SecretBytes>,
}

/// Equality of optional strings by contents.
pub open spec fn opt_str_eq(a: Option<String>, b: Option<String>) -> bool {
    match (a, b) {
        (Option::None, Option::None) => true,
        (Option::Some(x), Option::Some(y)) => x@ == y@,
        _ => false,
    }
}

fn opt_string_eq(a: &Option<String>, b: &Option<String>) -> (r: bool)
    ensures
        r == opt_str_eq(*a, *b),
{
    match (a, b) {
        (Option::None, Option::None) => true,
        (Option::Some(x), Option::Some(y)) => x.eq(y),
        _ => false,
    }
}

impl KeyParams {
    /// Whether two parameter sets hold the same contents.
    pub open spec fn same_params(self, other: KeyParams) -> bool {
        &&& alg_eq(self.alg, other.alg)
        &&& opt_str_eq(self.metadata, other.metadata)
        &&& opt_str_eq(self.reference, other.reference)
        &&& (match (self.pub_key, other.pub_key) {
            (Option::None, Option::None) => true,
            (Option::Some(x), Option::Some(y)) => x@ == y@,
            _ => false,
        })
        &&& (match (self.prv_key, other.prv_key) {
            (Option::None, Option::None) => true,
            (Option::Some(x), Option::Some(y)) => x@ == y@,
            _ => false,
        })
    }

    /// An owned copy with the same contents.
    pub fn duplicate(&self) -> (r: KeyParams)
        ensures
            r.same_params(*self),
    {
        KeyParams {
            alg: self.alg.duplicate(),
            metadata: match &self.metadata {
                Option::None => Option::None,
                Option::Some(s) => Option::Some(s.clone()),
            },
            reference: match &self.reference {
                Option::None => Option::None,
                Option::Some(s) => Option::Some(s.clone()),
            },
            pub_key: match &self.pub_key {
                Option::None => Option::None,
                Option::Some(v) => Option::Some(crate::types::copy_bytes(v)),
            },
            prv_key: match &self.prv_key {
                Option::None => Option::None,
                Option::Some(s) => Option::Some(s.duplicate()),
            },
        }
    }
}

impl PartialEq for KeyParams {
    fn eq(&self, other: &KeyParams) -> (r: bool) {
        let algs = self.alg.eq(&other.alg);
        let metas = opt_string_eq(&self.metadata, &other.metadata);
        let refs = opt_string_eq(&self.reference, &other.reference);
        let pubs = match (&self.pub_key, &other.pub_key) {
            (Option::None, Option::None) => true,
            (Option::Some(x), Option::Some(y)) => bytes_eq(x, y),
            _ => false,
        };
        let prvs = match (&self.prv_key, &other.prv_key) {
            (Option::None, Option::None) => true,
            (Option::Some(x), Option::Some(y)) => bytes_eq(x.bytes(), y.bytes()),
            _ => false,
        };
        algs && metas && refs && pubs && prvs
    }
}

impl Eq for KeyParams {}

impl vstd::std_specs::cmp::PartialEqSpecImpl for KeyParams {
    open spec fn obeys_eq_spec() -> bool {
        true
    }

    open spec fn eq_spec(&self, other: &KeyParams) -> bool {
        self.same_params(*other)
    }
}

/// A stored key entry.
pub struct KeyEntry {
    /// The category of the key entry.
    pub category: KeyCategory,
    /// The key entry identifier.
    pub ident: String,
    /// The parameters defining the key.
    pub params: KeyParams,
    /// Tags associated with the key entry record.
    pub tags: Option<Vec<EntryTag>>,
}

/// The multiset of tag views of an optional tag list; an absent list
/// counts as empty.
pub open spec fn tag_multiset(tags: Option<Vec<EntryTag>>) -> vstd::multiset::Multiset<TagModel> {
    match tags {
        Option::None => tag_views(Seq::empty()).to_multiset(),
        Option::Some(v) => tag_views(v@).to_multiset(),
    }
}

impl KeyEntry {
    /// Split the entry into its parts.
    pub fn into_parts(self) -> (r: (KeyCategory, String, KeyParams, Option<Vec<EntryTag>>))
        ensures
            r.0 == self.category,
            r.1 == self.ident,
            r.2 == self.params,
            r.3 == self.tags,
    {
        (self.category, self.ident, self.params, self.tags)
    }

    /// Determine if a key entry refers to a local or external key.
    pub fn is_local(&self) -> (r: bool)
        ensures
            r == (self.params.reference is None),
    {
        self.params.reference.is_none()
    }

    /// An owned copy with the same contents.
    pub fn duplicate(&self) -> (r: KeyEntry)
        ensures
            r.category == self.category,
            r.ident == self.ident,
            r.params.same_params(self.params),
            tag_multiset(r.tags) == tag_multiset(self.tags),
            r.tags is Some <==> self.tags is Some,
            r.tags matches Some(v) ==> self.tags matches Some(w) && tag_views(v@) == tag_views(w@),
    {
        KeyEntry {
            category: self.category.duplicate(),
            ident: self.ident.clone(),
            params: self.params.duplicate(),
            tags: match &self.tags {
                Option::None => Option::None,
                Option::Some(v) => Option::Some(crate::types::copy_tags(v)),
            },
        }
    }

    /// The public key bytes of an ed25519 entry. A missing public key
    /// reports `Input`; any other algorithm `Unsupported`.
    pub fn verkey(&self) -> (r: Result<Vec<u8>, Error>)
        ensures
            ({
                match (self.params.alg, self.params.pub_key) {
                    (KeyAlg::ED25519, Option::Some(k)) => r matches Ok(v) && v@ == k@,
                    (_, Option::None) => r matches Err(e) && e.kind == ErrorKind::Input,
                    _ => r matches Err(e) && e.kind == ErrorKind::Unsupported,
                }
            }),
    {
        match (&self.params.alg, &self.params.pub_key) {
            (KeyAlg::ED25519, Option::Some(k)) => Result::Ok(copy_bytes(k)),
            (_, Option::None) => Result::Err(
                Error::new(ErrorKind::Input, String::from_str("undefined public key")),
            ),
            _ => Result::Err(
                Error::new(ErrorKind::Unsupported, String::from_str("unsupported key algorithm")),
            ),
        }
    }

    /// The base58 text of the entry's public key, with the errors of
    /// [`KeyEntry::verkey`].
    pub fn encoded_verkey(&self) -> (r: Result<String, Error>)
        ensures
            ({
                match (self.params.alg, self.params.pub_key) {
                    (KeyAlg::ED25519, Option::Some(k)) => r matches Ok(v) && v@ == b58_of(k@),
                    (_, Option::None) => r matches Err(e) && e.kind == ErrorKind::Input,
                    _ => r matches Err(e) && e.kind == ErrorKind::Unsupported,
                }
            }),
    {
        match self.verkey() {
            Result::Err(e) => Result::Err(e),
            Result::Ok(k) => Result::Ok(b58_encode(&k)),
        }
    }

    /// The private key bytes of an ed25519 entry. A missing private
    /// key reports `Input`; any other algorithm `Unsupported`.
    pub fn private_key(&self) -> (r: Result<SecretBytes, Error>)
        ensures
            ({
                match (self.params.alg, self.params.prv_key) {
                    (KeyAlg::ED25519, Option::Some(k)) => r matches Ok(v) && v@ == k@,
                    (_, Option::None) => r matches Err(e) && e.kind == ErrorKind::Input,
                    _ => r matches Err(e) && e.kind == ErrorKind::Unsupported,
                }
            }),
    {
        match (&self.params.alg, &self.params.prv_key) {
            (KeyAlg::ED25519, Option::Some(k)) => Result::Ok(k.duplicate()),
            (_, Option::None) => Result::Err(
                Error::new(ErrorKind::Input, String::from_str("undefined private key")),
            ),
            _ => Result::Err(
                Error::new(ErrorKind::Unsupported, String::from_str("unsupported key algorithm")),
            ),
        }
    }

    /// The entry's tags in canonical sorted order; `None` when there
    /// are none.
    pub fn sorted_tags(&self) -> (r: Option<Vec<EntryTag>>)
        ensures
            r is None <==> tag_multiset(self.tags) == tag_multiset(Option::None),
            r matches Some(s) ==> {
                &&& tag_views(s@).to_multiset() == tag_multiset(self.tags)
                &&& sorted_by(tag_views(s@), tag_order())
            },
    {
        match &self.tags {
            Option::None => Option::None,
            Option::Some(v) => {
                let r = sorted_tags(v);
                proof {
                    broadcast use vstd::seq_lib::group_to_multiset_ensures;

                    assert(tag_views(Seq::empty()) =~= Seq::<TagModel>::empty());
                    assert(tag_multiset(Option::<Vec<EntryTag>>::None).len() == 0);
                    assert(tag_views(v@).len() == v@.len());
                    if v@.len() > 0 {
                        assert(tag_views(v@).to_multiset().len() == v@.len());
                    } else {
                        assert(tag_views(v@) =~= Seq::<TagModel>::empty());
                    }
                }
                r
            },
        }
    }
}

impl PartialEq for KeyEntry {
    fn eq(&self, other: &KeyEntry) -> (r: bool) {
        let heads = self.category.eq(&other.category) && self.ident.eq(&other.ident)
            && self.params.eq(&other.params);
        if !heads {
            return false;
        }
        let a = self.sorted_tags();
        let b = other.sorted_tags();
        match (a, b) {
            (Option::None, Option::None) => true,
            (Option::Some(x), Option::Some(y)) => {
                let r = tags_list_eq(&x, &y);
                proof {
                    if !r {
                        if tag_multiset(self.tags) == tag_multiset(other.tags) {
                            crate::types::lemma_tag_order_total();
                            vstd::seq_lib::lemma_sorted_unique(
                                tag_views(x@),
                                tag_views(y@),
                                tag_order(),
                            );
                            assert(tag_views(x@) =~= tag_views(y@));
                        }
                    }
                }
                r
            },
            _ => {
                proof {
                    broadcast use vstd::seq_lib::group_to_multiset_ensures;

                }
                false
            },
        }
    }
}

impl Eq for KeyEntry {}

impl vstd::std_specs::cmp::PartialEqSpecImpl for KeyEntry {
    open spec fn obeys_eq_spec() -> bool {
        true
    }

    /// Entries are equal when category, identifier and parameters
    /// match and they carry the same tags, in any order.
    open spec fn eq_spec(&self, other: &KeyEntry) -> bool {
        &&& category_eq(self.category, other.category)
        &&& self.ident@ == other.ident@
        &&& self.params.same_params(other.params)
        &&& tag_multiset(self.tags) == tag_multiset(other.tags)
    }
}

/// Element-wise equality of two tag lists.
fn tags_list_eq(a: &Vec<EntryTag>, b: &Vec<EntryTag>) -> (r: bool)
    ensures
        r == (tag_views(a@) == tag_views(b@)),
{
    if a.len() != b.len() {
        proof {
            assert(tag_views(a@).len() != tag_views(b@).len());
        }
        return false;
    }
    let mut i: usize = 0;
    while i < a.len()
        invariant
            0 <= i <= a.len(),
            a.len() == b.len(),
            forall|k: int| 0 <= k < i ==> tag_views(a@)[k] == tag_views(b@)[k],
        decreases a.len() - i,
    {
        let same = match (&a[i], &b[i]) {
            (EntryTag::Encrypted(n1, v1), EntryTag::Encrypted(n2, v2)) => n1.eq(n2) && v1.eq(v2),
            (EntryTag::Plaintext(n1, v1), EntryTag::Plaintext(n2, v2)) => n1.eq(n2) && v1.eq(v2),
            _ => false,
        };
        if !same {
            proof {
                assert(tag_views(a@)[i as int] != tag_views(b@)[i as int]);
            }
            return false;
        }
        i = i + 1;
    }
    proof {
        assert(tag_views(a@) =~= tag_views(b@));
    }
    true
}

/// A possibly-empty password or key used to derive a store wrap key.
/// An absent pass key is a distinct state from an empty string. The
/// contents are scrubbed by an explicit [`PassKey::zeroize`] before
/// release.
pub struct PassKey(Option<String>);

impl View for PassKey {
    type V = Option<Seq<char>>;

    closed spec fn view(&self) -> Option<Seq<char>> {
        match self.0 {
            Option::None => Option::None,
            Option::Some(s) => Option::Some(s@),
        }
    }
}

impl PassKey {
    /// A pass key holding the given text, or the absent pass key.
    pub fn new(text: Option<String>) -> (r: PassKey)
        ensures
            r@ == (match text {
                Option::None => Option::<Seq<char>>::None,
                Option::Some(s) => Option::Some(s@),
            }),
    {
        PassKey(text)
    }

    /// The absent pass key.
    pub fn empty() -> (r: PassKey)
        ensures
            r@ is None,
    {
        PassKey(Option::None)
    }

    /// An owned copy of the pass key with the same contents.
    pub fn as_ref(&self) -> (r: PassKey)
        ensures
            r@ == self@,
    {
        match &self.0 {
            Option::None => PassKey(Option::None),
            Option::Some(s) => PassKey(Option::Some(s.clone())),
        }
    }

    /// Whether the pass key is absent.
    pub fn is_none(&self) -> (r: bool)
        ensures
            r == (self@ is None),
    {
        self.0.is_none()
    }

    /// Take ownership of the pass key.
    pub fn into_owned(self) -> (r: PassKey)
        ensures
            r@ == self@,
    {
        self
    }

    /// The text of the pass key; absent reads as the empty string.
    pub fn text(&self) -> (r: &str)
        ensures
            self@ matches Some(s) ==> r@ == s,
            self@ is None ==> r@ == Seq::<char>::empty(),
    {
        proof {
            reveal_strlit("");
        }
        match &self.0 {
            Option::None => "",
            Option::Some(s) => s.as_str(),
        }
    }

    /// Scrub the contents and leave the pass key absent.
    pub fn zeroize(&mut self)
        ensures
            final(self)@ is None,
    {
        match &mut self.0 {
            Option::None => {},
            Option::Some(s) => {
                zeroize_string(s);
            },
        }
        self.0 = Option::None;
    }
}

/// The text a pass key reads as: absent reads as the empty string.
pub open spec fn passkey_text(v: Option<Seq<char>>) -> Seq<char> {
    match v {
        Option::None => Seq::empty(),
        Option::Some(s) => s,
    }
}

impl PartialEq for PassKey {
    /// Pass keys compare by the text they read as, so the absent pass
    /// key equals one holding the empty string.
    fn eq(&self, other: &PassKey) -> (r: bool) {
        crate::types::str_compare(self.text(), other.text()) == 0
    }
}

impl Eq for PassKey {}

impl vstd::std_specs::cmp::PartialEqSpecImpl for PassKey {
    open spec fn obeys_eq_spec() -> bool {
        true
    }

    open spec fn eq_spec(&self, other: &PassKey) -> bool {
        passkey_text(self@) == passkey_text(other@)
    }
}

/// The base58 text of a byte string.
pub uninterp spec fn b58_of(b: Seq<u8>) -> Seq<char>;

/// The bytes a base58 text denotes, when it is valid base58.
pub uninterp spec fn b58_decode_of(s: Seq<char>) -> Option<Seq<u8>>;

/// Whether a character is in the base58 alphabet: the digits and
/// letters without `0`, `O`, `I` and `l`.
pub open spec fn is_b58_char(c: char) -> bool {
    ('1' <= c && c <= '9') || ('A' <= c && c <= 'H') || ('J' <= c && c <= 'N') || ('P' <= c && c
        <= 'Z') || ('a' <= c && c <= 'k') || ('m' <= c && c <= 'z')
}

/// Base58 text needs no JSON escaping: it is its own escaped form.
pub proof fn lemma_b58_text_unescaped(s: Seq<char>)
    requires
        forall|i: int| 0 <= i < s.len() ==> is_b58_char(#[trigger] s[i]),
    ensures
        esc(s) == Option::Some(s),
    decreases s.len(),
{
    if s.len() > 0 {
        lemma_b58_text_unescaped(s.drop_last());
        assert(is_b58_char(s.last()));
        assert(esc_char(s.last()) == Option::Some(seq![s.last()]));
        assert(esc(s)->0 =~= s);
    }
}

/// Relies on `indy_utils::base58::encode` (bs58): the deterministic
/// base58 text of the bytes, which `decode` maps back to them; every
/// input byte yields at least one character, all from the base58
/// alphabet.
#[verifier::external_body]
pub(crate) fn b58_encode(b: &Vec<u8>) -> (r: String)
    ensures
        r@ == b58_of(b@),
        b58_decode_of(r@) == Option::Some(b@),
        b@.len() > 0 ==> r@.len() > 0,
        forall|i: int| 0 <= i < r@.len() ==> is_b58_char(#[trigger] r@[i]),
{
    indy_utils::base58::encode(b)
}

/// Relies on `indy_utils::base58::decode` (bs58): the bytes a valid
/// base58 text denotes; text outside the alphabet is refused.
#[verifier::external_body]
pub(crate) fn b58_decode(s: &str) -> (r: Option<Vec<u8>>)
    ensures
        r matches Some(v) ==> b58_decode_of(s@) == Option::Some(v@),
        r is None ==> b58_decode_of(s@) is None,
{
    match indy_utils::base58::decode(s) {
        Result::Ok(v) => Option::Some(v),
        Result::Err(_) => Option::None,
    }
}

/// The mathematical model of stored key parameters.
pub ghost struct ParamsModel {
    /// The canonical algorithm name.
    pub alg: Seq<char>,
    /// The metadata text, if any.
    pub metadata: Option<Seq<char>>,
    /// The external reference, if any.
    pub reference: Option<Seq<char>>,
    /// The public key bytes, if any.
    pub pub_key: Option<Seq<u8>>,
    /// The private key bytes, if any.
    pub prv_key: Option<Seq<u8>>,
}

impl View for KeyParams {
    type V = ParamsModel;

    open spec fn view(&self) -> ParamsModel {
        ParamsModel {
            alg: alg_str(self.alg),
            metadata: (match self.metadata {
                Option::None => Option::None,
                Option::Some(m) => Option::Some(m@),
            }),
            reference: (match self.reference {
                Option::None => Option::None,
                Option::Some(x) => Option::Some(x@),
            }),
            pub_key: (match self.pub_key {
                Option::None => Option::None,
                Option::Some(k) => Option::Some(k@),
            }),
            prv_key: (match self.prv_key {
                Option::None => Option::None,
                Option::Some(k) => Option::Some(k@),
            }),
        }
    }
}

/// The serialized JSON text of key parameters: an object with the
/// algorithm and any of metadata, reference and base58-encoded keys.
/// `None` when a field holds a control character the writer rejects.
pub open spec fn params_json(p: ParamsModel) -> Option<Seq<char>> {
    if esc(p.alg) is None {
        Option::None
    } else if p.metadata matches Some(m) && esc(m) is None {
        Option::None
    } else if p.reference matches Some(x) && esc(x) is None {
        Option::None
    } else if p.pub_key matches Some(k) && esc(b58_of(k)) is None {
        Option::None
    } else if p.prv_key matches Some(k) && esc(b58_of(k)) is None {
        Option::None
    } else {
        Option::Some(
            seq!['{'] + "\"alg\":\""@ + esc(p.alg)->0 + seq!['"'] + (match p.metadata {
                Option::None => Seq::empty(),
                Option::Some(m) => ",\"meta\":\""@ + esc(m)->0 + seq!['"'],
            }) + (match p.reference {
                Option::None => Seq::empty(),
                Option::Some(x) => ",\"ref\":\""@ + esc(x)->0 + seq!['"'],
            }) + (match p.pub_key {
                Option::None => Seq::empty(),
                Option::Some(k) => ",\"pub\":\""@ + esc(b58_of(k))->0 + seq!['"'],
            }) + (match p.prv_key {
                Option::None => Seq::empty(),
                Option::Some(k) => ",\"prv\":\""@ + esc(b58_of(k))->0 + seq!['"'],
            }) + seq!['}'],
        )
    }
}

/// A field of a parsed object that must be a string when present:
/// `Some(None)` when absent, `Some(Some(text))` when a string, `None`
/// when it has another shape.
pub open spec fn str_field(pairs: Seq<(Seq<char>, JsonModel)>, key: Seq<char>) -> Option<
    Option<Seq<char>>,
> {
    match obj_get(pairs, key) {
        Option::None => Option::Some(Option::None),
        Option::Some(JsonModel::JStr(x)) => Option::Some(Option::Some(x)),
        Option::Some(_) => Option::None,
    }
}

/// The key parameters a parsed document denotes, when it is an object
/// with a string algorithm and well-shaped optional fields.
pub open spec fn params_of_json(m: JsonModel) -> Option<ParamsModel> {
    if !(m matches JsonModel::JObj(_)) {
        Option::None
    } else {
        let pairs = m->JObj_0;
        if !(str_field(pairs, "alg"@) matches Some(Some(_))) {
            Option::None
        } else if str_field(pairs, "meta"@) is None {
            Option::None
        } else if str_field(pairs, "ref"@) is None {
            Option::None
        } else if str_field(pairs, "pub"@) is None {
            Option::None
        } else if str_field(pairs, "prv"@) is None {
            Option::None
        } else if str_field(pairs, "pub"@)->0 matches Some(x) && b58_decode_of(x) is None {
            Option::None
        } else if str_field(pairs, "prv"@)->0 matches Some(x) && b58_decode_of(x) is None {
            Option::None
        } else {
            Option::Some(
                (ParamsModel {
                    alg: str_field(pairs, "alg"@)->0->0,
                    metadata: str_field(pairs, "meta"@)->0,
                    reference: str_field(pairs, "ref"@)->0,
                    pub_key: (match str_field(pairs, "pub"@)->0 {
                        Option::None => Option::None,
                        Option::Some(x) => Option::Some(b58_decode_of(x)->0),
                    }),
                    prv_key: (match str_field(pairs, "prv"@)->0 {
                        Option::None => Option::None,
                        Option::Some(x) => Option::Some(b58_decode_of(x)->0),
                    }),
                }),
            )
        }
    }
}

/// The key parameters a byte string deserializes to, when it is valid
/// UTF-8 holding a well-shaped JSON object.
pub open spec fn parsed_params(bytes: Seq<u8>) -> Option<ParamsModel> {
    if !vstd::utf8::valid_utf8(bytes) {
        Option::None
    } else {
        match sp_document(vstd::utf8::decode_utf8(bytes)) {
            Option::None => Option::None,
            Option::Some(m) => params_of_json(m),
        }
    }
}

impl KeyParams {
    /// Serialize the parameters as JSON bytes. A control character in
    /// a text field is reported as `Unexpected`.
    #[verifier::rlimit(50)]
    pub fn to_vec(&self) -> (r: Result<Vec<u8>, Error>)
        ensures
            r is Ok <==> params_json(self@) is Some,
            r matches Ok(v) ==> v@ == vstd::utf8::encode_utf8(params_json(self@)->0),
            r matches Err(e) ==> e.kind == ErrorKind::Unexpected,
    {
        let mut out: Vec<char> = Vec::new();
        out.push('{');
        push_str_chars(&mut out, "\"alg\":\"");
        let alg_chars = crate::types::str_chars(self.alg.as_str());
        if !write_escaped(&mut out, &alg_chars) {
            return Result::Err(
                Error::new(ErrorKind::Unexpected, String::from_str("unwritable key params")),
            );
        }
        out.push('"');
        let ghost part_alg = seq!['{'] + "\"alg\":\""@ + esc(alg_str(self.alg))->0 + seq!['"'];
        proof {
            assert(out@ =~= part_alg);
        }
        match &self.metadata {
            Option::None => {},
            Option::Some(m) => {
                push_str_chars(&mut out, ",\"meta\":\"");
                if !write_escaped(&mut out, &crate::types::str_chars(m.as_str())) {
                    return Result::Err(
                        Error::new(
                            ErrorKind::Unexpected,
                            String::from_str("unwritable key params"),
                        ),
                    );
                }
                out.push('"');
            },
        }
        let ghost part_meta = part_alg + (match self@.metadata {
            Option::None => Seq::<char>::empty(),
            Option::Some(m) => ",\"meta\":\""@ + esc(m)->0 + seq!['"'],
        });
        proof {
            assert(out@ =~= part_meta);
        }
        match &self.reference {
            Option::None => {},
            Option::Some(x) => {
                push_str_chars(&mut out, ",\"ref\":\"");
                if !write_escaped(&mut out, &crate::types::str_chars(x.as_str())) {
                    return Result::Err(
                        Error::new(
                            ErrorKind::Unexpected,
                            String::from_str("unwritable key params"),
                        ),
                    );
                }
                out.push('"');
            },
        }
        let ghost part_ref = part_meta + (match self@.reference {
            Option::None => Seq::<char>::empty(),
            Option::Some(x) => ",\"ref\":\""@ + esc(x)->0 + seq!['"'],
        });
        proof {
            assert(out@ =~= part_ref);
        }
        match &self.pub_key {
            Option::None => {},
            Option::Some(k) => {
                push_str_chars(&mut out, ",\"pub\":\"");
                let enc = b58_encode(k);
                if !write_escaped(&mut out, &crate::types::str_chars(enc.as_str())) {
                    return Result::Err(
                        Error::new(
                            ErrorKind::Unexpected,
                            String::from_str("unwritable key params"),
                        ),
                    );
                }
                out.push('"');
            },
        }
        let ghost part_pub = part_ref + (match self@.pub_key {
            Option::None => Seq::<char>::empty(),
            Option::Some(k) => ",\"pub\":\""@ + esc(b58_of(k))->0 + seq!['"'],
        });
        proof {
            assert(out@ =~= part_pub);
        }
        match &self.prv_key {
            Option::None => {},
            Option::Some(k) => {
                push_str_chars(&mut out, ",\"prv\":\"");
                let enc = b58_encode(k.bytes());
                if !write_escaped(&mut out, &crate::types::str_chars(enc.as_str())) {
                    return Result::Err(
                        Error::new(
                            ErrorKind::Unexpected,
                            String::from_str("unwritable key params"),
                        ),
                    );
                }
                out.push('"');
            },
        }
        let ghost part_prv = part_pub + (match self@.prv_key {
            Option::None => Seq::<char>::empty(),
            Option::Some(k) => ",\"prv\":\""@ + esc(b58_of(k))->0 + seq!['"'],
        });
        proof {
            assert(out@ =~= part_prv);
        }
        out.push('}');
        proof {
            assert(out@ =~= params_json(self@)->0);
        }
        let text = chars_to_string(&out);
        Result::Ok(text.as_str().as_bytes_vec())
    }

    /// Deserialize parameters from JSON bytes; anything malformed is
    /// reported as `Unexpected`.
    pub fn from_slice(params: &[u8]) -> (r: Result<KeyParams, Error>)
        ensures
            r is Ok <==> parsed_params(params@) is Some,
            r matches Ok(p) ==> parsed_params(params@) == Option::Some(p@),
            r matches Ok(p) ==> ((p.alg is ED25519) <==> p@.alg == "ed25519"@),
            r matches Err(e) ==> e.kind == ErrorKind::Unexpected,
    {
        let bytes = vstd::slice::slice_to_vec(params);
        let text = match string_from_utf8(bytes) {
            Option::None => {
                return Result::Err(
                    Error::new(ErrorKind::Unexpected, String::from_str("invalid key params")),
                );
            },
            Option::Some(t) => t,
        };
        let chars = crate::types::str_chars(text.as_str());
        let doc = match parse_document(&chars) {
            Option::None => {
                return Result::Err(
                    Error::new(ErrorKind::Unexpected, String::from_str("invalid key params")),
                );
            },
            Option::Some(d) => d,
        };
        let pairs = match &doc {
            JsonValue::JObj(pairs) => pairs,
            _ => {
                return Result::Err(
                    Error::new(ErrorKind::Unexpected, String::from_str("invalid key params")),
                );
            },
        };
        let ghost gm = json_pair_models(pairs@);
        let alg = match lookup(pairs, "alg") {
            Option::Some(JsonValue::JStr(a)) => KeyAlg::from_str(chars_to_string(a).as_str()),
            _ => {
                return Result::Err(
                    Error::new(ErrorKind::Unexpected, String::from_str("invalid key params")),
                );
            },
        };
        let metadata = match lookup(pairs, "meta") {
            Option::None => Option::None,
            Option::Some(JsonValue::JStr(x)) => Option::Some(chars_to_string(x)),
            Option::Some(_) => {
                return Result::Err(
                    Error::new(ErrorKind::Unexpected, String::from_str("invalid key params")),
                );
            },
        };
        let reference = match lookup(pairs, "ref") {
            Option::None => Option::None,
            Option::Some(JsonValue::JStr(x)) => Option::Some(chars_to_string(x)),
            Option::Some(_) => {
                return Result::Err(
                    Error::new(ErrorKind::Unexpected, String::from_str("invalid key params")),
                );
            },
        };
        let pub_key = match lookup(pairs, "pub") {
            Option::None => Option::None,
            Option::Some(JsonValue::JStr(x)) => {
                match b58_decode(chars_to_string(x).as_str()) {
                    Option::None => {
                        return Result::Err(
                            Error::new(
                                ErrorKind::Unexpected,
                                String::from_str("invalid key params"),
                            ),
                        );
                    },
                    Option::Some(v) => Option::Some(v),
                }
            },
            Option::Some(_) => {
                return Result::Err(
                    Error::new(ErrorKind::Unexpected, String::from_str("invalid key params")),
                );
            },
        };
        let prv_key = match lookup(pairs, "prv") {
            Option::None => Option::None,
            Option::Some(JsonValue::JStr(x)) => {
                match b58_decode(chars_to_string(x).as_str()) {
                    Option::None => {
                        return Result::Err(
                            Error::new(
                                ErrorKind::Unexpected,
                                String::from_str("invalid key params"),
                            ),
                        );
                    },
                    Option::Some(v) => Option::Some(SecretBytes::from_vec(v)),
                }
            },
            Option::Some(_) => {
                return Result::Err(
                    Error::new(ErrorKind::Unexpected, String::from_str("invalid key params")),
                );
            },
        };
        let p = KeyParams { alg, metadata, reference, pub_key, prv_key };
        Result::Ok(p)
    }
}

} // verus!
