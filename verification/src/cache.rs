//! The per-profile key cache: the decrypted wrap key and each
//! profile's store key, populated once per profile and dropped
//! together when the store closes.

use vstd::prelude::*;
use crate::types::SecretBytes;

verus! {

/// The mathematical model of a store key: the six key values.
pub ghost struct StoreKeyModel {
    /// The category key bytes.
    pub category: Seq<u8>,
    /// The name key bytes.
    pub name: Seq<u8>,
    /// The value key bytes.
    pub value: Seq<u8>,
    /// The tag-name key bytes.
    pub tag_name: Seq<u8>,
    /// The tag-value key bytes.
    pub tag_value: Seq<u8>,
    /// The tag-hash key bytes.
    pub tags_hmac: Seq<u8>,
}

/// A profile's store key: one data-encryption key for each encrypted
/// column family and the key the searchable tag hashes are derived
/// from.
pub struct StoreKey {
    /// Encrypts stored categories.
    pub category: SecretBytes,
    /// Encrypts stored names.
    pub name: SecretBytes,
    /// Encrypts stored values.
    pub value: SecretBytes,
    /// Encrypts stored tag names.
    pub tag_name: SecretBytes,
    /// Encrypts stored tag values.
    pub tag_value: SecretBytes,
    /// Keys the deterministic tag hashes.
    pub tags_hmac: SecretBytes,
}

impl View for StoreKey {
    type V = StoreKeyModel;

    open spec fn view(&self) -> StoreKeyModel {
        StoreKeyModel {
            category: self.category@,
            name: self.name@,
            value: self.value@,
            tag_name: self.tag_name@,
            tag_value: self.tag_value@,
            tags_hmac: self.tags_hmac@,
        }
    }
}

/// The cache of decrypted key material for one open store.
pub struct KeyCache {
    wrap_key: SecretBytes,
    profiles: Vec<(String, u64, StoreKey)>,
}

impl KeyCache {
    /// The profile names in the cache, in insertion order.
    pub closed spec fn spec_names(&self) -> Seq<Seq<char>> {
        self.profiles@.map_values(|p: (String, u64, StoreKey)| p.0@)
    }

    /// The profile ids in the cache, in insertion order.
    pub closed spec fn spec_ids(&self) -> Seq<u64> {
        self.profiles@.map_values(|p: (String, u64, StoreKey)| p.1)
    }

    /// The store keys in the cache, in insertion order.
    pub closed spec fn spec_keys(&self) -> Seq<StoreKeyModel> {
        self.profiles@.map_values(|p: (String, u64, StoreKey)| p.2@)
    }

    /// The wrap key held for the store.
    pub closed spec fn spec_wrap_key(&self) -> Seq<u8> {
        self.wrap_key@
    }

    /// At most one entry per profile name.
    pub open spec fn wf(&self) -> bool {
        forall|i: int, j: int|
            0 <= i < j < self.spec_names().len() ==> #[trigger] self.spec_names()[i]
                != #[trigger] self.spec_names()[j]
    }

    /// Whether a profile is cached.
    pub open spec fn has_name(&self, name: Seq<char>) -> bool {
        exists|i: int| 0 <= i < self.spec_names().len() && #[trigger] self.spec_names()[i] == name
    }

    /// The position of a cached profile.
    pub open spec fn name_index(&self, name: Seq<char>) -> int {
        choose|i: int| 0 <= i < self.spec_names().len() && #[trigger] self.spec_names()[i] == name
    }

    /// An empty cache holding the decrypted wrap key.
    pub fn new(wrap_key: SecretBytes) -> (r: KeyCache)
        ensures
            r.wf(),
            r.spec_names().len() == 0,
            r.spec_wrap_key() == wrap_key@,
    {
        let r = KeyCache { wrap_key, profiles: Vec::new() };
        proof {
            assert(r.spec_names() =~= Seq::<Seq<char>>::empty());
        }
        r
    }

    /// Find a cached profile by name.
    fn find(&self, name: &String) -> (r: Option<usize>)
        requires
            self.wf(),
        ensures
            r is Some <==> self.has_name(name@),
            r matches Some(i) ==> 0 <= i < self.spec_names().len() && i == self.name_index(name@),
    {
        let mut i: usize = 0;
        while i < self.profiles.len()
            invariant
                self.wf(),
                0 <= i <= self.spec_names().len(),
                self.spec_names().len() == self.profiles@.len(),
                forall|k: int| 0 <= k < i ==> #[trigger] self.spec_names()[k] != name@,
            decreases self.profiles.len() - i,
        {
            if self.profiles[i].0.eq(name) {
                proof {
                    assert(self.spec_names()[i as int] == name@);
                    let idx = self.name_index(name@);
                    assert(self.spec_names()[idx] == name@);
                    if idx < i as int {
                        assert(false);
                    }
                    if idx > i as int {
                        assert(self.spec_names()[i as int] != self.spec_names()[idx]);
                        assert(false);
                    }
                }
                return Option::Some(i);
            }
            i = i + 1;
        }
        Option::None
    }

    /// Cache a profile's id and store key. A name already cached is
    /// left untouched: each profile's key is decrypted once.
    pub fn add_profile(&mut self, name: String, id: u64, key: StoreKey) -> (added: bool)
        requires
            old(self).wf(),
        ensures
            final(self).wf(),
            added <==> !old(self).has_name(name@),
            added ==> final(self).spec_names() == old(self).spec_names().push(name@) && final(self).spec_ids() == old(self).spec_ids().push(id) && final(self).spec_keys() == old(self).spec_keys().push(key@),
            !added ==> final(self).spec_names() == old(self).spec_names() && final(self).spec_ids()
                == old(self).spec_ids() && final(self).spec_keys() == old(self).spec_keys(),
            final(self).spec_wrap_key() == old(self).spec_wrap_key(),
    {
        if self.find(&name).is_some() {
            return false;
        }
        let ghost pre = *self;
        let ghost gkey = key@;
        self.profiles.push((name, id, key));
        proof {
            assert(self.spec_names() =~= pre.spec_names().push(
                self.profiles@.last().0@,
            ));
            assert(self.spec_ids() =~= pre.spec_ids().push(id));
            assert(self.spec_keys() =~= pre.spec_keys().push(gkey));
        }
        true
    }

    /// Look a profile up by name, handing back its id and store key.
    pub fn get_profile(&self, name: &String) -> (r: Option<(u64, &StoreKey)>)
        requires
            self.wf(),
        ensures
            r is Some <==> self.has_name(name@),
            r matches Some((id, sk)) ==> id == self.spec_ids()[self.name_index(name@)] && sk@
                == self.spec_keys()[self.name_index(name@)],
    {
        match self.find(name) {
            Option::None => Option::None,
            Option::Some(i) => {
                proof {
                    assert(self.spec_ids()[i as int] == self.profiles@[i as int].1);
                    assert(self.spec_keys()[i as int] == self.profiles@[i as int].2@);
                }
                Option::Some((self.profiles[i].1, &self.profiles[i].2))
            },
        }
    }

    /// The number of cached profiles.
    pub fn len(&self) -> (r: usize)
        ensures
            r == self.spec_names().len(),
    {
        self.profiles.len()
    }

    /// Scrub the wrap key and every cached store key, emptying the
    /// cache; done when the store closes.
    pub fn clear(&mut self)
        ensures
            final(self).wf(),
            final(self).spec_names().len() == 0,
            final(self).spec_wrap_key().len() == 0,
    {
        self.wrap_key.zeroize();
        while self.profiles.len() > 0
            invariant
                self.spec_wrap_key().len() == 0,
            decreases self.profiles.len(),
        {
            let (_, _, mut key) = self.profiles.pop().unwrap();
            key.category.zeroize();
            key.name.zeroize();
            key.value.zeroize();
            key.tag_name.zeroize();
            key.tag_value.zeroize();
            key.tags_hmac.zeroize();
        }
        proof {
            assert(self.spec_names() =~= Seq::<Seq<char>>::empty());
        }
    }
}

} // verus!
