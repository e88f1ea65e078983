//! The store engine: profiles, sessions, transactions, record
//! updates and filtered scans over an in-memory row model.

use vstd::prelude::*;
use crate::error::{Error, ErrorKind};
use crate::filter::{filter_matches, filter_model, matches_tags, FilterModel, TagFilter};
use crate::keys::{b58_decode, b58_decode_of, passkey_text, PassKey};
use crate::types::{
    copy_bytes, copy_tags, entry_views, tag_views, Entry, EntryModel, EntryOperation, EntryTag,
    TagModel,
};
use crate::wrap::WrapKeyMethod;

verus! {

/// The mathematical model of a stored row.
pub ghost struct RowModel {
    /// Insertion id; rows are kept in increasing id order, which
    /// defines the stable scan order.
    pub id: u64,
    /// The record category.
    pub category: Seq<char>,
    /// The record name; `(category, name)` is unique in a profile.
    pub name: Seq<char>,
    /// The record value.
    pub value: Seq<u8>,
    /// The record tags.
    pub tags: Seq<TagModel>,
    /// Expiry in milliseconds since the epoch, if any.
    pub expiry_ms: Option<i64>,
}

/// One persisted row: a record with its insertion id and expiry.
pub struct StoredEntry {
    /// Insertion id.
    pub id: u64,
    /// The record category.
    pub category: String,
    /// The record name.
    pub name: String,
    /// The record value.
    pub value: Vec<u8>,
    /// The record tags.
    pub tags: Vec<EntryTag>,
    /// Expiry in milliseconds since the epoch, if any.
    pub expiry_ms: Option<i64>,
}

impl View for StoredEntry {
    type V = RowModel;

    open spec fn view(&self) -> RowModel {
        RowModel {
            id: self.id,
            category: self.category@,
            name: self.name@,
            value: self.value@,
            tags: tag_views(self.tags@),
            expiry_ms: self.expiry_ms,
        }
    }
}

/// The models of a list of rows.
pub open spec fn row_views(s: Seq<StoredEntry>) -> Seq<RowModel> {
    s.map_values(|e: StoredEntry| e@)
}

/// Whether a row is visible to reads at the given time: a row past
/// its expiry is invisible.
pub open spec fn entry_live(e: RowModel, now_ms: i64) -> bool {
    match e.expiry_ms {
        Option::None => true,
        Option::Some(x) => now_ms <= x,
    }
}

/// Whether a row is in the given category, live, and satisfies the
/// filter (an absent filter passes everything).
pub open spec fn entry_selected(
    e: RowModel,
    category: Seq<char>,
    filt: Option<FilterModel>,
    now_ms: i64,
) -> bool {
    &&& e.category == category
    &&& entry_live(e, now_ms)
    &&& (match filt {
        Option::None => true,
        Option::Some(f) => filter_matches(f, e.tags),
    })
}

/// The rows a scan of `category` under `filt` yields at time
/// `now_ms`, in stored order.
pub open spec fn select(
    entries: Seq<RowModel>,
    category: Seq<char>,
    filt: Option<FilterModel>,
    now_ms: i64,
) -> Seq<RowModel>
    decreases entries.len(),
{
    if entries.len() == 0 {
        Seq::empty()
    } else {
        let head = select(entries.drop_last(), category, filt, now_ms);
        if entry_selected(entries.last(), category, filt, now_ms) {
            head.push(entries.last())
        } else {
            head
        }
    }
}

/// The rows that remain when the selected ones are removed.
pub open spec fn unselect(
    entries: Seq<RowModel>,
    category: Seq<char>,
    filt: Option<FilterModel>,
    now_ms: i64,
) -> Seq<RowModel>
    decreases entries.len(),
{
    if entries.len() == 0 {
        Seq::empty()
    } else {
        let head = unselect(entries.drop_last(), category, filt, now_ms);
        if entry_selected(entries.last(), category, filt, now_ms) {
            head
        } else {
            head.push(entries.last())
        }
    }
}

/// Whether a row carries this category and name.
pub open spec fn row_match(e: RowModel, category: Seq<char>, name: Seq<char>) -> bool {
    e.category == category && e.name == name
}

/// Whether some row carries this category and name, live or not.
pub open spec fn has_row(entries: Seq<RowModel>, category: Seq<char>, name: Seq<char>) -> bool {
    exists|i: int| 0 <= i < entries.len() && row_match(#[trigger] entries[i], category, name)
}

/// The position of the row carrying this category and name; rows are
/// unique per profile, so there is at most one.
pub open spec fn row_index(entries: Seq<RowModel>, category: Seq<char>, name: Seq<char>) -> int {
    choose|i: int| 0 <= i < entries.len() && row_match(#[trigger] entries[i], category, name)
}

/// The model of an optional filter.
pub open spec fn filt_model(f: Option<TagFilter>) -> Option<FilterModel> {
    match f {
        Option::None => Option::None,
        Option::Some(g) => Option::Some(filter_model(g)),
    }
}

/// Whether a returned entry reports exactly this row.
pub open spec fn entry_of_row(en: EntryModel, e: RowModel) -> bool {
    &&& en.category == e.category
    &&& en.name == e.name
    &&& en.value == e.value
    &&& (en.tags matches Some(ts) && ts == e.tags)
}

/// Whether a list of returned entries reports exactly these rows, in
/// order.
pub open spec fn entries_of_rows(ens: Seq<EntryModel>, rows: Seq<RowModel>) -> bool {
    ens.len() == rows.len() && (forall|i: int|
        0 <= i < rows.len() ==> entry_of_row(#[trigger] ens[i], rows[i]))
}

/// The selected rows after applying an offset and a limit: a negative
/// limit means unbounded, zero selects nothing.
pub open spec fn paged(rows: Seq<RowModel>, offset: i64, limit: i64) -> Seq<RowModel> {
    let off = if offset < 0 {
        0
    } else if offset > rows.len() {
        rows.len() as int
    } else {
        offset as int
    };
    let rest = rows.skip(off);
    if limit < 0 {
        rest
    } else if limit > rest.len() {
        rest
    } else {
        rest.take(limit as int)
    }
}

impl StoredEntry {
    /// An owned copy with the same model.
    pub fn duplicate(&self) -> (r: StoredEntry)
        ensures
            r@ == self@,
    {
        StoredEntry {
            id: self.id,
            category: self.category.clone(),
            name: self.name.clone(),
            value: copy_bytes(&self.value),
            tags: copy_tags(&self.tags),
            expiry_ms: match self.expiry_ms {
                Option::None => Option::None,
                Option::Some(x) => Option::Some(x),
            },
        }
    }

    /// The entry this row reports to a reader.
    pub fn to_entry(&self) -> (r: Entry)
        ensures
            entry_of_row(r@, self@),
    {
        Entry {
            category: self.category.clone(),
            name: self.name.clone(),
            value: copy_bytes(&self.value),
            tags: Option::Some(copy_tags(&self.tags)),
        }
    }
}

/// The mathematical model of a profile.
pub ghost struct ProfileModel {
    /// The profile name.
    pub name: Seq<char>,
    /// The rows, in increasing id order.
    pub entries: Seq<RowModel>,
}

/// A named namespace of rows within a store.
pub struct Profile {
    /// The profile name.
    pub name: String,
    /// The rows, in increasing id order.
    pub entries: Vec<StoredEntry>,
}

impl View for Profile {
    type V = ProfileModel;

    open spec fn view(&self) -> ProfileModel {
        ProfileModel { name: self.name@, entries: row_views(self.entries@) }
    }
}

/// Well-formedness of a profile's rows: `(category, name)` is unique
/// and ids strictly increase.
pub open spec fn profile_wf(entries: Seq<RowModel>) -> bool {
    &&& (forall|i: int, j: int|
        0 <= i < j < entries.len() ==> !row_match(
            #[trigger] entries[i],
            (#[trigger] entries[j]).category,
            entries[j].name,
        ))
    &&& (forall|i: int, j: int|
        0 <= i < j < entries.len() ==> entries[i].id < entries[j].id)
}

/// The mathematical model of a store.
pub ghost struct StoreModel {
    /// The profiles, in creation order.
    pub profiles: Seq<ProfileModel>,
    /// The name of the default profile.
    pub default_profile: Seq<char>,
    /// The wrap-key method in force. Together with the pass key it
    /// stands for the persisted wrap-key reference: the method
    /// identity is modeled here, while the salt and cost parameters
    /// of the derivation live with a real backend.
    pub wrap_method: WrapKeyMethod,
    /// The pass key text the wrap key is derived from.
    pub pass: Seq<char>,
    /// The next insertion id.
    pub next_id: u64,
    /// How many sessions are open.
    pub sessions_open: u64,
    /// Whether the open session is a transaction. A transaction holds
    /// the store exclusively, so its pending rows are invisible to
    /// every other caller until it commits.
    pub txn_open: bool,
}

/// The encrypted, queryable store: named profiles of rows guarded by
/// a wrap key.
pub struct Store {
    profiles: Vec<Profile>,
    default_profile: String,
    wrap_method: WrapKeyMethod,
    pass: PassKey,
    next_id: u64,
    sessions_open: u64,
    txn_open: bool,
}

impl View for Store {
    type V = StoreModel;

    closed spec fn view(&self) -> StoreModel {
        StoreModel {
            profiles: self.profiles@.map_values(|p: Profile| p@),
            default_profile: self.default_profile@,
            wrap_method: self.wrap_method,
            pass: passkey_text(self.pass@),
            next_id: self.next_id,
            sessions_open: self.sessions_open,
            txn_open: self.txn_open,
        }
    }
}

/// Well-formedness of a store: profile names are unique, every
/// profile's rows are well-formed, all ids are below `next_id`, and
/// the default profile exists.
pub open spec fn store_wf(m: StoreModel) -> bool {
    &&& (forall|i: int, j: int|
        0 <= i < j < m.profiles.len() ==> (#[trigger] m.profiles[i]).name != (
        #[trigger] m.profiles[j]).name)
    &&& (forall|i: int|
        0 <= i < m.profiles.len() ==> profile_wf((#[trigger] m.profiles[i]).entries))
    &&& (forall|i: int, k: int|
        0 <= i < m.profiles.len() && 0 <= k < m.profiles[i].entries.len() ==> (
        #[trigger] m.profiles[i].entries[k]).id < m.next_id)
    &&& (exists|i: int|
        0 <= i < m.profiles.len() && (#[trigger] m.profiles[i]).name == m.default_profile)
    &&& (m.txn_open ==> m.sessions_open == 1)
}

/// Whether a profile of this name exists.
pub open spec fn has_profile(m: StoreModel, name: Seq<char>) -> bool {
    exists|i: int| 0 <= i < m.profiles.len() && (#[trigger] m.profiles[i]).name == name
}

/// The position of the profile of this name.
pub open spec fn profile_index(m: StoreModel, name: Seq<char>) -> int {
    choose|i: int| 0 <= i < m.profiles.len() && (#[trigger] m.profiles[i]).name == name
}

/// Whether a pass key is a well-formed raw wrap key: base58 text of
/// exactly 32 key bytes.
pub open spec fn valid_raw_key(pass: Seq<char>) -> bool {
    b58_decode_of(pass) matches Some(k) && k.len() == 32
}

impl Store {
    /// Whether the pass key fits the method: the raw method demands a
    /// 32-byte base58-encoded key; derivation methods take any text.
    fn check_pass(method: WrapKeyMethod, pass_key: &PassKey) -> (r: bool)
        ensures
            r == (method != WrapKeyMethod::RawKey || valid_raw_key(passkey_text(pass_key@))),
    {
        if method != WrapKeyMethod::RawKey {
            return true;
        }
        match b58_decode(pass_key.text()) {
            Option::Some(k) => k.len() == 32,
            Option::None => false,
        }
    }

    /// Create a new store: empty except for the default profile,
    /// guarded by the given wrap-key method and pass key. A raw wrap
    /// key that is not 32 base58-encoded bytes is rejected with
    /// `Input`.
    pub fn provision(method: WrapKeyMethod, pass_key: PassKey, profile: Option<String>) -> (r:
        Result<Store, Error>)
        ensures
            (r matches Err(e) && e.kind == ErrorKind::Input) <==> (method == WrapKeyMethod::RawKey
                && !valid_raw_key(passkey_text(pass_key@))),
            r is Err ==> r->Err_0.kind == ErrorKind::Input,
            r matches Ok(st) ==> {
                &&& store_wf(st@)
                &&& st@.profiles.len() == 1
                &&& st@.profiles[0].entries.len() == 0
                &&& st@.default_profile == (match profile {
                    Option::None => "default"@,
                    Option::Some(p) => p@,
                })
                &&& st@.profiles[0].name == st@.default_profile
                &&& st@.wrap_method == method
                &&& st@.pass == passkey_text(pass_key@)
                &&& st@.next_id == 0
                &&& st@.sessions_open == 0
                &&& !st@.txn_open
            },
    {
        if !Store::check_pass(method, &pass_key) {
            return Result::Err(
                Error::new(
                    ErrorKind::Input,
                    String::from_str("raw wrap key must be 32 base58-encoded bytes"),
                ),
            );
        }
        let name = match profile {
            Option::None => String::from_str("default"),
            Option::Some(p) => p,
        };
        let name2 = name.clone();
        let mut profiles: Vec<Profile> = Vec::new();
        profiles.push(Profile { name, entries: Vec::new() });
        let r = Store {
            profiles,
            default_profile: name2,
            wrap_method: method,
            pass: pass_key,
            next_id: 0,
            sessions_open: 0,
            txn_open: false,
        };
        proof {
            assert(r@.profiles[0].entries =~= Seq::<RowModel>::empty());
            assert(r@.profiles[0].name == r@.default_profile);
        }
        Result::Ok(r)
    }

    /// Check credentials against the store, as opening it from its
    /// persisted form would: the method (when named) and the pass key
    /// must both match, else the store key cannot be unwrapped and
    /// the open fails with `Encryption`.
    pub fn open(&self, method: Option<WrapKeyMethod>, pass_key: &PassKey) -> (r: Result<(), Error>)
        ensures
            r is Ok <==> ((match method {
                Option::None => true,
                Option::Some(m) => m == self@.wrap_method,
            }) && passkey_text(pass_key@) == self@.pass),
            r matches Err(e) ==> e.kind == ErrorKind::Encryption,
    {
        let method_ok = match method {
            Option::None => true,
            Option::Some(m) => m == self.wrap_method,
        };
        let pass_ok = crate::types::str_compare(pass_key.text(), self.pass.text()) == 0;
        if method_ok && pass_ok {
            Result::Ok(())
        } else {
            Result::Err(Error::new(ErrorKind::Encryption, String::from_str("invalid wrap key")))
        }
    }

    /// Rotate the wrap key. The rotation needs exclusive ownership:
    /// with any session still open it is refused with `Busy`. A raw
    /// wrap key that is not 32 base58-encoded bytes is rejected with
    /// `Input`. Profiles, rows and their contents are untouched: only
    /// the wrap-key method and pass key change.
    pub fn rekey(&mut self, method: WrapKeyMethod, pass_key: PassKey) -> (r: Result<(), Error>)
        requires
            store_wf(old(self)@),
        ensures
            store_wf(final(self)@),
            old(self)@.sessions_open > 0 ==> r is Err && r->Err_0.kind == ErrorKind::Busy && final(self)@ == old(self)@,
            (old(self)@.sessions_open == 0 && method == WrapKeyMethod::RawKey && !valid_raw_key(
                passkey_text(pass_key@),
            )) ==> r is Err && r->Err_0.kind == ErrorKind::Input && final(self)@ == old(self)@,
            (old(self)@.sessions_open == 0 && (method != WrapKeyMethod::RawKey || valid_raw_key(
                passkey_text(pass_key@),
            ))) ==> r is Ok && final(self)@.profiles == old(self)@.profiles && final(self)@.default_profile == old(self)@.default_profile && final(self)@.next_id == old(self)@.next_id && final(self)@.sessions_open == 0 && !final(self)@.txn_open && final(self)@.wrap_method == method && final(self)@.pass == passkey_text(
                pass_key@,
            ),
    {
        if self.sessions_open > 0 {
            return Result::Err(
                Error::new(ErrorKind::Busy, String::from_str("store has open sessions")),
            );
        }
        if !Store::check_pass(method, &pass_key) {
            return Result::Err(
                Error::new(
                    ErrorKind::Input,
                    String::from_str("raw wrap key must be 32 base58-encoded bytes"),
                ),
            );
        }
        self.wrap_method = method;
        self.pass.zeroize();
        self.pass = pass_key;
        Result::Ok(())
    }

    /// Close the store, scrubbing the pass key it held: no secret
    /// pass-phrase bytes outlive the value. Done when the store's
    /// handle is released.
    pub fn close(self) {
        let mut pass = self.pass;
        pass.zeroize();
    }

    /// Whether another session can still be counted.
    pub fn can_open_session(&self) -> (r: bool)
        ensures
            r == (self@.sessions_open < u64::MAX),
    {
        self.sessions_open < u64::MAX
    }

    /// Whether another row can still be given a fresh insertion id.
    pub fn can_insert(&self) -> (r: bool)
        ensures
            r == (self@.next_id < u64::MAX),
    {
        self.next_id < u64::MAX
    }

    /// The name of the default profile.
    pub fn get_profile_name(&self) -> (r: &String)
        ensures
            r@ == self@.default_profile,
    {
        &self.default_profile
    }

    /// Find a profile by name.
    fn find_profile(&self, name: &String) -> (r: Option<usize>)
        ensures
            r is Some <==> has_profile(self@, name@),
            r matches Some(i) ==> 0 <= i < self@.profiles.len() && self@.profiles[i as int].name
                == name@,
    {
        let mut i: usize = 0;
        while i < self.profiles.len()
            invariant
                0 <= i <= self@.profiles.len(),
                self@.profiles.len() == self.profiles@.len(),
                forall|k: int| 0 <= k < i ==> (#[trigger] self@.profiles[k]).name != name@,
            decreases self.profiles.len() - i,
        {
            if self.profiles[i].name.eq(name) {
                proof {
                    assert(self@.profiles[i as int].name == name@);
                }
                return Option::Some(i);
            }
            i = i + 1;
        }
        Option::None
    }

    /// Create a profile of the given name; fails with `Duplicate` if
    /// one exists.
    pub fn create_profile(&mut self, name: String) -> (r: Result<(), Error>)
        requires
            store_wf(old(self)@),
        ensures
            store_wf(final(self)@),
            has_profile(old(self)@, name@) ==> r is Err && r->Err_0.kind == ErrorKind::Duplicate
                && final(self)@ == old(self)@,
            !has_profile(old(self)@, name@) ==> r is Ok && final(self)@.profiles.len() == old(self)@.profiles.len() + 1 && final(self)@.profiles.subrange(
                0,
                old(self)@.profiles.len() as int,
            ) == old(self)@.profiles && final(self)@.profiles.last().name == name@ && final(self)@.profiles.last().entries.len() == 0,
            final(self)@.default_profile == old(self)@.default_profile,
            final(self)@.wrap_method == old(self)@.wrap_method,
            final(self)@.pass == old(self)@.pass,
            final(self)@.next_id == old(self)@.next_id,
    {
        if self.find_profile(&name).is_some() {
            return Result::Err(
                Error::new(ErrorKind::Duplicate, String::from_str("profile exists")),
            );
        }
        let ghost pre = self@;
        self.profiles.push(Profile { name, entries: Vec::new() });
        proof {
            assert(final(self)@.profiles =~= pre.profiles.push(final(self)@.profiles.last()));
            assert(final(self)@.profiles.subrange(0, pre.profiles.len() as int) =~= pre.profiles);
            assert(final(self)@.profiles.last().entries =~= Seq::<RowModel>::empty());
            let dp = pre.default_profile;
            let i0 = choose|i: int|
                0 <= i < pre.profiles.len() && (#[trigger] pre.profiles[i]).name == dp;
            assert(final(self)@.profiles[i0].name == dp);
        }
        Result::Ok(())
    }

    /// Remove a profile by name; the result reports whether it
    /// existed. The default profile cannot be removed (`Input`), and
    /// while any session is open the removal is refused with `Busy`,
    /// so no live session can be left pointing at a moved profile.
    pub fn remove_profile(&mut self, name: &String) -> (r: Result<bool, Error>)
        requires
            store_wf(old(self)@),
        ensures
            store_wf(final(self)@),
            old(self)@.sessions_open > 0 ==> r is Err && r->Err_0.kind == ErrorKind::Busy && final(self)@ == old(self)@,
            old(self)@.sessions_open == 0 && name@ == old(self)@.default_profile ==> r is Err
                && r->Err_0.kind == ErrorKind::Input && final(self)@ == old(self)@,
            old(self)@.sessions_open == 0 && name@ != old(self)@.default_profile && !has_profile(
                old(self)@,
                name@,
            ) ==> r == Result::<bool, Error>::Ok(false) && final(self)@ == old(self)@,
            old(self)@.sessions_open == 0 && name@ != old(self)@.default_profile && has_profile(
                old(self)@,
                name@,
            ) ==> r == Result::<bool, Error>::Ok(true) && final(self)@.profiles == old(self)@.profiles.remove(profile_index(old(self)@, name@)),
            final(self)@.default_profile == old(self)@.default_profile,
            final(self)@.wrap_method == old(self)@.wrap_method,
            final(self)@.pass == old(self)@.pass,
            final(self)@.next_id == old(self)@.next_id,
            final(self)@.sessions_open == old(self)@.sessions_open,
            final(self)@.txn_open == old(self)@.txn_open,
    {
        if self.sessions_open > 0 {
            return Result::Err(
                Error::new(ErrorKind::Busy, String::from_str("store has open sessions")),
            );
        }
        if crate::types::str_compare(name.as_str(), self.default_profile.as_str()) == 0 {
            return Result::Err(
                Error::new(ErrorKind::Input, String::from_str("cannot remove default profile")),
            );
        }
        match self.find_profile(name) {
            Option::None => Result::Ok(false),
            Option::Some(i) => {
                let ghost pre = self@;
                proof {
                    let idx = profile_index(pre, name@);
                    assert(pre.profiles[idx].name == name@);
                    if idx != i as int {
                        assert(false);
                    }
                }
                self.profiles.remove(i);
                proof {
                    assert(final(self)@.profiles =~= pre.profiles.remove(i as int));
                    let dp = pre.default_profile;
                    let i0 = choose|k: int|
                        0 <= k < pre.profiles.len() && (#[trigger] pre.profiles[k]).name == dp;
                    assert(pre.profiles[i0].name == dp);
                    assert(pre.profiles[i as int].name != dp);
                    if i0 < i as int {
                        assert(final(self)@.profiles[i0].name == dp);
                    } else {
                        assert(final(self)@.profiles[i0 - 1].name == dp);
                    }
                }
                Result::Ok(true)
            },
        }
    }
}

/// A scoped conversation with one profile of a store. A transaction
/// session holds the rows as they stood at its start, restored when
/// the session is closed without committing.
pub struct Session {
    profile: usize,
    snapshot: Option<Vec<StoredEntry>>,
}

impl Session {
    /// The position of the session's profile in the store.
    pub closed spec fn spec_profile(&self) -> int {
        self.profile as int
    }

    /// Whether the session is transactional.
    pub open spec fn is_transaction(&self) -> bool {
        self.spec_snapshot() is Some
    }

    /// The rows as they stood when the transaction began.
    pub closed spec fn spec_snapshot(&self) -> Option<Seq<RowModel>> {
        match self.snapshot {
            Option::None => Option::None,
            Option::Some(v) => Option::Some(row_views(v@)),
        }
    }
}

/// Whether a session is valid for a store: it addresses a profile of
/// the store, and a transaction snapshot only holds rows the store
/// could have held.
pub open spec fn session_wf(s: Session, m: StoreModel) -> bool {
    &&& 0 <= s.spec_profile() < m.profiles.len()
    &&& m.sessions_open >= 1
    &&& (s.is_transaction() <==> m.txn_open)
    &&& (s.spec_snapshot() matches Some(v) ==> profile_wf(v) && (forall|k: int|
        0 <= k < v.len() ==> (#[trigger] v[k]).id < m.next_id))
}

/// The store with one profile's rows replaced and a new id counter.
pub open spec fn with_entries(m: StoreModel, p: int, es: Seq<RowModel>, next_id: u64) -> StoreModel {
    StoreModel {
        profiles: m.profiles.update(p, (ProfileModel { name: m.profiles[p].name, entries: es })),
        default_profile: m.default_profile,
        wrap_method: m.wrap_method,
        pass: m.pass,
        next_id,
        sessions_open: m.sessions_open,
        txn_open: m.txn_open,
    }
}

/// The store after a session closes: one session fewer, and no open
/// transaction when it was the transaction that closed.
pub open spec fn with_session_closed(m: StoreModel, was_txn: bool) -> StoreModel {
    StoreModel {
        profiles: m.profiles,
        default_profile: m.default_profile,
        wrap_method: m.wrap_method,
        pass: m.pass,
        next_id: m.next_id,
        sessions_open: (m.sessions_open - 1) as u64,
        txn_open: m.txn_open && !was_txn,
    }
}

/// The store after a session opens: one session more, and an open
/// transaction when the new session is one.
pub open spec fn with_session_opened(m: StoreModel, transaction: bool) -> StoreModel {
    StoreModel {
        profiles: m.profiles,
        default_profile: m.default_profile,
        wrap_method: m.wrap_method,
        pass: m.pass,
        next_id: m.next_id,
        sessions_open: (m.sessions_open + 1) as u64,
        txn_open: m.txn_open || transaction,
    }
}

/// Whether opening a session would break transaction exclusivity: a
/// live transaction shuts every newcomer out, and a new transaction
/// needs the store to itself.
pub open spec fn session_blocked(m: StoreModel, transaction: bool) -> bool {
    m.txn_open || (transaction && m.sessions_open > 0)
}

/// The tag views of an optional tag list; absent means none.
pub open spec fn opt_tag_views(t: Option<Vec<EntryTag>>) -> Seq<TagModel> {
    match t {
        Option::None => Seq::empty(),
        Option::Some(v) => tag_views(v@),
    }
}

/// Find the row of a category and name in a well-formed profile.
fn find_row(entries: &Vec<StoredEntry>, category: &String, name: &String) -> (r: Option<usize>)
    requires
        profile_wf(row_views(entries@)),
    ensures
        r is Some <==> has_row(row_views(entries@), category@, name@),
        r matches Some(i) ==> 0 <= i < entries@.len() && i == row_index(
            row_views(entries@),
            category@,
            name@,
        ) && row_match(row_views(entries@)[i as int], category@, name@),
{
    let mut i: usize = 0;
    while i < entries.len()
        invariant
            0 <= i <= entries@.len(),
            profile_wf(row_views(entries@)),
            forall|k: int|
                0 <= k < i ==> !row_match(#[trigger] row_views(entries@)[k], category@, name@),
        decreases entries.len() - i,
    {
        let cat_eq = crate::types::str_compare(entries[i].category.as_str(), category.as_str())
            == 0;
        let name_eq = crate::types::str_compare(entries[i].name.as_str(), name.as_str()) == 0;
        if cat_eq && name_eq {
            proof {
                let rv = row_views(entries@);
                assert(row_match(rv[i as int], category@, name@));
                let idx = row_index(rv, category@, name@);
                assert(row_match(rv[idx], category@, name@));
                if idx != i as int {
                    if idx < i as int {
                        assert(!row_match(rv[idx], rv[i as int].category, rv[i as int].name));
                    } else {
                        assert(!row_match(rv[i as int], rv[idx].category, rv[idx].name));
                    }
                    assert(false);
                }
            }
            return Option::Some(i);
        }
        i = i + 1;
    }
    Option::None
}

/// Whether a row passes the category, liveness and filter tests.
fn entry_selected_exec(
    e: &StoredEntry,
    category: &String,
    filter: &Option<TagFilter>,
    now_ms: i64,
) -> (r: bool)
    ensures
        r == entry_selected(e@, category@, filt_model(*filter), now_ms),
{
    let cat_eq = crate::types::str_compare(e.category.as_str(), category.as_str()) == 0;
    if !cat_eq {
        return false;
    }
    let live = match e.expiry_ms {
        Option::None => true,
        Option::Some(x) => now_ms <= x,
    };
    if !live {
        return false;
    }
    match filter {
        Option::None => true,
        Option::Some(f) => matches_tags(f, &e.tags),
    }
}

/// Collect the selected rows of a profile as entries, in stored
/// order.
fn select_rows(
    entries: &Vec<StoredEntry>,
    category: &String,
    filter: &Option<TagFilter>,
    now_ms: i64,
) -> (r: Vec<Entry>)
    ensures
        entries_of_rows(
            entry_views(r@),
            select(row_views(entries@), category@, filt_model(*filter), now_ms),
        ),
{
    let mut out: Vec<Entry> = Vec::new();
    let mut i: usize = 0;
    proof {
        assert(row_views(entries@).take(0) =~= Seq::<RowModel>::empty());
        assert(entry_views(out@) =~= Seq::<EntryModel>::empty());
    }
    while i < entries.len()
        invariant
            0 <= i <= entries@.len(),
            entries_of_rows(
                entry_views(out@),
                select(row_views(entries@).take(i as int), category@, filt_model(*filter), now_ms),
            ),
        decreases entries.len() - i,
    {
        let ghost rv = row_views(entries@);
        proof {
            assert(rv.take(i + 1).drop_last() =~= rv.take(i as int));
            assert(rv.take(i + 1).last() == rv[i as int]);
        }
        if entry_selected_exec(&entries[i], category, filter, now_ms) {
            let ghost pre = entry_views(out@);
            out.push(entries[i].to_entry());
            proof {
                assert(entry_views(out@) =~= pre.push(entry_views(out@).last()));
            }
        }
        i = i + 1;
    }
    proof {
        assert(row_views(entries@).take(entries@.len() as int) =~= row_views(entries@));
    }
    out
}

/// The selected rows of a well-formed profile keep well-formedness:
/// dropping rows never breaks uniqueness or id order.
pub proof fn lemma_unselect_wf(
    entries: Seq<RowModel>,
    category: Seq<char>,
    filt: Option<FilterModel>,
    now_ms: i64,
)
    requires
        profile_wf(entries),
    ensures
        profile_wf(unselect(entries, category, filt, now_ms)),
        forall|k: int|
            0 <= k < unselect(entries, category, filt, now_ms).len() ==> entries.contains(
                #[trigger] unselect(entries, category, filt, now_ms)[k],
            ),
        select(entries, category, filt, now_ms).len() + unselect(
            entries,
            category,
            filt,
            now_ms,
        ).len() == entries.len(),
    decreases entries.len(),
{
    if entries.len() > 0 {
        let head = entries.drop_last();
        assert(profile_wf(head));
        lemma_unselect_wf(head, category, filt, now_ms);
        let u = unselect(entries, category, filt, now_ms);
        let uh = unselect(head, category, filt, now_ms);
        assert forall|k: int| 0 <= k < uh.len() implies entries.contains(#[trigger] uh[k]) by {
            assert(head.contains(uh[k]));
            let q = choose|q: int| 0 <= q < head.len() && head[q] == uh[k];
            assert(entries[q] == uh[k]);
        }
        if !entry_selected(entries.last(), category, filt, now_ms) {
            assert(u =~= uh.push(entries.last()));
            assert forall|a: int, b: int| 0 <= a < b < u.len() implies u[a].id < u[b].id by {
                if b == u.len() - 1 {
                    assert(head.contains(uh[a]));
                    let q = choose|q: int| 0 <= q < head.len() && head[q] == uh[a];
                    assert(entries[q].id < entries[entries.len() - 1].id);
                } else {
                    assert(uh[a].id < uh[b].id);
                }
            }
            assert forall|a: int, b: int| 0 <= a < b < u.len() implies !row_match(
                u[a],
                u[b].category,
                u[b].name,
            ) by {
                if b == u.len() - 1 {
                    assert(head.contains(uh[a]));
                    let q = choose|q: int| 0 <= q < head.len() && head[q] == uh[a];
                    assert(!row_match(
                        entries[q],
                        entries[entries.len() - 1].category,
                        entries[entries.len() - 1].name,
                    ));
                } else {
                    assert(!row_match(uh[a], uh[b].category, uh[b].name));
                }
            }
        }
    }
}

impl Store {
    /// Open a session (or transaction) against a profile; the default
    /// profile when none is named. A missing profile reports
    /// `NotFound`. A transaction holds the store exclusively: while
    /// one is open every further `session` call reports `Busy`, and a
    /// transaction is refused while any other session is live — so a
    /// transaction's pending mutations are invisible to every other
    /// caller until it closes with commit.
    pub fn session(&mut self, profile: Option<String>, transaction: bool) -> (r: Result<
        Session,
        Error,
    >)
        requires
            store_wf(old(self)@),
            old(self)@.sessions_open < u64::MAX,
        ensures
            store_wf(final(self)@),
            r is Err ==> final(self)@ == old(self)@,
            session_blocked(old(self)@, transaction) ==> (r matches Err(e) && e.kind
                == ErrorKind::Busy),
            (!session_blocked(old(self)@, transaction) && (match profile {
                Option::None => false,
                Option::Some(p) => !has_profile(old(self)@, p@),
            })) ==> (r matches Err(e) && e.kind == ErrorKind::NotFound),
            r is Ok <==> (!session_blocked(old(self)@, transaction) && (match profile {
                Option::None => true,
                Option::Some(p) => has_profile(old(self)@, p@),
            })),
            r matches Ok(s) ==> {
                &&& final(self)@ == with_session_opened(old(self)@, transaction)
                &&& session_wf(s, final(self)@)
                &&& old(self)@.profiles[s.spec_profile()].name == (match profile {
                    Option::None => old(self)@.default_profile,
                    Option::Some(p) => p@,
                })
                &&& s.is_transaction() == transaction
                &&& (s.spec_snapshot() matches Some(v) ==> v
                    == old(self)@.profiles[s.spec_profile()].entries)
            },
    {
        if self.txn_open || (transaction && self.sessions_open > 0) {
            return Result::Err(
                Error::new(ErrorKind::Busy, String::from_str("store is in a transaction")),
            );
        }
        let name_ref: &String = match &profile {
            Option::None => &self.default_profile,
            Option::Some(p) => p,
        };
        match self.find_profile(name_ref) {
            Option::None => {
                proof {
                    if profile is None {
                        assert(has_profile(self@, self@.default_profile));
                    }
                }
                Result::Err(
                    Error::new(ErrorKind::NotFound, String::from_str("profile not found")),
                )
            },
            Option::Some(i) => {
                let snapshot = if transaction {
                    let entries = &self.profiles[i].entries;
                    let mut copy: Vec<StoredEntry> = Vec::new();
                    let mut k: usize = 0;
                    while k < entries.len()
                        invariant
                            0 <= k <= entries@.len(),
                            row_views(copy@) == row_views(entries@).take(k as int),
                        decreases entries.len() - k,
                    {
                        let ghost pre = row_views(copy@);
                        copy.push(entries[k].duplicate());
                        proof {
                            assert(row_views(copy@) =~= pre.push(row_views(entries@)[k as int]));
                            assert(row_views(entries@).take(k + 1) =~= row_views(
                                entries@,
                            ).take(k as int).push(row_views(entries@)[k as int]));
                        }
                        k = k + 1;
                    }
                    proof {
                        assert(row_views(entries@).take(entries@.len() as int) =~= row_views(
                            entries@,
                        ));
                    }
                    Option::Some(copy)
                } else {
                    Option::None
                };
                let s = Session { profile: i, snapshot };
                proof {
                    assert(self@.profiles[i as int].entries == row_views(
                        self.profiles@[i as int].entries@,
                    ));
                }
                let ghost pre = self@;
                self.sessions_open = self.sessions_open + 1;
                if transaction {
                    self.txn_open = true;
                }
                proof {
                    assert(final(self)@ =~= with_session_opened(pre, transaction));
                    assert(final(self)@.profiles == pre.profiles);
                }
                Result::Ok(s)
            },
        }
    }

    /// Read-only access to the rows of the session's profile.
    pub fn profile_rows(&self, sess: &Session) -> (r: &Vec<StoredEntry>)
        requires
            store_wf(self@),
            session_wf(*sess, self@),
        ensures
            row_views(r@) == self@.profiles[sess.spec_profile()].entries,
    {
        proof {
            assert(self@.profiles[sess.spec_profile()].entries == row_views(
                self.profiles@[sess.spec_profile()].entries@,
            ));
        }
        &self.profiles[sess.profile].entries
    }

    /// Count the live rows of a category that satisfy the filter.
    pub fn count(&self, sess: &Session, category: &String, filter: &Option<TagFilter>, now_ms: i64)
        -> (r: Result<usize, Error>)
        requires
            store_wf(self@),
            session_wf(*sess, self@),
        ensures
            category@.len() == 0 ==> r is Err && r->Err_0.kind == ErrorKind::Input,
            category@.len() > 0 ==> r == Result::<usize, Error>::Ok(
                select(
                    self@.profiles[sess.spec_profile()].entries,
                    category@,
                    filt_model(*filter),
                    now_ms,
                ).len() as usize,
            ),
    {
        if category.as_str().is_empty() {
            return Result::Err(Error::new(ErrorKind::Input, String::from_str("empty category")));
        }
        let rows = select_rows(&self.profiles[sess.profile].entries, category, filter, now_ms);
        proof {
            assert(self@.profiles[sess.spec_profile()].entries == row_views(
                self.profiles@[sess.spec_profile()].entries@,
            ));
        }
        Result::Ok(rows.len())
    }

    /// Fetch the live row of a category and name; `None` when there is
    /// no such row or it has expired. An empty category or name is
    /// rejected with `Input`. The update flag is accepted for
    /// interface parity: rows of this in-memory model need no lock.
    pub fn fetch(
        &self,
        sess: &Session,
        category: &String,
        name: &String,
        _for_update: bool,
        now_ms: i64,
    ) -> (r: Result<Option<Entry>, Error>)
        requires
            store_wf(self@),
            session_wf(*sess, self@),
        ensures
            (category@.len() == 0 || name@.len() == 0) ==> r is Err && r->Err_0.kind
                == ErrorKind::Input,
            (category@.len() > 0 && name@.len() > 0) ==> {
                let entries = self@.profiles[sess.spec_profile()].entries;
                &&& r is Ok
                &&& ((r->Ok_0 is Some) <==> (has_row(entries, category@, name@) && entry_live(
                    entries[row_index(entries, category@, name@)],
                    now_ms,
                )))
                &&& (r->Ok_0 matches Some(en) ==> entry_of_row(
                    en@,
                    entries[row_index(entries, category@, name@)],
                ))
            },
    {
        if category.as_str().is_empty() || name.as_str().is_empty() {
            return Result::Err(
                Error::new(ErrorKind::Input, String::from_str("empty category or name")),
            );
        }
        let entries = &self.profiles[sess.profile].entries;
        proof {
            assert(self@.profiles[sess.spec_profile()].entries == row_views(entries@));
        }
        match find_row(entries, category, name) {
            Option::None => Result::Ok(Option::None),
            Option::Some(i) => {
                let live = match entries[i].expiry_ms {
                    Option::None => true,
                    Option::Some(x) => now_ms <= x,
                };
                if live {
                    Result::Ok(Option::Some(entries[i].to_entry()))
                } else {
                    Result::Ok(Option::None)
                }
            },
        }
    }

    /// Fetch all live rows of a category that satisfy the filter, up
    /// to `limit` of them; a negative limit means all. An empty
    /// category is rejected with `Input`.
    pub fn fetch_all(
        &self,
        sess: &Session,
        category: &String,
        filter: &Option<TagFilter>,
        limit: i64,
        _for_update: bool,
        now_ms: i64,
    ) -> (r: Result<Vec<Entry>, Error>)
        requires
            store_wf(self@),
            session_wf(*sess, self@),
        ensures
            category@.len() == 0 ==> r is Err && r->Err_0.kind == ErrorKind::Input,
            category@.len() > 0 ==> r is Ok && entries_of_rows(
                entry_views(r->Ok_0@),
                paged(
                    select(
                        self@.profiles[sess.spec_profile()].entries,
                        category@,
                        filt_model(*filter),
                        now_ms,
                    ),
                    0,
                    limit,
                ),
            ),
    {
        if category.as_str().is_empty() {
            return Result::Err(Error::new(ErrorKind::Input, String::from_str("empty category")));
        }
        let mut rows = select_rows(&self.profiles[sess.profile].entries, category, filter, now_ms);
        proof {
            assert(self@.profiles[sess.spec_profile()].entries == row_views(
                self.profiles@[sess.spec_profile()].entries@,
            ));
        }
        let ghost sel = select(
            self@.profiles[sess.spec_profile()].entries,
            category@,
            filt_model(*filter),
            now_ms,
        );
        proof {
            assert(sel.skip(0) =~= sel);
        }
        if limit >= 0 {
            if (limit as u64) < (rows.len() as u64) {
                let lim = limit as usize;
                let ghost pre = entry_views(rows@);
                proof {
                    assert(pre.len() == rows@.len());
                }
                rows.truncate(lim);
                proof {
                    assert(entry_views(rows@) =~= pre.take(lim as int));
                    assert(pre.len() == sel.len());
                    assert(sel.len() > limit);
                    assert(paged(sel, 0, limit) == sel.skip(0).take(limit as int));
                    assert(paged(sel, 0, limit) =~= sel.take(limit as int));
                    assert forall|q: int| 0 <= q < lim implies entry_of_row(
                        #[trigger] entry_views(rows@)[q],
                        sel.take(limit as int)[q],
                    ) by {
                        assert(entry_views(rows@)[q] == pre[q]);
                        assert(sel.take(limit as int)[q] == sel[q]);
                    }
                }
            } else {
                proof {
                    assert(entry_views(rows@).len() == sel.len());
                    assert(sel.len() <= limit);
                    if limit <= sel.len() {
                        assert(limit == sel.len());
                        assert(sel.take(limit as int) =~= sel);
                        assert(paged(sel, 0, limit) == sel.skip(0).take(limit as int));
                        assert(paged(sel, 0, limit) =~= sel);
                    } else {
                        assert(paged(sel, 0, limit) == sel.skip(0));
                        assert(paged(sel, 0, limit) =~= sel);
                    }
                }
            }
        } else {
            proof {
                assert(paged(sel, 0, limit) =~= sel);
            }
        }
        Result::Ok(rows)
    }
}

/// Removing a row of a well-formed profile keeps it well-formed.
pub proof fn lemma_remove_wf(entries: Seq<RowModel>, i: int)
    requires
        profile_wf(entries),
        0 <= i < entries.len(),
    ensures
        profile_wf(entries.remove(i)),
{
    let u = entries.remove(i);
    assert forall|a: int, b: int| 0 <= a < b < u.len() implies u[a].id < u[b].id && !row_match(
        u[a],
        u[b].category,
        u[b].name,
    ) by {
        let a0 = if a < i { a } else { a + 1 };
        let b0 = if b < i { b } else { b + 1 };
        assert(u[a] == entries[a0]);
        assert(u[b] == entries[b0]);
    }
}

impl Store {
    /// Apply a mutation under a session. `Insert` fails with
    /// `Duplicate` when the row exists; `Replace` inserts or
    /// overwrites; `Remove` deletes the row and fails with `NotFound`
    /// when it is absent. An empty category or name, or a missing
    /// value on `Insert` or `Replace`, is rejected with `Input`.
    pub fn update(
        &mut self,
        sess: &Session,
        operation: EntryOperation,
        category: String,
        name: String,
        value: Option<Vec<u8>>,
        tags: Option<Vec<EntryTag>>,
        expiry_ms: Option<i64>,
    ) -> (r: Result<(), Error>)
        requires
            store_wf(old(self)@),
            session_wf(*sess, old(self)@),
            old(self)@.next_id < u64::MAX,
        ensures
            store_wf(final(self)@),
            session_wf(*sess, final(self)@),
            final(self)@.next_id >= old(self)@.next_id,
            r is Err ==> final(self)@ == old(self)@,
            (category@.len() == 0 || name@.len() == 0) ==> r is Err && r->Err_0.kind
                == ErrorKind::Input,
            (category@.len() > 0 && name@.len() > 0) ==> ({
                let p = sess.spec_profile();
                let entries = old(self)@.profiles[p].entries;
                let idx = row_index(entries, category@, name@);
                let new_row = (RowModel {
                    id: old(self)@.next_id,
                    category: category@,
                    name: name@,
                    value: (match value {
                        Option::None => Seq::empty(),
                        Option::Some(v) => v@,
                    }),
                    tags: opt_tag_views(tags),
                    expiry_ms: expiry_ms,
                });
                match operation {
                    EntryOperation::Insert => {
                        if has_row(entries, category@, name@) {
                            r is Err && r->Err_0.kind == ErrorKind::Duplicate
                        } else if value is None {
                            r is Err && r->Err_0.kind == ErrorKind::Input
                        } else {
                            r is Ok && final(self)@ == with_entries(
                                old(self)@,
                                p,
                                entries.push(new_row),
                                (old(self)@.next_id + 1) as u64,
                            )
                        }
                    },
                    EntryOperation::Replace => {
                        if value is None {
                            r is Err && r->Err_0.kind == ErrorKind::Input
                        } else if has_row(entries, category@, name@) {
                            r is Ok && final(self)@ == with_entries(
                                old(self)@,
                                p,
                                entries.update(
                                    idx,
                                    (RowModel {
                                        id: entries[idx].id,
                                        category: category@,
                                        name: name@,
                                        value: value->0@,
                                        tags: opt_tag_views(tags),
                                        expiry_ms: expiry_ms,
                                    }),
                                ),
                                old(self)@.next_id,
                            )
                        } else {
                            r is Ok && final(self)@ == with_entries(
                                old(self)@,
                                p,
                                entries.push(new_row),
                                (old(self)@.next_id + 1) as u64,
                            )
                        }
                    },
                    EntryOperation::Remove => {
                        if has_row(entries, category@, name@) {
                            r is Ok && final(self)@ == with_entries(
                                old(self)@,
                                p,
                                entries.remove(idx),
                                old(self)@.next_id,
                            )
                        } else {
                            r is Err && r->Err_0.kind == ErrorKind::NotFound
                        }
                    },
                }
            }),
    {
        if category.as_str().is_empty() || name.as_str().is_empty() {
            return Result::Err(
                Error::new(ErrorKind::Input, String::from_str("empty category or name")),
            );
        }
        let p = sess.profile;
        let found = find_row(&self.profiles[p].entries, &category, &name);
        let ghost pre = self@;
        let ghost gval = value;
        let ghost gtags = tags;
        proof {
            assert(pre.profiles[p as int].entries == row_views(self.profiles@[p as int].entries@));
        }
        match operation {
            EntryOperation::Insert | EntryOperation::Replace => {
                let is_insert = match operation {
                    EntryOperation::Insert => true,
                    _ => false,
                };
                if is_insert && found.is_some() {
                    return Result::Err(
                        Error::new(ErrorKind::Duplicate, String::from_str("duplicate row")),
                    );
                }
                let val = match value {
                    Option::None => {
                        return Result::Err(
                            Error::new(ErrorKind::Input, String::from_str("no value given")),
                        );
                    },
                    Option::Some(v) => v,
                };
                let tag_list = match tags {
                    Option::None => Vec::new(),
                    Option::Some(t) => t,
                };
                match found {
                    Option::Some(i) if !is_insert => {
                        // overwrite in place, keeping the insertion id
                        let mut prof = self.profiles.remove(p);
                        let old_row = prof.entries.remove(i);
                        let row = StoredEntry {
                            id: old_row.id,
                            category,
                            name,
                            value: val,
                            tags: tag_list,
                            expiry_ms,
                        };
                        prof.entries.insert(i, row);
                        self.profiles.insert(p, prof);
                        proof {
                            let entries = pre.profiles[p as int].entries;
                            let idx = row_index(entries, category@, name@);
                            let newe = row_views(self.profiles@[p as int].entries@);
                            assert(tag_views(tag_list@) =~= opt_tag_views(gtags));
                            assert(val@ == gval->0@);
                            assert(newe =~= entries.update(
                                idx,
                                (RowModel {
                                    id: entries[idx].id,
                                    category: category@,
                                    name: name@,
                                    value: gval->0@,
                                    tags: opt_tag_views(gtags),
                                    expiry_ms: expiry_ms,
                                }),
                            ));
                            assert(final(self)@.profiles =~= pre.profiles.update(
                                p as int,
                                (ProfileModel { name: pre.profiles[p as int].name, entries: newe }),
                            ));
                            assert(profile_wf(newe)) by {
                                assert forall|a: int, b: int|
                                    0 <= a < b < newe.len() implies newe[a].id < newe[b].id
                                    && !row_match(newe[a], newe[b].category, newe[b].name) by {
                                    assert(entries[a].id < entries[b].id);
                                    assert(!row_match(entries[a], entries[b].category, entries[b].name));
                                    assert(row_match(entries[idx], category@, name@));
                                }
                            }
                            lemma_store_wf_update(pre, p as int, newe, pre.next_id);
                        }
                        Result::Ok(())
                    },
                    Option::Some(_) => Result::Err(
                        Error::new(ErrorKind::Unexpected, String::from_str("insert conflict")),
                    ),
                    Option::None => {
                        let row = StoredEntry {
                            id: self.next_id,
                            category,
                            name,
                            value: val,
                            tags: tag_list,
                            expiry_ms,
                        };
                        let mut prof = self.profiles.remove(p);
                        prof.entries.push(row);
                        self.profiles.insert(p, prof);
                        self.next_id = self.next_id + 1;
                        proof {
                            let entries = pre.profiles[p as int].entries;
                            let newe = row_views(self.profiles@[p as int].entries@);
                            assert(tag_views(tag_list@) =~= opt_tag_views(gtags));
                            assert(val@ == gval->0@);
                            assert(newe =~= entries.push(
                                (RowModel {
                                    id: pre.next_id,
                                    category: category@,
                                    name: name@,
                                    value: gval->0@,
                                    tags: opt_tag_views(gtags),
                                    expiry_ms: expiry_ms,
                                }),
                            ));
                            assert(final(self)@.profiles =~= pre.profiles.update(
                                p as int,
                                (ProfileModel { name: pre.profiles[p as int].name, entries: newe }),
                            ));
                            assert(profile_wf(newe)) by {
                                assert forall|a: int, b: int|
                                    0 <= a < b < newe.len() implies newe[a].id < newe[b].id
                                    && !row_match(newe[a], newe[b].category, newe[b].name) by {
                                    if b < newe.len() - 1 {
                                        assert(entries[a].id < entries[b].id);
                                        assert(!row_match(entries[a], entries[b].category, entries[b].name));
                                    } else {
                                        assert(newe[a] == entries[a]);
                                        assert(!row_match(entries[a], category@, name@));
                                    }
                                }
                            }
                            lemma_store_wf_update(pre, p as int, newe, (pre.next_id + 1) as u64);
                        }
                        Result::Ok(())
                    },
                }
            },
            EntryOperation::Remove => {
                match found {
                    Option::None => Result::Err(
                        Error::new(ErrorKind::NotFound, String::from_str("row not found")),
                    ),
                    Option::Some(i) => {
                        let mut prof = self.profiles.remove(p);
                        prof.entries.remove(i);
                        self.profiles.insert(p, prof);
                        proof {
                            let entries = pre.profiles[p as int].entries;
                            let idx = row_index(entries, category@, name@);
                            let newe = row_views(self.profiles@[p as int].entries@);
                            assert(newe =~= entries.remove(idx));
                            assert(final(self)@.profiles =~= pre.profiles.update(
                                p as int,
                                (ProfileModel { name: pre.profiles[p as int].name, entries: newe }),
                            ));
                            lemma_remove_wf(entries, idx);
                            lemma_store_wf_update(pre, p as int, newe, pre.next_id);
                        }
                        Result::Ok(())
                    },
                }
            },
        }
    }

    /// Remove every live row of a category that satisfies the filter;
    /// the count removed is returned. An empty category is rejected
    /// with `Input`.
    pub fn remove_all(
        &mut self,
        sess: &Session,
        category: &String,
        filter: &Option<TagFilter>,
        now_ms: i64,
    ) -> (r: Result<usize, Error>)
        requires
            store_wf(old(self)@),
            session_wf(*sess, old(self)@),
        ensures
            store_wf(final(self)@),
            session_wf(*sess, final(self)@),
            final(self)@.next_id == old(self)@.next_id,
            category@.len() == 0 ==> r is Err && r->Err_0.kind == ErrorKind::Input && final(self)@
                == old(self)@,
            category@.len() > 0 ==> ({
                let p = sess.spec_profile();
                let entries = old(self)@.profiles[p].entries;
                &&& r == Result::<usize, Error>::Ok(
                    select(entries, category@, filt_model(*filter), now_ms).len() as usize,
                )
                &&& final(self)@ == with_entries(
                    old(self)@,
                    p,
                    unselect(entries, category@, filt_model(*filter), now_ms),
                    old(self)@.next_id,
                )
            }),
    {
        if category.as_str().is_empty() {
            return Result::Err(Error::new(ErrorKind::Input, String::from_str("empty category")));
        }
        let p = sess.profile;
        let ghost pre = self@;
        let mut prof = self.profiles.remove(p);
        proof {
            assert(pre.profiles[p as int].entries == row_views(prof.entries@));
        }
        let mut kept: Vec<StoredEntry> = Vec::new();
        let mut removed: usize = 0;
        let ghost rv = row_views(prof.entries@);
        proof {
            assert(rv.take(0) =~= Seq::<RowModel>::empty());
            assert(row_views(kept@) =~= Seq::<RowModel>::empty());
        }
        let mut i: usize = 0;
        while i < prof.entries.len()
            invariant
                0 <= i <= prof.entries@.len(),
                rv == row_views(prof.entries@),
                removed <= i,
                row_views(kept@) == unselect(
                    rv.take(i as int),
                    category@,
                    filt_model(*filter),
                    now_ms,
                ),
                removed == select(rv.take(i as int), category@, filt_model(*filter), now_ms).len(),
            decreases prof.entries.len() - i,
        {
            proof {
                assert(rv.take(i + 1).drop_last() =~= rv.take(i as int));
                assert(rv.take(i + 1).last() == rv[i as int]);
            }
            if entry_selected_exec(&prof.entries[i], category, filter, now_ms) {
                removed = removed + 1;
            } else {
                let ghost prek = row_views(kept@);
                kept.push(prof.entries[i].duplicate());
                proof {
                    assert(row_views(kept@) =~= prek.push(rv[i as int]));
                }
            }
            i = i + 1;
        }
        proof {
            assert(rv.take(rv.len() as int) =~= rv);
        }
        let prof2 = Profile { name: prof.name, entries: kept };
        self.profiles.insert(p, prof2);
        proof {
            let entries = pre.profiles[p as int].entries;
            lemma_unselect_wf(entries, category@, filt_model(*filter), now_ms);
            assert(final(self)@.profiles =~= pre.profiles.update(
                p as int,
                (ProfileModel {
                    name: pre.profiles[p as int].name,
                    entries: unselect(entries, category@, filt_model(*filter), now_ms),
                }),
            ));
            let newe = unselect(entries, category@, filt_model(*filter), now_ms);
            assert forall|k: int| 0 <= k < newe.len() implies (#[trigger] newe[k]).id
                < pre.next_id by {
                assert(entries.contains(newe[k]));
                let q = choose|q: int| 0 <= q < entries.len() && entries[q] == newe[k];
                assert(entries[q].id < pre.next_id);
            }
            lemma_store_wf_update(pre, p as int, newe, pre.next_id);
        }
        Result::Ok(removed)
    }

    /// Close a session, releasing its claim on the store. A
    /// transaction closed without `commit` rolls its profile back to
    /// the rows as they stood at its start (nothing else can have
    /// touched them: the transaction held the store exclusively); any
    /// other close keeps the rows as they are.
    pub fn close_session(&mut self, sess: Session, commit: bool) -> (r: Result<(), Error>)
        requires
            store_wf(old(self)@),
            session_wf(sess, old(self)@),
        ensures
            store_wf(final(self)@),
            r is Ok,
            (!sess.is_transaction() || commit) ==> final(self)@ == with_session_closed(
                old(self)@,
                sess.is_transaction(),
            ),
            (sess.is_transaction() && !commit) ==> final(self)@ == with_entries(
                with_session_closed(old(self)@, true),
                sess.spec_profile(),
                sess.spec_snapshot()->0,
                old(self)@.next_id,
            ),
    {
        self.sessions_open = self.sessions_open - 1;
        let is_txn = match &sess.snapshot {
            Option::None => false,
            Option::Some(_) => true,
        };
        if is_txn {
            self.txn_open = false;
        }
        let ghost pre = self@;
        let p = sess.profile;
        match sess.snapshot {
            Option::None => Result::Ok(()),
            Option::Some(snap) => {
                if commit {
                    Result::Ok(())
                } else {
                    let mut prof = self.profiles.remove(p);
                    let prof2 = Profile { name: prof.name, entries: snap };
                    self.profiles.insert(p, prof2);
                    proof {
                        assert(final(self)@.profiles =~= pre.profiles.update(
                            p as int,
                            (ProfileModel {
                                name: pre.profiles[p as int].name,
                                entries: row_views(snap@),
                            }),
                        ));
                        lemma_store_wf_update(pre, p as int, row_views(snap@), pre.next_id);
                        assert(final(self)@ =~= with_entries(
                            with_session_closed(old(self)@, true),
                            p as int,
                            row_views(snap@),
                            old(self)@.next_id,
                        ));
                    }
                    Result::Ok(())
                }
            },
        }
    }
}

/// Replacing one profile's rows with well-formed rows whose ids stay
/// below the id counter keeps the store well-formed.
pub proof fn lemma_store_wf_update(m: StoreModel, p: int, es: Seq<RowModel>, next_id: u64)
    requires
        store_wf(m),
        0 <= p < m.profiles.len(),
        profile_wf(es),
        next_id >= m.next_id,
        forall|k: int| 0 <= k < es.len() ==> (#[trigger] es[k]).id < next_id,
    ensures
        store_wf(with_entries(m, p, es, next_id)),
{
    let m2 = with_entries(m, p, es, next_id);
    assert forall|i: int, j: int| 0 <= i < j < m2.profiles.len() implies (
    #[trigger] m2.profiles[i]).name != (#[trigger] m2.profiles[j]).name by {
        assert(m2.profiles[i].name == m.profiles[i].name);
        assert(m2.profiles[j].name == m.profiles[j].name);
    }
    assert forall|i: int| 0 <= i < m2.profiles.len() implies profile_wf(
        (#[trigger] m2.profiles[i]).entries,
    ) by {
        if i != p {
            assert(m2.profiles[i] == m.profiles[i]);
        }
    }
    assert forall|i: int, k: int|
        0 <= i < m2.profiles.len() && 0 <= k < m2.profiles[i].entries.len() implies (
    #[trigger] m2.profiles[i].entries[k]).id < m2.next_id by {
        if i != p {
            assert(m2.profiles[i] == m.profiles[i]);
            assert(m.profiles[i].entries[k].id < m.next_id);
        }
    }
    let dp = m.default_profile;
    let i0 = choose|i: int| 0 <= i < m.profiles.len() && (#[trigger] m.profiles[i]).name == dp;
    assert(m2.profiles[i0].name == dp);
}

/// A forward-only cursor over the selected rows of one profile,
/// yielding entries in batches.
pub struct Scan {
    rows: Vec<Entry>,
    pos: usize,
    page: usize,
}

impl Scan {
    /// The models of the selected entries, in scan order.
    pub closed spec fn spec_rows(&self) -> Seq<EntryModel> {
        entry_views(self.rows@)
    }

    /// How many entries have been yielded so far.
    pub closed spec fn spec_pos(&self) -> int {
        self.pos as int
    }

    /// The largest batch a single step yields.
    pub closed spec fn spec_page(&self) -> int {
        self.page as int
    }

    /// A scan is well-formed while its position is inside the rows
    /// and its page size is positive.
    pub open spec fn wf(&self) -> bool {
        0 <= self.spec_pos() <= self.spec_rows().len() && self.spec_page() >= 1
    }

    /// The next batch of entries: up to a page of them, or `None`
    /// once the scan is exhausted.
    pub fn fetch_next(&mut self) -> (r: Option<Vec<Entry>>)
        requires
            old(self).wf(),
        ensures
            final(self).wf(),
            final(self).spec_rows() == old(self).spec_rows(),
            final(self).spec_page() == old(self).spec_page(),
            old(self).spec_pos() == old(self).spec_rows().len() ==> r is None && final(self).spec_pos() == old(self).spec_pos(),
            old(self).spec_pos() < old(self).spec_rows().len() ==> (r matches Some(v) && {
                let stop = if old(self).spec_pos() + old(self).spec_page() <= old(self).spec_rows().len() {
                    old(self).spec_pos() + old(self).spec_page()
                } else {
                    old(self).spec_rows().len() as int
                };
                &&& final(self).spec_pos() == stop
                &&& entry_views(v@) == old(self).spec_rows().subrange(old(self).spec_pos(), stop)
            }),
    {
        if self.pos == self.rows.len() {
            return Option::None;
        }
        let remaining = self.rows.len() - self.pos;
        let step = if self.page <= remaining {
            self.page
        } else {
            remaining
        };
        let mut out: Vec<Entry> = Vec::new();
        let mut k: usize = 0;
        let ghost rows0 = self.rows@;
        let ghost pos0 = self.pos;
        proof {
            assert(entry_views(out@) =~= Seq::<EntryModel>::empty());
        }
        while k < step
            invariant
                0 <= k <= step,
                self.rows@ == rows0,
                self.pos == pos0,
                self.page == old(self).spec_page(),
                pos0 + step <= rows0.len(),
                pos0 + step <= usize::MAX,
                entry_views(out@) == entry_views(rows0).subrange(pos0 as int, pos0 + k),
            decreases step - k,
        {
            let ghost pre = entry_views(out@);
            out.push(self.rows[self.pos + k].duplicate());
            proof {
                assert(entry_views(out@) =~= pre.push(entry_views(rows0)[pos0 + k]));
                assert(entry_views(rows0).subrange(pos0 as int, pos0 + k + 1) =~= entry_views(
                    rows0,
                ).subrange(pos0 as int, pos0 + k).push(entry_views(rows0)[pos0 + k]));
            }
            k = k + 1;
        }
        self.pos = self.pos + step;
        Option::Some(out)
    }
}

impl Store {
    /// Start a scan over the live rows of a category under a filter,
    /// against a profile (the default when none is named), after
    /// skipping `offset` rows and yielding at most `limit` (negative
    /// means all). An empty category is rejected with `Input`; a
    /// missing profile with `NotFound`.
    pub fn scan(
        &self,
        profile: Option<String>,
        category: &String,
        filter: &Option<TagFilter>,
        offset: i64,
        limit: i64,
        now_ms: i64,
    ) -> (r: Result<Scan, Error>)
        requires
            store_wf(self@),
        ensures
            category@.len() == 0 ==> r is Err && r->Err_0.kind == ErrorKind::Input,
            (category@.len() > 0 && (match profile {
                Option::None => false,
                Option::Some(p) => !has_profile(self@, p@),
            })) ==> r is Err && r->Err_0.kind == ErrorKind::NotFound,
            (category@.len() > 0 && (match profile {
                Option::None => true,
                Option::Some(p) => has_profile(self@, p@),
            })) ==> (r matches Ok(sc) && {
                let pname = (match profile {
                    Option::None => self@.default_profile,
                    Option::Some(p) => p@,
                });
                let entries = self@.profiles[profile_index(self@, pname)].entries;
                &&& sc.wf()
                &&& sc.spec_pos() == 0
                &&& entries_of_rows(
                    sc.spec_rows(),
                    paged(select(entries, category@, filt_model(*filter), now_ms), offset, limit),
                )
            }),
    {
        if category.as_str().is_empty() {
            return Result::Err(Error::new(ErrorKind::Input, String::from_str("empty category")));
        }
        let name_ref: &String = match &profile {
            Option::None => &self.default_profile,
            Option::Some(p) => p,
        };
        let i = match self.find_profile(name_ref) {
            Option::None => {
                proof {
                    if profile is None {
                        assert(has_profile(self@, self@.default_profile));
                    }
                }
                return Result::Err(
                    Error::new(ErrorKind::NotFound, String::from_str("profile not found")),
                );
            },
            Option::Some(i) => i,
        };
        proof {
            let pname = (match profile {
                Option::None => self@.default_profile,
                Option::Some(p) => p@,
            });
            let idx = profile_index(self@, pname);
            assert(self@.profiles[idx].name == pname);
            if idx != i as int {
                assert(false);
            }
        }
        let mut rows = select_rows(&self.profiles[i].entries, category, filter, now_ms);
        proof {
            assert(self@.profiles[i as int].entries == row_views(self.profiles@[i as int].entries@));
        }
        let ghost sel = select(
            self@.profiles[i as int].entries,
            category@,
            filt_model(*filter),
            now_ms,
        );
        // apply the offset
        let start: usize = if offset <= 0 {
            0
        } else if (offset as u64) >= (rows.len() as u64) {
            rows.len()
        } else {
            offset as usize
        };
        let ghost pre_views = entry_views(rows@);
        let tail = rows.split_off(start);
        let rows = tail;
        proof {
            assert(entry_views(rows@) =~= pre_views.skip(start as int));
            let off = if offset < 0 {
                0
            } else if offset > sel.len() {
                sel.len() as int
            } else {
                offset as int
            };
            assert(start as int == off);
            assert forall|q: int| 0 <= q < entry_views(rows@).len() implies entry_of_row(
                #[trigger] entry_views(rows@)[q],
                sel.skip(off)[q],
            ) by {
                assert(entry_views(rows@)[q] == pre_views[q + off]);
                assert(sel.skip(off)[q] == sel[q + off]);
            }
        }
        let ghost rest = sel.skip(
            if offset < 0 {
                0
            } else if offset > sel.len() {
                sel.len() as int
            } else {
                offset as int
            },
        );
        // apply the limit
        let mut rows = rows;
        if limit >= 0 {
            if (limit as u64) < (rows.len() as u64) {
                let lim = limit as usize;
                let ghost pre = entry_views(rows@);
                rows.truncate(lim);
                proof {
                    assert(entry_views(rows@) =~= pre.take(lim as int));
                    assert(paged(sel, offset, limit) == rest.take(limit as int));
                    assert forall|q: int| 0 <= q < lim implies entry_of_row(
                        #[trigger] entry_views(rows@)[q],
                        rest.take(limit as int)[q],
                    ) by {
                        assert(entry_views(rows@)[q] == pre[q]);
                        assert(rest.take(limit as int)[q] == rest[q]);
                    }
                }
            } else {
                proof {
                    if limit <= rest.len() {
                        assert(rest.take(limit as int) =~= rest);
                        assert(paged(sel, offset, limit) == rest.take(limit as int));
                    } else {
                        assert(paged(sel, offset, limit) == rest);
                    }
                }
            }
        } else {
            proof {
                assert(paged(sel, offset, limit) == rest);
            }
        }
        Result::Ok(Scan { rows, pos: 0, page: 32 })
    }
}

/// A cursor over a batch of entries handed across the boundary,
/// yielding one entry at a time.
pub struct EntrySet {
    rows: Vec<Entry>,
    pos: usize,
}

impl EntrySet {
    /// The models of the entries, in order.
    pub closed spec fn spec_rows(&self) -> Seq<EntryModel> {
        entry_views(self.rows@)
    }

    /// How many entries have been yielded so far.
    pub closed spec fn spec_pos(&self) -> int {
        self.pos as int
    }

    /// A cursor is well-formed while its position is inside the rows.
    pub open spec fn wf(&self) -> bool {
        0 <= self.spec_pos() <= self.spec_rows().len()
    }

    /// A cursor over the given entries, at the start.
    pub fn new(rows: Vec<Entry>) -> (r: EntrySet)
        ensures
            r.wf(),
            r.spec_rows() == entry_views(rows@),
            r.spec_pos() == 0,
    {
        EntrySet { rows, pos: 0 }
    }

    /// The next entry, or `None` once the cursor is exhausted.
    pub fn next(&mut self) -> (r: Option<Entry>)
        requires
            old(self).wf(),
        ensures
            final(self).wf(),
            final(self).spec_rows() == old(self).spec_rows(),
            old(self).spec_pos() == old(self).spec_rows().len() ==> r is None && final(self).spec_pos() == old(self).spec_pos(),
            old(self).spec_pos() < old(self).spec_rows().len() ==> (r matches Some(en) && en@
                == old(self).spec_rows()[old(self).spec_pos()] && final(self).spec_pos() == old(self).spec_pos() + 1),
    {
        if self.pos == self.rows.len() {
            return Option::None;
        }
        let entry = self.rows[self.pos].duplicate();
        self.pos = self.pos + 1;
        Option::Some(entry)
    }
}

} // verus!
