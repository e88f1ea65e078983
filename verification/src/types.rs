//! Entries, tags and the operations a session applies to them.

use vstd::prelude::*;
use vstd::relations::{sorted_by, total_ordering};

verus! {

/// The mathematical model of a tag: whether it is stored in plaintext,
/// its name and its value.
pub ghost struct TagModel {
    /// True for a `~`-prefixed tag, stored in cleartext.
    pub plaintext: bool,
    /// The tag name, without the `~` prefix.
    pub name: Seq<char>,
    /// The tag value.
    pub value: Seq<char>,
}

/// An indexable attribute of an entry. An encrypted tag is stored under
/// a deterministic hash and is searchable only by equality; a plaintext
/// tag is stored in cleartext and supports ordering comparisons.
#[derive(Clone, Debug)]
pub enum EntryTag {
    /// A tag whose name and value are encrypted at rest.
    Encrypted(String, String),
    /// A tag stored in cleartext, written with a leading `~`.
    Plaintext(String, String),
}

impl View for EntryTag {
    type V = TagModel;

    open spec fn view(&self) -> TagModel {
        match self {
            EntryTag::Encrypted(n, v) => TagModel { plaintext: false, name: n@, value: v@ },
            EntryTag::Plaintext(n, v) => TagModel { plaintext: true, name: n@, value: v@ },
        }
    }
}

impl EntryTag {
    /// The tag name.
    pub fn name(&self) -> (r: &String)
        ensures
            r@ == self@.name,
    {
        match self {
            EntryTag::Encrypted(n, _) => n,
            EntryTag::Plaintext(n, _) => n,
        }
    }

    /// The tag value.
    pub fn value(&self) -> (r: &String)
        ensures
            r@ == self@.value,
    {
        match self {
            EntryTag::Encrypted(_, v) => v,
            EntryTag::Plaintext(_, v) => v,
        }
    }

    /// Whether the tag is stored in plaintext.
    pub fn is_plaintext(&self) -> (r: bool)
        ensures
            r == self@.plaintext,
    {
        match self {
            EntryTag::Encrypted(_, _) => false,
            EntryTag::Plaintext(_, _) => true,
        }
    }

    /// An owned copy of this tag, equal to the original.
    pub fn duplicate(&self) -> (r: EntryTag)
        ensures
            r == *self,
    {
        match self {
            EntryTag::Encrypted(n, v) => EntryTag::Encrypted(n.clone(), v.clone()),
            EntryTag::Plaintext(n, v) => EntryTag::Plaintext(n.clone(), v.clone()),
        }
    }
}

impl PartialEq for EntryTag {
    fn eq(&self, other: &EntryTag) -> (r: bool) {
        match (self, other) {
            (EntryTag::Encrypted(n1, v1), EntryTag::Encrypted(n2, v2)) => n1.eq(n2) && v1.eq(v2),
            (EntryTag::Plaintext(n1, v1), EntryTag::Plaintext(n2, v2)) => n1.eq(n2) && v1.eq(v2),
            _ => false,
        }
    }
}

impl Eq for EntryTag {}

impl vstd::std_specs::cmp::PartialEqSpecImpl for EntryTag {
    open spec fn obeys_eq_spec() -> bool {
        true
    }

    open spec fn eq_spec(&self, other: &EntryTag) -> bool {
        self@ == other@
    }
}

/// The views of a sequence of tags.
pub open spec fn tag_views(s: Seq<EntryTag>) -> Seq<TagModel> {
    s.map_values(|t: EntryTag| t@)
}

/// The views of a list of strings.
pub open spec fn str_views(s: Seq<String>) -> Seq<Seq<char>> {
    s.map_values(|x: String| x@)
}

/// The mathematical model of a record entry.
pub ghost struct EntryModel {
    /// The category the entry is filed under.
    pub category: Seq<char>,
    /// The entry name.
    pub name: Seq<char>,
    /// The value bytes.
    pub value: Seq<u8>,
    /// The tags, if any were attached.
    pub tags: Option<Seq<TagModel>>,
}

/// A plaintext record: category, name, value and optional tags.
#[derive(Clone, Debug)]
pub struct Entry {
    /// The category the entry is filed under.
    pub category: String,
    /// The entry name; `(category, name)` is unique within a profile.
    pub name: String,
    /// The confidential value bytes.
    pub value: Vec<u8>,
    /// The indexable tags, if any.
    pub tags: Option<Vec<EntryTag>>,
}

impl View for Entry {
    type V = EntryModel;

    open spec fn view(&self) -> EntryModel {
        EntryModel {
            category: self.category@,
            name: self.name@,
            value: self.value@,
            tags: (match self.tags {
                Option::None => Option::None,
                Option::Some(ts) => Option::Some(tag_views(ts@)),
            }),
        }
    }
}

/// The models of a list of entries.
pub open spec fn entry_views(s: Seq<Entry>) -> Seq<EntryModel> {
    s.map_values(|e: Entry| e@)
}

impl Entry {
    /// Assemble an entry from its parts.
    pub fn new(category: String, name: String, value: Vec<u8>, tags: Option<Vec<EntryTag>>) -> (r:
        Entry)
        ensures
            r.category == category,
            r.name == name,
            r.value == value,
            r.tags == tags,
    {
        Entry { category, name, value, tags }
    }

    /// An owned copy with the same model.
    pub fn duplicate(&self) -> (r: Entry)
        ensures
            r@ == self@,
    {
        Entry {
            category: self.category.clone(),
            name: self.name.clone(),
            value: copy_bytes(&self.value),
            tags: (match &self.tags {
                Option::None => Option::None,
                Option::Some(ts) => Option::Some(copy_tags(ts)),
            }),
        }
    }
}

/// Byte-wise equality of two vectors.
pub fn bytes_eq(a: &Vec<u8>, b: &Vec<u8>) -> (r: bool)
    ensures
        r == (a@ == b@),
{
    if a.len() != b.len() {
        return false;
    }
    let mut i: usize = 0;
    while i < a.len()
        invariant
            0 <= i <= a.len(),
            a.len() == b.len(),
            forall|k: int| 0 <= k < i ==> a@[k] == b@[k],
        decreases a.len() - i,
    {
        if a[i] != b[i] {
            return false;
        }
        i = i + 1;
    }
    proof {
        assert(a@ =~= b@);
    }
    true
}

/// An owned copy of a byte vector.
pub fn copy_bytes(v: &Vec<u8>) -> (r: Vec<u8>)
    ensures
        r@ == v@,
{
    let mut out: Vec<u8> = Vec::new();
    let mut i: usize = 0;
    while i < v.len()
        invariant
            0 <= i <= v.len(),
            out@ == v@.subrange(0, i as int),
        decreases v.len() - i,
    {
        out.push(v[i]);
        proof {
            assert(v@.subrange(0, i + 1) =~= v@.subrange(0, i as int).push(v@[i as int]));
        }
        i = i + 1;
    }
    proof {
        assert(v@.subrange(0, v@.len() as int) =~= v@);
    }
    out
}

/// An owned copy of a tag list, equal to the original.
pub fn copy_tags(v: &Vec<EntryTag>) -> (r: Vec<EntryTag>)
    ensures
        r@ == v@,
{
    let mut out: Vec<EntryTag> = Vec::new();
    let mut i: usize = 0;
    while i < v.len()
        invariant
            0 <= i <= v.len(),
            out@ == v@.subrange(0, i as int),
        decreases v.len() - i,
    {
        out.push(v[i].duplicate());
        proof {
            assert(v@.subrange(0, i + 1) =~= v@.subrange(0, i as int).push(v@[i as int]));
        }
        i = i + 1;
    }
    proof {
        assert(v@.subrange(0, v@.len() as int) =~= v@);
    }
    out
}

/// Turn a string into its character vector.
pub fn str_chars(s: &str) -> (r: Vec<char>)
    ensures
        r@ == s@,
{
    let n = s.unicode_len();
    let mut out: Vec<char> = Vec::new();
    let mut i: usize = 0;
    while i < n
        invariant
            0 <= i <= n,
            n == s@.len(),
            out@ == s@.subrange(0, i as int),
        decreases n - i,
    {
        out.push(s.get_char(i));
        proof {
            assert(s@.subrange(0, i + 1) =~= s@.subrange(0, i as int).push(s@[i as int]));
        }
        i = i + 1;
    }
    proof {
        assert(s@.subrange(0, s@.len() as int) =~= s@);
    }
    out
}

/// Relies on `String::from_iter` over characters: the resulting
/// string holds exactly the given characters.
#[verifier::external_body]
pub(crate) fn chars_to_string(v: &Vec<char>) -> (r: String)
    ensures
        r@ == v@,
{
    v.iter().collect()
}

/// Relies on `String::from_utf8`: it succeeds exactly on valid UTF-8
/// and decodes the bytes.
#[verifier::external_body]
pub(crate) fn string_from_utf8(v: Vec<u8>) -> (r: Option<String>)
    ensures
        r is Some <==> vstd::utf8::valid_utf8(v@),
        r matches Some(s) ==> s@ == vstd::utf8::decode_utf8(v@),
{
    match String::from_utf8(v) {
        Result::Ok(s) => Option::Some(s),
        Result::Err(_) => Option::None,
    }
}

/// Relies on `zeroize::Zeroize for Vec<u8>`: the buffer is overwritten
/// with zeroes over its whole capacity and then cleared.
#[verifier::external_body]
pub(crate) fn zeroize_bytes(v: &mut Vec<u8>)
    ensures
        final(v)@.len() == 0,
{
    zeroize::Zeroize::zeroize(v);
}

/// Relies on `zeroize::Zeroize for String`: the backing buffer is
/// overwritten with zeroes and the string is cleared.
#[verifier::external_body]
pub(crate) fn zeroize_string(s: &mut String)
    ensures
        final(s)@.len() == 0,
{
    zeroize::Zeroize::zeroize(s);
}

/// A confidential byte container. The backing memory is scrubbed by an
/// explicit [`SecretBytes::zeroize`] before release; diagnostic output
/// never shows the contents.
pub struct SecretBytes(Vec<u8>);

impl View for SecretBytes {
    type V = Seq<u8>;

    closed spec fn view(&self) -> Seq<u8> {
        self.0@
    }
}

impl SecretBytes {
    /// Take ownership of the given bytes.
    pub fn from_vec(v: Vec<u8>) -> (r: SecretBytes)
        ensures
            r@ == v@,
    {
        SecretBytes(v)
    }

    /// Read-only access to the bytes.
    pub fn bytes(&self) -> (r: &Vec<u8>)
        ensures
            r@ == self@,
    {
        &self.0
    }

    /// The number of bytes held.
    pub fn len(&self) -> (r: usize)
        ensures
            r == self@.len(),
    {
        self.0.len()
    }

    /// An owned copy, equal to the original.
    pub fn duplicate(&self) -> (r: SecretBytes)
        ensures
            r@ == self@,
    {
        SecretBytes(copy_bytes(&self.0))
    }

    /// Surrender the bytes.
    pub fn into_vec(self) -> (r: Vec<u8>)
        ensures
            r@ == self@,
    {
        self.0
    }

    /// Scrub and empty the container.
    pub fn zeroize(&mut self)
        ensures
            final(self)@.len() == 0,
    {
        zeroize_bytes(&mut self.0);
    }
}

impl PartialEq for SecretBytes {
    fn eq(&self, other: &SecretBytes) -> (r: bool) {
        bytes_eq(&self.0, &other.0)
    }
}

impl Eq for SecretBytes {}

impl vstd::std_specs::cmp::PartialEqSpecImpl for SecretBytes {
    open spec fn obeys_eq_spec() -> bool {
        true
    }

    open spec fn eq_spec(&self, other: &SecretBytes) -> bool {
        self@ == other@
    }
}

/// The mutation kinds a session update dispatches on.
#[derive(Clone, Copy, Debug, PartialEq, Eq, Structural)]
pub enum EntryOperation {
    /// Create a new row; fails with `Duplicate` if one exists.
    Insert,
    /// Insert or overwrite.
    Replace,
    /// Delete exactly one row; fails with `NotFound` if absent.
    Remove,
}

impl EntryOperation {
    /// Decode the operation from its stable numeric code; any other
    /// code is rejected.
    pub fn from_code(code: i8) -> (r: Option<EntryOperation>)
        ensures
            code == 0 ==> r == Some(EntryOperation::Insert),
            code == 1 ==> r == Some(EntryOperation::Replace),
            code == 2 ==> r == Some(EntryOperation::Remove),
            !(0 <= code <= 2) ==> r is None,
    {
        match code {
            0 => Some(EntryOperation::Insert),
            1 => Some(EntryOperation::Replace),
            2 => Some(EntryOperation::Remove),
            _ => None,
        }
    }
}

/// Ordering on character sequences by unicode scalar value: true when
/// `a` is equal to `b`, a proper prefix of it, or precedes it at the
/// first differing position.
pub open spec fn seq_char_le(a: Seq<char>, b: Seq<char>) -> bool
    decreases a.len(),
{
    if a.len() == 0 {
        true
    } else if b.len() == 0 {
        false
    } else if a[0] != b[0] {
        a[0] < b[0]
    } else {
        seq_char_le(a.skip(1), b.skip(1))
    }
}

/// Strict form of [`seq_char_le`].
pub open spec fn seq_char_lt(a: Seq<char>, b: Seq<char>) -> bool {
    seq_char_le(a, b) && a != b
}

pub proof fn lemma_seq_char_le_total(a: Seq<char>, b: Seq<char>)
    ensures
        seq_char_le(a, b) || seq_char_le(b, a),
    decreases a.len(),
{
    if a.len() == 0 || b.len() == 0 {
    } else if a[0] != b[0] {
    } else {
        lemma_seq_char_le_total(a.skip(1), b.skip(1));
    }
}

pub proof fn lemma_seq_char_le_antisym(a: Seq<char>, b: Seq<char>)
    requires
        seq_char_le(a, b),
        seq_char_le(b, a),
    ensures
        a == b,
    decreases a.len(),
{
    if a.len() == 0 {
        assert(b.len() == 0);
        assert(a =~= b);
    } else {
        assert(b.len() > 0);
        assert(a[0] == b[0]);
        lemma_seq_char_le_antisym(a.skip(1), b.skip(1));
        assert(a =~= seq![a[0]] + a.skip(1));
        assert(b =~= seq![b[0]] + b.skip(1));
    }
}

pub proof fn lemma_seq_char_le_trans(a: Seq<char>, b: Seq<char>, c: Seq<char>)
    requires
        seq_char_le(a, b),
        seq_char_le(b, c),
    ensures
        seq_char_le(a, c),
    decreases a.len(),
{
    if a.len() == 0 || b.len() == 0 || c.len() == 0 {
    } else if a[0] == b[0] && b[0] == c[0] {
        lemma_seq_char_le_trans(a.skip(1), b.skip(1), c.skip(1));
    }
}

/// Ordering on tag models: encrypted tags before plaintext tags, then
/// by name, then by value.
pub open spec fn tag_le(x: TagModel, y: TagModel) -> bool {
    if x.plaintext != y.plaintext {
        !x.plaintext
    } else if x.name != y.name {
        seq_char_lt(x.name, y.name)
    } else {
        seq_char_le(x.value, y.value)
    }
}

/// The ordering used to sort tags, as a function value.
pub open spec fn tag_order() -> spec_fn(TagModel, TagModel) -> bool {
    |x: TagModel, y: TagModel| tag_le(x, y)
}

pub proof fn lemma_tag_order_total()
    ensures
        total_ordering(tag_order()),
{
    let leq = tag_order();
    assert forall|x: TagModel| #[trigger] leq(x, x) by {
        lemma_seq_char_le_total(x.value, x.value);
    }
    assert forall|x: TagModel, y: TagModel| #[trigger] leq(x, y) && #[trigger] leq(y, x) implies x
        == y by {
        if x.plaintext == y.plaintext && x.name == y.name {
            lemma_seq_char_le_antisym(x.value, y.value);
        } else if x.plaintext == y.plaintext {
            lemma_seq_char_le_antisym(x.name, y.name);
        }
    }
    assert forall|x: TagModel, y: TagModel, z: TagModel|
        #[trigger] leq(x, y) && #[trigger] leq(y, z) implies leq(x, z) by {
        lemma_tag_le_trans(x, y, z);
    }
    assert forall|x: TagModel, y: TagModel| !(#[trigger] leq(x, y)) implies leq(y, x) by {
        if x.plaintext == y.plaintext {
            if x.name == y.name {
                lemma_seq_char_le_total(x.value, y.value);
            } else {
                lemma_seq_char_le_total(x.name, y.name);
            }
        }
    }
}

proof fn lemma_tag_le_trans(x: TagModel, y: TagModel, z: TagModel)
    requires
        tag_le(x, y),
        tag_le(y, z),
    ensures
        tag_le(x, z),
{
    if x.plaintext == y.plaintext && y.plaintext == z.plaintext {
        if x.name == y.name && y.name == z.name {
            lemma_seq_char_le_trans(x.value, y.value, z.value);
        } else if x.name == y.name {
        } else if y.name == z.name {
        } else {
            lemma_seq_char_le_trans(x.name, y.name, z.name);
            if x.name == z.name {
                lemma_seq_char_le_antisym(x.name, y.name);
            }
        }
    }
}

/// Three-way comparison of two strings by unicode scalar value.
/// Returns `-1`, `0` or `1`.
pub fn str_compare(a: &str, b: &str) -> (r: i8)
    ensures
        r == 0 <==> a@ == b@,
        r <= 0 <==> seq_char_le(a@, b@),
{
    let alen = a.unicode_len();
    let blen = b.unicode_len();
    let mut i: usize = 0;
    proof {
        assert(a@.skip(0) =~= a@);
        assert(b@.skip(0) =~= b@);
        assert(a@.subrange(0, 0) =~= b@.subrange(0, 0));
    }
    while i < alen && i < blen
        invariant
            0 <= i <= alen,
            i <= blen,
            alen == a@.len(),
            blen == b@.len(),
            a@.subrange(0, i as int) == b@.subrange(0, i as int),
            seq_char_le(a@, b@) == seq_char_le(a@.skip(i as int), b@.skip(i as int)),
            seq_char_le(b@, a@) == seq_char_le(b@.skip(i as int), a@.skip(i as int)),
        decreases alen - i,
    {
        let ca = a.get_char(i);
        let cb = b.get_char(i);
        if ca < cb {
            proof {
                assert(seq_char_le(a@.skip(i as int), b@.skip(i as int)));
                assert(!seq_char_le(b@.skip(i as int), a@.skip(i as int)));
                if a@ == b@ {
                    assert(a@[i as int] == b@[i as int]);
                    assert(false);
                }
            }
            return -1;
        } else if cb < ca {
            proof {
                assert(!seq_char_le(a@.skip(i as int), b@.skip(i as int)));
                assert(seq_char_le(b@.skip(i as int), a@.skip(i as int)));
                if a@ == b@ {
                    assert(a@[i as int] == b@[i as int]);
                    assert(false);
                }
            }
            return 1;
        }
        proof {
            assert(ca == cb);
            assert(a@.skip(i as int).skip(1) =~= a@.skip(i + 1));
            assert(b@.skip(i as int).skip(1) =~= b@.skip(i + 1));
            assert(a@.subrange(0, i + 1) =~= a@.subrange(0, i as int).push(a@[i as int]));
            assert(b@.subrange(0, i + 1) =~= b@.subrange(0, i as int).push(b@[i as int]));
        }
        i = i + 1;
    }
    if i == alen && i == blen {
        proof {
            assert(a@ =~= a@.subrange(0, i as int));
            assert(b@ =~= b@.subrange(0, i as int));
        }
        0
    } else if i == alen {
        proof {
            assert(seq_char_le(a@.skip(i as int), b@.skip(i as int)));
            assert(a@.len() != b@.len());
        }
        -1
    } else {
        proof {
            assert(!seq_char_le(a@.skip(i as int), b@.skip(i as int)));
            assert(a@.len() != b@.len());
        }
        1
    }
}

/// Whether `x` sorts at or before `y` in the canonical tag order.
pub fn tag_le_exec(x: &EntryTag, y: &EntryTag) -> (r: bool)
    ensures
        r == tag_le(x@, y@),
{
    let xp = x.is_plaintext();
    let yp = y.is_plaintext();
    if xp != yp {
        !xp
    } else {
        let nc = str_compare(x.name().as_str(), y.name().as_str());
        if nc != 0 {
            nc < 0
        } else {
            str_compare(x.value().as_str(), y.value().as_str()) <= 0
        }
    }
}

/// Sort tags into the canonical order; `None` when the list is empty.
///
/// The result holds exactly the input tags, sorted by [`tag_le`].
pub fn sorted_tags(tags: &Vec<EntryTag>) -> (r: Option<Vec<EntryTag>>)
    ensures
        r is None <==> tags.len() == 0,
        r matches Some(s) ==> {
            &&& tag_views(s@).to_multiset() == tag_views(tags@).to_multiset()
            &&& sorted_by(tag_views(s@), tag_order())
        },
{
    if tags.len() == 0 {
        return None;
    }
    let mut out: Vec<EntryTag> = Vec::new();
    proof {
        assert(tag_views(tags@.subrange(0, 0)) =~= Seq::<TagModel>::empty());
        assert(tag_views(out@) =~= Seq::<TagModel>::empty());
    }
    let mut i: usize = 0;
    while i < tags.len()
        invariant
            0 <= i <= tags.len(),
            sorted_by(tag_views(out@), tag_order()),
            tag_views(out@).to_multiset() == tag_views(tags@.subrange(0, i as int)).to_multiset(),
        decreases tags.len() - i,
    {
        let t = tags[i].duplicate();
        let mut j: usize = 0;
        while j < out.len() && tag_le_exec(&out[j], &t)
            invariant
                0 <= j <= out.len(),
                forall|k: int| 0 <= k < j ==> tag_le(#[trigger] tag_views(out@)[k], t@),
            decreases out.len() - j,
    	{
            j = j + 1;
        }
        proof {
            lemma_tag_order_total();
            let ov = tag_views(out@);
            let leq = tag_order();
            if j < out.len() {
                assert(!tag_le(ov[j as int], t@));
                assert(leq(ov[j as int], t@) || leq(t@, ov[j as int]));
                assert(leq(t@, ov[j as int]));
            }
            assert forall|k: int| j <= k < out.len() implies leq(t@, ov[k]) by {
                if k > j {
                    assert(leq(ov[j as int], ov[k]));
                    lemma_tag_le_trans(t@, ov[j as int], ov[k]);
                }
            }
        }
        let ghost old_out = out@;
        out.insert(j, t);
        proof {
            let ov = tag_views(old_out);
            let nv = tag_views(out@);
            assert(nv =~= ov.insert(j as int, t@));
            lemma_insert_sorted(ov, t@, j as int);
            lemma_insert_multiset(ov, t@, j as int);
            assert(tag_views(tags@.subrange(0, i + 1)) =~= tag_views(
                tags@.subrange(0, i as int),
            ).push(t@));
            broadcast use vstd::seq_lib::group_to_multiset_ensures;

        }
        i = i + 1;
    }
    proof {
        assert(tags@.subrange(0, tags@.len() as int) =~= tags@);
    }
    Some(out)
}

proof fn lemma_insert_sorted(s: Seq<TagModel>, x: TagModel, j: int)
    requires
        0 <= j <= s.len(),
        sorted_by(s, tag_order()),
        forall|k: int| 0 <= k < j ==> tag_le(#[trigger] s[k], x),
        forall|k: int| j <= k < s.len() ==> tag_le(x, #[trigger] s[k]),
    ensures
        sorted_by(s.insert(j, x), tag_order()),
{
    let t = s.insert(j, x);
    let leq = tag_order();
    assert forall|p: int, q: int| 0 <= p < q < t.len() implies leq(t[p], t[q]) by {
        if p < j && q < j {
            assert(t[p] == s[p] && t[q] == s[q]);
        } else if p < j && q == j {
            assert(t[p] == s[p]);
        } else if p < j && q > j {
            assert(t[p] == s[p] && t[q] == s[q - 1]);
        } else if p == j && q > j {
            assert(t[q] == s[q - 1]);
        } else if p > j && q > j {
            assert(t[p] == s[p - 1] && t[q] == s[q - 1]);
        }
    }
}

proof fn lemma_insert_multiset(s: Seq<TagModel>, x: TagModel, j: int)
    requires
        0 <= j <= s.len(),
    ensures
        s.insert(j, x).to_multiset() == s.push(x).to_multiset(),
{
    broadcast use vstd::seq_lib::group_to_multiset_ensures;

    let a = s.insert(j, x);
    let b = s.push(x);
    assert(a.remove(j) =~= s);
    assert(b.remove(s.len() as int) =~= s);
    assert(a.to_multiset().remove(x) == s.to_multiset());
    assert(b.to_multiset().remove(x) == s.to_multiset());
    assert(a.to_multiset().contains(x));
    assert(b.to_multiset().contains(x));
    assert(a.to_multiset() =~= b.to_multiset());
}

/// The comma-separated segments of a recipient list: every segment
/// before a comma is kept as written, and a final empty segment is
/// dropped.
pub open spec fn split_commas(s: Seq<char>) -> Seq<Seq<char>>
    decreases s.len(),
{
    if !s.contains(',') {
        if s.len() == 0 {
            Seq::empty()
        } else {
            seq![s]
        }
    } else {
        let pos = first_comma(s, 0);
        if 0 <= pos < s.len() {
            seq![s.take(pos)] + split_commas(s.skip(pos + 1))
        } else {
            seq![s]
        }
    }
}

/// The position of the first comma at or after `i`.
pub open spec fn first_comma(s: Seq<char>, i: int) -> int
    decreases s.len() - i,
{
    if i < 0 || i >= s.len() {
        s.len() as int
    } else if s[i] == ',' {
        i
    } else {
        first_comma(s, i + 1)
    }
}

/// Split a comma-separated recipient list into its entries.
pub fn split_recipients(recips: &str) -> (r: Vec<String>)
    ensures
        str_views(r@) == split_commas(recips@),
{
    let chars = str_chars(recips);
    let mut out: Vec<String> = Vec::new();
    let mut start: usize = 0;
    let mut i: usize = 0;
    proof {
        assert(str_views(out@) =~= Seq::<Seq<char>>::empty());
        assert(chars@.skip(0) =~= chars@);
        assert(Seq::<Seq<char>>::empty() + split_commas(chars@) =~= split_commas(chars@));
    }
    while i < chars.len()
        invariant
            0 <= start <= i <= chars@.len(),
            chars@ == recips@,
            forall|k: int| start <= k < i ==> chars@[k] != ',',
            str_views(out@) + split_commas(chars@.skip(start as int)) == split_commas(chars@),
        decreases chars@.len() - i,
    {
        if chars[i] == ',' {
            let seg = chars_to_string(&segment(&chars, start, i));
            let ghost pre = str_views(out@);
            let ghost tail = chars@.skip(start as int);
            out.push(seg);
            proof {
                lemma_first_comma_found(chars@, start as int, i as int);
                assert(tail.contains(tail[i - start]));
                assert(first_comma(tail, 0) == i - start) by {
                    lemma_first_comma_shift(chars@, start as int, i as int);
                }
                assert(tail.take(i - start) =~= chars@.subrange(start as int, i as int));
                assert(tail.skip(i - start + 1) =~= chars@.skip(i + 1));
                assert(str_views(out@) =~= pre.push(chars@.subrange(start as int, i as int)));
                assert(str_views(out@) + split_commas(chars@.skip(i + 1)) =~= pre + (seq![
                    tail.take(i - start),
                ] + split_commas(tail.skip(i - start + 1))));
            }
            start = i + 1;
        }
        i = i + 1;
    }
    if start < chars.len() {
        let seg = chars_to_string(&segment(&chars, start, chars.len()));
        let ghost pre = str_views(out@);
        let ghost tail = chars@.skip(start as int);
        out.push(seg);
        proof {
            lemma_first_comma_none_from(chars@, start as int);
            assert(!tail.contains(','));
            assert(tail.len() > 0);
            assert(tail =~= chars@.subrange(start as int, chars@.len() as int));
            assert(str_views(out@) =~= pre.push(tail));
            assert(str_views(out@) =~= pre + seq![tail]);
        }
    } else {
        proof {
            let tail = chars@.skip(start as int);
            assert(tail.len() == 0);
            assert(!tail.contains(','));
            assert(str_views(out@) + split_commas(tail) =~= str_views(out@));
        }
    }
    out
}

/// A copy of the characters between two positions.
fn segment(chars: &Vec<char>, from: usize, to: usize) -> (r: Vec<char>)
    requires
        0 <= from <= to <= chars@.len(),
    ensures
        r@ == chars@.subrange(from as int, to as int),
{
    let mut out: Vec<char> = Vec::new();
    let mut k = from;
    proof {
        assert(chars@.subrange(from as int, from as int) =~= Seq::<char>::empty());
        assert(out@ =~= Seq::<char>::empty());
    }
    while k < to
        invariant
            from <= k <= to <= chars@.len(),
            out@ == chars@.subrange(from as int, k as int),
        decreases to - k,
    {
        out.push(chars[k]);
        proof {
            assert(chars@.subrange(from as int, k + 1) =~= chars@.subrange(
                from as int,
                k as int,
            ).push(chars@[k as int]));
        }
        k = k + 1;
    }
    out
}

/// A window with no comma has none to find.
proof fn lemma_first_comma_none_from(s: Seq<char>, start: int)
    requires
        0 <= start <= s.len(),
        forall|k: int| start <= k < s.len() ==> s[k] != ',',
    ensures
        !s.skip(start).contains(','),
{
    let tail = s.skip(start);
    if tail.contains(',') {
        let q = choose|q: int| 0 <= q < tail.len() && tail[q] == ',';
        assert(s[q + start] == ',');
    }
}

/// The first comma of the suffix is where the scan stopped.
proof fn lemma_first_comma_found(s: Seq<char>, start: int, i: int)
    requires
        0 <= start <= i < s.len(),
        forall|k: int| start <= k < i ==> s[k] != ',',
        s[i] == ',',
    ensures
        s.skip(start).contains(','),
{
    let tail = s.skip(start);
    assert(tail[i - start] == ',');
}

/// Scanning for the first comma from the start of the suffix stops at
/// the first comma of the scan.
proof fn lemma_first_comma_shift(s: Seq<char>, start: int, i: int)
    requires
        0 <= start <= i < s.len(),
        forall|k: int| start <= k < i ==> s[k] != ',',
        s[i] == ',',
    ensures
        first_comma(s.skip(start), 0) == i - start,
    decreases i - start,
{
    let tail = s.skip(start);
    if i == start {
        assert(tail[0] == ',');
    } else {
        assert(tail[0] != ',');
        lemma_first_comma_shift_inner(tail, 0, i - start);
    }
}

proof fn lemma_first_comma_shift_inner(tail: Seq<char>, j: int, target: int)
    requires
        0 <= j <= target < tail.len(),
        forall|k: int| 0 <= k < target ==> tail[k] != ',',
        tail[target] == ',',
    ensures
        first_comma(tail, j) == target,
    decreases target - j,
{
    if j < target {
        lemma_first_comma_shift_inner(tail, j + 1, target);
    }
}

} // verus!
