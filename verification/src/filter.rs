//! The tag-filter predicate language and its evaluation semantics.
//!
//! A filter name starting with `~` addresses a plaintext tag (without
//! the marker); any other name addresses an encrypted tag. Ordering
//! and pattern comparisons are only ever produced for plaintext tags;
//! the parser rejects them on encrypted names.

use vstd::prelude::*;
use crate::error::{Error, ErrorKind};
use crate::json::{
    chars_eq, json_model, json_models, json_pair_models, json_pair_sizes, json_size, json_sizes,
    lemma_json_models_index, lemma_json_pair_models_index, lemma_json_pair_sizes_elem,
    lemma_json_sizes_elem, parse_document, sp_document, JsonModel, JsonValue,
};
use crate::types::{
    chars_to_string, seq_char_le, seq_char_lt, str_chars, str_views, tag_views, EntryTag, TagModel,
};

verus! {

/// A predicate over the tag set of an entry.
#[derive(Debug)]
pub enum TagFilter {
    /// Some tag with this name has exactly this value.
    Eq(String, String),
    /// Some tag with this name has a different value.
    Neq(String, String),
    /// Some tag with this name has a strictly greater value.
    Gt(String, String),
    /// Some tag with this name has a greater-or-equal value.
    Gte(String, String),
    /// Some tag with this name has a strictly smaller value.
    Lt(String, String),
    /// Some tag with this name has a smaller-or-equal value.
    Lte(String, String),
    /// Some tag with this name matches an SQL-style pattern, where
    /// `%` matches any run of characters and `_` any one character.
    Like(String, String),
    /// Some tag with this name takes one of the listed values.
    In(String, Vec<String>),
    /// Every listed name is carried by some tag.
    Exist(Vec<String>),
    /// Every child holds.
    And(Vec<TagFilter>),
    /// At least one child holds.
    Or(Vec<TagFilter>),
    /// The child does not hold.
    Not(Box<TagFilter>),
}

/// The mathematical model of a filter.
pub ghost enum FilterModel {
    /// Equality on a tag value.
    Eq(Seq<char>, Seq<char>),
    /// Inequality on a tag value.
    Neq(Seq<char>, Seq<char>),
    /// Strictly greater tag value.
    Gt(Seq<char>, Seq<char>),
    /// Greater-or-equal tag value.
    Gte(Seq<char>, Seq<char>),
    /// Strictly smaller tag value.
    Lt(Seq<char>, Seq<char>),
    /// Smaller-or-equal tag value.
    Lte(Seq<char>, Seq<char>),
    /// SQL-style pattern match on a tag value.
    Like(Seq<char>, Seq<char>),
    /// Membership of a tag value in a list.
    In(Seq<char>, Seq<Seq<char>>),
    /// Presence of every listed name.
    Exist(Seq<Seq<char>>),
    /// Conjunction.
    And(Seq<FilterModel>),
    /// Disjunction.
    Or(Seq<FilterModel>),
    /// Negation.
    Not(Box<FilterModel>),
}

/// The model of a filter.
pub open spec fn filter_model(f: TagFilter) -> FilterModel
    decreases f,
{
    match f {
        TagFilter::Eq(n, v) => FilterModel::Eq(n@, v@),
        TagFilter::Neq(n, v) => FilterModel::Neq(n@, v@),
        TagFilter::Gt(n, v) => FilterModel::Gt(n@, v@),
        TagFilter::Gte(n, v) => FilterModel::Gte(n@, v@),
        TagFilter::Lt(n, v) => FilterModel::Lt(n@, v@),
        TagFilter::Lte(n, v) => FilterModel::Lte(n@, v@),
        TagFilter::Like(n, v) => FilterModel::Like(n@, v@),
        TagFilter::In(n, vs) => FilterModel::In(n@, str_views(vs@)),
        TagFilter::Exist(ns) => FilterModel::Exist(str_views(ns@)),
        TagFilter::And(fs) => FilterModel::And(filter_models(fs@)),
        TagFilter::Or(fs) => FilterModel::Or(filter_models(fs@)),
        TagFilter::Not(b) => FilterModel::Not(Box::new(filter_model(*b))),
    }
}

/// The size of a filter term, used as a termination measure.
pub open spec fn filter_size(f: TagFilter) -> nat
    decreases f,
{
    match f {
        TagFilter::And(fs) => 1 + filters_size(fs@),
        TagFilter::Or(fs) => 1 + filters_size(fs@),
        TagFilter::Not(b) => 1 + filter_size(*b),
        _ => 1,
    }
}

/// The total size of a list of filter terms.
pub open spec fn filters_size(s: Seq<TagFilter>) -> nat
    decreases s,
{
    if s.len() == 0 {
        0
    } else {
        filter_size(s[0]) + filters_size(s.skip(1))
    }
}

pub proof fn lemma_filters_size_elem(s: Seq<TagFilter>, j: int)
    requires
        0 <= j < s.len(),
    ensures
        filter_size(s[j]) <= filters_size(s),
    decreases s,
{
    if j > 0 {
        lemma_filters_size_elem(s.skip(1), j - 1);
        assert(s.skip(1)[j - 1] == s[j]);
    }
}

/// The models of a list of filters.
pub open spec fn filter_models(s: Seq<TagFilter>) -> Seq<FilterModel>
    decreases s,
{
    if s.len() == 0 {
        Seq::empty()
    } else {
        seq![filter_model(s[0])] + filter_models(s.skip(1))
    }
}

/// Whether a filter name addresses a plaintext tag.
pub open spec fn name_is_plain(n: Seq<char>) -> bool {
    n.len() > 0 && n[0] == '~'
}

/// The tag name a filter name addresses, with any `~` marker removed.
pub open spec fn name_key(n: Seq<char>) -> Seq<char> {
    if name_is_plain(n) {
        n.skip(1)
    } else {
        n
    }
}

/// Whether a tag is the one a filter name addresses.
pub open spec fn tag_has_name(t: TagModel, n: Seq<char>) -> bool {
    t.plaintext == name_is_plain(n) && t.name == name_key(n)
}

/// SQL-style pattern matching: `%` matches any run of characters,
/// `_` any one character, anything else itself.
pub open spec fn like_match(p: Seq<char>, s: Seq<char>) -> bool
    decreases p.len() + s.len(),
{
    if p.len() == 0 {
        s.len() == 0
    } else if p[0] == '%' {
        like_match(p.skip(1), s) || (s.len() > 0 && like_match(p, s.skip(1)))
    } else if p[0] == '_' {
        s.len() > 0 && like_match(p.skip(1), s.skip(1))
    } else {
        s.len() > 0 && s[0] == p[0] && like_match(p.skip(1), s.skip(1))
    }
}

/// Whether some tag with the given name satisfies the predicate on
/// its value.
pub open spec fn some_tag(tags: Seq<TagModel>, n: Seq<char>, pred: spec_fn(Seq<char>) -> bool) -> bool {
    exists|i: int| 0 <= i < tags.len() && tag_has_name(#[trigger] tags[i], n) && pred(tags[i].value)
}

/// The value is exactly `v`.
pub open spec fn eq_pred(v: Seq<char>) -> spec_fn(Seq<char>) -> bool {
    |x: Seq<char>| x == v
}

/// The value differs from `v`.
pub open spec fn neq_pred(v: Seq<char>) -> spec_fn(Seq<char>) -> bool {
    |x: Seq<char>| x != v
}

/// The value is strictly greater than `v`.
pub open spec fn gt_pred(v: Seq<char>) -> spec_fn(Seq<char>) -> bool {
    |x: Seq<char>| seq_char_lt(v, x)
}

/// The value is at least `v`.
pub open spec fn gte_pred(v: Seq<char>) -> spec_fn(Seq<char>) -> bool {
    |x: Seq<char>| seq_char_le(v, x)
}

/// The value is strictly smaller than `v`.
pub open spec fn lt_pred(v: Seq<char>) -> spec_fn(Seq<char>) -> bool {
    |x: Seq<char>| seq_char_lt(x, v)
}

/// The value is at most `v`.
pub open spec fn lte_pred(v: Seq<char>) -> spec_fn(Seq<char>) -> bool {
    |x: Seq<char>| seq_char_le(x, v)
}

/// The value matches the pattern `v`.
pub open spec fn like_pred(v: Seq<char>) -> spec_fn(Seq<char>) -> bool {
    |x: Seq<char>| like_match(v, x)
}

/// The value is one of `vs`.
pub open spec fn in_pred(vs: Seq<Seq<char>>) -> spec_fn(Seq<char>) -> bool {
    |x: Seq<char>| vs.contains(x)
}

/// Any value passes.
pub open spec fn any_pred() -> spec_fn(Seq<char>) -> bool {
    |x: Seq<char>| true
}

/// Whether every listed name is carried by some tag.
pub open spec fn all_names_exist(ns: Seq<Seq<char>>, tags: Seq<TagModel>) -> bool {
    forall|j: int| 0 <= j < ns.len() ==> some_tag(tags, #[trigger] ns[j], any_pred())
}

/// Plaintext evaluation of a filter over the tag set of an entry.
pub open spec fn filter_matches(f: FilterModel, tags: Seq<TagModel>) -> bool
    decreases f,
{
    match f {
        FilterModel::Eq(n, v) => some_tag(tags, n, eq_pred(v)),
        FilterModel::Neq(n, v) => some_tag(tags, n, neq_pred(v)),
        FilterModel::Gt(n, v) => some_tag(tags, n, gt_pred(v)),
        FilterModel::Gte(n, v) => some_tag(tags, n, gte_pred(v)),
        FilterModel::Lt(n, v) => some_tag(tags, n, lt_pred(v)),
        FilterModel::Lte(n, v) => some_tag(tags, n, lte_pred(v)),
        FilterModel::Like(n, p) => some_tag(tags, n, like_pred(p)),
        FilterModel::In(n, vs) => some_tag(tags, n, in_pred(vs)),
        FilterModel::Exist(ns) => all_names_exist(ns, tags),
        FilterModel::And(fs) => all_match(fs, tags),
        FilterModel::Or(fs) => any_match(fs, tags),
        FilterModel::Not(b) => !filter_matches(*b, tags),
    }
}

/// Whether every filter in the list matches.
pub open spec fn all_match(fs: Seq<FilterModel>, tags: Seq<TagModel>) -> bool
    decreases fs,
{
    if fs.len() == 0 {
        true
    } else {
        filter_matches(fs[0], tags) && all_match(fs.skip(1), tags)
    }
}

/// Whether some filter in the list matches.
pub open spec fn any_match(fs: Seq<FilterModel>, tags: Seq<TagModel>) -> bool
    decreases fs,
{
    if fs.len() == 0 {
        false
    } else {
        filter_matches(fs[0], tags) || any_match(fs.skip(1), tags)
    }
}

pub proof fn lemma_all_match_iff(fs: Seq<FilterModel>, tags: Seq<TagModel>)
    ensures
        all_match(fs, tags) <==> (forall|j: int|
            0 <= j < fs.len() ==> filter_matches(#[trigger] fs[j], tags)),
    decreases fs,
{
    if fs.len() > 0 {
        lemma_all_match_iff(fs.skip(1), tags);
        assert forall|j: int| 0 <= j < fs.len() && all_match(fs, tags) implies filter_matches(
            #[trigger] fs[j],
            tags,
        ) by {
            if j > 0 {
                assert(fs.skip(1)[j - 1] == fs[j]);
            }
        }
        if forall|j: int| 0 <= j < fs.len() ==> filter_matches(#[trigger] fs[j], tags) {
            assert forall|j: int| 0 <= j < fs.skip(1).len() implies filter_matches(
                #[trigger] fs.skip(1)[j],
                tags,
            ) by {
                assert(fs.skip(1)[j] == fs[j + 1]);
            }
        }
    }
}

pub proof fn lemma_any_match_iff(fs: Seq<FilterModel>, tags: Seq<TagModel>)
    ensures
        any_match(fs, tags) <==> (exists|j: int|
            0 <= j < fs.len() && filter_matches(#[trigger] fs[j], tags)),
    decreases fs,
{
    if fs.len() > 0 {
        lemma_any_match_iff(fs.skip(1), tags);
        if filter_matches(fs[0], tags) {
        } else if any_match(fs.skip(1), tags) {
            let j = choose|j: int|
                0 <= j < fs.skip(1).len() && filter_matches(#[trigger] fs.skip(1)[j], tags);
            assert(fs[j + 1] == fs.skip(1)[j]);
        } else {
            if exists|j: int| 0 <= j < fs.len() && filter_matches(#[trigger] fs[j], tags) {
                let j = choose|j: int|
                    0 <= j < fs.len() && filter_matches(#[trigger] fs[j], tags);
                if j > 0 {
                    assert(fs.skip(1)[j - 1] == fs[j]);
                }
            }
        }
    }
}

/// The length of a list of filter models equals the source length.
pub proof fn lemma_filter_models_len(s: Seq<TagFilter>)
    ensures
        filter_models(s).len() == s.len(),
        forall|j: int| 0 <= j < s.len() ==> #[trigger] filter_models(s)[j] == filter_model(s[j]),
    decreases s,
{
    if s.len() > 0 {
        lemma_filter_models_len(s.skip(1));
        assert forall|j: int| 0 <= j < s.len() implies #[trigger] filter_models(s)[j]
            == filter_model(s[j]) by {
            if j > 0 {
                assert(filter_models(s)[j] == filter_models(s.skip(1))[j - 1]);
                assert(s.skip(1)[j - 1] == s[j]);
            }
        }
    }
}

/// Whether this pattern character matches literally.
fn like_step(pc: char, sc: char) -> (r: bool)
    ensures
        r == (pc == sc),
{
    pc == sc
}

/// Evaluate an SQL-style pattern against a string, both given as
/// character vectors.
fn like_match_exec(p: &Vec<char>, pi: usize, s: &Vec<char>, si: usize) -> (r: bool)
    requires
        pi <= p.len(),
        si <= s.len(),
    ensures
        r == like_match(p@.skip(pi as int), s@.skip(si as int)),
    decreases (p.len() - pi) + (s.len() - si),
{
    proof {
        if pi < p.len() {
            assert(p@.skip(pi as int)[0] == p@[pi as int]);
            assert(p@.skip(pi as int).skip(1) =~= p@.skip(pi + 1));
        }
        if si < s.len() {
            assert(s@.skip(si as int)[0] == s@[si as int]);
            assert(s@.skip(si as int).skip(1) =~= s@.skip(si + 1));
        }
    }
    if pi == p.len() {
        si == s.len()
    } else if p[pi] == '%' {
        if like_match_exec(p, pi + 1, s, si) {
            true
        } else if si < s.len() {
            like_match_exec(p, pi, s, si + 1)
        } else {
            false
        }
    } else if p[pi] == '_' {
        si < s.len() && like_match_exec(p, pi + 1, s, si + 1)
    } else {
        si < s.len() && like_step(p[pi], s[si]) && like_match_exec(p, pi + 1, s, si + 1)
    }
}

/// Evaluate an SQL-style pattern against a string.
pub fn like_matches(pattern: &str, text: &str) -> (r: bool)
    ensures
        r == like_match(pattern@, text@),
{
    let p = str_chars(pattern);
    let s = str_chars(text);
    proof {
        assert(p@.skip(0) =~= p@);
        assert(s@.skip(0) =~= s@);
    }
    like_match_exec(&p, 0, &s, 0)
}

/// Whether the tag named by `n` is this one.
fn tag_has_name_exec(t: &EntryTag, n: &String) -> (r: bool)
    ensures
        r == tag_has_name(t@, n@),
{
    let plain = {
        let nn = n.as_str();
        nn.unicode_len() > 0 && nn.get_char(0) == '~'
    };
    if t.is_plaintext() != plain {
        return false;
    }
    if plain {
        let key = n.as_str().substring_char(1, n.as_str().unicode_len());
        proof {
            assert(n@.subrange(1, n@.len() as int) =~= n@.skip(1));
        }
        crate::types::str_compare(t.name().as_str(), key) == 0
    } else {
        crate::types::str_compare(t.name().as_str(), n.as_str()) == 0
    }
}

/// The comparison a value test applies between a tag value and the
/// filter value.
#[derive(Clone, Copy)]
pub(crate) enum ValueTest {
    EqV,
    NeqV,
    GtV,
    GteV,
    LtV,
    LteV,
    LikeV,
    AnyV,
}

impl ValueTest {
    pub(crate) open spec fn pred(self, v: Seq<char>) -> spec_fn(Seq<char>) -> bool {
        match self {
            ValueTest::EqV => eq_pred(v),
            ValueTest::NeqV => neq_pred(v),
            ValueTest::GtV => gt_pred(v),
            ValueTest::GteV => gte_pred(v),
            ValueTest::LtV => lt_pred(v),
            ValueTest::LteV => lte_pred(v),
            ValueTest::LikeV => like_pred(v),
            ValueTest::AnyV => any_pred(),
        }
    }

    pub(crate) fn eval(self, v: &String, x: &String) -> (r: bool)
        ensures
            r == self.pred(v@)(x@),
    {
        match self {
            ValueTest::EqV => crate::types::str_compare(x.as_str(), v.as_str()) == 0,
            ValueTest::NeqV => crate::types::str_compare(x.as_str(), v.as_str()) != 0,
            ValueTest::GtV => {
                let c = crate::types::str_compare(v.as_str(), x.as_str());
                c < 0
            },
            ValueTest::GteV => crate::types::str_compare(v.as_str(), x.as_str()) <= 0,
            ValueTest::LtV => {
                let c = crate::types::str_compare(x.as_str(), v.as_str());
                c < 0
            },
            ValueTest::LteV => crate::types::str_compare(x.as_str(), v.as_str()) <= 0,
            ValueTest::LikeV => like_matches(v.as_str(), x.as_str()),
            ValueTest::AnyV => true,
        }
    }
}

/// Search the tags for one with the given name whose value passes the
/// test.
fn find_tag(tags: &Vec<EntryTag>, n: &String, v: &String, test: ValueTest) -> (r: bool)
    ensures
        r == some_tag(tag_views(tags@), n@, test.pred(v@)),
{
    let mut i: usize = 0;
    while i < tags.len()
        invariant
            0 <= i <= tags.len(),
            forall|k: int|
                0 <= k < i ==> !(tag_has_name(#[trigger] tag_views(tags@)[k], n@) && test.pred(v@)(
                    tag_views(tags@)[k].value,
                )),
        decreases tags.len() - i,
    {
        if tag_has_name_exec(&tags[i], n) && test.eval(v, tags[i].value()) {
            proof {
                assert(tag_has_name(tag_views(tags@)[i as int], n@) && test.pred(v@)(
                    tag_views(tags@)[i as int].value,
                ));
            }
            return true;
        }
        i = i + 1;
    }
    false
}

/// Evaluate a filter over an entry's tags by plaintext comparison.
pub fn matches_tags(f: &TagFilter, tags: &Vec<EntryTag>) -> (r: bool)
    ensures
        r == filter_matches(filter_model(*f), tag_views(tags@)),
    decreases filter_size(*f),
{
    match f {
        TagFilter::Eq(n, v) => find_tag(tags, n, v, ValueTest::EqV),
        TagFilter::Neq(n, v) => find_tag(tags, n, v, ValueTest::NeqV),
        TagFilter::Gt(n, v) => find_tag(tags, n, v, ValueTest::GtV),
        TagFilter::Gte(n, v) => find_tag(tags, n, v, ValueTest::GteV),
        TagFilter::Lt(n, v) => find_tag(tags, n, v, ValueTest::LtV),
        TagFilter::Lte(n, v) => find_tag(tags, n, v, ValueTest::LteV),
        TagFilter::Like(n, p) => find_tag(tags, n, p, ValueTest::LikeV),
        TagFilter::In(n, vs) => {
            let mut j: usize = 0;
            let mut found = false;
            while j < vs.len()
                invariant
                    0 <= j <= vs.len(),
                    found == (exists|q: int|
                        0 <= q < j && some_tag(
                            tag_views(tags@),
                            n@,
                            eq_pred(#[trigger] str_views(vs@)[q]),
                        )),
                decreases vs.len() - j,
            {
                proof {
                    assert(str_views(vs@)[j as int] == vs@[j as int]@);
                }
                if !found {
                    if find_tag(tags, n, &vs[j], ValueTest::EqV) {
                        found = true;
                        proof {
                            assert(some_tag(tag_views(tags@), n@, eq_pred(str_views(vs@)[j as int])));
                        }
                    } else {
                        proof {
                            assert(!some_tag(tag_views(tags@), n@, eq_pred(str_views(vs@)[j as int])));
                        }
                    }
                }
                j = j + 1;
            }
            proof {
                lemma_in_iff(tag_views(tags@), n@, str_views(vs@));
            }
            found
        },
        TagFilter::Exist(ns) => {
            let mut j: usize = 0;
            let mut all = true;
            let dummy = String::new();
            while j < ns.len()
                invariant
                    0 <= j <= ns.len(),
                    all ==> (forall|q: int|
                        0 <= q < j ==> some_tag(
                            tag_views(tags@),
                            #[trigger] str_views(ns@)[q],
                            any_pred(),
                        )),
                    !all ==> (exists|q: int|
                        0 <= q < j && !some_tag(
                            tag_views(tags@),
                            #[trigger] str_views(ns@)[q],
                            any_pred(),
                        )),
                decreases ns.len() - j,
            {
                if all {
                    if !find_tag(tags, &ns[j], &dummy, ValueTest::AnyV) {
                        all = false;
                        proof {
                            assert(!some_tag(tag_views(tags@), str_views(ns@)[j as int], any_pred()));
                        }
                    }
                }
                j = j + 1;
            }
            proof {
                let nsm = str_views(ns@);
                let tv = tag_views(tags@);
                if all {
                    assert(all_names_exist(nsm, tv));
                } else {
                    let q0 = choose|q: int|
                        0 <= q < j && !some_tag(tv, #[trigger] str_views(ns@)[q], any_pred());
                    if all_names_exist(nsm, tv) {
                        assert(some_tag(tv, nsm[q0], any_pred()));
                    }
                    assert(!all_names_exist(nsm, tv));
                }
            }
            all
        },
        TagFilter::And(fs) => {
            let mut j: usize = 0;
            let mut all = true;
            proof {
                assert(filter_size(*f) == 1 + filters_size(fs@));
            }
            while j < fs.len()
                invariant
                    0 <= j <= fs.len(),
                    filter_size(*f) == 1 + filters_size(fs@),
                    all == (forall|q: int|
                        0 <= q < j ==> filter_matches(
                            #[trigger] filter_models(fs@)[q],
                            tag_views(tags@),
                        )),
                decreases fs.len() - j,
            {
                proof {
                    lemma_filter_models_len(fs@);
                    lemma_filters_size_elem(fs@, j as int);
                }
                let sub = matches_tags(&fs[j], tags);
                if !sub {
                    proof {
                        assert(!filter_matches(filter_models(fs@)[j as int], tag_views(tags@)));
                    }
                    all = false;
                }
                j = j + 1;
            }
            proof {
                lemma_filter_models_len(fs@);
                lemma_all_match_iff(filter_models(fs@), tag_views(tags@));
            }
            all
        },
        TagFilter::Or(fs) => {
            let mut j: usize = 0;
            let mut found = false;
            proof {
                assert(filter_size(*f) == 1 + filters_size(fs@));
            }
            while j < fs.len()
                invariant
                    0 <= j <= fs.len(),
                    filter_size(*f) == 1 + filters_size(fs@),
                    found == (exists|q: int|
                        0 <= q < j && filter_matches(
                            #[trigger] filter_models(fs@)[q],
                            tag_views(tags@),
                        )),
                decreases fs.len() - j,
            {
                proof {
                    lemma_filter_models_len(fs@);
                    lemma_filters_size_elem(fs@, j as int);
                }
                let sub = matches_tags(&fs[j], tags);
                if sub {
                    proof {
                        assert(filter_matches(filter_models(fs@)[j as int], tag_views(tags@)));
                    }
                    found = true;
                }
                j = j + 1;
            }
            proof {
                lemma_filter_models_len(fs@);
                lemma_any_match_iff(filter_models(fs@), tag_views(tags@));
            }
            found
        },
        TagFilter::Not(b) => {
            proof {
                assert(filter_size(*f) == 1 + filter_size(**b));
            }
            !matches_tags(b, tags)
        },
    }
}

proof fn lemma_in_iff(tags: Seq<TagModel>, n: Seq<char>, vs: Seq<Seq<char>>)
    ensures
        (exists|q: int| 0 <= q < vs.len() && some_tag(tags, n, eq_pred(#[trigger] vs[q]))) <==> some_tag(
            tags,
            n,
            in_pred(vs),
        ),
{
    if exists|q: int| 0 <= q < vs.len() && some_tag(tags, n, eq_pred(#[trigger] vs[q])) {
        let q = choose|q: int| 0 <= q < vs.len() && some_tag(tags, n, eq_pred(#[trigger] vs[q]));
        let i = choose|i: int|
            0 <= i < tags.len() && tag_has_name(#[trigger] tags[i], n) && eq_pred(vs[q])(
                tags[i].value,
            );
        assert(vs.contains(tags[i].value));
        assert(tag_has_name(tags[i], n) && in_pred(vs)(tags[i].value));
    }
    if some_tag(tags, n, in_pred(vs)) {
        let i = choose|i: int|
            0 <= i < tags.len() && tag_has_name(#[trigger] tags[i], n) && in_pred(vs)(
                tags[i].value,
            );
        let q = choose|q: int| 0 <= q < vs.len() && vs[q] == tags[i].value;
        assert(tag_has_name(tags[i], n) && eq_pred(vs[q])(tags[i].value));
        assert(some_tag(tags, n, eq_pred(vs[q])));
    }
}

/// The filter a parsed JSON document denotes: an object read as the
/// conjunction of its clauses (a single clause stands alone).
pub open spec fn filter_of_json(m: JsonModel) -> Option<FilterModel>
    decreases m, 0int,
{
    if !(m matches JsonModel::JObj(_)) {
        Option::None
    } else {
        match clauses_of_pairs(m->JObj_0) {
            Option::None => Option::None,
            Option::Some(cs) => {
                if cs.len() == 1 {
                    Option::Some(cs[0])
                } else {
                    Option::Some(FilterModel::And(cs))
                }
            },
        }
    }
}

/// The clauses of an object's pairs, each of which must convert.
pub open spec fn clauses_of_pairs(pairs: Seq<(Seq<char>, JsonModel)>) -> Option<Seq<FilterModel>>
    decreases pairs, 0int,
{
    if pairs.len() == 0 {
        Option::Some(Seq::empty())
    } else {
        match (clause_of_pair(pairs[0].0, pairs[0].1), clauses_of_pairs(pairs.skip(1))) {
            (Option::Some(c), Option::Some(rest)) => Option::Some(seq![c] + rest),
            _ => Option::None,
        }
    }
}

/// The clause one key-value pair denotes. `$and`, `$or`, `$not` and
/// `$exist` are operators; any other key not starting with `$` names
/// a tag, with a string value meaning equality and an object value
/// carrying comparison operators.
pub open spec fn clause_of_pair(key: Seq<char>, v: JsonModel) -> Option<FilterModel>
    decreases v, 1int,
{
    if key == "$and"@ {
        if v matches JsonModel::JArr(_) {
            match filters_of_items(v->JArr_0) {
                Option::None => Option::None,
                Option::Some(fs) => Option::Some(FilterModel::And(fs)),
            }
        } else {
            Option::None
        }
    } else if key == "$or"@ {
        if v matches JsonModel::JArr(_) {
            match filters_of_items(v->JArr_0) {
                Option::None => Option::None,
                Option::Some(fs) => Option::Some(FilterModel::Or(fs)),
            }
        } else {
            Option::None
        }
    } else if key == "$not"@ {
        match filter_of_json(v) {
            Option::None => Option::None,
            Option::Some(f) => Option::Some(FilterModel::Not(Box::new(f))),
        }
    } else if key == "$exist"@ {
        match v {
            JsonModel::JStr(n) => Option::Some(FilterModel::Exist(seq![n])),
            JsonModel::JArr(items) => match strings_of_items(items) {
                Option::None => Option::None,
                Option::Some(ns) => {
                    if ns.len() == 0 {
                        Option::None
                    } else {
                        Option::Some(FilterModel::Exist(ns))
                    }
                },
            },
            _ => Option::None,
        }
    } else if key.len() > 0 && key[0] == '$' {
        Option::None
    } else {
        match v {
            JsonModel::JStr(value) => Option::Some(FilterModel::Eq(key, value)),
            JsonModel::JObj(op_pairs) => match ops_of_pairs(key, op_pairs) {
                Option::None => Option::None,
                Option::Some(cs) => {
                    if cs.len() == 0 {
                        Option::None
                    } else if cs.len() == 1 {
                        Option::Some(cs[0])
                    } else {
                        Option::Some(FilterModel::And(cs))
                    }
                },
            },
            _ => Option::None,
        }
    }
}

/// The filters of an array's items, each of which must be an object.
pub open spec fn filters_of_items(items: Seq<JsonModel>) -> Option<Seq<FilterModel>>
    decreases items, 0int,
{
    if items.len() == 0 {
        Option::Some(Seq::empty())
    } else {
        match (filter_of_json(items[0]), filters_of_items(items.skip(1))) {
            (Option::Some(f), Option::Some(rest)) => Option::Some(seq![f] + rest),
            _ => Option::None,
        }
    }
}

/// The strings of an array's items, each of which must be a string.
pub open spec fn strings_of_items(items: Seq<JsonModel>) -> Option<Seq<Seq<char>>>
    decreases items,
{
    if items.len() == 0 {
        Option::Some(Seq::empty())
    } else {
        match items[0] {
            JsonModel::JStr(x) => match strings_of_items(items.skip(1)) {
                Option::None => Option::None,
                Option::Some(rest) => Option::Some(seq![x] + rest),
            },
            _ => Option::None,
        }
    }
}

/// The comparison clauses of an operator object on one tag name.
pub open spec fn ops_of_pairs(key: Seq<char>, pairs: Seq<(Seq<char>, JsonModel)>) -> Option<
    Seq<FilterModel>,
>
    decreases pairs,
{
    if pairs.len() == 0 {
        Option::Some(Seq::empty())
    } else {
        match (op_clause(key, pairs[0].0, pairs[0].1), ops_of_pairs(key, pairs.skip(1))) {
            (Option::Some(c), Option::Some(rest)) => Option::Some(seq![c] + rest),
            _ => Option::None,
        }
    }
}

/// The clause one comparison operator denotes. Ordering and pattern
/// operators are only accepted on plaintext (`~`-marked) names; `$in`
/// rejects an empty list.
pub open spec fn op_clause(key: Seq<char>, op: Seq<char>, v: JsonModel) -> Option<FilterModel> {
    if op == "$eq"@ {
        match v {
            JsonModel::JStr(x) => Option::Some(FilterModel::Eq(key, x)),
            _ => Option::None,
        }
    } else if op == "$neq"@ {
        match v {
            JsonModel::JStr(x) => Option::Some(FilterModel::Neq(key, x)),
            _ => Option::None,
        }
    } else if op == "$gt"@ {
        match v {
            JsonModel::JStr(x) => if name_is_plain(key) {
                Option::Some(FilterModel::Gt(key, x))
            } else {
                Option::None
            },
            _ => Option::None,
        }
    } else if op == "$gte"@ {
        match v {
            JsonModel::JStr(x) => if name_is_plain(key) {
                Option::Some(FilterModel::Gte(key, x))
            } else {
                Option::None
            },
            _ => Option::None,
        }
    } else if op == "$lt"@ {
        match v {
            JsonModel::JStr(x) => if name_is_plain(key) {
                Option::Some(FilterModel::Lt(key, x))
            } else {
                Option::None
            },
            _ => Option::None,
        }
    } else if op == "$lte"@ {
        match v {
            JsonModel::JStr(x) => if name_is_plain(key) {
                Option::Some(FilterModel::Lte(key, x))
            } else {
                Option::None
            },
            _ => Option::None,
        }
    } else if op == "$like"@ {
        match v {
            JsonModel::JStr(x) => if name_is_plain(key) {
                Option::Some(FilterModel::Like(key, x))
            } else {
                Option::None
            },
            _ => Option::None,
        }
    } else if op == "$in"@ {
        match v {
            JsonModel::JArr(items) => match strings_of_items(items) {
                Option::None => Option::None,
                Option::Some(xs) => {
                    if xs.len() == 0 {
                        Option::None
                    } else {
                        Option::Some(FilterModel::In(key, xs))
                    }
                },
            },
            _ => Option::None,
        }
    } else if op == "$nin"@ {
        match v {
            JsonModel::JArr(items) => match strings_of_items(items) {
                Option::None => Option::None,
                Option::Some(xs) => {
                    if xs.len() == 0 {
                        Option::None
                    } else {
                        Option::Some(FilterModel::Not(Box::new(FilterModel::In(key, xs))))
                    }
                },
            },
            _ => Option::None,
        }
    } else {
        Option::None
    }
}

pub proof fn lemma_clauses_iff(pairs: Seq<(Seq<char>, JsonModel)>)
    ensures
        (clauses_of_pairs(pairs) is Some) <==> (forall|j: int|
            0 <= j < pairs.len() ==> clause_of_pair((#[trigger] pairs[j]).0, pairs[j].1) is Some),
        clauses_of_pairs(pairs) matches Some(cs) ==> cs.len() == pairs.len() && (forall|j: int|
            0 <= j < pairs.len() ==> cs[j] == clause_of_pair((#[trigger] pairs[j]).0, pairs[j].1)->0),
    decreases pairs,
{
    if pairs.len() > 0 {
        lemma_clauses_iff(pairs.skip(1));
        assert(forall|j: int| 0 < j < pairs.len() ==> #[trigger] pairs[j] == pairs.skip(1)[j - 1]);
        if clause_of_pair(pairs[0].0, pairs[0].1) is Some && clauses_of_pairs(pairs.skip(1)) is Some {
            let cs = clauses_of_pairs(pairs)->0;
            assert forall|j: int| 0 <= j < pairs.len() implies cs[j] == clause_of_pair(
                (#[trigger] pairs[j]).0,
                pairs[j].1,
            )->0 by {
                if j > 0 {
                    assert(cs[j] == clauses_of_pairs(pairs.skip(1))->0[j - 1]);
                }
            }
        } else if clause_of_pair(pairs[0].0, pairs[0].1) is None {
            assert(!(clause_of_pair((pairs[0]).0, pairs[0].1) is Some));
        }
    }
}

pub proof fn lemma_filters_iff(items: Seq<JsonModel>)
    ensures
        (filters_of_items(items) is Some) <==> (forall|j: int|
            0 <= j < items.len() ==> filter_of_json(#[trigger] items[j]) is Some),
        filters_of_items(items) matches Some(fs) ==> fs.len() == items.len() && (forall|j: int|
            0 <= j < items.len() ==> fs[j] == filter_of_json(#[trigger] items[j])->0),
    decreases items,
{
    if items.len() > 0 {
        lemma_filters_iff(items.skip(1));
        assert(forall|j: int| 0 < j < items.len() ==> #[trigger] items[j] == items.skip(1)[j - 1]);
        if filter_of_json(items[0]) is Some && filters_of_items(items.skip(1)) is Some {
            let fs = filters_of_items(items)->0;
            assert forall|j: int| 0 <= j < items.len() implies fs[j] == filter_of_json(
                #[trigger] items[j],
            )->0 by {
                if j > 0 {
                    assert(fs[j] == filters_of_items(items.skip(1))->0[j - 1]);
                }
            }
        }
    }
}

pub proof fn lemma_strings_iff(items: Seq<JsonModel>)
    ensures
        (strings_of_items(items) is Some) <==> (forall|j: int|
            0 <= j < items.len() ==> (#[trigger] items[j]) matches JsonModel::JStr(_)),
        strings_of_items(items) matches Some(xs) ==> xs.len() == items.len() && (forall|j: int|
            0 <= j < items.len() ==> xs[j] == (#[trigger] items[j])->JStr_0),
    decreases items,
{
    if items.len() > 0 {
        lemma_strings_iff(items.skip(1));
        assert(forall|j: int| 0 < j < items.len() ==> #[trigger] items[j] == items.skip(1)[j - 1]);
        if items[0] matches JsonModel::JStr(_) && strings_of_items(items.skip(1)) is Some {
            let xs = strings_of_items(items)->0;
            assert forall|j: int| 0 <= j < items.len() implies xs[j] == (
            #[trigger] items[j])->JStr_0 by {
                if j > 0 {
                    assert(xs[j] == strings_of_items(items.skip(1))->0[j - 1]);
                }
            }
        }
    }
}

pub proof fn lemma_ops_iff(key: Seq<char>, pairs: Seq<(Seq<char>, JsonModel)>)
    ensures
        (ops_of_pairs(key, pairs) is Some) <==> (forall|j: int|
            0 <= j < pairs.len() ==> op_clause(key, (#[trigger] pairs[j]).0, pairs[j].1) is Some),
        ops_of_pairs(key, pairs) matches Some(cs) ==> cs.len() == pairs.len() && (forall|j: int|
            0 <= j < pairs.len() ==> cs[j] == op_clause(key, (#[trigger] pairs[j]).0, pairs[j].1)->0),
    decreases pairs,
{
    if pairs.len() > 0 {
        lemma_ops_iff(key, pairs.skip(1));
        assert(forall|j: int| 0 < j < pairs.len() ==> #[trigger] pairs[j] == pairs.skip(1)[j - 1]);
        if op_clause(key, pairs[0].0, pairs[0].1) is Some && ops_of_pairs(key, pairs.skip(1)) is Some {
            let cs = ops_of_pairs(key, pairs)->0;
            assert forall|j: int| 0 <= j < pairs.len() implies cs[j] == op_clause(
                key,
                (#[trigger] pairs[j]).0,
                pairs[j].1,
            )->0 by {
                if j > 0 {
                    assert(cs[j] == ops_of_pairs(key, pairs.skip(1))->0[j - 1]);
                }
            }
        }
    }
}

/// Convert a parsed document into a filter.
fn conv_filter(v: &JsonValue) -> (r: Option<TagFilter>)
    ensures
        r is None <==> filter_of_json(json_model(*v)) is None,
        r matches Some(f) ==> filter_of_json(json_model(*v)) == Option::Some(filter_model(f)),
    decreases json_size(*v), 1int,
{
    let pairs = match v {
        JsonValue::JObj(pairs) => pairs,
        _ => {
            return Option::None;
        },
    };
    let ghost gm = json_pair_models(pairs@);
    let mut cs = match conv_clause_list(pairs, Ghost(json_size(*v))) {
        Option::None => {
            return Option::None;
        },
        Option::Some(cs) => cs,
    };
    if cs.len() == 1 {
        proof {
            lemma_filter_models_len(cs@);
        }
        let f = cs.remove(0);
        proof {
            assert(clauses_of_pairs(gm)->0[0] == filter_model(f));
        }
        Option::Some(f)
    } else {
        let ghost gcs = cs@;
        let r = TagFilter::And(cs);
        proof {
            lemma_filter_models_len(gcs);
            assert(filter_models(gcs) =~= clauses_of_pairs(gm)->0);
        }
        Option::Some(r)
    }
}

/// Convert an object's pairs into clauses.
fn conv_clause_list(pairs: &Vec<(Vec<char>, JsonValue)>, Ghost(bound): Ghost<nat>) -> (r: Option<
    Vec<TagFilter>,
>)
    requires
        json_pair_sizes(pairs@) < bound,
    ensures
        r is None <==> clauses_of_pairs(json_pair_models(pairs@)) is None,
        r matches Some(cs) ==> clauses_of_pairs(json_pair_models(pairs@)) == Option::Some(
            filter_models(cs@),
        ),
    decreases bound, 0int,
{
    let ghost gm = json_pair_models(pairs@);
    let mut cs: Vec<TagFilter> = Vec::new();
    let mut i: usize = 0;
    proof {
        lemma_json_pair_models_index(pairs@);
    }
    while i < pairs.len()
        invariant
            0 <= i <= pairs@.len(),
            gm == json_pair_models(pairs@),
            gm.len() == pairs@.len(),
            json_pair_sizes(pairs@) < bound,
            forall|j: int|
                0 <= j < pairs@.len() ==> #[trigger] gm[j] == (
                pairs@[j].0@,
                json_model(pairs@[j].1),
                ),
            cs@.len() == i,
            forall|j: int| 0 <= j < i ==> clause_of_pair((#[trigger] gm[j]).0, gm[j].1) is Some,
            forall|j: int|
                0 <= j < i ==> filter_model(#[trigger] cs@[j]) == clause_of_pair(
                    gm[j].0,
                    gm[j].1,
                )->0,
        decreases pairs@.len() - i,
    {
        proof {
            lemma_json_pair_sizes_elem(pairs@, i as int);
        }
        match conv_clause(&pairs[i].0, &pairs[i].1) {
            Option::None => {
                proof {
                    assert(clause_of_pair(gm[i as int].0, gm[i as int].1) is None);
                    lemma_clauses_iff(gm);
                }
                return Option::None;
            },
            Option::Some(c) => {
                cs.push(c);
            },
        }
        i = i + 1;
    }
    proof {
        lemma_clauses_iff(gm);
        lemma_filter_models_len(cs@);
        assert(filter_models(cs@) =~= clauses_of_pairs(gm)->0);
    }
    Option::Some(cs)
}

/// Convert one key-value pair into a clause.
fn conv_clause(key: &Vec<char>, v: &JsonValue) -> (r: Option<TagFilter>)
    ensures
        r is None <==> clause_of_pair(key@, json_model(*v)) is None,
        r matches Some(f) ==> clause_of_pair(key@, json_model(*v)) == Option::Some(filter_model(f)),
    decreases json_size(*v), 2int,
{
    proof {
        reveal_strlit("$and");
        reveal_strlit("$or");
        reveal_strlit("$not");
        reveal_strlit("$exist");
    }
    if chars_eq(key, "$and") || chars_eq(key, "$or") {
        let is_and = chars_eq(key, "$and");
        proof {
            assert("$and"@.len() == 4);
            assert("$or"@.len() == 3);
        }
        let items = match v {
            JsonValue::JArr(items) => items,
            _ => {
                return Option::None;
            },
        };
        match conv_filter_list(items, Ghost(json_size(*v))) {
            Option::None => Option::None,
            Option::Some(fs) => {
                let ghost gfs = fs@;
                let r = if is_and {
                    TagFilter::And(fs)
                } else {
                    TagFilter::Or(fs)
                };
                proof {
                    lemma_filter_models_len(gfs);
                    lemma_filters_iff(json_models(items@));
                    lemma_json_models_index(items@);
                    assert(filter_models(gfs) =~= filters_of_items(json_models(items@))->0);
                }
                Option::Some(r)
            },
        }
    } else if chars_eq(key, "$not") {
        match conv_filter(v) {
            Option::None => Option::None,
            Option::Some(f) => Option::Some(TagFilter::Not(Box::new(f))),
        }
    } else if chars_eq(key, "$exist") {
        match v {
            JsonValue::JStr(n) => {
                let mut ns: Vec<String> = Vec::new();
                ns.push(chars_to_string(n));
                proof {
                    assert(str_views(ns@) =~= seq![n@]);
                }
                Option::Some(TagFilter::Exist(ns))
            },
            JsonValue::JArr(items) => {
                match conv_string_list(items) {
                    Option::None => Option::None,
                    Option::Some(ns) => {
                        if ns.len() == 0 {
                            Option::None
                        } else {
                            Option::Some(TagFilter::Exist(ns))
                        }
                    },
                }
            },
            _ => Option::None,
        }
    } else if key.len() > 0 && key[0] == '$' {
        Option::None
    } else {
        match v {
            JsonValue::JStr(value) => Option::Some(
                TagFilter::Eq(chars_to_string(key), chars_to_string(value)),
            ),
            JsonValue::JObj(op_pairs) => {
                let ghost gm = json_pair_models(op_pairs@);
                let mut cs = match conv_op_list(key, op_pairs) {
                    Option::None => {
                        return Option::None;
                    },
                    Option::Some(cs) => cs,
                };
                if cs.len() == 0 {
                    Option::None
                } else if cs.len() == 1 {
                    proof {
                        lemma_filter_models_len(cs@);
                    }
                    let f = cs.remove(0);
                    proof {
                        assert(ops_of_pairs(key@, gm)->0[0] == filter_model(f));
                    }
                    Option::Some(f)
                } else {
                    let ghost gcs = cs@;
                    let r = TagFilter::And(cs);
                    proof {
                        lemma_filter_models_len(gcs);
                        assert(filter_models(gcs) =~= ops_of_pairs(key@, gm)->0);
                    }
                    Option::Some(r)
                }
            },
            _ => Option::None,
        }
    }
}

/// Convert an array of objects into filters.
fn conv_filter_list(items: &Vec<JsonValue>, Ghost(bound): Ghost<nat>) -> (r: Option<
    Vec<TagFilter>,
>)
    requires
        json_sizes(items@) < bound,
    ensures
        r is None <==> filters_of_items(json_models(items@)) is None,
        r matches Some(fs) ==> filters_of_items(json_models(items@)) == Option::Some(
            filter_models(fs@),
        ),
    decreases bound, 0int,
{
    let ghost gm = json_models(items@);
    let mut fs: Vec<TagFilter> = Vec::new();
    let mut i: usize = 0;
    proof {
        lemma_json_models_index(items@);
    }
    while i < items.len()
        invariant
            0 <= i <= items@.len(),
            gm == json_models(items@),
            gm.len() == items@.len(),
            json_sizes(items@) < bound,
            forall|j: int|
                0 <= j < items@.len() ==> #[trigger] gm[j] == json_model(items@[j]),
            fs@.len() == i,
            forall|j: int| 0 <= j < i ==> filter_of_json(#[trigger] gm[j]) is Some,
            forall|j: int|
                0 <= j < i ==> filter_model(#[trigger] fs@[j]) == filter_of_json(gm[j])->0,
        decreases items@.len() - i,
    {
        proof {
            lemma_json_sizes_elem(items@, i as int);
        }
        match conv_filter(&items[i]) {
            Option::None => {
                proof {
                    assert(filter_of_json(gm[i as int]) is None);
                    lemma_filters_iff(gm);
                }
                return Option::None;
            },
            Option::Some(f) => {
                fs.push(f);
            },
        }
        i = i + 1;
    }
    proof {
        lemma_filters_iff(gm);
        lemma_filter_models_len(fs@);
        assert(filter_models(fs@) =~= filters_of_items(gm)->0);
    }
    Option::Some(fs)
}

/// Convert an array of strings.
fn conv_string_list(items: &Vec<JsonValue>) -> (r: Option<Vec<String>>)
    ensures
        r is None <==> strings_of_items(json_models(items@)) is None,
        r matches Some(ns) ==> strings_of_items(json_models(items@)) == Option::Some(
            str_views(ns@),
        ),
{
    let ghost gm = json_models(items@);
    let mut ns: Vec<String> = Vec::new();
    let mut i: usize = 0;
    proof {
        lemma_json_models_index(items@);
    }
    while i < items.len()
        invariant
            0 <= i <= items@.len(),
            gm == json_models(items@),
            gm.len() == items@.len(),
            forall|j: int|
                0 <= j < items@.len() ==> #[trigger] gm[j] == json_model(items@[j]),
            ns@.len() == i,
            forall|j: int| 0 <= j < i ==> (#[trigger] gm[j]) matches JsonModel::JStr(_),
            forall|j: int| 0 <= j < i ==> (#[trigger] ns@[j])@ == gm[j]->JStr_0,
        decreases items@.len() - i,
    {
        match &items[i] {
            JsonValue::JStr(x) => {
                ns.push(chars_to_string(x));
            },
            _ => {
                proof {
                    assert(!(gm[i as int] matches JsonModel::JStr(_)));
                    lemma_strings_iff(gm);
                }
                return Option::None;
            },
        }
        i = i + 1;
    }
    proof {
        lemma_strings_iff(gm);
        assert(str_views(ns@) =~= strings_of_items(gm)->0);
    }
    Option::Some(ns)
}

/// Convert an operator object's pairs into clauses.
fn conv_op_list(key: &Vec<char>, pairs: &Vec<(Vec<char>, JsonValue)>) -> (r: Option<
    Vec<TagFilter>,
>)
    ensures
        r is None <==> ops_of_pairs(key@, json_pair_models(pairs@)) is None,
        r matches Some(cs) ==> ops_of_pairs(key@, json_pair_models(pairs@)) == Option::Some(
            filter_models(cs@),
        ),
{
    let ghost gm = json_pair_models(pairs@);
    let mut cs: Vec<TagFilter> = Vec::new();
    let mut i: usize = 0;
    proof {
        lemma_json_pair_models_index(pairs@);
    }
    while i < pairs.len()
        invariant
            0 <= i <= pairs@.len(),
            gm == json_pair_models(pairs@),
            gm.len() == pairs@.len(),
            forall|j: int|
                0 <= j < pairs@.len() ==> #[trigger] gm[j] == (
                pairs@[j].0@,
                json_model(pairs@[j].1),
                ),
            cs@.len() == i,
            forall|j: int|
                0 <= j < i ==> op_clause(key@, (#[trigger] gm[j]).0, gm[j].1) is Some,
            forall|j: int|
                0 <= j < i ==> filter_model(#[trigger] cs@[j]) == op_clause(
                    key@,
                    gm[j].0,
                    gm[j].1,
                )->0,
        decreases pairs@.len() - i,
    {
        match conv_op(key, &pairs[i].0, &pairs[i].1) {
            Option::None => {
                proof {
                    assert(op_clause(key@, gm[i as int].0, gm[i as int].1) is None);
                    lemma_ops_iff(key@, gm);
                }
                return Option::None;
            },
            Option::Some(c) => {
                cs.push(c);
            },
        }
        i = i + 1;
    }
    proof {
        lemma_ops_iff(key@, gm);
        lemma_filter_models_len(cs@);
        assert(filter_models(cs@) =~= ops_of_pairs(key@, gm)->0);
    }
    Option::Some(cs)
}

/// Convert one comparison operator.
fn conv_op(key: &Vec<char>, op: &Vec<char>, v: &JsonValue) -> (r: Option<TagFilter>)
    ensures
        r is None <==> op_clause(key@, op@, json_model(*v)) is None,
        r matches Some(f) ==> op_clause(key@, op@, json_model(*v)) == Option::Some(filter_model(f)),
{
    proof {
        reveal_strlit("$eq");
        reveal_strlit("$neq");
        reveal_strlit("$gt");
        reveal_strlit("$gte");
        reveal_strlit("$lt");
        reveal_strlit("$lte");
        reveal_strlit("$like");
        reveal_strlit("$in");
        reveal_strlit("$nin");
    }
    let plain = key.len() > 0 && key[0] == '~';
    if chars_eq(op, "$eq") || chars_eq(op, "$neq") {
        let is_eq = chars_eq(op, "$eq");
        proof {
            assert("$eq"@.len() == 3);
            assert("$neq"@.len() == 4);
        }
        match v {
            JsonValue::JStr(x) => {
                if is_eq {
                    Option::Some(TagFilter::Eq(chars_to_string(key), chars_to_string(x)))
                } else {
                    Option::Some(TagFilter::Neq(chars_to_string(key), chars_to_string(x)))
                }
            },
            _ => Option::None,
        }
    } else if chars_eq(op, "$gt") {
        match v {
            JsonValue::JStr(x) => {
                if plain {
                    Option::Some(TagFilter::Gt(chars_to_string(key), chars_to_string(x)))
                } else {
                    Option::None
                }
            },
            _ => Option::None,
        }
    } else if chars_eq(op, "$gte") {
        match v {
            JsonValue::JStr(x) => {
                if plain {
                    Option::Some(TagFilter::Gte(chars_to_string(key), chars_to_string(x)))
                } else {
                    Option::None
                }
            },
            _ => Option::None,
        }
    } else if chars_eq(op, "$lt") {
        match v {
            JsonValue::JStr(x) => {
                if plain {
                    Option::Some(TagFilter::Lt(chars_to_string(key), chars_to_string(x)))
                } else {
                    Option::None
                }
            },
            _ => Option::None,
        }
    } else if chars_eq(op, "$lte") {
        match v {
            JsonValue::JStr(x) => {
                if plain {
                    Option::Some(TagFilter::Lte(chars_to_string(key), chars_to_string(x)))
                } else {
                    Option::None
                }
            },
            _ => Option::None,
        }
    } else if chars_eq(op, "$like") {
        match v {
            JsonValue::JStr(x) => {
                if plain {
                    Option::Some(TagFilter::Like(chars_to_string(key), chars_to_string(x)))
                } else {
                    Option::None
                }
            },
            _ => Option::None,
        }
    } else if chars_eq(op, "$in") || chars_eq(op, "$nin") {
        let is_in = chars_eq(op, "$in");
        proof {
            assert("$in"@.len() == 3);
            assert("$nin"@.len() == 4);
        }
        match v {
            JsonValue::JArr(items) => {
                match conv_string_list(items) {
                    Option::None => Option::None,
                    Option::Some(xs) => {
                        if xs.len() == 0 {
                            Option::None
                        } else if is_in {
                            Option::Some(TagFilter::In(chars_to_string(key), xs))
                        } else {
                            let ks = chars_to_string(key);
                            let ghost gxs = str_views(xs@);
                            let inner = TagFilter::In(ks, xs);
                            proof {
                                assert(filter_model(inner) == FilterModel::In(key@, gxs));
                            }
                            let f = TagFilter::Not(Box::new(inner));
                            proof {
                                assert(filter_model(f) == FilterModel::Not(
                                    Box::new(FilterModel::In(key@, gxs)),
                                ));
                                assert(op_clause(key@, op@, json_model(*v)) == Option::Some(
                                    filter_model(f),
                                ));
                            }
                            Option::Some(f)
                        }
                    },
                }
            },
            _ => Option::None,
        }
    } else {
        Option::None
    }
}

impl TagFilter {
    /// Parse the JSON surface syntax of a filter: an object whose
    /// pairs are clauses. Anything else is rejected with `Input`.
    pub fn from_str(text: &str) -> (r: Result<TagFilter, Error>)
        ensures
            r matches Ok(f) ==> (sp_document(text@) matches Some(m) && filter_of_json(m)
                == Option::Some(filter_model(f))),
            r matches Err(e) ==> e.kind == ErrorKind::Input && (sp_document(text@) is None
                || filter_of_json(sp_document(text@)->0) is None),
    {
        let chars = str_chars(text);
        let doc = match parse_document(&chars) {
            Option::None => {
                return Result::Err(
                    Error::new(ErrorKind::Input, String::from_str("invalid tag filter")),
                );
            },
            Option::Some(d) => d,
        };
        match conv_filter(&doc) {
            Option::None => Result::Err(
                Error::new(ErrorKind::Input, String::from_str("invalid tag filter")),
            ),
            Option::Some(f) => Result::Ok(f),
        }
    }
}

} // verus!
