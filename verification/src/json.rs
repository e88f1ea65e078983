//! A small JSON reader and writer, used for key parameters, tag maps
//! and the tag-filter surface syntax. Values are strings, arrays and
//! objects; numbers, booleans, nulls and `\u` escapes are not part of
//! the stored formats and are rejected.

use vstd::prelude::*;

verus! {

/// A parsed JSON value.
pub enum JsonValue {
    /// A string, unescaped.
    JStr(Vec<char>),
    /// An array of values.
    JArr(Vec<JsonValue>),
    /// An object: keys (unescaped) with values, in source order.
    JObj(Vec<(Vec<char>, JsonValue)>),
}

/// The mathematical model of a JSON value.
pub ghost enum JsonModel {
    /// A string.
    JStr(Seq<char>),
    /// An array of values.
    JArr(Seq<JsonModel>),
    /// An object: keys with values, in source order.
    JObj(Seq<(Seq<char>, JsonModel)>),
}

/// The model of a parsed value.
pub open spec fn json_model(v: JsonValue) -> JsonModel
    decreases v,
{
    match v {
        JsonValue::JStr(s) => JsonModel::JStr(s@),
        JsonValue::JArr(items) => JsonModel::JArr(json_models(items@)),
        JsonValue::JObj(pairs) => JsonModel::JObj(json_pair_models(pairs@)),
    }
}

/// The models of a list of values.
pub open spec fn json_models(s: Seq<JsonValue>) -> Seq<JsonModel>
    decreases s,
{
    if s.len() == 0 {
        Seq::empty()
    } else {
        seq![json_model(s[0])] + json_models(s.skip(1))
    }
}

/// The models of a list of key-value pairs.
pub open spec fn json_pair_models(s: Seq<(Vec<char>, JsonValue)>) -> Seq<(Seq<char>, JsonModel)>
    decreases s,
{
    if s.len() == 0 {
        Seq::empty()
    } else {
        seq![(s[0].0@, json_model(s[0].1))] + json_pair_models(s.skip(1))
    }
}

/// JSON whitespace.
pub open spec fn is_ws(c: char) -> bool {
    c == ' ' || c == '\t' || c == '\n' || c == '\r'
}

/// The character a short escape stands for; `None` for an escape the
/// reader does not accept.
pub open spec fn unescape_char(c: char) -> Option<char> {
    if c == '"' {
        Option::Some('"')
    } else if c == '\\' {
        Option::Some('\\')
    } else if c == '/' {
        Option::Some('/')
    } else if c == 'n' {
        Option::Some('\n')
    } else if c == 'r' {
        Option::Some('\r')
    } else if c == 't' {
        Option::Some('\t')
    } else if c == 'b' {
        Option::Some('\u{8}')
    } else if c == 'f' {
        Option::Some('\u{c}')
    } else {
        Option::None
    }
}

/// Read a string body starting after the opening quote; the result is
/// the unescaped content and the position after the closing quote.
pub open spec fn sp_string(s: Seq<char>, i: int) -> Option<(Seq<char>, int)>
    decreases s.len() - i,
{
    if i < 0 || i >= s.len() {
        Option::None
    } else if s[i] == '"' {
        Option::Some((Seq::empty(), i + 1))
    } else if s[i] == '\\' {
        if i + 1 >= s.len() {
            Option::None
        } else {
            match unescape_char(s[i + 1]) {
                Option::None => Option::None,
                Option::Some(c) => match sp_string(s, i + 2) {
                    Option::None => Option::None,
                    Option::Some((rest, k)) => Option::Some((seq![c] + rest, k)),
                },
            }
        }
    } else if (s[i] as u32) < 0x20 {
        Option::None
    } else {
        match sp_string(s, i + 1) {
            Option::None => Option::None,
            Option::Some((rest, k)) => Option::Some((seq![s[i]] + rest, k)),
        }
    }
}

/// Read a value, skipping leading whitespace: a string, object or
/// array. Anything else is rejected.
pub open spec fn sp_value(s: Seq<char>, i: int) -> Option<(JsonModel, int)>
    decreases s.len() - i, 1int,
{
    if i < 0 || i >= s.len() {
        Option::None
    } else if is_ws(s[i]) {
        sp_value(s, i + 1)
    } else if s[i] == '"' {
        match sp_string(s, i + 1) {
            Option::None => Option::None,
            Option::Some((str, k)) => Option::Some((JsonModel::JStr(str), k)),
        }
    } else if s[i] == '{' {
        match sp_object(s, i + 1) {
            Option::None => Option::None,
            Option::Some((pairs, k)) => Option::Some((JsonModel::JObj(pairs), k)),
        }
    } else if s[i] == '[' {
        match sp_array(s, i + 1) {
            Option::None => Option::None,
            Option::Some((items, k)) => Option::Some((JsonModel::JArr(items), k)),
        }
    } else {
        Option::None
    }
}

/// Read the inside of an object, after the opening brace: the closing
/// brace or a first pair.
pub open spec fn sp_object(s: Seq<char>, i: int) -> Option<(Seq<(Seq<char>, JsonModel)>, int)>
    decreases s.len() - i, 2int,
{
    if i < 0 || i >= s.len() {
        Option::None
    } else if is_ws(s[i]) {
        sp_object(s, i + 1)
    } else if s[i] == '}' {
        Option::Some((Seq::empty(), i + 1))
    } else if s[i] == '"' {
        sp_pair(s, i)
    } else {
        Option::None
    }
}

/// Read one pair and whatever follows it, at a position where the key
/// string's opening quote stands.
pub open spec fn sp_pair(s: Seq<char>, i: int) -> Option<(Seq<(Seq<char>, JsonModel)>, int)>
    decreases s.len() - i, 1int,
{
    if i < 0 || i >= s.len() || s[i] != '"' {
        Option::None
    } else {
        match sp_string(s, i + 1) {
            Option::None => Option::None,
            Option::Some((key, k)) => {
                if k <= i || k > s.len() {
                    Option::None
                } else {
                    match sp_colon_value(s, k) {
                        Option::None => Option::None,
                        Option::Some((v, k2)) => {
                            if k2 <= k || k2 > s.len() {
                                Option::None
                            } else {
                                match sp_object_more(s, k2) {
                                    Option::None => Option::None,
                                    Option::Some((rest, k3)) => Option::Some(
                                        (seq![(key, v)] + rest, k3),
                                    ),
                                }
                            }
                        },
                    }
                }
            },
        }
    }
}

/// Read a colon and the value after it, skipping leading whitespace.
pub open spec fn sp_colon_value(s: Seq<char>, i: int) -> Option<(JsonModel, int)>
    decreases s.len() - i, 2int,
{
    if i < 0 || i >= s.len() {
        Option::None
    } else if is_ws(s[i]) {
        sp_colon_value(s, i + 1)
    } else if s[i] == ':' {
        sp_value(s, i + 1)
    } else {
        Option::None
    }
}

/// After a pair: a comma and another pair, or the closing brace.
pub open spec fn sp_object_more(s: Seq<char>, i: int) -> Option<(Seq<(Seq<char>, JsonModel)>, int)>
    decreases s.len() - i, 2int,
{
    if i < 0 || i >= s.len() {
        Option::None
    } else if is_ws(s[i]) {
        sp_object_more(s, i + 1)
    } else if s[i] == '}' {
        Option::Some((Seq::empty(), i + 1))
    } else if s[i] == ',' {
        sp_pair_after_ws(s, i + 1)
    } else {
        Option::None
    }
}

/// Skip whitespace and read a pair.
pub open spec fn sp_pair_after_ws(s: Seq<char>, i: int) -> Option<(Seq<(Seq<char>, JsonModel)>, int)>
    decreases s.len() - i, 2int,
{
    if i < 0 || i >= s.len() {
        Option::None
    } else if is_ws(s[i]) {
        sp_pair_after_ws(s, i + 1)
    } else if s[i] == '"' {
        sp_pair(s, i)
    } else {
        Option::None
    }
}

/// Read the inside of an array, after the opening bracket: the
/// closing bracket or a first element.
pub open spec fn sp_array(s: Seq<char>, i: int) -> Option<(Seq<JsonModel>, int)>
    decreases s.len() - i, 2int,
{
    if i < 0 || i >= s.len() {
        Option::None
    } else if is_ws(s[i]) {
        sp_array(s, i + 1)
    } else if s[i] == ']' {
        Option::Some((Seq::empty(), i + 1))
    } else {
        match sp_value(s, i) {
            Option::None => Option::None,
            Option::Some((v, k)) => {
                if k <= i || k > s.len() {
                    Option::None
                } else {
                    match sp_array_more(s, k) {
                        Option::None => Option::None,
                        Option::Some((rest, k2)) => Option::Some((seq![v] + rest, k2)),
                    }
                }
            },
        }
    }
}

/// After an element: a comma and another element, or the closing
/// bracket.
pub open spec fn sp_array_more(s: Seq<char>, i: int) -> Option<(Seq<JsonModel>, int)>
    decreases s.len() - i, 2int,
{
    if i < 0 || i >= s.len() {
        Option::None
    } else if is_ws(s[i]) {
        sp_array_more(s, i + 1)
    } else if s[i] == ']' {
        Option::Some((Seq::empty(), i + 1))
    } else if s[i] == ',' {
        match sp_value(s, i + 1) {
            Option::None => Option::None,
            Option::Some((v, k)) => {
                if k <= i + 1 || k > s.len() {
                    Option::None
                } else {
                    match sp_array_more(s, k) {
                        Option::None => Option::None,
                        Option::Some((rest, k2)) => Option::Some((seq![v] + rest, k2)),
                    }
                }
            },
        }
    } else {
        Option::None
    }
}

/// Whether only whitespace stands from `i` to the end.
pub open spec fn sp_only_ws(s: Seq<char>, i: int) -> bool
    decreases s.len() - i,
{
    if i < 0 || i >= s.len() {
        true
    } else {
        is_ws(s[i]) && sp_only_ws(s, i + 1)
    }
}

/// What a document parses to: the single value it holds, with only
/// whitespace around it.
pub open spec fn sp_document(s: Seq<char>) -> Option<JsonModel> {
    match sp_value(s, 0) {
        Option::None => Option::None,
        Option::Some((v, k)) => {
            if sp_only_ws(s, k) {
                Option::Some(v)
            } else {
                Option::None
            }
        },
    }
}

/// JSON whitespace, decided.
fn is_ws_exec(c: char) -> (r: bool)
    ensures
        r == is_ws(c),
{
    c == ' ' || c == '\t' || c == '\n' || c == '\r'
}

/// The character a short escape stands for, decided.
fn unescape_char_exec(c: char) -> (r: Option<char>)
    ensures
        r == unescape_char(c),
{
    if c == '"' {
        Option::Some('"')
    } else if c == '\\' {
        Option::Some('\\')
    } else if c == '/' {
        Option::Some('/')
    } else if c == 'n' {
        Option::Some('\n')
    } else if c == 'r' {
        Option::Some('\r')
    } else if c == 't' {
        Option::Some('\t')
    } else if c == 'b' {
        Option::Some('\u{8}')
    } else if c == 'f' {
        Option::Some('\u{c}')
    } else {
        Option::None
    }
}

/// Read a string body after its opening quote.
fn parse_string(s: &Vec<char>, i: usize) -> (r: Option<(Vec<char>, usize)>)
    ensures
        r is None ==> sp_string(s@, i as int) is None,
        r matches Some((content, k)) ==> sp_string(s@, i as int) == Option::Some(
            (content@, k as int),
        ) && i < k <= s@.len(),
    decreases s@.len() - i,
{
    if i >= s.len() {
        return Option::None;
    }
    let c = s[i];
    if c == '"' {
        let content: Vec<char> = Vec::new();
        proof {
            assert(content@ =~= Seq::<char>::empty());
        }
        Option::Some((content, i + 1))
    } else if c == '\\' {
        if i + 1 >= s.len() {
            return Option::None;
        }
        match unescape_char_exec(s[i + 1]) {
            Option::None => Option::None,
            Option::Some(u) => {
                match parse_string(s, i + 2) {
                    Option::None => Option::None,
                    Option::Some((mut rest, k)) => {
                        let ghost pre = rest@;
                        rest.insert(0, u);
                        proof {
                            assert(rest@ =~= seq![u] + pre);
                        }
                        Option::Some((rest, k))
                    },
                }
            },
        }
    } else if (c as u32) < 0x20 {
        Option::None
    } else {
        match parse_string(s, i + 1) {
            Option::None => Option::None,
            Option::Some((mut rest, k)) => {
                let ghost pre = rest@;
                rest.insert(0, c);
                proof {
                    assert(rest@ =~= seq![c] + pre);
                }
                Option::Some((rest, k))
            },
        }
    }
}

/// Read a value, skipping leading whitespace.
fn parse_value(s: &Vec<char>, i: usize) -> (r: Option<(JsonValue, usize)>)
    ensures
        r is None ==> sp_value(s@, i as int) is None,
        r matches Some((v, k)) ==> sp_value(s@, i as int) == Option::Some(
            (json_model(v), k as int),
        ) && i < k <= s@.len(),
    decreases s@.len() - i, 1int,
{
    if i >= s.len() {
        return Option::None;
    }
    let c = s[i];
    if is_ws_exec(c) {
        parse_value(s, i + 1)
    } else if c == '"' {
        match parse_string(s, i + 1) {
            Option::None => Option::None,
            Option::Some((content, k)) => Option::Some((JsonValue::JStr(content), k)),
        }
    } else if c == '{' {
        match parse_object(s, i + 1) {
            Option::None => Option::None,
            Option::Some((pairs, k)) => Option::Some((JsonValue::JObj(pairs), k)),
        }
    } else if c == '[' {
        match parse_array(s, i + 1) {
            Option::None => Option::None,
            Option::Some((items, k)) => Option::Some((JsonValue::JArr(items), k)),
        }
    } else {
        Option::None
    }
}

/// Read the inside of an object after its opening brace.
fn parse_object(s: &Vec<char>, i: usize) -> (r: Option<(Vec<(Vec<char>, JsonValue)>, usize)>)
    ensures
        r is None ==> sp_object(s@, i as int) is None,
        r matches Some((pairs, k)) ==> sp_object(s@, i as int) == Option::Some(
            (json_pair_models(pairs@), k as int),
        ) && i < k <= s@.len(),
    decreases s@.len() - i, 2int,
{
    if i >= s.len() {
        return Option::None;
    }
    let c = s[i];
    if is_ws_exec(c) {
        parse_object(s, i + 1)
    } else if c == '}' {
        let pairs: Vec<(Vec<char>, JsonValue)> = Vec::new();
        proof {
            assert(json_pair_models(pairs@) =~= Seq::<(Seq<char>, JsonModel)>::empty());
        }
        Option::Some((pairs, i + 1))
    } else if c == '"' {
        parse_pair(s, i)
    } else {
        Option::None
    }
}

/// Read one pair and whatever follows it.
fn parse_pair(s: &Vec<char>, i: usize) -> (r: Option<(Vec<(Vec<char>, JsonValue)>, usize)>)
    ensures
        r is None ==> sp_pair(s@, i as int) is None,
        r matches Some((pairs, k)) ==> sp_pair(s@, i as int) == Option::Some(
            (json_pair_models(pairs@), k as int),
        ) && i < k <= s@.len(),
    decreases s@.len() - i, 1int,
{
    if i >= s.len() {
        return Option::None;
    }
    if s[i] != '"' {
        return Option::None;
    }
    match parse_string(s, i + 1) {
        Option::None => Option::None,
        Option::Some((key, k)) => {
            match parse_colon_value(s, k) {
                Option::None => Option::None,
                Option::Some((v, k2)) => {
                    match parse_object_more(s, k2) {
                        Option::None => Option::None,
                        Option::Some((mut rest, k3)) => {
                            let ghost prerest = rest@;
                            let ghost gkey = key@;
                            let ghost gv = json_model(v);
                            rest.insert(0, (key, v));
                            proof {
                                assert(rest@.skip(1) =~= prerest);
                                assert(rest@[0].0@ == gkey);
                                assert(json_model(rest@[0].1) == gv);
                                assert(json_pair_models(rest@.skip(1)) == json_pair_models(prerest));
                                assert(json_pair_models(rest@) =~= seq![(gkey, gv)]
                                    + json_pair_models(prerest));
                            }
                            Option::Some((rest, k3))
                        },
                    }
                },
            }
        },
    }
}

/// Read a colon and the value after it.
fn parse_colon_value(s: &Vec<char>, i: usize) -> (r: Option<(JsonValue, usize)>)
    ensures
        r is None ==> sp_colon_value(s@, i as int) is None,
        r matches Some((v, k)) ==> sp_colon_value(s@, i as int) == Option::Some(
            (json_model(v), k as int),
        ) && i < k <= s@.len(),
    decreases s@.len() - i, 2int,
{
    if i >= s.len() {
        return Option::None;
    }
    let c = s[i];
    if is_ws_exec(c) {
        parse_colon_value(s, i + 1)
    } else if c == ':' {
        parse_value(s, i + 1)
    } else {
        Option::None
    }
}

/// After a pair: a comma and another pair, or the closing brace.
fn parse_object_more(s: &Vec<char>, i: usize) -> (r: Option<(Vec<(Vec<char>, JsonValue)>, usize)>)
    ensures
        r is None ==> sp_object_more(s@, i as int) is None,
        r matches Some((pairs, k)) ==> sp_object_more(s@, i as int) == Option::Some(
            (json_pair_models(pairs@), k as int),
        ) && i < k <= s@.len(),
    decreases s@.len() - i, 2int,
{
    if i >= s.len() {
        return Option::None;
    }
    let c = s[i];
    if is_ws_exec(c) {
        parse_object_more(s, i + 1)
    } else if c == '}' {
        let pairs: Vec<(Vec<char>, JsonValue)> = Vec::new();
        proof {
            assert(json_pair_models(pairs@) =~= Seq::<(Seq<char>, JsonModel)>::empty());
        }
        Option::Some((pairs, i + 1))
    } else if c == ',' {
        parse_pair_after_ws(s, i + 1)
    } else {
        Option::None
    }
}

/// Skip whitespace and read a pair.
fn parse_pair_after_ws(s: &Vec<char>, i: usize) -> (r: Option<(Vec<(Vec<char>, JsonValue)>, usize)>)
    ensures
        r is None ==> sp_pair_after_ws(s@, i as int) is None,
        r matches Some((pairs, k)) ==> sp_pair_after_ws(s@, i as int) == Option::Some(
            (json_pair_models(pairs@), k as int),
        ) && i < k <= s@.len(),
    decreases s@.len() - i, 2int,
{
    if i >= s.len() {
        return Option::None;
    }
    let c = s[i];
    if is_ws_exec(c) {
        parse_pair_after_ws(s, i + 1)
    } else if c == '"' {
        parse_pair(s, i)
    } else {
        Option::None
    }
}

/// Read the inside of an array after its opening bracket.
fn parse_array(s: &Vec<char>, i: usize) -> (r: Option<(Vec<JsonValue>, usize)>)
    ensures
        r is None ==> sp_array(s@, i as int) is None,
        r matches Some((items, k)) ==> sp_array(s@, i as int) == Option::Some(
            (json_models(items@), k as int),
        ) && i < k <= s@.len(),
    decreases s@.len() - i, 2int,
{
    if i >= s.len() {
        return Option::None;
    }
    let c = s[i];
    if is_ws_exec(c) {
        parse_array(s, i + 1)
    } else if c == ']' {
        let items: Vec<JsonValue> = Vec::new();
        proof {
            assert(json_models(items@) =~= Seq::<JsonModel>::empty());
        }
        Option::Some((items, i + 1))
    } else {
        match parse_value(s, i) {
            Option::None => Option::None,
            Option::Some((v, k)) => {
                match parse_array_more(s, k) {
                    Option::None => Option::None,
                    Option::Some((mut rest, k2)) => {
                        let ghost prerest = rest@;
                        let ghost gv = json_model(v);
                        rest.insert(0, v);
                        proof {
                            assert(rest@.skip(1) =~= prerest);
                            assert(json_model(rest@[0]) == gv);
                            assert(json_models(rest@.skip(1)) == json_models(prerest));
                            assert(json_models(rest@) =~= seq![gv] + json_models(prerest));
                        }
                        Option::Some((rest, k2))
                    },
                }
            },
        }
    }
}

/// After an element: a comma and another element, or the closing
/// bracket.
fn parse_array_more(s: &Vec<char>, i: usize) -> (r: Option<(Vec<JsonValue>, usize)>)
    ensures
        r is None ==> sp_array_more(s@, i as int) is None,
        r matches Some((items, k)) ==> sp_array_more(s@, i as int) == Option::Some(
            (json_models(items@), k as int),
        ) && i < k <= s@.len(),
    decreases s@.len() - i, 2int,
{
    if i >= s.len() {
        return Option::None;
    }
    let c = s[i];
    if is_ws_exec(c) {
        parse_array_more(s, i + 1)
    } else if c == ']' {
        let items: Vec<JsonValue> = Vec::new();
        proof {
            assert(json_models(items@) =~= Seq::<JsonModel>::empty());
        }
        Option::Some((items, i + 1))
    } else if c == ',' {
        match parse_value(s, i + 1) {
            Option::None => Option::None,
            Option::Some((v, k)) => {
                match parse_array_more(s, k) {
                    Option::None => Option::None,
                    Option::Some((mut rest, k2)) => {
                        let ghost prerest = rest@;
                        let ghost gv = json_model(v);
                        rest.insert(0, v);
                        proof {
                            assert(rest@.skip(1) =~= prerest);
                            assert(json_model(rest@[0]) == gv);
                            assert(json_models(rest@.skip(1)) == json_models(prerest));
                            assert(json_models(rest@) =~= seq![gv] + json_models(prerest));
                        }
                        Option::Some((rest, k2))
                    },
                }
            },
        }
    } else {
        Option::None
    }
}

/// Read a whole document: one value with only whitespace around it.
pub fn parse_document(s: &Vec<char>) -> (r: Option<JsonValue>)
    ensures
        r is None ==> sp_document(s@) is None,
        r matches Some(v) ==> sp_document(s@) == Option::Some(json_model(v)),
{
    match parse_value(s, 0) {
        Option::None => Option::None,
        Option::Some((v, k)) => {
            let mut i = k;
            while i < s.len()
                invariant
                    k <= i <= s@.len(),
                    sp_value(s@, 0) == Option::Some((json_model(v), k as int)),
                    sp_only_ws(s@, k as int) == sp_only_ws(s@, i as int),
                decreases s@.len() - i,
            {
                if !is_ws_exec(s[i]) {
                    proof {
                        assert(!sp_only_ws(s@, i as int));
                    }
                    return Option::None;
                }
                i = i + 1;
            }
            proof {
                assert(sp_only_ws(s@, i as int));
            }
            Option::Some(v)
        },
    }
}

/// The escape form a character takes inside a written JSON string;
/// `None` for a control character the writer does not accept.
pub open spec fn esc_char(c: char) -> Option<Seq<char>> {
    if c == '"' {
        Option::Some(seq!['\\', '"'])
    } else if c == '\\' {
        Option::Some(seq!['\\', '\\'])
    } else if c == '\n' {
        Option::Some(seq!['\\', 'n'])
    } else if c == '\r' {
        Option::Some(seq!['\\', 'r'])
    } else if c == '\t' {
        Option::Some(seq!['\\', 't'])
    } else if c == '\u{8}' {
        Option::Some(seq!['\\', 'b'])
    } else if c == '\u{c}' {
        Option::Some(seq!['\\', 'f'])
    } else if (c as u32) < 0x20 {
        Option::None
    } else {
        Option::Some(seq![c])
    }
}

/// The escaped form of a string, or `None` when it holds a control
/// character the writer does not accept.
pub open spec fn esc(s: Seq<char>) -> Option<Seq<char>>
    decreases s.len(),
{
    if s.len() == 0 {
        Option::Some(Seq::empty())
    } else {
        match (esc(s.drop_last()), esc_char(s.last())) {
            (Option::Some(head), Option::Some(tail)) => Option::Some(head + tail),
            _ => Option::None,
        }
    }
}

/// A character the writer rejects anywhere in a string makes the
/// whole string unwritable.
proof fn lemma_esc_none(s: Seq<char>, i: int)
    requires
        0 <= i < s.len(),
        esc_char(s[i]) is None,
    ensures
        esc(s) is None,
    decreases s.len(),
{
    if i == s.len() - 1 {
    } else {
        assert(s.drop_last()[i] == s[i]);
        lemma_esc_none(s.drop_last(), i);
    }
}

/// Append the escaped form of `src` to `out`; false when `src` holds
/// a character the writer does not accept (`out` is then unusable).
pub fn write_escaped(out: &mut Vec<char>, src: &Vec<char>) -> (ok: bool)
    ensures
        ok <==> esc(src@) is Some,
        ok ==> final(out)@ == old(out)@ + esc(src@)->0,
{
    let mut i: usize = 0;
    let ghost base = out@;
    proof {
        assert(esc(src@.take(0)) == Option::Some(Seq::<char>::empty()));
        assert(base + Seq::<char>::empty() =~= base);
    }
    while i < src.len()
        invariant
            0 <= i <= src@.len(),
            esc(src@.take(i as int)) is Some,
            out@ == base + esc(src@.take(i as int))->0,
        decreases src@.len() - i,
    {
        let c = src[i];
        proof {
            assert(src@.take(i + 1).drop_last() =~= src@.take(i as int));
            assert(src@.take(i + 1).last() == src@[i as int]);
        }
        let ghost preout = out@;
        if c == '"' {
            out.push('\\');
            out.push('"');
        } else if c == '\\' {
            out.push('\\');
            out.push('\\');
        } else if c == '\n' {
            out.push('\\');
            out.push('n');
        } else if c == '\r' {
            out.push('\\');
            out.push('r');
        } else if c == '\t' {
            out.push('\\');
            out.push('t');
        } else if c == '\u{8}' {
            out.push('\\');
            out.push('b');
        } else if c == '\u{c}' {
            out.push('\\');
            out.push('f');
        } else if (c as u32) < 0x20 {
            proof {
                lemma_esc_none(src@, i as int);
            }
            return false;
        } else {
            out.push(c);
        }
        proof {
            assert(out@ =~= preout + esc_char(c)->0);
            assert(base + esc(src@.take(i as int))->0 + esc_char(c)->0 =~= base + (esc(
                src@.take(i as int),
            )->0 + esc_char(c)->0));
        }
        i = i + 1;
    }
    proof {
        assert(src@.take(src@.len() as int) =~= src@);
    }
    true
}

pub proof fn lemma_json_models_index(s: Seq<JsonValue>)
    ensures
        json_models(s).len() == s.len(),
        forall|j: int| 0 <= j < s.len() ==> #[trigger] json_models(s)[j] == json_model(s[j]),
    decreases s,
{
    if s.len() > 0 {
        lemma_json_models_index(s.skip(1));
        assert forall|j: int| 0 <= j < s.len() implies #[trigger] json_models(s)[j] == json_model(
            s[j],
        ) by {
            if j > 0 {
                assert(json_models(s)[j] == json_models(s.skip(1))[j - 1]);
                assert(s.skip(1)[j - 1] == s[j]);
            }
        }
    }
}

pub proof fn lemma_json_pair_models_index(s: Seq<(Vec<char>, JsonValue)>)
    ensures
        json_pair_models(s).len() == s.len(),
        forall|j: int|
            0 <= j < s.len() ==> #[trigger] json_pair_models(s)[j] == (
            s[j].0@,
            json_model(s[j].1),
            ),
    decreases s,
{
    if s.len() > 0 {
        lemma_json_pair_models_index(s.skip(1));
        assert forall|j: int| 0 <= j < s.len() implies #[trigger] json_pair_models(s)[j] == (
        s[j].0@,
        json_model(s[j].1),
        ) by {
            if j > 0 {
                assert(json_pair_models(s)[j] == json_pair_models(s.skip(1))[j - 1]);
                assert(s.skip(1)[j - 1] == s[j]);
            }
        }
    }
}

/// The value of the first pair carrying this key, if any.
pub open spec fn obj_get(pairs: Seq<(Seq<char>, JsonModel)>, key: Seq<char>) -> Option<JsonModel>
    decreases pairs.len(),
{
    if pairs.len() == 0 {
        Option::None
    } else if pairs[0].0 == key {
        Option::Some(pairs[0].1)
    } else {
        obj_get(pairs.skip(1), key)
    }
}

/// Whether two character vectors hold the same text.
pub fn chars_eq(a: &Vec<char>, b: &str) -> (r: bool)
    ensures
        r == (a@ == b@),
{
    let n = b.unicode_len();
    if a.len() != n {
        return false;
    }
    let mut i: usize = 0;
    while i < n
        invariant
            0 <= i <= n,
            n == b@.len(),
            a@.len() == n,
            forall|k: int| 0 <= k < i ==> a@[k] == b@[k],
        decreases n - i,
    {
        if a[i] != b.get_char(i) {
            return false;
        }
        i = i + 1;
    }
    proof {
        assert(a@ =~= b@);
    }
    true
}

/// Look a key up in a parsed object, first match first.
pub fn lookup<'a>(pairs: &'a Vec<(Vec<char>, JsonValue)>, key: &str) -> (r: Option<&'a JsonValue>)
    ensures
        r is Some <==> obj_get(json_pair_models(pairs@), key@) is Some,
        r matches Some(v) ==> obj_get(json_pair_models(pairs@), key@) == Option::Some(
            json_model(*v),
        ),
{
    let mut i: usize = 0;
    proof {
        lemma_json_pair_models_index(pairs@);
        assert(json_pair_models(pairs@).skip(0) =~= json_pair_models(pairs@));
    }
    while i < pairs.len()
        invariant
            0 <= i <= pairs@.len(),
            json_pair_models(pairs@).len() == pairs@.len(),
            forall|j: int|
                0 <= j < pairs@.len() ==> #[trigger] json_pair_models(pairs@)[j] == (
                pairs@[j].0@,
                json_model(pairs@[j].1),
                ),
            obj_get(json_pair_models(pairs@), key@) == obj_get(
                json_pair_models(pairs@).skip(i as int),
                key@,
            ),
        decreases pairs.len() - i,
    {
        let ghost m = json_pair_models(pairs@);
        if chars_eq(&pairs[i].0, key) {
            proof {
                assert(m.skip(i as int)[0] == m[i as int]);
            }
            return Option::Some(&pairs[i].1);
        }
        proof {
            assert(m.skip(i as int)[0] == m[i as int]);
            assert(m.skip(i as int).skip(1) =~= m.skip(i + 1));
        }
        i = i + 1;
    }
    proof {
        assert(json_pair_models(pairs@).skip(i as int).len() == 0);
    }
    Option::None
}

/// Append the characters of a literal to a buffer.
pub fn push_str_chars(out: &mut Vec<char>, s: &str)
    ensures
        final(out)@ == old(out)@ + s@,
{
    let n = s.unicode_len();
    let ghost base = out@;
    let mut i: usize = 0;
    proof {
        assert(base + s@.subrange(0, 0) =~= base);
    }
    while i < n
        invariant
            0 <= i <= n,
            n == s@.len(),
            out@ == base + s@.subrange(0, i as int),
        decreases n - i,
    {
        out.push(s.get_char(i));
        proof {
            assert(base + s@.subrange(0, i + 1) =~= (base + s@.subrange(0, i as int)).push(
                s@[i as int],
            ));
        }
        i = i + 1;
    }
    proof {
        assert(s@.subrange(0, s@.len() as int) =~= s@);
    }
}

/// The size of a JSON term, used as a termination measure.
pub open spec fn json_size(v: JsonValue) -> nat
    decreases v,
{
    match v {
        JsonValue::JStr(_) => 1,
        JsonValue::JArr(items) => 1 + json_sizes(items@),
        JsonValue::JObj(pairs) => 1 + json_pair_sizes(pairs@),
    }
}

/// The total size of a list of JSON terms.
pub open spec fn json_sizes(s: Seq<JsonValue>) -> nat
    decreases s,
{
    if s.len() == 0 {
        0
    } else {
        json_size(s[0]) + json_sizes(s.skip(1))
    }
}

/// The total size of a list of key-value pairs.
pub open spec fn json_pair_sizes(s: Seq<(Vec<char>, JsonValue)>) -> nat
    decreases s,
{
    if s.len() == 0 {
        0
    } else {
        json_size(s[0].1) + json_pair_sizes(s.skip(1))
    }
}

pub proof fn lemma_json_sizes_elem(s: Seq<JsonValue>, j: int)
    requires
        0 <= j < s.len(),
    ensures
        json_size(s[j]) <= json_sizes(s),
    decreases s,
{
    if j > 0 {
        lemma_json_sizes_elem(s.skip(1), j - 1);
        assert(s.skip(1)[j - 1] == s[j]);
    }
}

pub proof fn lemma_json_pair_sizes_elem(s: Seq<(Vec<char>, JsonValue)>, j: int)
    requires
        0 <= j < s.len(),
    ensures
        json_size(s[j].1) <= json_pair_sizes(s),
    decreases s,
{
    if j > 0 {
        lemma_json_pair_sizes_elem(s.skip(1), j - 1);
        assert(s.skip(1)[j - 1] == s[j]);
    }
}

/// Escaping distributes over taking the first character.
pub proof fn lemma_esc_front(s: Seq<char>)
    requires
        s.len() > 0,
        esc(s) is Some,
    ensures
        esc_char(s[0]) is Some,
        esc(s.skip(1)) is Some,
        esc(s)->0 == esc_char(s[0])->0 + esc(s.skip(1))->0,
    decreases s.len(),
{
    if s.len() == 1 {
        assert(s.drop_last() =~= Seq::<char>::empty());
        assert(s.skip(1) =~= Seq::<char>::empty());
        assert(esc(s)->0 =~= esc_char(s[0])->0 + esc(s.skip(1))->0);
    } else {
        let head = s.drop_last();
        lemma_esc_front(head);
        assert(head[0] == s[0]);
        assert(s.skip(1).drop_last() =~= head.skip(1));
        assert(s.skip(1).last() == s.last());
        assert(esc(s.skip(1)) is Some);
        assert(esc(s.skip(1))->0 == esc(head.skip(1))->0 + esc_char(s.last())->0);
        assert(esc(s)->0 =~= esc_char(s[0])->0 + esc(s.skip(1))->0);
    }
}

/// An escaped character never begins with a quote, and a backslash
/// begins exactly the two-character escape forms.
pub proof fn lemma_esc_char_shape(c: char)
    requires
        esc_char(c) is Some,
    ensures
        esc_char(c)->0.len() == 1 || esc_char(c)->0.len() == 2,
        esc_char(c)->0[0] != '"',
        esc_char(c)->0.len() == 2 ==> esc_char(c)->0[0] == '\\' && unescape_char(
            esc_char(c)->0[1],
        ) == Option::Some(c),
        esc_char(c)->0.len() == 1 ==> esc_char(c)->0[0] == c && c != '\\' && (c as u32) >= 0x20,
{
}

/// Reading a string body undoes escaping: the escaped text, a closing
/// quote and anything after parse back to the original text.
pub proof fn lemma_sp_string_of_escaped(buf: Seq<char>, i: int, s: Seq<char>, rest: Seq<char>)
    requires
        esc(s) is Some,
        0 <= i <= buf.len(),
        buf.skip(i) == esc(s)->0 + seq!['"'] + rest,
    ensures
        sp_string(buf, i) == Option::Some((s, i + esc(s)->0.len() + 1)),
    decreases s.len(),
{
    let e = esc(s)->0;
    let tail = buf.skip(i);
    if s.len() == 0 {
        assert(e =~= Seq::<char>::empty());
        assert(tail =~= seq!['"'] + rest);
        assert(tail.len() >= 1);
        assert(i < buf.len());
        assert(buf.skip(i)[0] == buf[i + 0]);
        assert(buf[i] == '"');
        assert(sp_string(buf, i) == Option::Some((Seq::<char>::empty(), i + 1)));
        assert(s =~= Seq::<char>::empty());
    } else {
        lemma_esc_front(s);
        let c = s[0];
        let ec = esc_char(c)->0;
        lemma_esc_char_shape(c);
        let e1 = esc(s.skip(1))->0;
        assert(e == ec + e1);
        assert(tail.len() == e.len() + 1 + rest.len());
        assert(buf[i] == tail[0]);
        assert(tail[0] == ec[0]);
        if ec.len() == 2 {
            assert(buf[i] == '\\');
            assert(i + 1 < buf.len());
            assert(buf[i + 1] == tail[1]);
            assert(tail[1] == ec[1]);
            assert(unescape_char(buf[i + 1]) == Option::Some(c));
            assert(tail =~= ec + (e1 + seq!['"'] + rest));
            assert forall|k: int| 0 <= k < buf.skip(i + 2).len() implies buf.skip(i + 2)[k] == (e1
                + seq!['"'] + rest)[k] by {
                assert(buf.skip(i + 2)[k] == buf[i + 2 + k]);
                assert(tail[2 + k] == buf[i + 2 + k]);
                assert(tail[2 + k] == (ec + (e1 + seq!['"'] + rest))[2 + k]);
            }
            assert(buf.skip(i + 2) =~= e1 + seq!['"'] + rest);
            lemma_sp_string_of_escaped(buf, i + 2, s.skip(1), rest);
            assert(sp_string(buf, i + 2) == Option::Some(
                (s.skip(1), i + 2 + e1.len() as int + 1),
            ));
            assert(sp_string(buf, i) == Option::Some(
                (seq![c] + s.skip(1), i + 2 + e1.len() as int + 1),
            ));
            assert(seq![c] + s.skip(1) =~= s);
        } else {
            assert(buf[i] == c);
            assert(buf[i] != '"');
            assert(buf[i] != '\\');
            assert((buf[i] as u32) >= 0x20);
            assert(tail =~= ec + (e1 + seq!['"'] + rest));
            assert forall|k: int| 0 <= k < buf.skip(i + 1).len() implies buf.skip(i + 1)[k] == (e1
                + seq!['"'] + rest)[k] by {
                assert(buf.skip(i + 1)[k] == buf[i + 1 + k]);
                assert(tail[1 + k] == buf[i + 1 + k]);
                assert(tail[1 + k] == (ec + (e1 + seq!['"'] + rest))[1 + k]);
            }
            assert(buf.skip(i + 1) =~= e1 + seq!['"'] + rest);
            lemma_sp_string_of_escaped(buf, i + 1, s.skip(1), rest);
            assert(sp_string(buf, i) == Option::Some(
                (seq![c] + s.skip(1), i + 1 + e1.len() as int + 1),
            ));
            assert(seq![c] + s.skip(1) =~= s);
        }
    }
}

} // verus!
