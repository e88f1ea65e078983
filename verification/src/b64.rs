//! A base64url reader, used to inspect packed-envelope fields before
//! the envelope library touches them. Canonical text is accepted with
//! or without `=` padding.

use vstd::prelude::*;

verus! {

/// The six-bit value of a base64url alphabet character.
pub open spec fn b64u_val(c: char) -> Option<u8> {
    if 'A' <= c && c <= 'Z' {
        Option::Some(((c as int) - 65) as u8)
    } else if 'a' <= c && c <= 'z' {
        Option::Some(((c as int) - 71) as u8)
    } else if '0' <= c && c <= '9' {
        Option::Some(((c as int) + 4) as u8)
    } else if c == '-' {
        Option::Some(62)
    } else if c == '_' {
        Option::Some(63)
    } else {
        Option::None
    }
}

/// The bytes of unpadded base64url text: full four-character groups,
/// with a final group of two or three characters for one or two
/// trailing bytes.
pub open spec fn b64u_core(t: Seq<char>) -> Option<Seq<u8>>
    decreases t.len(),
{
    if t.len() == 0 {
        Option::Some(Seq::empty())
    } else if t.len() == 1 {
        Option::None
    } else if t.len() == 2 {
        match (b64u_val(t[0]), b64u_val(t[1])) {
            (Option::Some(v0), Option::Some(v1)) => Option::Some(
                seq![((v0 as int) * 4 + (v1 as int) / 16) as u8],
            ),
            _ => Option::None,
        }
    } else if t.len() == 3 {
        match (b64u_val(t[0]), b64u_val(t[1]), b64u_val(t[2])) {
            (Option::Some(v0), Option::Some(v1), Option::Some(v2)) => Option::Some(
                seq![
                    ((v0 as int) * 4 + (v1 as int) / 16) as u8,
                    (((v1 as int) % 16) * 16 + (v2 as int) / 4) as u8,
                ],
            ),
            _ => Option::None,
        }
    } else {
        match (b64u_val(t[0]), b64u_val(t[1]), b64u_val(t[2]), b64u_val(t[3])) {
            (
                Option::Some(v0),
                Option::Some(v1),
                Option::Some(v2),
                Option::Some(v3),
            ) => match b64u_core(t.skip(4)) {
                Option::Some(rest) => Option::Some(
                    seq![
                        ((v0 as int) * 4 + (v1 as int) / 16) as u8,
                        (((v1 as int) % 16) * 16 + (v2 as int) / 4) as u8,
                        (((v2 as int) % 4) * 64 + (v3 as int)) as u8,
                    ] + rest,
                ),
                Option::None => Option::None,
            },
            _ => Option::None,
        }
    }
}

/// How many `=` characters end the text.
pub open spec fn trailing_pad(s: Seq<char>) -> nat
    decreases s.len(),
{
    if s.len() > 0 && s.last() == '=' {
        1 + trailing_pad(s.drop_last())
    } else {
        0
    }
}

/// The bytes base64url text denotes: up to two `=` characters may pad
/// the text to a four-character boundary.
pub open spec fn b64u_decode_spec(s: Seq<char>) -> Option<Seq<u8>> {
    let p = trailing_pad(s);
    if p > 2 || (p > 0 && s.len() % 4 != 0) {
        Option::None
    } else {
        b64u_core(s.take(s.len() - p))
    }
}

/// The six-bit value of a character, decided.
fn b64u_val_exec(c: char) -> (r: Option<u8>)
    ensures
        r == b64u_val(c),
        r matches Some(v) ==> v < 64,
{
    if 'A' <= c && c <= 'Z' {
        Option::Some(((c as u32) - 65) as u8)
    } else if 'a' <= c && c <= 'z' {
        Option::Some(((c as u32) - 71) as u8)
    } else if '0' <= c && c <= '9' {
        Option::Some(((c as u32) + 4) as u8)
    } else if c == '-' {
        Option::Some(62)
    } else if c == '_' {
        Option::Some(63)
    } else {
        Option::None
    }
}

/// Decode the unpadded groups between two positions.
fn b64u_core_exec(chars: &Vec<char>, i: usize, end: usize) -> (r: Option<Vec<u8>>)
    requires
        0 <= i <= end <= chars@.len(),
    ensures
        r is None ==> b64u_core(chars@.subrange(i as int, end as int)) is None,
        r matches Some(v) ==> b64u_core(chars@.subrange(i as int, end as int)) == Option::Some(v@),
    decreases end - i,
{
    let ghost t = chars@.subrange(i as int, end as int);
    let n = end - i;
    if n == 0 {
        let out: Vec<u8> = Vec::new();
        proof {
            assert(out@ =~= Seq::<u8>::empty());
        }
        return Option::Some(out);
    }
    if n == 1 {
        return Option::None;
    }
    let v0 = match b64u_val_exec(chars[i]) {
        Option::None => {
            proof {
                assert(t[0] == chars@[i as int]);
            }
            return Option::None;
        },
        Option::Some(v) => v,
    };
    let v1 = match b64u_val_exec(chars[i + 1]) {
        Option::None => {
            proof {
                assert(t[1] == chars@[i + 1]);
            }
            return Option::None;
        },
        Option::Some(v) => v,
    };
    let b0: u8 = v0 * 4 + v1 / 16;
    if n == 2 {
        let mut out: Vec<u8> = Vec::new();
        out.push(b0);
        proof {
            assert(out@ =~= seq![((v0 as int) * 4 + (v1 as int) / 16) as u8]);
        }
        return Option::Some(out);
    }
    let v2 = match b64u_val_exec(chars[i + 2]) {
        Option::None => {
            proof {
                assert(t[2] == chars@[i + 2]);
            }
            return Option::None;
        },
        Option::Some(v) => v,
    };
    let b1: u8 = (v1 % 16) * 16 + v2 / 4;
    if n == 3 {
        let mut out: Vec<u8> = Vec::new();
        out.push(b0);
        out.push(b1);
        proof {
            assert(out@ =~= seq![
                ((v0 as int) * 4 + (v1 as int) / 16) as u8,
                (((v1 as int) % 16) * 16 + (v2 as int) / 4) as u8,
            ]);
        }
        return Option::Some(out);
    }
    let v3 = match b64u_val_exec(chars[i + 3]) {
        Option::None => {
            proof {
                assert(t[3] == chars@[i + 3]);
            }
            return Option::None;
        },
        Option::Some(v) => v,
    };
    let b2: u8 = (v2 % 4) * 64 + v3;
    match b64u_core_exec(chars, i + 4, end) {
        Option::None => {
            proof {
                assert(t.skip(4) =~= chars@.subrange(i + 4, end as int));
            }
            Option::None
        },
        Option::Some(mut rest) => {
            let ghost pre = rest@;
            rest.insert(0, b2);
            rest.insert(0, b1);
            rest.insert(0, b0);
            proof {
                assert(t.skip(4) =~= chars@.subrange(i + 4, end as int));
                assert(rest@ =~= seq![
                    ((v0 as int) * 4 + (v1 as int) / 16) as u8,
                    (((v1 as int) % 16) * 16 + (v2 as int) / 4) as u8,
                    (((v2 as int) % 4) * 64 + (v3 as int)) as u8,
                ] + pre);
            }
            Option::Some(rest)
        },
    }
}

/// Decode base64url text.
pub fn b64u_decode(chars: &Vec<char>) -> (r: Option<Vec<u8>>)
    ensures
        r is None ==> b64u_decode_spec(chars@) is None,
        r matches Some(v) ==> b64u_decode_spec(chars@) == Option::Some(v@),
{
    let mut p: usize = 0;
    let n = chars.len();
    while p < n && p < 3 && chars[n - 1 - p] == '='
        invariant
            0 <= p <= n,
            p <= 3,
            n == chars@.len(),
            forall|k: int| n - p <= k < n ==> chars@[k] == '=',
        decreases n - p,
    {
        p = p + 1;
    }
    proof {
        if p < 3 {
            lemma_pad_exact(chars@, p as int);
        } else {
            lemma_pad_at_least(chars@, p as int);
        }
    }
    if p > 2 || (p > 0 && n % 4 != 0) {
        return Option::None;
    }
    proof {
        assert(chars@.take(n - p) =~= chars@.subrange(0, (n - p) as int));
    }
    b64u_core_exec(chars, 0, n - p)
}

/// When the last `p` characters are `=` and the character before them
/// (if any) is not, the trailing padding count is exactly `p`.
proof fn lemma_pad_exact(s: Seq<char>, p: int)
    requires
        0 <= p <= s.len(),
        forall|k: int| s.len() - p <= k < s.len() ==> s[k] == '=',
        p < s.len() ==> s[s.len() - p - 1] != '=',
    ensures
        trailing_pad(s) == p,
    decreases p,
{
    if p == 0 {
        if s.len() > 0 && s.last() == '=' {
            assert(false);
        }
    } else {
        assert(s.last() == '=');
        assert(trailing_pad(s) == 1 + trailing_pad(s.drop_last()));
        assert(forall|k: int|
            s.drop_last().len() - (p - 1) <= k < s.drop_last().len() ==> s.drop_last()[k] == '=');
        lemma_pad_exact(s.drop_last(), p - 1);
    }
}

/// When the last `k` characters are `=`, at least `k` characters of
/// padding are counted.
proof fn lemma_pad_at_least(s: Seq<char>, k: int)
    requires
        0 <= k <= s.len(),
        forall|j: int| s.len() - k <= j < s.len() ==> s[j] == '=',
    ensures
        trailing_pad(s) >= k,
    decreases k,
{
    if k > 0 {
        assert(s.last() == '=');
        assert(trailing_pad(s) == 1 + trailing_pad(s.drop_last()));
        assert(forall|j: int|
            s.drop_last().len() - (k - 1) <= j < s.drop_last().len() ==> s.drop_last()[j] == '=');
        lemma_pad_at_least(s.drop_last(), k - 1);
    }
}

} // verus!
