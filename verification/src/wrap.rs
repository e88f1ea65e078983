//! Wrap-key derivation methods and their URI forms.

use vstd::prelude::*;
use crate::error::{Error, ErrorKind};

verus! {

/// The cost setting of the argon2i key-derivation function.
#[derive(Clone, Copy, Debug, PartialEq, Eq, Structural)]
pub enum KdfMethod {
    /// Moderate cost, the default.
    Argon2iMod,
    /// Interactive (reduced) cost.
    Argon2iInt,
}

/// How the wrap key protecting profile store keys is obtained.
#[derive(Clone, Copy, Debug, PartialEq, Eq, Structural)]
pub enum WrapKeyMethod {
    /// No wrapping: store keys are kept unprotected.
    Unprotected,
    /// The caller supplies the raw 256-bit key, base58-encoded.
    RawKey,
    /// The wrap key is derived from a pass phrase.
    DeriveKey(KdfMethod),
}

impl WrapKeyMethod {
    /// The method used when none is named: argon2i at moderate cost.
    pub fn default_method() -> (r: WrapKeyMethod)
        ensures
            r == WrapKeyMethod::DeriveKey(KdfMethod::Argon2iMod),
    {
        WrapKeyMethod::DeriveKey(KdfMethod::Argon2iMod)
    }

    /// Parse a method URI. Exactly `none`, `raw`, `kdf:argon2i`,
    /// `kdf:argon2i:mod` and `kdf:argon2i:int` are recognized; any
    /// other string is rejected with `Input`.
    pub fn parse_uri(uri: &str) -> (r: Result<WrapKeyMethod, Error>)
        ensures
            uri@ == "none"@ ==> r == Result::<WrapKeyMethod, Error>::Ok(WrapKeyMethod::Unprotected),
            uri@ == "raw"@ ==> r == Result::<WrapKeyMethod, Error>::Ok(WrapKeyMethod::RawKey),
            (uri@ == "kdf:argon2i"@ || uri@ == "kdf:argon2i:mod"@) ==> r == Result::<
                WrapKeyMethod,
                Error,
            >::Ok(WrapKeyMethod::DeriveKey(KdfMethod::Argon2iMod)),
            uri@ == "kdf:argon2i:int"@ ==> r == Result::<WrapKeyMethod, Error>::Ok(
                WrapKeyMethod::DeriveKey(KdfMethod::Argon2iInt),
            ),
            !(uri@ == "none"@ || uri@ == "raw"@ || uri@ == "kdf:argon2i"@ || uri@
                == "kdf:argon2i:mod"@ || uri@ == "kdf:argon2i:int"@) ==> r is Err
                && r->Err_0.kind == ErrorKind::Input,
    {
        proof {
            reveal_strlit("none");
            reveal_strlit("raw");
            reveal_strlit("kdf:argon2i");
            reveal_strlit("kdf:argon2i:mod");
            reveal_strlit("kdf:argon2i:int");
            assert("none"@.len() == 4);
            assert("kdf:argon2i"@.len() == 11);
            assert("kdf:argon2i:mod"@.len() == 15);
            assert("kdf:argon2i:int"@.len() == 15);
            assert("kdf:argon2i:mod"@[12] == 'm');
            assert("kdf:argon2i:int"@[12] == 'i');
        }
        if crate::types::str_compare(uri, "none") == 0 {
            Result::Ok(WrapKeyMethod::Unprotected)
        } else if crate::types::str_compare(uri, "raw") == 0 {
            Result::Ok(WrapKeyMethod::RawKey)
        } else if crate::types::str_compare(uri, "kdf:argon2i") == 0 {
            Result::Ok(WrapKeyMethod::DeriveKey(KdfMethod::Argon2iMod))
        } else if crate::types::str_compare(uri, "kdf:argon2i:mod") == 0 {
            Result::Ok(WrapKeyMethod::DeriveKey(KdfMethod::Argon2iMod))
        } else if crate::types::str_compare(uri, "kdf:argon2i:int") == 0 {
            Result::Ok(WrapKeyMethod::DeriveKey(KdfMethod::Argon2iInt))
        } else {
            Result::Err(Error::new(ErrorKind::Input, String::from_str("unknown wrap key method")))
        }
    }

    /// The URI form of the method, accepted back by
    /// [`WrapKeyMethod::parse_uri`].
    pub fn to_uri(&self) -> (r: String)
        ensures
            *self == WrapKeyMethod::Unprotected ==> r@ == "none"@,
            *self == WrapKeyMethod::RawKey ==> r@ == "raw"@,
            *self == WrapKeyMethod::DeriveKey(KdfMethod::Argon2iMod) ==> r@ == "kdf:argon2i:mod"@,
            *self == WrapKeyMethod::DeriveKey(KdfMethod::Argon2iInt) ==> r@ == "kdf:argon2i:int"@,
    {
        match self {
            WrapKeyMethod::Unprotected => String::from_str("none"),
            WrapKeyMethod::RawKey => String::from_str("raw"),
            WrapKeyMethod::DeriveKey(KdfMethod::Argon2iMod) => String::from_str("kdf:argon2i:mod"),
            WrapKeyMethod::DeriveKey(KdfMethod::Argon2iInt) => String::from_str("kdf:argon2i:int"),
        }
    }
}

/// A law of the method URIs: parsing the URI form of any method gives
/// the method back.
pub proof fn lemma_wrap_method_uri_round_trip(m: WrapKeyMethod, uri: Seq<char>, r: Result<
    WrapKeyMethod,
    Error,
>)
    requires
        (m == WrapKeyMethod::Unprotected ==> uri == "none"@),
        (m == WrapKeyMethod::RawKey ==> uri == "raw"@),
        (m == WrapKeyMethod::DeriveKey(KdfMethod::Argon2iMod) ==> uri == "kdf:argon2i:mod"@),
        (m == WrapKeyMethod::DeriveKey(KdfMethod::Argon2iInt) ==> uri == "kdf:argon2i:int"@),
        (uri == "none"@ ==> r == Result::<WrapKeyMethod, Error>::Ok(WrapKeyMethod::Unprotected)),
        (uri == "raw"@ ==> r == Result::<WrapKeyMethod, Error>::Ok(WrapKeyMethod::RawKey)),
        ((uri == "kdf:argon2i"@ || uri == "kdf:argon2i:mod"@) ==> r == Result::<
            WrapKeyMethod,
            Error,
        >::Ok(WrapKeyMethod::DeriveKey(KdfMethod::Argon2iMod))),
        (uri == "kdf:argon2i:int"@ ==> r == Result::<WrapKeyMethod, Error>::Ok(
            WrapKeyMethod::DeriveKey(KdfMethod::Argon2iInt),
        )),
    ensures
        r == Result::<WrapKeyMethod, Error>::Ok(m),
{
    reveal_strlit("none");
    reveal_strlit("raw");
    reveal_strlit("kdf:argon2i");
    reveal_strlit("kdf:argon2i:mod");
    reveal_strlit("kdf:argon2i:int");
}

/// The backend a specification URI selects: the embedded file engine
/// or the networked relational engine. The core only keeps the rest
/// of the URI for the backend to interpret.
pub enum BackendSpec {
    /// `sqlite://<path>`; `:memory:` names a transient store.
    Sqlite(String),
    /// `postgres://<conninfo>`.
    Postgres(String),
}

/// Whether `s` starts with `p`.
pub open spec fn has_prefix(s: Seq<char>, p: Seq<char>) -> bool {
    s.len() >= p.len() && s.take(p.len() as int) == p
}

/// Parse a store specification URI into its backend and the remainder
/// after the scheme; an unrecognized scheme is rejected with `Input`.
pub fn parse_spec_uri(uri: &str) -> (r: Result<BackendSpec, Error>)
    ensures
        has_prefix(uri@, "sqlite://"@) ==> (r matches Ok(BackendSpec::Sqlite(p)) && p@
            == uri@.skip("sqlite://"@.len() as int)),
        (!has_prefix(uri@, "sqlite://"@) && has_prefix(uri@, "postgres://"@)) ==> (r matches Ok(
            BackendSpec::Postgres(p),
        ) && p@ == uri@.skip("postgres://"@.len() as int)),
        (!has_prefix(uri@, "sqlite://"@) && !has_prefix(uri@, "postgres://"@)) ==> r is Err
            && r->Err_0.kind == ErrorKind::Input,
{
    proof {
        reveal_strlit("sqlite://");
        reveal_strlit("postgres://");
        assert("sqlite://"@.len() == 9);
        assert("postgres://"@.len() == 11);
    }
    if strip_prefix_eq(uri, "sqlite://") {
        let rest = uri.substring_char(9, uri.unicode_len());
        proof {
            assert(uri@.subrange(9, uri@.len() as int) =~= uri@.skip(9));
        }
        Result::Ok(BackendSpec::Sqlite(String::from_str(rest)))
    } else if strip_prefix_eq(uri, "postgres://") {
        let rest = uri.substring_char(11, uri.unicode_len());
        proof {
            assert(uri@.subrange(11, uri@.len() as int) =~= uri@.skip(11));
        }
        Result::Ok(BackendSpec::Postgres(String::from_str(rest)))
    } else {
        Result::Err(Error::new(ErrorKind::Input, String::from_str("unknown store scheme")))
    }
}

/// Whether the string starts with the given prefix.
fn strip_prefix_eq(s: &str, prefix: &str) -> (r: bool)
    ensures
        r == has_prefix(s@, prefix@),
{
    let n = prefix.unicode_len();
    if s.unicode_len() < n {
        return false;
    }
    let mut i: usize = 0;
    while i < n
        invariant
            0 <= i <= n,
            n == prefix@.len(),
            s@.len() >= n,
            forall|k: int| 0 <= k < i ==> s@[k] == prefix@[k],
        decreases n - i,
    {
        if s.get_char(i) != prefix.get_char(i) {
            proof {
                assert(s@.take(n as int)[i as int] != prefix@[i as int]);
            }
            return false;
        }
        i = i + 1;
    }
    proof {
        assert(s@.take(n as int) =~= prefix@);
    }
    true
}

} // verus!
