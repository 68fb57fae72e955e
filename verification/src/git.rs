//! Parsing of remote git reference paths.
//!
//! A remote reference is `refs/remotes/<peer>/<name>`: the peer's
//! Base58Btc-rendered public key, then the reference name proper.

use vstd::prelude::*;
use vstd::string::StrSliceExecFns;

use crate::identity::{b58_parse, PublicKey};

verus! {

/// Why a string failed to parse as a remote reference.
#[derive(Debug)]
pub enum RefError {
    /// The path is not `refs/remotes/` followed by a peer and a name.
    InvalidName(String),
    /// The name after the peer breaks the reference-name rules.
    Format(String),
}

/// A character a reference name may hold: printable ASCII without the
/// separators and glob characters git reserves.
pub open spec fn refname_char_ok(c: char) -> bool {
    ' ' < c && c <= '~' && c != '~' && c != '^' && c != ':' && c != '?' && c != '*' && c != '['
        && c != '\\'
}

/// A practical subset of the git reference-name rules: printable ASCII
/// without reserved characters, no leading, trailing or doubled slash,
/// no `..`, and no trailing dot.
pub open spec fn refname_ok(s: Seq<char>) -> bool {
    &&& s.len() > 0
    &&& (forall|i: int| 0 <= i < s.len() ==> refname_char_ok(#[trigger] s[i]))
    &&& s[0] != '/'
    &&& s[s.len() - 1] != '/'
    &&& s[s.len() - 1] != '.'
    &&& (forall|i: int|
        0 <= i < s.len() - 1 ==> !((#[trigger] s[i]) == '/' && s[i + 1] == '/') && !(s[i] == '.'
            && s[i + 1] == '.'))
}

/// Whether a string obeys [`refname_ok`].
pub fn refname_valid(s: &str) -> (r: bool)
    ensures
        r == refname_ok(s@),
{
    let n: usize = s.unicode_len();
    if n == 0 {
        return false;
    }
    if s.get_char(0) == '/' {
        return false;
    }
    let last = s.get_char(n - 1);
    if last == '/' || last == '.' {
        return false;
    }
    let mut i: usize = 0;
    while i < n
        invariant
            0 <= i <= n,
            n == s@.len(),
            n >= 1,
            forall|j: int| 0 <= j < i ==> refname_char_ok(#[trigger] s@[j]),
            forall|j: int|
                0 <= j < i && j < n - 1 ==> !((#[trigger] s@[j]) == '/' && s@[j + 1] == '/') && !(
                s@[j] == '.' && s@[j + 1] == '.'),
        decreases n - i,
    {
        let c = s.get_char(i);
        if !(' ' < c && c <= '~' && c != '~' && c != '^' && c != ':' && c != '?' && c != '*' && c
            != '[' && c != '\\') {
            return false;
        }
        if i + 1 < n {
            let d = s.get_char(i + 1);
            if (c == '/' && d == '/') || (c == '.' && d == '.') {
                return false;
            }
        }
        i += 1;
    }
    true
}

/// Whether the path splits as `refs/remotes/`, the rendering of `id`,
/// a slash, and the non-empty name `rest`.
pub open spec fn ref_splits(s: Seq<char>, id: Seq<u8>, rest: Seq<char>) -> bool {
    exists|k: int|
        {
            &&& s.len() > 13
            &&& s.subrange(0, 13) == "refs/remotes/"@
            &&& 13 <= k < s.len()
            &&& s[k] == '/'
            &&& (forall|j: int| 13 <= j < k ==> s[j] != '/')
            &&& (b58_parse(s.subrange(13, k)) matches Some(b) && b.len() == 32 && b == id)
            &&& rest == s.skip(k + 1)
            &&& rest.len() > 0
        }
}

/// Parse a remote reference path into the remote's identity and the
/// reference name. The whole path must be a well-formed reference name
/// ([`refname_ok`]); a path that is not draws `Format`, and a
/// well-formed one that does not split as a remote reference draws
/// `InvalidName`.
pub fn parse_ref(s: &str) -> (r: Result<(PublicKey, String), RefError>)
    ensures
        r matches Ok(t) ==> ref_splits(s@, t.0@, t.1@) && refname_ok(t.1@) && refname_ok(s@),
        r matches Err(e) ==> match e {
            RefError::Format(b) => b@ == s@ && !refname_ok(s@),
            RefError::InvalidName(b) => b@ == s@ && refname_ok(s@) && (forall|
                id: Seq<u8>,
                rest: Seq<char>,
            |
                !ref_splits(s@, id, rest)),
        },
{
    if !refname_valid(s) {
        return Err(RefError::Format(s.to_owned()));
    }
    let n: usize = s.unicode_len();
    let prefix = "refs/remotes/";
    proof {
        reveal_strlit("refs/remotes/");
    }
    if n < 14 {
        proof {
            assert forall|id: Seq<u8>, rest: Seq<char>| !ref_splits(s@, id, rest) by {
                if ref_splits(s@, id, rest) {
                    let k = choose|k: int|
                        {
                            &&& s@.len() > 13
                            &&& s@.subrange(0, 13) == "refs/remotes/"@
                            &&& 13 <= k < s@.len()
                            &&& s@[k] == '/'
                            &&& (forall|j: int| 13 <= j < k ==> s@[j] != '/')
                            &&& (b58_parse(s@.subrange(13, k)) matches Some(b) && b.len() == 32
                                && b == id)
                            &&& rest == s@.skip(k + 1)
                            &&& rest.len() > 0
                        };
                    assert(s@.len() > k + 1);
                }
            }
        }
        return Err(RefError::InvalidName(s.to_owned()));
    }
    let mut i: usize = 0;
    while i < 13
        invariant
            0 <= i <= 13,
            n == s@.len(),
            n >= 14,
            refname_ok(s@),
            prefix@ == "refs/remotes/"@,
            prefix@.len() == 13,
            forall|j: int| 0 <= j < i ==> s@[j] == prefix@[j],
        decreases 13 - i,
    {
        if s.get_char(i) != prefix.get_char(i) {
            proof {
                assert forall|id: Seq<u8>, rest: Seq<char>| !ref_splits(s@, id, rest) by {
                    if ref_splits(s@, id, rest) {
                        assert(s@.subrange(0, 13)[i as int] == s@[i as int]);
                    }
                }
            }
            return Err(RefError::InvalidName(s.to_owned()));
        }
        i += 1;
    }
    proof {
        assert(s@.subrange(0, 13) =~= "refs/remotes/"@);
    }
    // Find the slash that ends the peer component.
    let mut k: usize = 13;
    let mut found = false;
    while !found && k < n
        invariant
            13 <= k <= n,
            n == s@.len(),
            refname_ok(s@),
            forall|j: int| 13 <= j < k ==> s@[j] != '/',
            found ==> k < n && s@[k as int] == '/',
        decreases n - k + (if found { 0int } else { 1int }),
    {
        if s.get_char(k) == '/' {
            found = true;
        } else {
            k += 1;
        }
    }
    if !found {
        proof {
            assert forall|id: Seq<u8>, rest: Seq<char>| !ref_splits(s@, id, rest) by {
                if ref_splits(s@, id, rest) {
                    let m = choose|m: int|
                        {
                            &&& s@.len() > 13
                            &&& s@.subrange(0, 13) == "refs/remotes/"@
                            &&& 13 <= m < s@.len()
                            &&& s@[m] == '/'
                            &&& (forall|j: int| 13 <= j < m ==> s@[j] != '/')
                            &&& (b58_parse(s@.subrange(13, m)) matches Some(b) && b.len() == 32
                                && b == id)
                            &&& rest == s@.skip(m + 1)
                            &&& rest.len() > 0
                        };
                    assert(s@[m] == '/');
                }
            }
        }
        return Err(RefError::InvalidName(s.to_owned()));
    }
    let component = s.substring_char(13, k);
    proof {
        assert(component@ =~= s@.subrange(13, k as int));
    }
    let id: PublicKey = match PublicKey::decode(component) {
        Some(id) => id,
        None => {
            proof {
                assert forall|id: Seq<u8>, rest: Seq<char>| !ref_splits(s@, id, rest) by {
                    if ref_splits(s@, id, rest) {
                        let m = choose|m: int|
                            {
                                &&& s@.len() > 13
                                &&& s@.subrange(0, 13) == "refs/remotes/"@
                                &&& 13 <= m < s@.len()
                                &&& s@[m] == '/'
                                &&& (forall|j: int| 13 <= j < m ==> s@[j] != '/')
                                &&& (b58_parse(s@.subrange(13, m)) matches Some(b) && b.len() == 32
                                    && b == id)
                                &&& rest == s@.skip(m + 1)
                                &&& rest.len() > 0
                            };
                        assert(m == k as int) by {
                            if m < k as int {
                                assert(s@[m] != '/');
                            }
                            if m > k as int {
                                assert(s@[k as int] != '/');
                            }
                        }
                    }
                }
            }
            return Err(RefError::InvalidName(s.to_owned()));
        },
    };
    if k + 1 >= n {
        proof {
            assert forall|idv: Seq<u8>, rest: Seq<char>| !ref_splits(s@, idv, rest) by {
                if ref_splits(s@, idv, rest) {
                    let m = choose|m: int|
                        {
                            &&& s@.len() > 13
                            &&& s@.subrange(0, 13) == "refs/remotes/"@
                            &&& 13 <= m < s@.len()
                            &&& s@[m] == '/'
                            &&& (forall|j: int| 13 <= j < m ==> s@[j] != '/')
                            &&& (b58_parse(s@.subrange(13, m)) matches Some(b) && b.len() == 32
                                && b == idv)
                            &&& rest == s@.skip(m + 1)
                            &&& rest.len() > 0
                        };
                    assert(m == k as int) by {
                        if m < k as int {
                            assert(s@[m] != '/');
                        }
                        if m > k as int {
                            assert(s@[k as int] != '/');
                        }
                    }
                    assert(rest.len() == 0);
                }
            }
        }
        return Err(RefError::InvalidName(s.to_owned()));
    }
    let rest_part = s.substring_char(k + 1, n);
    proof {
        assert(rest_part@ =~= s@.skip(k as int + 1));
    }
    let rest = rest_part.to_owned();
    proof {
        assert(rest@ =~= s@.skip(k as int + 1));
        assert(refname_ok(rest@)) by {
            assert forall|i: int| 0 <= i < rest@.len() implies refname_char_ok(
                #[trigger] rest@[i],
            ) by {
                assert(rest@[i] == s@[k as int + 1 + i]);
            }
            assert(rest@[0] == s@[k as int + 1]);
            assert(!(s@[k as int] == '/' && s@[k as int + 1] == '/'));
            assert(rest@[rest@.len() - 1] == s@[s@.len() - 1]);
            assert forall|i: int|
                0 <= i < rest@.len() - 1 implies !((#[trigger] rest@[i]) == '/' && rest@[i + 1]
                == '/') && !(rest@[i] == '.' && rest@[i + 1] == '.') by {
                assert(rest@[i] == s@[k as int + 1 + i]);
                assert(rest@[i + 1] == s@[k as int + 1 + i + 1]);
                assert(!((s@[k as int + 1 + i]) == '/' && s@[k as int + 1 + i + 1] == '/') && !(
                s@[k as int + 1 + i] == '.' && s@[k as int + 1 + i + 1] == '.'));
            }
        }
        assert(ref_splits(s@, id@, rest@)) by {
            assert({
                &&& s@.len() > 13
                &&& s@.subrange(0, 13) == "refs/remotes/"@
                &&& 13 <= (k as int) && (k as int) < s@.len()
                &&& s@[k as int] == '/'
                &&& (forall|j: int| 13 <= j < k as int ==> s@[j] != '/')
                &&& (b58_parse(s@.subrange(13, k as int)) matches Some(b) && b.len() == 32 && b
                    == id@)
                &&& rest@ == s@.skip(k as int + 1)
                &&& rest@.len() > 0
            });
        }
    }
    Ok((id, rest))
}

} // verus!
