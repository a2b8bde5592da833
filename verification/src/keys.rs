//! Wallet configuration: private-key normalization and the shapes the
//! environment supplies.

use vstd::prelude::*;
use vstd::string::{StrSliceExecFns, StringExecFns};

use crate::config::{char_is_space, is_space};

verus! {

/// Wallet and endpoint configuration read from the environment.
#[derive(Debug, Clone)]
pub struct EnvConfig {
    pub private_key: String,
    pub clob_api_url: String,
    pub gamma_api_url: String,
    pub creds: Option<ApiCreds>,
}

/// API credentials for order execution.
#[derive(Debug, Clone)]
pub struct ApiCreds {
    pub key: String,
    pub secret: String,
    pub passphrase: String,
}

/// Why a private key was refused.
#[derive(Debug, Clone, PartialEq, Eq, Structural)]
pub enum KeyError {
    /// Not two prefix characters plus sixty-four digits.
    BadLength,
    /// A digit outside the hexadecimal alphabet.
    BadHex,
}

/// How many white-space characters the text starts with.
pub open spec fn lead_spaces(s: Seq<char>) -> int
    decreases s.len(),
{
    if s.len() == 0 {
        0
    } else if is_space(s[0]) {
        1 + lead_spaces(s.skip(1))
    } else {
        0
    }
}

/// How many white-space characters the text ends with.
pub open spec fn trail_spaces(s: Seq<char>) -> int
    decreases s.len(),
{
    if s.len() == 0 {
        0
    } else if is_space(s.last()) {
        1 + trail_spaces(s.drop_last())
    } else {
        0
    }
}

/// The text without its leading and trailing white space.
pub open spec fn trimmed(s: Seq<char>) -> Seq<char> {
    let rest = s.skip(lead_spaces(s));
    rest.take(rest.len() - trail_spaces(rest))
}

/// The count of leading spaces is in range and characterized by its
/// position.
pub proof fn lemma_lead_spaces(s: Seq<char>)
    ensures
        0 <= lead_spaces(s) <= s.len(),
        forall|i: int| 0 <= i < lead_spaces(s) ==> is_space(#[trigger] s[i]),
        lead_spaces(s) < s.len() ==> !is_space(s[lead_spaces(s)]),
    decreases s.len(),
{
    if s.len() > 0 && is_space(s[0]) {
        lemma_lead_spaces(s.skip(1));
        assert forall|i: int| 0 <= i < lead_spaces(s) implies is_space(#[trigger] s[i]) by {
            if i > 0 {
                assert(s.skip(1)[i - 1] == s[i]);
                assert(is_space(s.skip(1)[i - 1]));
            }
        }
        if lead_spaces(s) < s.len() {
            assert(s.skip(1)[lead_spaces(s) - 1] == s[lead_spaces(s)]);
        }
    }
}

/// The count of trailing spaces is in range and characterized by its
/// position.
pub proof fn lemma_trail_spaces(s: Seq<char>)
    ensures
        0 <= trail_spaces(s) <= s.len(),
        forall|i: int| s.len() - trail_spaces(s) <= i < s.len() ==> is_space(#[trigger] s[i]),
        trail_spaces(s) < s.len() ==> !is_space(s[s.len() - trail_spaces(s) - 1]),
    decreases s.len(),
{
    if s.len() > 0 && is_space(s.last()) {
        lemma_trail_spaces(s.drop_last());
        assert forall|i: int| s.len() - trail_spaces(s) <= i < s.len() implies is_space(
            #[trigger] s[i],
        ) by {
            if i < s.len() - 1 {
                assert(s.drop_last()[i] == s[i]);
                assert(is_space(s.drop_last()[i]));
            }
        }
        if trail_spaces(s) < s.len() {
            assert(s.drop_last()[s.len() - trail_spaces(s) - 1] == s[s.len() - trail_spaces(s)
                - 1]);
        }
    }
}

/// The text without its leading and trailing white space.
#[verifier::loop_isolation(false)]
pub fn trim_text(s: &str) -> (r: String)
    ensures
        r@ == trimmed(s@),
{
    let n = s.unicode_len();
    let mut a: usize = 0;
    while a < n && char_is_space(s.get_char(a))
        invariant
            0 <= a <= n,
            n == s@.len(),
            forall|i: int| 0 <= i < a ==> is_space(#[trigger] s@[i]),
        decreases n - a,
    {
        a = a + 1;
    }
    proof {
        lemma_lead_spaces(s@);
        assert(lead_spaces(s@) == a) by {
            if lead_spaces(s@) < a {
                assert(is_space(s@[lead_spaces(s@)]));
            }
            if a < lead_spaces(s@) {
                assert(is_space(s@[a as int]));
            }
        }
    }
    let mut b: usize = n;
    while b > a && char_is_space(s.get_char(b - 1))
        invariant
            a <= b <= n,
            n == s@.len(),
            forall|i: int| b <= i < n ==> is_space(#[trigger] s@[i]),
        decreases b,
    {
        b = b - 1;
    }
    proof {
        let rest = s@.skip(a as int);
        lemma_trail_spaces(rest);
        assert forall|i: int| b <= i < n implies is_space(#[trigger] rest[i - a]) by {
            assert(rest[i - a] == s@[i]);
        }
        assert(trail_spaces(rest) == n - b) by {
            if trail_spaces(rest) < n - b {
                assert(is_space(rest[rest.len() - trail_spaces(rest) - 1])) by {
                    assert(rest[rest.len() - trail_spaces(rest) - 1] == s@[n - trail_spaces(rest)
                        - 1]);
                }
            }
            if n - b < trail_spaces(rest) {
                if b > a {
                    assert(is_space(rest[b - a - 1]));
                    assert(rest[b - a - 1] == s@[b - 1]);
                }
            }
        }
        assert(rest.take(rest.len() - trail_spaces(rest)) =~= s@.subrange(a as int, b as int));
    }
    let out = s.substring_char(a, b);
    out.to_owned()
}

/// Whether a character is a hexadecimal digit.
pub open spec fn is_hex(c: char) -> bool {
    ('0' <= c && c <= '9') || ('a' <= c && c <= 'f') || ('A' <= c && c <= 'F')
}

/// The key with white space shed and the hexadecimal prefix supplied when
/// missing.
pub open spec fn normalized_key(raw: Seq<char>) -> Seq<char> {
    let t = trimmed(raw);
    if t.len() >= 2 && t.subrange(0, 2) == "0x"@ {
        t
    } else {
        "0x"@ + t
    }
}

/// Normalize a wallet private key: shed white space, supply the
/// hexadecimal prefix when missing, and demand exactly the prefix plus
/// sixty-four hexadecimal digits.
#[verifier::loop_isolation(false)]
pub fn normalize_private_key(raw: &str) -> (r: Result<String, KeyError>)
    ensures
        match r {
            Ok(k) => k@ == normalized_key(raw@) && k@.len() == 66 && (forall|i: int|
                2 <= i < 66 ==> is_hex(#[trigger] k@[i])),
            Err(e) => if e == KeyError::BadLength {
                normalized_key(raw@).len() != 66
            } else {
                normalized_key(raw@).len() == 66 && exists|i: int|
                    2 <= i < 66 && !is_hex(#[trigger] normalized_key(raw@)[i])
            },
        },
{
    let t = trim_text(raw);
    let prefix = String::from_str("0x");
    proof {
        reveal_strlit("0x");
    }
    let key: String = if crate::store::has_prefix(&t, &prefix) {
        proof {
            assert(t@.subrange(0, 2) == "0x"@);
        }
        t
    } else {
        proof {
            if t@.len() >= 2 && t@.subrange(0, 2) == "0x"@ {
                assert(t@.subrange(0, prefix@.len() as int) == prefix@);
            }
        }
        let mut k = prefix;
        k.append(t.as_str());
        k
    };
    proof {
        assert(key@ == normalized_key(raw@));
    }
    let n = key.as_str().unicode_len();
    if n != 66 {
        return Err(KeyError::BadLength);
    }
    let mut i: usize = 2;
    while i < 66
        invariant
            2 <= i <= 66,
            key@.len() == 66,
            forall|j: int| 2 <= j < i ==> is_hex(#[trigger] key@[j]),
        decreases 66 - i,
    {
        let c = key.as_str().get_char(i);
        let ok = (c >= '0' && c <= '9') || (c >= 'a' && c <= 'f') || (c >= 'A' && c <= 'F');
        if !ok {
            return Err(KeyError::BadHex);
        }
        i = i + 1;
    }
    Ok(key)
}

} // verus!
