//! The global API configuration and the auth-token text it travels as.
//!
//! The key and the optional external address are carried in one
//! environment-variable value, `api_key` or `api_key|external_ip`; the
//! first `|` separates the two. The caller owns the configuration files
//! the value is written to and read from.

use vstd::prelude::*;
use vstd::string::StrSliceExecFns;
use vstd::string::StringExecFns;

verus! {

/// The globally configured API key and optional external address.
#[derive(Debug)]
pub struct GlobalApiConfig {
    pub api_key: String,
    pub external_ip: Option<String>,
}

impl Clone for GlobalApiConfig {
    fn clone(&self) -> (r: Self)
        ensures
            r == *self,
    {
        GlobalApiConfig { api_key: self.api_key.clone(), external_ip: self.external_ip.clone() }
    }
}

/// The characters of an optional string.
pub open spec fn opt_view(o: Option<String>) -> Option<Seq<char>> {
    match o {
        Some(s) => Some(s@),
        None => None,
    }
}

/// The auth-token text carrying a key and an optional external address.
pub open spec fn spec_encode_auth_token(
    api_key: Seq<char>,
    external_ip: Option<Seq<char>>,
) -> Seq<char> {
    match external_ip {
        Some(ip) => api_key + seq!['|'] + ip,
        None => api_key,
    }
}

/// The position of the first `|` of `s`, or its length when none occurs.
pub open spec fn first_bar(s: Seq<char>) -> int
    decreases s.len(),
{
    if s.len() == 0 {
        0
    } else if s[0] == '|' {
        0
    } else {
        1 + first_bar(s.drop_first())
    }
}

/// `first_bar` is exactly the boundary behind the bar-free prefix.
proof fn lemma_first_bar_boundary(s: Seq<char>, at: int)
    requires
        0 <= at <= s.len(),
        forall|j: int| 0 <= j < at ==> s[j] != '|',
        at < s.len() ==> s[at] == '|',
    ensures
        first_bar(s) == at,
    decreases s.len(),
{
    if s.len() > 0 && at > 0 {
        lemma_first_bar_boundary(s.drop_first(), at - 1);
    }
}

/// What `first_bar` answers: a position within the text, holding a `|`
/// unless it is the length, with no `|` before it.
proof fn lemma_first_bar_props(s: Seq<char>)
    ensures
        0 <= first_bar(s) <= s.len(),
        first_bar(s) < s.len() ==> s[first_bar(s)] == '|',
        forall|j: int| 0 <= j < first_bar(s) ==> s[j] != '|',
    decreases s.len(),
{
    if s.len() > 0 && s[0] != '|' {
        lemma_first_bar_props(s.drop_first());
        assert forall|j: int| 0 <= j < first_bar(s) implies s[j] != '|' by {
            if j > 0 {
                assert(s.drop_first()[j - 1] != '|');
            }
        }
    }
}

/// The key and the optional external address a token parses into: the text
/// before its first `|` and, when one occurs, everything behind it.
pub open spec fn parsed_config(token: Seq<char>) -> (Seq<char>, Option<Seq<char>>) {
    let i = first_bar(token);
    if i < token.len() {
        (token.take(i), Some(token.skip(i + 1)))
    } else {
        (token, None)
    }
}

/// Writes a configuration as its auth-token text.
pub fn encode_auth_token(config: &GlobalApiConfig) -> (s: String)
    ensures
        s@ == spec_encode_auth_token(config.api_key@, opt_view(config.external_ip)),
{
    match &config.external_ip {
        Some(ip) => {
            let s = config.api_key.clone().concat("|").concat(ip.as_str());
            proof {
                reveal_strlit("|");
                assert("|"@ =~= seq!['|']);
                assert(s@ =~= config.api_key@ + seq!['|'] + ip@);
            }
            s
        },
        None => config.api_key.clone(),
    }
}

/// Reads a configuration back from its auth-token text.
#[verifier::loop_isolation(false)]
pub fn parse_auth_token(token: &str) -> (c: GlobalApiConfig)
    ensures
        c.api_key@ == parsed_config(token@).0,
        opt_view(c.external_ip) == parsed_config(token@).1,
{
    let n = token.unicode_len();
    let mut i: usize = 0;
    while i < n
        invariant
            i <= n,
            forall|j: int| 0 <= j < i ==> token@[j] != '|',
        decreases n - i,
    {
        if token.get_char(i) == '|' {
            proof {
                lemma_first_bar_boundary(token@, i as int);
                assert(token@.subrange(0, i as int) =~= token@.take(i as int));
                assert(token@.subrange(i + 1, n as int) =~= token@.skip(i + 1));
            }
            let api_key = token.substring_char(0, i).to_owned();
            let ip = token.substring_char(i + 1, n).to_owned();
            return GlobalApiConfig { api_key, external_ip: Some(ip) };
        }
        i = i + 1;
    }
    proof {
        lemma_first_bar_boundary(token@, n as int);
    }
    GlobalApiConfig { api_key: token.to_owned(), external_ip: None }
}

/// Law: any token survives a parse followed by an encode unchanged.
pub proof fn lemma_parse_then_encode_identity(token: Seq<char>)
    ensures
        spec_encode_auth_token(parsed_config(token).0, parsed_config(token).1) == token,
{
    lemma_first_bar_props(token);
    let i = first_bar(token);
    if i < token.len() {
        assert(token.take(i) + seq!['|'] + token.skip(i + 1) =~= token);
    }
}

/// Law: a configuration whose key holds no `|` survives an encode followed
/// by a parse unchanged; a key holding a `|` would be cut at it.
pub proof fn lemma_encode_then_parse_identity(api_key: Seq<char>, external_ip: Option<Seq<char>>)
    requires
        forall|j: int| 0 <= j < api_key.len() ==> api_key[j] != '|',
    ensures
        parsed_config(spec_encode_auth_token(api_key, external_ip)) == (api_key, external_ip),
{
    match external_ip {
        None => {
            lemma_first_bar_boundary(api_key, api_key.len() as int);
        },
        Some(ip) => {
            let t = api_key + seq!['|'] + ip;
            lemma_first_bar_boundary(t, api_key.len() as int);
            assert(t.take(api_key.len() as int) =~= api_key);
            assert(t.skip(api_key.len() as int + 1) =~= ip);
        },
    }
}

/// Whether a string holds no `|`, the shape of a key that survives the
/// token round trip.
pub fn has_no_bar(s: &str) -> (r: bool)
    ensures
        r == (forall|j: int| 0 <= j < s@.len() ==> s@[j] != '|'),
{
    let n = s.unicode_len();
    let mut i: usize = 0;
    while i < n
        invariant
            i <= n,
            n == s@.len(),
            forall|j: int| 0 <= j < i ==> s@[j] != '|',
        decreases n - i,
    {
        if s.get_char(i) == '|' {
            return false;
        }
        i = i + 1;
    }
    true
}

} // verus!
