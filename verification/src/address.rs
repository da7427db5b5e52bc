//! The server address that the client connects to.

use vstd::prelude::*;

verus! {

/// The scheme added to an address that has none.
pub open spec fn http_scheme() -> Seq<char> {
    seq!['h', 't', 't', 'p', ':', '/', '/']
}

/// The secure scheme, which an address may already carry.
pub open spec fn https_scheme() -> Seq<char> {
    seq!['h', 't', 't', 'p', 's', ':', '/', '/']
}

/// The port suffix added to an address that has no port.
pub open spec fn default_port_suffix() -> Seq<char> {
    seq![':', '5', '0', '0', '5', '1']
}

/// Whether `s` begins with `p`.
pub open spec fn has_prefix(s: Seq<char>, p: Seq<char>) -> bool {
    p.len() <= s.len() && s.subrange(0, p.len() as int) == p
}

/// The address with a scheme and a port: an address that already names a
/// scheme is kept; one with a `:` gets `http://` in front; any other gets
/// `http://` in front and the default port after it.
pub open spec fn normalized_address(s: Seq<char>) -> Seq<char> {
    if has_prefix(s, http_scheme()) || has_prefix(s, https_scheme()) {
        s
    } else if s.contains(':') {
        http_scheme() + s
    } else {
        http_scheme() + s + default_port_suffix()
    }
}

/// The characters of `s`.
fn chars_of(s: &str) -> (v: Vec<char>)
    ensures
        v@ == s@,
{
    let mut v: Vec<char> = Vec::new();
    for c in it: s.chars()
        invariant
            v@ == it.seq().subrange(0, it.index() as int),
    {
        v.push(c);
        assert(v@ =~= it.seq().subrange(0, it.index() + 1));
    }
    v
}

/// Whether `s` begins with `p`.
fn starts_with(s: &Vec<char>, p: &Vec<char>) -> (r: bool)
    ensures
        r == has_prefix(s@, p@),
{
    if p.len() > s.len() {
        return false;
    }
    let mut i: usize = 0;
    while i < p.len()
        invariant
            p@.len() <= s@.len(),
            i <= p@.len(),
            forall|j: int| 0 <= j < i ==> s@[j] == p@[j],
        decreases p@.len() - i,
    {
        if s[i] != p[i] {
            assert(s@.subrange(0, p@.len() as int)[i as int] != p@[i as int]);
            return false;
        }
        i = i + 1;
    }
    assert(s@.subrange(0, p@.len() as int) =~= p@);
    true
}

/// Whether `s` holds the character `c`.
fn contains_char(s: &Vec<char>, c: char) -> (r: bool)
    ensures
        r == s@.contains(c),
{
    let mut i: usize = 0;
    while i < s.len()
        invariant
            i <= s@.len(),
            forall|j: int| 0 <= j < i ==> s@[j] != c,
        decreases s@.len() - i,
    {
        if s[i] == c {
            return true;
        }
        i = i + 1;
    }
    false
}

/// Adds the `http://` scheme and the default port where the address lacks
/// them.
pub fn normalize_server_address(server: &str) -> (r: String)
    ensures
        r@ == normalized_address(server@),
        has_prefix(server@, http_scheme()) || has_prefix(server@, https_scheme()) ==> r@ == server@,
        !has_prefix(server@, http_scheme()) && !has_prefix(server@, https_scheme())
            && server@.contains(':') ==> r@ == http_scheme() + server@,
        !has_prefix(server@, http_scheme()) && !has_prefix(server@, https_scheme())
            && !server@.contains(':') ==> r@ == http_scheme() + server@ + default_port_suffix(),
{
    proof {
        law_scheme_and_port(server@);
    }
    let http = "http://";
    let https = "https://";
    let port = ":50051";
    proof {
        reveal_strlit("http://");
        reveal_strlit("https://");
        reveal_strlit(":50051");
    }
    assert(http@ == http_scheme());
    assert(https@ == https_scheme());
    assert(port@ == default_port_suffix());
    let chars = chars_of(server);
    if starts_with(&chars, &chars_of(http)) || starts_with(&chars, &chars_of(https)) {
        return String::from_str(server);
    }
    let mut out = String::from_str(http);
    out.append(server);
    if contains_char(&chars, ':') {
        return out;
    }
    out.append(port);
    out
}

/// Normalizing keeps an address that names a scheme, puts `http://` in front
/// of one that names a port (holds a `:`), and puts `http://` in front of and
/// the default port after any other.
pub proof fn law_scheme_and_port(s: Seq<char>)
    ensures
        has_prefix(s, http_scheme()) || has_prefix(s, https_scheme()) ==> normalized_address(s)
            == s,
        !has_prefix(s, http_scheme()) && !has_prefix(s, https_scheme()) && s.contains(':')
            ==> normalized_address(s) == http_scheme() + s,
        !has_prefix(s, http_scheme()) && !has_prefix(s, https_scheme()) && !s.contains(':')
            ==> normalized_address(s) == http_scheme() + s + default_port_suffix(),
{
}

/// A normalized address always names a scheme, so normalizing it again
/// changes nothing.
pub proof fn law_normalize_idempotent(s: Seq<char>)
    ensures
        has_prefix(normalized_address(s), http_scheme()) || has_prefix(
            normalized_address(s),
            https_scheme(),
        ),
        normalized_address(normalized_address(s)) == normalized_address(s),
{
    let r = normalized_address(s);
    if !(has_prefix(s, http_scheme()) || has_prefix(s, https_scheme())) {
        assert(r.subrange(0, 7) =~= http_scheme());
    }
}

} // verus!
