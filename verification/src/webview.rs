//! Which pages of the web view may use the microphone and camera: the
//! application's own pages only.
use vstd::prelude::*;
use crate::text::{
    chars_of, eq_chars, find_exec, find_from, lemma_find_from, starts_with_s, strip_prefix_str,
    subvec,
};

verus! {

/// Whether `c` ends the host part of a URI.
pub open spec fn host_end(c: char) -> bool {
    c == '/' || c == '?' || c == '#'
}

/// Index of the first character from `i` on that ends the host (or the length).
pub open spec fn host_stop(s: Seq<char>, i: int) -> int
    decreases s.len() - i,
{
    if 0 <= i < s.len() && !host_end(s[i]) {
        host_stop(s, i + 1)
    } else {
        i
    }
}

/// Text before the first `/`, `?` or `#`.
pub open spec fn host_part(s: Seq<char>) -> Seq<char> {
    s.take(host_stop(s, 0))
}

/// Index of the first `:` from `i` on (or the length).
pub open spec fn colon_stop(s: Seq<char>, i: int) -> int
    decreases s.len() - i,
{
    if 0 <= i < s.len() && s[i] != ':' {
        colon_stop(s, i + 1)
    } else {
        i
    }
}

/// Meaning of `is_app_origin`.
pub open spec fn is_app_origin_s(u: Seq<char>) -> bool {
    if starts_with_s(u, "tauri://"@) {
        host_part(u.skip("tauri://"@.len() as int)) == "localhost"@
    } else {
        match find_from(u, "://"@, 0) {
            None => false,
            Some(i) => {
                let scheme = u.take(i);
                let rest = u.skip(i + "://"@.len());
                let hp = host_part(rest);
                let host = hp.take(colon_stop(hp, 0));
                (scheme == "http"@ || scheme == "https"@) && (host == "localhost"@ || host
                    == "127.0.0.1"@ || host == "tauri.localhost"@)
            },
        }
    }
}

proof fn lemma_host_stop(s: Seq<char>, i: int)
    requires
        0 <= i <= s.len(),
    ensures
        i <= host_stop(s, i) <= s.len(),
    decreases s.len() - i,
{
    if i < s.len() && !host_end(s[i]) {
        lemma_host_stop(s, i + 1);
    }
}

proof fn lemma_colon_stop(s: Seq<char>, i: int)
    requires
        0 <= i <= s.len(),
    ensures
        i <= colon_stop(s, i) <= s.len(),
    decreases s.len() - i,
{
    if i < s.len() && s[i] != ':' {
        lemma_colon_stop(s, i + 1);
    }
}

fn host_of(s: &[char]) -> (r: Vec<char>)
    ensures
        r@ == host_part(s@),
{
    let mut i: usize = 0;
    while i < s.len() && !(s[i] == '/' || s[i] == '?' || s[i] == '#')
        invariant
            i <= s@.len(),
            host_stop(s@, i as int) == host_stop(s@, 0),
        decreases s@.len() - i,
    {
        i = i + 1;
    }
    subvec(s, 0, i)
}

fn is_lit(v: &[char], lit: &str) -> (b: bool)
    ensures
        b == (v@ == lit@),
{
    eq_chars(v, chars_of(lit).as_slice())
}

/// Whether a request comes from the application's own pages:
/// `tauri://localhost`, or `http(s)` on `localhost`, `127.0.0.1` or
/// `tauri.localhost` (any port).
pub fn is_app_origin(uri: &str) -> (b: bool)
    ensures
        b == is_app_origin_s(uri@),
{
    let u = chars_of(uri);
    match strip_prefix_str(u.as_slice(), "tauri://") {
        Some(rest) => {
            let host = host_of(rest.as_slice());
            return is_lit(host.as_slice(), "localhost");
        },
        None => {},
    }
    let sep = chars_of("://");
    match find_exec(u.as_slice(), sep.as_slice(), 0) {
        None => false,
        Some(i) => {
            proof {
                lemma_find_from(u@, sep@, 0);
            }
            let ulen = u.len();
            assert(i + sep@.len() <= ulen);
            let scheme = subvec(u.as_slice(), 0, i);
            assert(scheme@ =~= u@.take(i as int));
            let rest = subvec(u.as_slice(), i + sep.len(), u.len());
            assert(rest@ =~= u@.skip(i + "://"@.len()));
            let hp = host_of(rest.as_slice());
            let mut j: usize = 0;
            while j < hp.len() && hp[j] != ':'
                invariant
                    j <= hp@.len(),
                    colon_stop(hp@, j as int) == colon_stop(hp@, 0),
                decreases hp@.len() - j,
            {
                j = j + 1;
            }
            let host = subvec(hp.as_slice(), 0, j);
            assert(host@ =~= hp@.take(colon_stop(hp@, 0)));
            (is_lit(scheme.as_slice(), "http") || is_lit(scheme.as_slice(), "https")) && (is_lit(
                host.as_slice(),
                "localhost",
            ) || is_lit(host.as_slice(), "127.0.0.1") || is_lit(host.as_slice(), "tauri.localhost"))
        },
    }
}

} // verus!
