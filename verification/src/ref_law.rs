//! A reference that names an absolute path or climbs out of the vault with a
//! `..` part is never joined onto the vault.
use vstd::prelude::*;
use crate::meeting_refs::{bad_part, checked_rel_s, ref_shape_s, strip_dot_slash};
use crate::text::{c_back, has_char, idx_of, lemma_idx_of, replace_char_s, split_from, split_s, trim_end_c, trim_s};

verus! {

/// The path of a reference as it is read: trimmed, leading `./` removed,
/// backslashes read as `/`.
pub open spec fn ref_path_s(raw: Seq<char>) -> Seq<char> {
    replace_char_s(strip_dot_slash(trim_s(raw)), '\\', '/')
}

/// `p` has a part `..` between slashes (or the ends) at `a`.
pub open spec fn dotdot_at(p: Seq<char>, a: int) -> bool {
    &&& 0 <= a
    &&& a + 2 <= p.len()
    &&& p[a] == '.'
    &&& p[a + 1] == '.'
    &&& (a == 0 || p[a - 1] == '/')
    &&& (a + 2 == p.len() || p[a + 2] == '/')
}

/// `p` names an absolute path or has a `..` part.
pub open spec fn escapes(p: Seq<char>) -> bool {
    (p.len() > 0 && p[0] == '/') || exists|a: int| dotdot_at(p, a)
}

proof fn lemma_c_back_all(s: Seq<char>, c: char, j: int)
    requires
        0 <= j <= s.len(),
    ensures
        0 <= c_back(s, c, j) <= j,
        forall|k: int| c_back(s, c, j) <= k < j ==> #[trigger] s[k] == c,
    decreases j,
{
    if 0 < j && s[j - 1] == c {
        lemma_c_back_all(s, c, j - 1);
    }
}

/// The part of `s` that starts at `a`, a part start at or after the part start
/// `i`, is one of the parts split from `i` on.
proof fn lemma_part_at(s: Seq<char>, c: char, i: int, a: int)
    requires
        0 <= i <= a <= s.len(),
        i == 0 || s[i - 1] == c,
        a == i || s[a - 1] == c,
    ensures
        exists|k: int|
            0 <= k < split_from(s, c, i).len() && #[trigger] split_from(s, c, i)[k] == s.subrange(
                a,
                idx_of(s, c, a),
            ),
    decreases a - i,
{
    lemma_idx_of(s, c, i);
    let e = idx_of(s, c, i);
    let parts = split_from(s, c, i);
    if a == i {
        if e < s.len() {
            assert(parts[0] == s.subrange(i, e));
        } else {
            assert(parts[0] == s.subrange(i, s.len() as int));
        }
    } else {
        assert(s[a - 1] == c);
        assert(e <= a - 1);
        assert(e < s.len());
        lemma_part_at(s, c, e + 1, a);
        let rest = split_from(s, c, e + 1);
        let k = choose|k: int| 0 <= k < rest.len() && #[trigger] rest[k] == s.subrange(a, idx_of(s, c, a));
        assert(parts == seq![s.subrange(i, e)] + rest);
        assert(parts[k + 1] == rest[k]);
    }
}

/// A path with a `..` part between slashes is refused.
proof fn lemma_dotdot_refused(p: Seq<char>, a: int)
    requires
        dotdot_at(p, a),
    ensures
        !checked_rel_s(p),
{
    lemma_idx_of(p, '/', a);
    let e = idx_of(p, '/', a);
    assert(p[a] != '/' && p[a + 1] != '/');
    assert(e == a + 2);
    lemma_part_at(p, '/', 0, a);
    let parts = split_s(p, '/');
    let k = choose|k: int| 0 <= k < parts.len() && #[trigger] parts[k] == p.subrange(a, idx_of(p, '/', a));
    reveal_strlit("..");
    assert(p.subrange(a, a + 2) =~= ".."@);
    assert(bad_part(parts[k]));
}

/// A reference whose path is absolute or has a `..` part, backslashes read
/// as slashes, resolves to nothing inside the vault: it has no shape, or its
/// path is refused when joined onto the vault, or it is the bare name `..`,
/// refused as well (and no file is named `..`).
pub proof fn lemma_escaping_ref_refused(raw: Seq<char>)
    requires
        escapes(ref_path_s(raw)),
    ensures
        match ref_shape_s(raw) {
            None => true,
            Some((is_path, rel, hint)) => !checked_rel_s(rel) && (!is_path ==> rel == ".."@),
        },
{
    let p = ref_path_s(raw);
    let t = trim_end_c(p, '/');
    let j = c_back(p, '/', p.len() as int);
    lemma_c_back_all(p, '/', p.len() as int);
    assert(t =~= p.take(j));
    if ref_shape_s(raw) is Some {
        assert(strip_dot_slash(trim_s(raw)).len() > 0);
        assert(t.len() > 0);
        if p.len() > 0 && p[0] == '/' {
            assert(t[0] == '/');
            assert(has_char(t, '/'));
        } else {
            let a = choose|a: int| dotdot_at(p, a);
            // the `..` part is not among the trailing slashes
            assert(a + 2 <= j) by {
                if a + 2 > j {
                    if a >= j {
                        assert(p[a] == '/');
                    } else {
                        assert(p[a + 1] == '/');
                    }
                }
            }
            assert(dotdot_at(t, a)) by {
                assert(t[a] == p[a] && t[a + 1] == p[a + 1]);
                if a > 0 {
                    assert(t[a - 1] == p[a - 1]);
                }
                if a + 2 < j {
                    assert(t[a + 2] == p[a + 2]);
                }
            }
            lemma_dotdot_refused(t, a);
            if !has_char(t, '/') {
                assert(a == 0) by {
                    if a > 0 {
                        assert(t[a - 1] == '/');
                    }
                }
                assert(a + 2 == t.len()) by {
                    if a + 2 < t.len() {
                        assert(t[a + 2] == '/');
                    }
                }
                reveal_strlit("..");
                assert(t =~= ".."@);
            }
        }
    }
}

} // verus!
