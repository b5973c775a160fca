//! Portable entry paths.
//!
//! An archive stores every entry under a forward-slash separated relative
//! path.  [`normalize_path`] turns a platform path (which may use `\` as its
//! separator) into that canonical form.  [`is_safe_name`] decides whether a
//! record path read from an archive may be joined onto a destination root:
//! it rejects absolute paths, backslashes, empty segments and
//! parent-directory (`..`) segments, the classic path-traversal escape.

use vstd::prelude::*;

verus! {

/// The canonical archive form of a path: every backslash replaced by a
/// forward slash, all other characters kept.
pub open spec fn normalize(s: Seq<char>) -> Seq<char> {
    s.map_values(|c: char| if c == '\\' { '/' } else { c })
}

/// A directory record's stored name: the given name, with a trailing slash
/// appended unless it already ends in a separator.
pub open spec fn with_dir_slash(s: Seq<char>) -> Seq<char> {
    if s.len() > 0 && (s.last() == '/' || s.last() == '\\') {
        s
    } else {
        s.push('/')
    }
}

/// `..` stands as a complete path segment beginning at index `i`.
pub open spec fn dotdot_at(s: Seq<char>, i: int) -> bool {
    &&& 0 <= i
    &&& i + 1 < s.len()
    &&& s[i] == '.'
    &&& s[i + 1] == '.'
    &&& (i == 0 || s[i - 1] == '/')
    &&& (i + 2 == s.len() || s[i + 2] == '/')
}

/// Two adjacent slashes beginning at index `i`: an empty path segment.
pub open spec fn double_slash_at(s: Seq<char>, i: int) -> bool {
    &&& 0 <= i
    &&& i + 1 < s.len()
    &&& s[i] == '/'
    &&& s[i + 1] == '/'
}

/// A record path that may be joined onto the destination root: it is
/// non-empty, relative (no leading slash), uses only forward slashes, has no
/// empty segment, and no `..` segment that would climb out of the root.  A
/// trailing slash (the directory marker) is allowed.
pub open spec fn safe_name(s: Seq<char>) -> bool {
    &&& s.len() > 0
    &&& s[0] != '/'
    &&& forall|i: int| 0 <= i < s.len() ==> s[i] != '\\'
    &&& forall|i: int| !double_slash_at(s, i)
    &&& forall|i: int| !dotdot_at(s, i)
}

/// No backslash stands anywhere in `s`: the path is in the archive's
/// canonical forward-slash form.
pub open spec fn forward_slashed(s: Seq<char>) -> bool {
    forall|i: int| 0 <= i < s.len() ==> s[i] != '\\'
}

/// Normalization always yields a canonical forward-slash path.
pub proof fn lemma_normalize_forward_slashed(s: Seq<char>)
    ensures
        forward_slashed(normalize(s)),
{
    assert forall|i: int| 0 <= i < normalize(s).len() implies normalize(s)[i] != '\\' by {
        assert(normalize(s)[i] == if s[i] == '\\' {
            '/'
        } else {
            s[i]
        });
    }
}

/// Appending the directory marker to a safe name that does not already end
/// in a separator keeps it safe.
pub proof fn lemma_push_slash_safe(s: Seq<char>)
    requires
        safe_name(s),
        s.last() != '/',
    ensures
        safe_name(s.push('/')),
{
    let t = s.push('/');
    assert(t.len() == s.len() + 1);
    assert(t[0] != '/');
    assert forall|i: int| 0 <= i < t.len() implies t[i] != '\\' by {
        if i < s.len() {
            assert(t[i] == s[i]);
        }
    }
    assert forall|i: int| !double_slash_at(t, i) by {
        if double_slash_at(t, i) {
            if i + 1 < s.len() {
                assert(double_slash_at(s, i));
            } else {
                assert(t[i] == s[s.len() - 1]);
            }
        }
    }
    assert forall|i: int| !dotdot_at(t, i) by {
        if dotdot_at(t, i) {
            if i + 1 == s.len() {
                assert(t[i + 1] == '/');
            } else {
                assert(dotdot_at(s, i));
            }
        }
    }
}

/// Replaces every backslash in `s` with a forward slash.
pub fn normalize_path(s: &str) -> (r: String)
    ensures
        r@ == normalize(s@),
{
    let n = s.unicode_len();
    let mut r = String::new();
    let mut i: usize = 0;
    while i < n
        invariant
            i <= n,
            n == s@.len(),
            r@ == normalize(s@.take(i as int)),
        decreases n - i,
    {
        let c = s.get_char(i);
        if c == '\\' {
            r.append("/");
            proof {
                reveal_strlit("/");
            }
        } else {
            r.append(s.substring_char(i, i + 1));
        }
        proof {
            assert(s@.take(i + 1) =~= s@.take(i as int).push(s@[i as int]));
            assert(normalize(s@.take(i + 1)) =~= normalize(s@.take(i as int)).push(
                if s@[i as int] == '\\' {
                    '/'
                } else {
                    s@[i as int]
                },
            ));
            if s@[i as int] != '\\' {
                assert(s@.subrange(i as int, i + 1) =~= seq![s@[i as int]]);
            }
            assert(r@ =~= normalize(s@.take(i + 1)));
        }
        i = i + 1;
    }
    proof {
        assert(s@.take(n as int) =~= s@);
    }
    r
}

/// Decides [`safe_name`] for a record path read from an archive.
pub fn is_safe_name(s: &str) -> (r: bool)
    ensures
        r == safe_name(s@),
{
    let n = s.unicode_len();
    if n == 0 {
        return false;
    }
    if s.get_char(0) == '/' {
        return false;
    }
    let mut i: usize = 0;
    while i < n
        invariant
            i <= n,
            n == s@.len(),
            0 < n,
            s@[0] != '/',
            forall|j: int| 0 <= j < i ==> s@[j] != '\\',
            forall|j: int| j + 1 < i ==> !double_slash_at(s@, j),
            forall|j: int| j + 2 < i ==> !dotdot_at(s@, j),
        decreases n - i,
    {
        let c = s.get_char(i);
        if c == '\\' {
            return false;
        }
        if i >= 1 && c == '/' && s.get_char(i - 1) == '/' {
            assert(double_slash_at(s@, i - 1));
            return false;
        }
        if i >= 2 && c == '/' && s.get_char(i - 1) == '.' && s.get_char(i - 2) == '.' && (i == 2
            || s.get_char(i - 3) == '/') {
            assert(dotdot_at(s@, i - 2));
            return false;
        }
        i = i + 1;
    }
    if n >= 2 && s.get_char(n - 1) == '.' && s.get_char(n - 2) == '.' && (n == 2 || s.get_char(
        n - 3,
    ) == '/') {
        assert(dotdot_at(s@, n - 2));
        return false;
    }
    proof {
        assert forall|j: int| !double_slash_at(s@, j) by {
            if double_slash_at(s@, j) {
                assert(j + 1 < n);
            }
        }
        assert forall|j: int| !dotdot_at(s@, j) by {
            if dotdot_at(s@, j) {
                if j + 2 < n {
                } else {
                    assert(j + 2 == n);
                    assert(j == n - 2);
                }
            }
        }
    }
    true
}

} // verus!
