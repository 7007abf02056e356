//! Package-relative paths, written with `/` between components.
use vstd::prelude::*;
use crate::text::{
    chars_of, ends_with, forward_slashes, has_prefix, has_suffix, owned, starts_with,
    string_of, with_forward_slashes,
};

verus! {

/// `dir` joined with `p` as `Path::join` does: an absolute `p` replaces the
/// directory, and one separator stands between the two otherwise.
pub open spec fn path_join(dir: Seq<char>, p: Seq<char>) -> Seq<char> {
    if starts_with(p, seq!['/']) || dir.len() == 0 {
        p
    } else if ends_with(dir, seq!['/']) {
        dir + p
    } else {
        dir + seq!['/'] + p
    }
}

/// `path` with the leading `root` removed where `root` is a whole-component
/// prefix of it, and unchanged otherwise, as `Path::strip_prefix` with a
/// fallback to the path itself gives it.
pub open spec fn stripped_of(root: Seq<char>, path: Seq<char>) -> Seq<char> {
    if root.len() == 0 {
        path
    } else if path == root {
        Seq::<char>::empty()
    } else if ends_with(root, seq!['/']) && starts_with(path, root) {
        path.skip(root.len() as int)
    } else if starts_with(path, root + seq!['/']) {
        path.skip(root.len() as int + 1)
    } else {
        path
    }
}

/// A path relative to a root, with forward slashes.
pub open spec fn relative(root: Seq<char>, path: Seq<char>) -> Seq<char> {
    forward_slashes(stripped_of(root, path))
}

pub open spec fn last_slash(p: Seq<char>) -> Option<int> {
    if exists|i: int| 0 <= i < p.len() && p[i] == '/' {
        Some(choose|i: int| 0 <= i < p.len() && p[i] == '/' && forall|j: int| i < j < p.len() ==> p[j] != '/')
    } else {
        None
    }
}

/// The directory a path sits in, as `Path::parent` gives it for a path with
/// no trailing separator: nothing for an empty path or the root, the empty
/// path for a bare file name.
pub open spec fn parent_of(p: Seq<char>) -> Option<Seq<char>> {
    if p.len() == 0 {
        None
    } else {
        match last_slash(p) {
            None => Some(Seq::<char>::empty()),
            Some(i) => if i == 0 {
                if p.len() == 1 { None } else { Some(seq!['/']) }
            } else {
                Some(p.take(i))
            },
        }
    }
}

pub fn join_path(dir: &str, p: &str) -> (r: String)
    ensures
        r@ == path_join(dir@, p@),
{
    proof {
        reveal_strlit("/");
        assert("/"@ =~= seq!['/']);
    }
    if has_prefix(p, "/") || dir.unicode_len() == 0 {
        return owned(p);
    }
    let mut r = owned(dir);
    if !has_suffix(dir, "/") {
        r.append("/");
    }
    r.append(p);
    r
}

pub fn strip_root(root: &str, path: &str) -> (r: String)
    ensures
        r@ == stripped_of(root@, path@),
{
    proof {
        reveal_strlit("/");
        assert("/"@ =~= seq!['/']);
    }
    let n = root.unicode_len();
    if n == 0 {
        return owned(path);
    }
    let v = chars_of(path);
    if crate::text::same_text(root, path) {
        return String::new();
    }
    if has_suffix(root, "/") && has_prefix(path, root) {
        let r = string_of(&v.as_slice()[n..v.len()]);
        assert(r@ =~= path@.skip(n as int));
        return r;
    }
    let mut with_sep = owned(root);
    with_sep.append("/");
    assert(with_sep@ == root@ + seq!['/']);
    if has_prefix(path, with_sep.as_str()) {
        assert(n + 1 <= v.len());
        let r = string_of(&v.as_slice()[n + 1..v.len()]);
        assert(r@ =~= path@.skip(n as int + 1));
        return r;
    }
    owned(path)
}

/// A path as shown relative to the package root.
pub fn relative_to(root: &str, path: &str) -> (r: String)
    ensures
        r@ == relative(root@, path@),
{
    let stripped = strip_root(root, path);
    with_forward_slashes(stripped.as_str())
}

pub fn parent(p: &str) -> (r: Option<String>)
    ensures
        match r {
            Some(t) => parent_of(p@) == Some(t@),
            None => parent_of(p@).is_none(),
        },
{
    let v = chars_of(p);
    if v.len() == 0 {
        return None;
    }
    let mut i: usize = v.len();
    while i > 0 && v[i - 1] != '/'
        invariant
            v@ == p@,
            i <= v.len(),
            forall|j: int| i <= j < v.len() ==> v@[j] != '/',
        decreases i,
    {
        i = i - 1;
    }
    if i == 0 {
        return Some(String::new());
    }
    let k = i - 1;
    assert(0 <= k < p@.len() && p@[k as int] == '/' && forall|j: int| k < j < p@.len() ==> p@[j] != '/');
    let ghost found = last_slash(p@);
    proof {
        let c = found.unwrap();
        assert(0 <= c < p@.len() && p@[c] == '/' && forall|j: int| c < j < p@.len() ==> p@[j] != '/');
        if c < k {
            assert(p@[k as int] != '/');
        } else if c > k {
            assert(p@[c] != '/');
        }
    }
    if k == 0 {
        if v.len() == 1 {
            return None;
        }
        let mut r = String::new();
        r.append("/");
        proof {
            reveal_strlit("/");
        }
        assert(r@ =~= seq!['/']);
        return Some(r);
    }
    let r = string_of(&v.as_slice()[0..k]);
    assert(r@ =~= p@.take(k as int));
    Some(r)
}

} // verus!
