//! Slash-separated path keys.
//!
//! Every entry of an index is keyed by its path relative to the workspace
//! root, with `/` between segments. This module defines what such keys mean
//! (`key_of`, `parent_of`, `name_of`, `covers`) and computes them.

use vstd::prelude::*;
use crate::text::{
    chars_match_at, chars_of, chars_start_with, find_char, first_index_of, last_index_of,
    lemma_first_index_is, lemma_first_index_of, lemma_last_index_of, owned, rfind_char, substring,
};

verus! {

/// The name of the directory that holds the index's own documents.
pub const INTERNAL_DIR: &'static str = ".lore";

/// The name of the version-control directory.
pub const VCS_DIR: &'static str = ".git";

/// The characters of `INTERNAL_DIR`.
pub open spec fn internal_dir() -> Seq<char> {
    seq!['.', 'l', 'o', 'r', 'e']
}

/// The characters of `VCS_DIR`.
pub open spec fn vcs_dir() -> Seq<char> {
    seq!['.', 'g', 'i', 't']
}

/// The key of `path` relative to `workspace`: what is left of `path` once
/// `workspace` and the separator after it are taken off. `None` when `path`
/// does not lie at or below `workspace`.
pub open spec fn key_of(workspace: Seq<char>, path: Seq<char>) -> Option<Seq<char>> {
    if workspace.len() == 0 {
        Some(path)
    } else if !workspace.is_prefix_of(path) {
        None
    } else if path.len() == workspace.len() {
        Some(Seq::empty())
    } else if workspace.last() == '/' {
        Some(path.skip(workspace.len() as int))
    } else if path[workspace.len() as int] == '/' {
        Some(path.skip(workspace.len() as int + 1))
    } else {
        None
    }
}

/// The key of the directory that holds `key`: `key` without its last
/// segment and the separator before it. `None` for a key of one segment.
pub open spec fn parent_of(key: Seq<char>) -> Option<Seq<char>> {
    if last_index_of(key, '/') < 0 {
        None
    } else {
        Some(key.take(last_index_of(key, '/')))
    }
}

/// The last segment of a path.
pub open spec fn name_of(path: Seq<char>) -> Seq<char> {
    path.skip(last_index_of(path, '/') + 1)
}

/// The first segment of a path.
pub open spec fn first_segment(path: Seq<char>) -> Seq<char> {
    path.take(first_index_of(path, '/'))
}

/// What follows the last dot of a file name. A name without a dot, or whose
/// only dot is its first character, has no extension.
pub open spec fn extension_of(name: Seq<char>) -> Option<Seq<char>> {
    if last_index_of(name, '.') <= 0 {
        None
    } else {
        Some(name.skip(last_index_of(name, '.') + 1))
    }
}

/// Whether a key lies in the internal-data directory, or is that directory.
pub open spec fn is_internal_key(key: Seq<char>) -> bool {
    first_segment(key) == internal_dir()
}

/// Whether a key lies in the version-control directory, or is that directory.
pub open spec fn is_vcs_key(key: Seq<char>) -> bool {
    first_segment(key) == vcs_dir()
}

/// Whether `key` is `root` or lies below it: the two are equal, or `key`
/// continues `root` with a separator. The empty root covers every key.
pub open spec fn covers(root: Seq<char>, key: Seq<char>) -> bool {
    ||| root.len() == 0
    ||| key == root
    ||| (root.len() < key.len() && root.is_prefix_of(key) && key[root.len() as int] == '/')
}

/// A key that has a parent is its parent, a separator and its name.
pub proof fn lemma_parent_name_join(key: Seq<char>)
    requires
        parent_of(key) is Some,
    ensures
        key == parent_of(key).unwrap() + seq!['/'] + name_of(key),
        parent_of(key).unwrap().len() < key.len(),
        !name_of(key).contains('/'),
{
    lemma_last_index_of(key, '/');
    let i = last_index_of(key, '/');
    assert(key =~= key.take(i) + seq!['/'] + key.skip(i + 1));
    let n = name_of(key);
    if n.contains('/') {
        let j = choose|j: int| 0 <= j < n.len() && n[j] == '/';
        assert(key[i + 1 + j] == '/');
    }
}

/// A key is covered by its parent.
pub proof fn lemma_parent_covers(key: Seq<char>)
    requires
        parent_of(key) is Some,
    ensures
        covers(parent_of(key).unwrap(), key),
{
    lemma_last_index_of(key, '/');
    let i = last_index_of(key, '/');
    assert(key.take(i) =~= key.subrange(0, i));
}

/// A key whose continuation after `root` does not start at a separator is
/// not covered by `root`: `a/b` does not cover `a/b.md`.
pub proof fn lemma_covers_needs_separator(root: Seq<char>, key: Seq<char>)
    requires
        root.len() > 0,
        root.len() < key.len(),
        key[root.len() as int] != '/',
    ensures
        !covers(root, key),
{
}

/// What lies in the internal-data directory stays there however deep it is:
/// a key covered by an internal key is internal.
pub proof fn lemma_internal_covers(root: Seq<char>, key: Seq<char>)
    requires
        is_internal_key(root),
        covers(root, key),
    ensures
        is_internal_key(key),
{
    lemma_first_index_of(root, '/');
    lemma_first_index_of(key, '/');
    let i = first_index_of(root, '/');
    assert(root.take(i) == internal_dir());
    assert(i == 5);
    if key != root {
        assert(root.len() > 0);
        assert(root =~= key.subrange(0, root.len() as int));
        assert forall|j: int| 0 <= j < i implies key[j] != '/' by {
            assert(key[j] == root[j]);
        }
        if i < root.len() {
            assert(key[i] == root[i]);
        }
        lemma_first_index_is(key, '/', i);
        assert(key.take(i) =~= root.take(i));
    }
}

/// The key of `path` relative to `workspace`, if `path` lies at or below it.
pub fn relative_key(workspace: &str, path: &str) -> (r: Option<String>)
    ensures
        match r {
            Some(k) => key_of(workspace@, path@) == Some(k@),
            None => key_of(workspace@, path@) is None,
        },
{
    let w = chars_of(workspace);
    let p = chars_of(path);
    if w.len() == 0 {
        return Some(owned(path));
    }
    if !chars_start_with(&p, &w) {
        return None;
    }
    if p.len() == w.len() {
        return Some(String::new());
    }
    if w[w.len() - 1] == '/' {
        let k = substring(path, w.len(), p.len());
        assert(k@ =~= path@.skip(w.len() as int));
        return Some(k);
    }
    if p[w.len()] == '/' {
        let k = substring(path, w.len() + 1, p.len());
        assert(k@ =~= path@.skip(w.len() + 1));
        return Some(k);
    }
    None
}

/// The key of the directory that holds `key`, if `key` has more than one segment.
pub fn parent_key(key: &str) -> (r: Option<String>)
    ensures
        match r {
            Some(k) => parent_of(key@) == Some(k@),
            None => parent_of(key@) is None,
        },
{
    let v = chars_of(key);
    match rfind_char(&v, '/') {
        None => None,
        Some(i) => {
            let k = substring(key, 0, i);
            assert(k@ =~= key@.take(i as int));
            Some(k)
        },
    }
}

/// The last segment of a path.
pub fn file_name(path: &str) -> (r: String)
    ensures
        r@ == name_of(path@),
{
    let v = chars_of(path);
    let from: usize = match rfind_char(&v, '/') {
        None => 0,
        Some(i) => i + 1,
    };
    let k = substring(path, from, v.len());
    assert(k@ =~= path@.skip(from as int));
    k
}

/// The extension of a file name, if it has one.
pub fn extension(name: &str) -> (r: Option<String>)
    ensures
        match r {
            Some(e) => extension_of(name@) == Some(e@),
            None => extension_of(name@) is None,
        },
{
    let v = chars_of(name);
    match rfind_char(&v, '.') {
        None => None,
        Some(i) => {
            if i == 0 {
                None
            } else {
                let e = substring(name, i + 1, v.len());
                assert(e@ =~= name@.skip(i + 1));
                Some(e)
            }
        },
    }
}

/// Whether the first segment of `key` is `segment`.
pub fn first_segment_is(key: &str, segment: &str) -> (r: bool)
    ensures
        r == (first_segment(key@) == segment@),
{
    let v = chars_of(key);
    let s = chars_of(segment);
    let n = find_char(&v, '/');
    if n != s.len() {
        return false;
    }
    let m = chars_match_at(&v, 0, &s);
    assert(v@.take(n as int) =~= v@.subrange(0, n as int));
    m
}

/// Whether a key lies in the internal-data directory, or is that directory.
pub fn in_internal_dir(key: &str) -> (r: bool)
    ensures
        r == is_internal_key(key@),
{
    proof {
        reveal_strlit(".lore");
        assert(".lore"@ =~= internal_dir());
    }
    first_segment_is(key, ".lore")
}

/// Whether a key lies in the version-control directory, or is that directory.
pub fn in_vcs_dir(key: &str) -> (r: bool)
    ensures
        r == is_vcs_key(key@),
{
    proof {
        reveal_strlit(".git");
        assert(".git"@ =~= vcs_dir());
    }
    first_segment_is(key, ".git")
}

/// Whether `key` is `root` or lies below it.
pub fn is_under(root: &str, key: &str) -> (r: bool)
    ensures
        r == covers(root@, key@),
{
    let rv = chars_of(root);
    let kv = chars_of(key);
    if rv.len() == 0 {
        return true;
    }
    if !chars_start_with(&kv, &rv) {
        assert(kv@ != rv@) by {
            if kv@ == rv@ {
                assert(rv@ =~= kv@.subrange(0, rv@.len() as int));
            }
        }
        return false;
    }
    if kv.len() == rv.len() {
        assert(kv@ =~= kv@.subrange(0, rv@.len() as int));
        return true;
    }
    kv[rv.len()] == '/'
}

} // verus!
