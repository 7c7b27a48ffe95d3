// SPDX-License-Identifier: Apache-2.0
//! Unix paths, as texts.

use vstd::prelude::*;
use vstd::string::*;

use crate::text::{begins_with, ends_in};

verus! {

/// A path that does not depend on where it is looked up from.
pub open spec fn is_absolute(path: Seq<char>) -> bool {
    path.len() > 0 && path[0] == '/'
}

/// `path` as seen from `base`: an absolute path is itself.
pub open spec fn joined(base: Seq<char>, path: Seq<char>) -> Seq<char> {
    if is_absolute(path) {
        path
    } else if base.len() == 0 || base.last() == '/' {
        base + path
    } else {
        base.push('/') + path
    }
}

pub fn absolute(path: &str) -> (r: bool)
    ensures
        r == is_absolute(path@),
{
    let r = begins_with(path, "/");
    proof {
        reveal_strlit("/");
        if is_absolute(path@) {
            assert(path@.subrange(0, 1) =~= "/"@);
        }
        if r {
            assert(path@.subrange(0, 1)[0] == '/');
        }
    }
    r
}

pub fn join(base: &str, path: &str) -> (r: String)
    ensures
        r@ == joined(base@, path@),
{
    if absolute(path) {
        return path.to_owned();
    }
    let mut r = base.to_owned();
    let whole = base.is_empty() || ends_in(base, "/");
    proof {
        reveal_strlit("/");
        if base@.len() > 0 {
            let n = base@.len() as int;
            assert(base@.subrange(n - 1, n) =~= seq![base@.last()]);
            assert("/"@ =~= seq!['/']);
            if base@.subrange(n - 1, n) == "/"@ {
                assert(base@.subrange(n - 1, n)[0] == '/');
            }
        }
    }
    if !whole {
        r.append("/");
        assert(r@ =~= base@.push('/'));
    }
    r.append(path);
    r
}

/// Different relative paths lead to different places.
pub proof fn lemma_joined_injective(base: Seq<char>, a: Seq<char>, b: Seq<char>)
    requires
        !is_absolute(a),
        !is_absolute(b),
        joined(base, a) == joined(base, b),
    ensures
        a == b,
{
    let stem = if base.len() == 0 || base.last() == '/' {
        base
    } else {
        base.push('/')
    };
    assert((stem + a).skip(stem.len() as int) =~= a);
    assert((stem + b).skip(stem.len() as int) =~= b);
}

/// A relative path is found whole behind the base, with one separator between
/// them: the base's own where it ends in one, and none where the base is empty.
/// An absolute path is found as it is, whatever the base.
pub proof fn law_joined_paths_keep_both_parts(base: Seq<char>, path: Seq<char>)
    ensures
        path.len() > 0 && path[0] == '/' ==> joined(base, path) == path,
        !(path.len() > 0 && path[0] == '/') && (base.len() == 0 || base[base.len() - 1] == '/')
            ==> joined(base, path) == base + path,
        !(path.len() > 0 && path[0] == '/') && base.len() > 0 && base[base.len() - 1] != '/'
            ==> joined(base, path) == base + seq!['/'] + path,
{
    assert(base.push('/') =~= base + seq!['/']);
}

} // verus!
