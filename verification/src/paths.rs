//! The library's path model.
//!
//! Paths are UTF-8 strings whose components are separated by `'/'`; a path
//! is absolute exactly when it begins with `'/'`. Repeated separators are
//! not collapsed: the functions here are plain lexical operations, stated
//! exactly by their spec counterparts. Containment checks are meant to run
//! on canonical paths, which the caller obtains from the file system.
use vstd::prelude::*;
use vstd::string::*;

verus! {

/// True when the path begins with the separator.
pub open spec fn path_is_absolute(s: Seq<char>) -> bool {
    s.len() > 0 && s[0] == '/'
}

/// True when the path is absolute under the library's path model.
pub fn is_absolute_path(s: &str) -> (r: bool)
    ensures
        r == path_is_absolute(s@),
{
    if s.unicode_len() > 0 {
        s.get_char(0) == '/'
    } else {
        false
    }
}

/// Joining `rel` onto `base`: an absolute `rel` replaces `base`; an empty
/// `base` leaves `rel` alone; otherwise a single separator is placed
/// between the two unless `base` already ends with one.
pub open spec fn spec_join_paths(base: Seq<char>, rel: Seq<char>) -> Seq<char> {
    if path_is_absolute(rel) {
        rel
    } else if base.len() == 0 {
        rel
    } else if base[base.len() - 1] == '/' {
        base + rel
    } else {
        base + seq!['/'] + rel
    }
}

/// Join a relative path onto a base path.
pub fn join_paths(base: &str, rel: &str) -> (r: String)
    ensures
        r@ == spec_join_paths(base@, rel@),
{
    if is_absolute_path(rel) {
        rel.to_owned()
    } else {
        let n = base.unicode_len();
        if n == 0 {
            rel.to_owned()
        } else if base.get_char(n - 1) == '/' {
            let mut r = base.to_owned();
            r.append(rel);
            r
        } else {
            let mut r = base.to_owned();
            r.append("/");
            r.append(rel);
            proof {
                reveal_strlit("/");
                assert("/"@ =~= seq!['/']);
                assert(r@ =~= base@ + seq!['/'] + rel@);
            }
            r
        }
    }
}

/// The index of the last separator in the path, or -1 when there is none.
pub open spec fn spec_last_slash(s: Seq<char>) -> int
    decreases s.len(),
{
    if s.len() == 0 {
        -1
    } else if s[s.len() - 1] == '/' {
        s.len() - 1
    } else {
        spec_last_slash(s.drop_last())
    }
}

pub proof fn lemma_last_slash_bounds(s: Seq<char>)
    ensures
        -1 <= spec_last_slash(s) < s.len(),
    decreases s.len(),
{
    if s.len() > 0 && s[s.len() - 1] != '/' {
        lemma_last_slash_bounds(s.drop_last());
    }
}

/// The index of the last separator, if the path has one.
fn last_slash_index(s: &str) -> (r: Option<usize>)
    ensures
        match r {
            Some(i) => i < s@.len() && spec_last_slash(s@) == i as int,
            None => spec_last_slash(s@) == -1,
        },
{
    let n = s.unicode_len();
    let mut i = n;
    proof {
        assert(s@.subrange(0, n as int) =~= s@);
    }
    while i > 0
        invariant
            i <= n,
            n == s@.len(),
            spec_last_slash(s@) == spec_last_slash(s@.subrange(0, i as int)),
        decreases i,
    {
        let c = s.get_char(i - 1);
        proof {
            assert(s@.subrange(0, i as int).last() == s@[i - 1]);
        }
        if c == '/' {
            return Some(i - 1);
        }
        proof {
            assert(s@.subrange(0, i as int).drop_last() =~= s@.subrange(0, i as int - 1));
        }
        i = i - 1;
    }
    proof {
        assert(s@.subrange(0, 0) =~= Seq::<char>::empty());
    }
    None
}

/// The path without its final component: `None` for an empty path and for
/// the bare root; the root for a top-level absolute path; the empty path
/// for a bare relative name.
pub open spec fn spec_parent(s: Seq<char>) -> Option<Seq<char>> {
    let i = spec_last_slash(s);
    if s.len() == 0 {
        None
    } else if i == -1 {
        Some(Seq::<char>::empty())
    } else if i == 0 {
        if s.len() == 1 {
            None
        } else {
            Some(seq!['/'])
        }
    } else {
        Some(s.subrange(0, i))
    }
}

/// The parent directory of a path, under the library's path model.
pub fn parent_path(s: &str) -> (r: Option<String>)
    ensures
        match r {
            Some(p) => spec_parent(s@) == Some(p@),
            None => spec_parent(s@) == None::<Seq<char>>,
        },
{
    let n = s.unicode_len();
    if n == 0 {
        return None;
    }
    match last_slash_index(s) {
        None => Some(String::new()),
        Some(i) => {
            if i == 0 {
                if n == 1 {
                    None
                } else {
                    let r = "/".to_owned();
                    proof {
                        reveal_strlit("/");
                        assert(r@ =~= seq!['/']);
                    }
                    Some(r)
                }
            } else {
                Some(s.substring_char(0, i).to_owned())
            }
        },
    }
}

/// The final component of the path, when one can serve as a name: the text
/// after the last separator, unless it is empty, `.` or `..`.
pub open spec fn spec_file_name(s: Seq<char>) -> Option<Seq<char>> {
    let tail = s.subrange(spec_last_slash(s) + 1, s.len() as int);
    if tail.len() == 0 {
        None
    } else if tail == seq!['.'] {
        None
    } else if tail == seq!['.', '.'] {
        None
    } else {
        Some(tail)
    }
}

/// The file-name component of a path, used to default a resource's name.
pub fn file_name_of(s: &str) -> (r: Option<String>)
    ensures
        match r {
            Some(f) => spec_file_name(s@) == Some(f@),
            None => spec_file_name(s@) == None::<Seq<char>>,
        },
{
    let n = s.unicode_len();
    let start: usize = match last_slash_index(s) {
        None => 0,
        Some(i) => i + 1,
    };
    proof {
        lemma_last_slash_bounds(s@);
    }
    let tail = s.substring_char(start, n);
    let tn = tail.unicode_len();
    if tn == 0 {
        None
    } else if tn == 1 && tail.get_char(0) == '.' {
        proof {
            assert(tail@ =~= seq!['.']);
        }
        None
    } else if tn == 2 && tail.get_char(0) == '.' && tail.get_char(1) == '.' {
        proof {
            assert(tail@ =~= seq!['.', '.']);
        }
        None
    } else {
        proof {
            if tail@ == seq!['.'] {
                assert(tail@[0] == '.');
            }
            if tail@ == seq!['.', '.'] {
                assert(tail@[0] == '.' && tail@[1] == '.');
            }
        }
        Some(tail.to_owned())
    }
}

/// Component-wise prefix order, for canonical paths: `prefix` must match
/// `path` textually and end at a component boundary.
pub open spec fn spec_path_starts_with(path: Seq<char>, prefix: Seq<char>) -> bool {
    &&& prefix.len() <= path.len()
    &&& path.subrange(0, prefix.len() as int) == prefix
    &&& {
        ||| path.len() == prefix.len()
        ||| path[prefix.len() as int] == '/'
        ||| (prefix.len() > 0 && prefix[prefix.len() - 1] == '/')
    }
}

/// True when `path` lies at or under `prefix`, both taken as canonical.
pub fn path_starts_with(path: &str, prefix: &str) -> (r: bool)
    ensures
        r == spec_path_starts_with(path@, prefix@),
{
    let np = path.unicode_len();
    let nq = prefix.unicode_len();
    if nq > np {
        return false;
    }
    let mut i: usize = 0;
    while i < nq
        invariant
            i <= nq <= np,
            np == path@.len(),
            nq == prefix@.len(),
            forall|j: int| 0 <= j < i ==> path@[j] == prefix@[j],
        decreases nq - i,
    {
        if path.get_char(i) != prefix.get_char(i) {
            proof {
                if path@.subrange(0, nq as int) == prefix@ {
                    assert(path@.subrange(0, nq as int)[i as int] == prefix@[i as int]);
                }
            }
            return false;
        }
        i = i + 1;
    }
    proof {
        assert(path@.subrange(0, nq as int) =~= prefix@);
    }
    if np == nq {
        true
    } else if path.get_char(nq) == '/' {
        true
    } else if nq > 0 && prefix.get_char(nq - 1) == '/' {
        true
    } else {
        false
    }
}

} // verus!
