//! Paths as lists of components; the root is the component "/".

use vstd::prelude::*;

use crate::lists::{copy_texts, texts_prefix, with_name};
use crate::text::{same, texts};

verus! {

/// The paths of a list.
pub open spec fn paths_of(list: Seq<Vec<String>>) -> Seq<Seq<Seq<char>>> {
    Seq::new(list.len(), |i: int| texts(list[i]@))
}

/// The directory that holds `path`; the root and the empty path have none.
pub open spec fn parent_of(path: Seq<Seq<char>>) -> Option<Seq<Seq<char>>> {
    if path.len() == 0 || (path.len() == 1 && path[0] == "/"@) {
        None
    } else {
        Some(path.drop_last())
    }
}

/// Pushing a path pushes its components.
pub proof fn paths_push(list: Seq<Vec<String>>, path: Vec<String>)
    ensures
        paths_of(list.push(path)) == paths_of(list).push(texts(path@)),
{
    assert(paths_of(list.push(path)) =~= paths_of(list).push(texts(path@)));
}

/// The directory that holds `path`.
pub fn parent(path: &[String]) -> (r: Option<Vec<String>>)
    ensures
        match r {
            Some(p) => parent_of(texts(path@)) == Some(texts(p@)),
            None => parent_of(texts(path@)) is None,
        },
{
    let n: usize = path.len();
    if n == 0 {
        return None;
    }
    assert(texts(path@)[0] == path@[0]@);
    if n == 1 && same(path[0].as_str(), "/") {
        return None;
    }
    let mut r: Vec<String> = copy_texts(path);
    let _last = r.pop();
    assert(texts(r@) =~= texts(path@).drop_last());
    Some(r)
}

/// Whether two paths are the same.
pub fn same_path(a: &[String], b: &[String]) -> (r: bool)
    ensures
        r == (texts(a@) == texts(b@)),
{
    if a.len() != b.len() {
        assert(texts(a@).len() != texts(b@).len());
        return false;
    }
    let r = texts_prefix(a, b);
    assert(texts(a@).is_prefix_of(texts(b@)) ==> texts(a@) =~= texts(b@));
    r
}

/// Whether a path is in the list.
pub fn has_path(list: &[Vec<String>], path: &[String]) -> (r: bool)
    ensures
        r == paths_of(list@).contains(texts(path@)),
{
    let n: usize = list.len();
    let mut i: usize = 0;
    while i < n
        invariant
            n == list@.len(),
            i <= n,
            forall|k: int| 0 <= k < i ==> #[trigger] paths_of(list@)[k] != texts(path@),
        decreases n - i,
    {
        if same_path(list[i].as_slice(), path) {
            assert(paths_of(list@)[i as int] == texts(path@));
            return true;
        }
        i += 1;
    }
    false
}

/// `list` with `path` appended, unless it is there already.
pub fn push_path(list: &mut Vec<Vec<String>>, path: &[String])
    ensures
        paths_of(final(list)@) == with_name(paths_of(old(list)@), texts(path@)),
{
    if !has_path(list.as_slice(), path) {
        let copy = copy_texts(path);
        proof {
            paths_push(list@, copy);
        }
        list.push(copy);
    }
}

/// Whether `path` lies in one of the directories, or is one of them.
pub open spec fn is_below(path: Seq<Seq<char>>, dirs: Seq<Seq<Seq<char>>>) -> bool {
    exists|i: int| 0 <= i < dirs.len() && #[trigger] dirs[i].is_prefix_of(path)
}

/// Whether `path` lies in one of the directories, or is one of them.
pub fn lies_below(path: &[String], dirs: &[Vec<String>]) -> (r: bool)
    ensures
        r == is_below(texts(path@), paths_of(dirs@)),
{
    let n: usize = dirs.len();
    let mut i: usize = 0;
    while i < n
        invariant
            n == dirs@.len(),
            i <= n,
            forall|k: int|
                0 <= k < i ==> !(#[trigger] paths_of(dirs@)[k]).is_prefix_of(texts(path@)),
        decreases n - i,
    {
        if texts_prefix(dirs[i].as_slice(), path) {
            assert(paths_of(dirs@)[i as int].is_prefix_of(texts(path@)));
            return true;
        }
        i += 1;
    }
    false
}

/// The parent of a path is the path without its last component; the root and the empty
/// path have none.
pub proof fn parents_lack_the_last_component(path: Seq<Seq<char>>, name: Seq<char>)
    ensures
        path.len() > 0 ==> parent_of(path.push(name)) == Some(path),
        path.len() == 0 && name != "/"@ ==> parent_of(path.push(name)) == Some(path),
        path.len() == 0 ==> parent_of(path) is None,
        parent_of(seq!["/"@]) is None,
{
    assert(path.push(name).drop_last() =~= path);
}

/// A path lies below a directory where it starts with all its components.
pub proof fn paths_lie_below_directories(
    dir: Seq<Seq<char>>,
    rest: Seq<Seq<char>>,
    dirs: Seq<Seq<Seq<char>>>,
    i: int,
)
    ensures
        0 <= i < dirs.len() && dirs[i] == dir ==> is_below(dir + rest, dirs),
        dirs.len() == 0 ==> !is_below(rest, dirs),
{
    if 0 <= i < dirs.len() && dirs[i] == dir {
        assert(dir =~= (dir + rest).subrange(0, dir.len() as int));
        assert(dirs[i].is_prefix_of(dir + rest));
    }
}

} // verus!
