//! Which conftest files are loaded, and in what order.

use vstd::prelude::*;

use crate::lists::{contains_sum, copy_texts, texts_prefix, with_name};
use crate::paths::{parent, parent_of, paths_of, paths_push, push_path, same_path};
use crate::text::texts;

verus! {

/// An argument of the command line as a path.
pub struct PathArg {
    pub path: Vec<String>,
    pub is_dir: bool,
}

// ---------------------------------------------------------------------------
// Model
// ---------------------------------------------------------------------------

/// The directory where the search starts for an argument.
pub open spec fn start_of(arg: PathArg) -> Option<Seq<Seq<char>>> {
    if arg.is_dir {
        Some(texts(arg.path@))
    } else {
        parent_of(texts(arg.path@))
    }
}

/// A path where there is one.
pub open spec fn path_if(p: Option<Seq<Seq<char>>>) -> Seq<Seq<Seq<char>>> {
    match p {
        Some(p) => seq![p],
        None => seq![],
    }
}

/// The directories where the search starts for the first `n` arguments.
pub open spec fn arg_starts(args: Seq<PathArg>, n: int) -> Seq<Seq<Seq<char>>>
    decreases n,
{
    if n <= 0 {
        seq![]
    } else {
        arg_starts(args, n - 1) + path_if(start_of(args[n - 1]))
    }
}

/// The directories of the first `n` files.
pub open spec fn file_dirs(files: Seq<Seq<Seq<char>>>, n: int) -> Seq<Seq<Seq<char>>>
    decreases n,
{
    if n <= 0 {
        seq![]
    } else {
        file_dirs(files, n - 1) + path_if(parent_of(files[n - 1]))
    }
}

/// The directories where the search for conftests starts: those of the
/// arguments, or the current one, and those of the files. Without conftests
/// only the arguments count, and one without a directory stands for "".
pub open spec fn starts_of(
    noconftest: bool,
    current: Seq<Seq<char>>,
    args: Seq<PathArg>,
    files: Seq<Seq<Seq<char>>>,
) -> Seq<Seq<Seq<char>>> {
    let of_files = if noconftest {
        seq![]
    } else {
        file_dirs(files, files.len() as int)
    };
    if args.len() == 0 {
        seq![current] + of_files
    } else if noconftest {
        Seq::new(
            args.len(),
            |i: int|
                match start_of(args[i]) {
                    Some(p) => p,
                    None => seq![],
                },
        )
    } else {
        arg_starts(args, args.len() as int) + of_files
    }
}

/// The conftest of `dir` counts: `dir` is not strictly above `--confcutdir`.
pub open spec fn in_cut(dir: Seq<Seq<char>>, cut: Option<Seq<Seq<char>>>) -> bool {
    match cut {
        None => true,
        Some(c) => !dir.is_prefix_of(c) || dir == c,
    }
}

/// `list` with the directories from the root directory down to `dir`, each
/// once, those above `--confcutdir` left out.
pub open spec fn with_chain(
    list: Seq<Seq<Seq<char>>>,
    dir: Seq<Seq<char>>,
    root: Seq<Seq<char>>,
    cut: Option<Seq<Seq<char>>>,
) -> Seq<Seq<Seq<char>>>
    decreases dir.len(),
{
    let outer = if dir == root {
        list
    } else {
        match parent_of(dir) {
            Some(up) => if dir.len() > 0 {
                with_chain(list, dir.drop_last(), root, cut)
            } else {
                list
            },
            None => list,
        }
    };
    if in_cut(dir, cut) {
        with_name(outer, dir)
    } else {
        outer
    }
}

/// The directories whose conftests are loaded for the first `n` starts.
pub open spec fn chains_of(
    starts: Seq<Seq<Seq<char>>>,
    root: Seq<Seq<char>>,
    cut: Option<Seq<Seq<char>>>,
    n: int,
) -> Seq<Seq<Seq<char>>>
    decreases n,
{
    if n <= 0 {
        seq![]
    } else {
        with_chain(chains_of(starts, root, cut, n - 1), starts[n - 1], root, cut)
    }
}

/// The components of an optional path.
pub open spec fn opt_path(p: Option<Vec<String>>) -> Option<Seq<Seq<char>>> {
    match p {
        Some(p) => Some(texts(p@)),
        None => None,
    }
}

/// `dir` and the directories above it, up to the root directory, which is
/// left out.
pub open spec fn chain_below(dir: Seq<Seq<char>>, root: Seq<Seq<char>>) -> Seq<Seq<Seq<char>>>
    decreases dir.len(),
{
    if dir == root {
        seq![]
    } else {
        seq![dir] + match parent_of(dir) {
            Some(up) => if dir.len() > 0 {
                chain_below(dir.drop_last(), root)
            } else {
                seq![]
            },
            None => seq![],
        }
    }
}

// ---------------------------------------------------------------------------
// Executable functions
// ---------------------------------------------------------------------------

/// The directory where the search starts for an argument.
fn start_dir(arg: &PathArg) -> (r: Option<Vec<String>>)
    ensures
        opt_path(r) == start_of(*arg),
{
    if arg.is_dir {
        Some(copy_texts(arg.path.as_slice()))
    } else {
        parent(arg.path.as_slice())
    }
}

fn push_start(list: &mut Vec<Vec<String>>, dir: Option<Vec<String>>)
    ensures
        paths_of(final(list)@) == paths_of(old(list)@) + path_if(opt_path(dir)),
{
    match dir {
        Some(dir) => {
            proof {
                paths_push(list@, dir);
            }
            list.push(dir);
            assert(paths_of(list@) =~= paths_of(old(list)@) + path_if(opt_path(Some(dir))));
        },
        None => {
            assert(paths_of(list@) =~= paths_of(list@) + path_if(None));
        },
    }
}

/// The directories of arguments when no conftest is loaded.
fn bare_starts(args: &[PathArg]) -> (r: Vec<Vec<String>>)
    ensures
        paths_of(r@) == Seq::new(
            args@.len(),
            |i: int|
                match start_of(args@[i]) {
                    Some(p) => p,
                    None => seq![],
                },
        ),
{
    let n: usize = args.len();
    let mut r: Vec<Vec<String>> = Vec::new();
    let mut i: usize = 0;
    while i < n
        invariant
            n == args@.len(),
            i <= n,
            r@.len() == i,
            forall|k: int|
                0 <= k < i ==> #[trigger] paths_of(r@)[k] == (match start_of(args@[k]) {
                    Some(p) => p,
                    None => seq![],
                }),
        decreases n - i,
    {
        let dir: Vec<String> = match start_dir(&args[i]) {
            Some(dir) => dir,
            None => {
                let none: Vec<String> = Vec::new();
                assert(texts(none@) =~= seq![]);
                none
            },
        };
        proof {
            paths_push(r@, dir);
        }
        r.push(dir);
        i += 1;
    }
    assert(paths_of(r@) =~= Seq::new(
        args@.len(),
        |i: int|
            match start_of(args@[i]) {
                Some(p) => p,
                None => seq![],
            },
    ));
    r
}

/// The directories where the search for conftests starts.
pub fn start_dirs(
    noconftest: bool,
    current: &[String],
    args: &[PathArg],
    files: &[Vec<String>],
) -> (r: Vec<Vec<String>>)
    ensures
        paths_of(r@) == starts_of(noconftest, texts(current@), args@, paths_of(files@)),
{
    let n_args: usize = args.len();
    if noconftest && n_args > 0 {
        return bare_starts(args);
    }
    let mut r: Vec<Vec<String>> = Vec::new();
    assert(paths_of(r@) =~= seq![]);
    if n_args == 0 {
        let dir: Vec<String> = copy_texts(current);
        push_start(&mut r, Some(dir));
        assert(paths_of(r@) =~= seq![texts(current@)]);
    }
    let mut i: usize = 0;
    while i < n_args
        invariant
            n_args == args@.len(),
            i <= n_args,
            n_args > 0 ==> paths_of(r@) == arg_starts(args@, i as int),
            n_args == 0 ==> paths_of(r@) == seq![texts(current@)],
        decreases n_args - i,
    {
        let dir = start_dir(&args[i]);
        push_start(&mut r, dir);
        i += 1;
    }
    if noconftest {
        assert(paths_of(r@) =~= seq![texts(current@)] + Seq::<Seq<Seq<char>>>::empty());
        return r;
    }
    let ghost first = paths_of(r@);
    let n_files: usize = files.len();
    let mut j: usize = 0;
    assert(first + file_dirs(paths_of(files@), 0) =~= first);
    while j < n_files
        invariant
            n_files == files@.len(),
            j <= n_files,
            paths_of(r@) == first + file_dirs(paths_of(files@), j as int),
        decreases n_files - j,
    {
        let dir = parent(files[j].as_slice());
        push_start(&mut r, dir);
        assert(paths_of(files@)[j as int] == texts(files@[j as int]@));
        assert(first + file_dirs(paths_of(files@), j as int) + path_if(
            parent_of(paths_of(files@)[j as int]),
        ) =~= first + file_dirs(paths_of(files@), j + 1));
        j += 1;
    }
    r
}

fn counts(dir: &[String], cut: &Option<Vec<String>>) -> (r: bool)
    ensures
        r == in_cut(texts(dir@), opt_path(*cut)),
{
    match cut {
        None => true,
        Some(c) => !texts_prefix(dir, c.as_slice()) || same_path(dir, c.as_slice()),
    }
}

/// Appends the directories from the root directory down to `dir`.
fn push_chain(
    list: &mut Vec<Vec<String>>,
    dir: &[String],
    root: &[String],
    cut: &Option<Vec<String>>,
)
    ensures
        paths_of(final(list)@) == with_chain(
            paths_of(old(list)@),
            texts(dir@),
            texts(root@),
            opt_path(*cut),
        ),
    decreases dir@.len(),
{
    if !same_path(dir, root) {
        if let Some(up) = parent(dir) {
            assert(texts(up@).len() == up@.len());
            assert(texts(dir@).len() == dir@.len());
            push_chain(list, up.as_slice(), root, cut);
        }
    }
    if counts(dir, cut) {
        push_path(list, dir);
    }
}

/// The directories whose conftests are loaded, outer ones first: the chain of
/// each start from the root directory down, without those above
/// `--confcutdir`.
pub fn conftest_dirs(starts: &[Vec<String>], root: &[String], cut: &Option<Vec<String>>) -> (r: Vec<
    Vec<String>,
>)
    ensures
        paths_of(r@) == chains_of(
            paths_of(starts@),
            texts(root@),
            opt_path(*cut),
            starts@.len() as int,
        ),
{
    let n: usize = starts.len();
    let mut r: Vec<Vec<String>> = Vec::new();
    assert(paths_of(r@) =~= seq![]);
    let mut i: usize = 0;
    while i < n
        invariant
            n == starts@.len(),
            i <= n,
            paths_of(r@) == chains_of(paths_of(starts@), texts(root@), opt_path(*cut), i as int),
        decreases n - i,
    {
        push_chain(&mut r, starts[i].as_slice(), root, cut);
        assert(paths_of(starts@)[i as int] == texts(starts@[i as int]@));
        i += 1;
    }
    r
}

/// The directories that are asked whether a file below them is ignored: `dir`
/// and those above it, below the root directory.
pub fn dirs_below(dir: &[String], root: &[String]) -> (r: Vec<Vec<String>>)
    ensures
        paths_of(r@) == chain_below(texts(dir@), texts(root@)),
    decreases dir@.len(),
{
    let mut r: Vec<Vec<String>> = Vec::new();
    assert(paths_of(r@) =~= seq![]);
    if same_path(dir, root) {
        return r;
    }
    let here: Vec<String> = copy_texts(dir);
    push_start(&mut r, Some(here));
    assert(paths_of(r@) =~= seq![texts(dir@)]);
    match parent(dir) {
        Some(up) => {
            assert(texts(up@).len() == up@.len());
            assert(texts(dir@).len() == dir@.len());
            let mut above = dirs_below(up.as_slice(), root);
            let ghost rest = paths_of(above@);
            r.append(&mut above);
            assert(paths_of(r@) =~= seq![texts(dir@)] + rest);
        },
        None => {
            assert(paths_of(r@) =~= seq![texts(dir@)] + Seq::<Seq<Seq<char>>>::empty());
        },
    }
    r
}

// ---------------------------------------------------------------------------
// Laws
// ---------------------------------------------------------------------------

/// Every directory of the list counts, and comes after the one that holds it
/// where that counts and lies in the root directory.
pub open spec fn outer_first(
    list: Seq<Seq<Seq<char>>>,
    root: Seq<Seq<char>>,
    cut: Option<Seq<Seq<char>>>,
) -> bool {
    &&& list.no_duplicates()
    &&& forall|i: int|
        0 <= i < list.len() ==> {
            let dir = #[trigger] list[i];
            &&& in_cut(dir, cut)
            &&& dir == root || parent_of(dir) is None || !in_cut(parent_of(dir)->Some_0, cut)
                || list.take(i).contains(parent_of(dir)->Some_0)
        }
}

proof fn chain_is_outer_first(
    list: Seq<Seq<Seq<char>>>,
    dir: Seq<Seq<char>>,
    root: Seq<Seq<char>>,
    cut: Option<Seq<Seq<char>>>,
)
    requires
        outer_first(list, root, cut),
    ensures
        outer_first(with_chain(list, dir, root, cut), root, cut),
        in_cut(dir, cut) ==> with_chain(list, dir, root, cut).contains(dir),
        list.len() <= with_chain(list, dir, root, cut).len(),
        with_chain(list, dir, root, cut).take(list.len() as int) == list,
    decreases dir.len(),
{
    let walks = dir != root && parent_of(dir) is Some && dir.len() > 0;
    let outer = if walks {
        with_chain(list, dir.drop_last(), root, cut)
    } else {
        list
    };
    if walks {
        chain_is_outer_first(list, dir.drop_last(), root, cut);
    }
    let all = with_chain(list, dir, root, cut);
    assert(all == if in_cut(dir, cut) {
        with_name(outer, dir)
    } else {
        outer
    });
    if in_cut(dir, cut) && !outer.contains(dir) {
        assert(all == outer.push(dir));
        assert(all[outer.len() as int] == dir);
        assert(all.take(list.len() as int) =~= outer.take(list.len() as int));
        assert(all.take(outer.len() as int) =~= outer);
        assert forall|i: int| 0 <= i < all.len() implies {
            let d = #[trigger] all[i];
            &&& in_cut(d, cut)
            &&& d == root || parent_of(d) is None || !in_cut(parent_of(d)->Some_0, cut) || all.take(
                i,
            ).contains(parent_of(d)->Some_0)
        } by {
            if i < outer.len() {
                assert(all[i] == outer[i]);
                assert(all.take(i) =~= outer.take(i));
            }
        }
    } else {
        assert(all == outer);
        if !walks {
            assert(all.take(list.len() as int) =~= list);
        }
    }
}

/// A conftest is loaded once, after the conftests of the directories above it.
pub proof fn outer_conftests_load_first(
    starts: Seq<Seq<Seq<char>>>,
    root: Seq<Seq<char>>,
    cut: Option<Seq<Seq<char>>>,
    n: int,
)
    requires
        0 <= n <= starts.len(),
    ensures
        outer_first(chains_of(starts, root, cut, n), root, cut),
    decreases n,
{
    if n > 0 {
        outer_conftests_load_first(starts, root, cut, n - 1);
        chain_is_outer_first(chains_of(starts, root, cut, n - 1), starts[n - 1], root, cut);
    }
}

/// Every start that counts has its conftest loaded.
pub proof fn every_start_is_searched(
    starts: Seq<Seq<Seq<char>>>,
    root: Seq<Seq<char>>,
    cut: Option<Seq<Seq<char>>>,
    n: int,
    i: int,
)
    requires
        0 <= i < n <= starts.len(),
        in_cut(starts[i], cut),
    ensures
        chains_of(starts, root, cut, n).contains(starts[i]),
    decreases n,
{
    outer_conftests_load_first(starts, root, cut, n - 1);
    let before = chains_of(starts, root, cut, n - 1);
    let after = chains_of(starts, root, cut, n);
    chain_is_outer_first(before, starts[n - 1], root, cut);
    if i < n - 1 {
        every_start_is_searched(starts, root, cut, n - 1, i);
        let k = choose|k: int| 0 <= k < before.len() && before[k] == starts[i];
        assert(after.take(before.len() as int)[k] == starts[i]);
        assert(after[k] == starts[i]);
    }
}

/// A cut leaves out what lies above it, and nothing else.
pub proof fn cuts_leave_out_what_is_above(
    dir: Seq<Seq<char>>,
    cut: Seq<Seq<char>>,
)
    ensures
        in_cut(dir, None),
        in_cut(cut, Some(cut)),
        dir.is_prefix_of(cut) && dir.len() < cut.len() ==> !in_cut(dir, Some(cut)),
        !dir.is_prefix_of(cut) ==> in_cut(dir, Some(cut)),
{
}

/// Every directory from the root down to a start is searched, but for those above
/// the cut.
pub proof fn directories_on_the_way_are_searched(
    starts: Seq<Seq<Seq<char>>>,
    root: Seq<Seq<char>>,
    cut: Option<Seq<Seq<char>>>,
    n: int,
    i: int,
    dir: Seq<Seq<char>>,
)
    requires
        0 <= i < n <= starts.len(),
        root.len() > 0,
        root.is_prefix_of(dir),
        dir.is_prefix_of(starts[i]),
        in_cut(dir, cut),
    ensures
        chains_of(starts, root, cut, n).contains(dir),
    decreases n,
{
    let before = chains_of(starts, root, cut, n - 1);
    outer_conftests_load_first(starts, root, cut, n - 1);
    if i < n - 1 {
        directories_on_the_way_are_searched(starts, root, cut, n - 1, i, dir);
        chain_is_outer_first(before, starts[n - 1], root, cut);
        let after = chains_of(starts, root, cut, n);
        let k = choose|k: int| 0 <= k < before.len() && before[k] == dir;
        assert(after.take(before.len() as int)[k] == dir);
        assert(after[k] == dir);
    } else {
        chain_has(before, starts[n - 1], root, cut, dir);
    }
}

proof fn chain_has(
    list: Seq<Seq<Seq<char>>>,
    from: Seq<Seq<char>>,
    root: Seq<Seq<char>>,
    cut: Option<Seq<Seq<char>>>,
    dir: Seq<Seq<char>>,
)
    requires
        outer_first(list, root, cut),
        root.len() > 0,
        root.is_prefix_of(dir),
        dir.is_prefix_of(from),
        in_cut(dir, cut),
    ensures
        with_chain(list, from, root, cut).contains(dir),
    decreases from.len(),
{
    chain_is_outer_first(list, from, root, cut);
    if dir.len() == from.len() {
        assert(dir =~= from);
    } else {
        assert(from != root);
        let up = from.drop_last();
        assert(parent_of(from) == Some(up));
        assert(dir =~= up.subrange(0, dir.len() as int)) by {
            assert(dir =~= from.subrange(0, dir.len() as int));
        }
        chain_has(list, up, root, cut, dir);
        let outer = with_chain(list, up, root, cut);
        let all = with_chain(list, from, root, cut);
        let k = choose|k: int| 0 <= k < outer.len() && outer[k] == dir;
        assert(all[k] == dir);
    }
}

/// Nothing else is searched: each directory lies on the way to a start.
pub proof fn only_directories_on_the_way_are_searched(
    starts: Seq<Seq<Seq<char>>>,
    root: Seq<Seq<char>>,
    cut: Option<Seq<Seq<char>>>,
    n: int,
    dir: Seq<Seq<char>>,
)
    requires
        0 <= n <= starts.len(),
        chains_of(starts, root, cut, n).contains(dir),
    ensures
        in_cut(dir, cut),
        exists|i: int| 0 <= i < n && dir.is_prefix_of(#[trigger] starts[i]),
    decreases n,
{
    if n > 0 {
        let before = chains_of(starts, root, cut, n - 1);
        if before.contains(dir) {
            only_directories_on_the_way_are_searched(starts, root, cut, n - 1, dir);
        } else {
            chain_has_no_more(before, starts[n - 1], root, cut, dir);
            assert(dir.is_prefix_of(starts[n - 1]));
        }
    }
}

proof fn chain_has_no_more(
    list: Seq<Seq<Seq<char>>>,
    from: Seq<Seq<char>>,
    root: Seq<Seq<char>>,
    cut: Option<Seq<Seq<char>>>,
    dir: Seq<Seq<char>>,
)
    requires
        with_chain(list, from, root, cut).contains(dir),
    ensures
        list.contains(dir) || in_cut(dir, cut) && dir.is_prefix_of(from),
    decreases from.len(),
{
    let all = with_chain(list, from, root, cut);
    let walks = from != root && parent_of(from) is Some && from.len() > 0;
    let outer = if walks {
        with_chain(list, from.drop_last(), root, cut)
    } else {
        list
    };
    let k = choose|k: int| 0 <= k < all.len() && all[k] == dir;
    if k < outer.len() {
        assert(outer[k] == dir);
        assert(outer.contains(dir));
        if walks {
            chain_has_no_more(list, from.drop_last(), root, cut, dir);
            if dir.is_prefix_of(from.drop_last()) {
                assert(dir =~= from.subrange(0, dir.len() as int)) by {
                    assert(dir =~= from.drop_last().subrange(0, dir.len() as int));
                }
            }
        }
    } else {
        assert(dir == from);
        assert(dir =~= from.subrange(0, dir.len() as int));
    }
}

/// Where the search starts: in a directory that is given and in the directory of
/// a file that is given, and where nothing is given in the current directory; with
/// conftests also in the directory of every file to collect.
pub proof fn searches_start_at_arguments(
    noconftest: bool,
    current: Seq<Seq<char>>,
    args: Seq<PathArg>,
    files: Seq<Seq<Seq<char>>>,
    i: int,
    j: int,
)
    ensures
        args.len() == 0 ==> starts_of(noconftest, current, args, files).contains(current),
        0 <= i < args.len() && args[i].is_dir ==> starts_of(
            noconftest,
            current,
            args,
            files,
        ).contains(texts(args[i].path@)),
        0 <= i < args.len() && !args[i].is_dir && args[i].path@.len() > 1 ==> starts_of(
            noconftest,
            current,
            args,
            files,
        ).contains(texts(args[i].path@).drop_last()),
        !noconftest && 0 <= j < files.len() && files[j].len() > 1 ==> starts_of(
            noconftest,
            current,
            args,
            files,
        ).contains(files[j].drop_last()),
{
    let all = starts_of(noconftest, current, args, files);
    if args.len() == 0 {
        assert(all[0] == current);
    }
    if 0 <= i < args.len() && (args[i].is_dir || args[i].path@.len() > 1) {
        let p = start_of(args[i])->0;
        if noconftest {
            assert(all[i] == p);
        } else {
            arg_starts_have(args, args.len() as int, i);
            contains_sum(
                arg_starts(args, args.len() as int),
                file_dirs(files, files.len() as int),
                p,
            );
        }
    }
    if !noconftest && 0 <= j < files.len() && files[j].len() > 1 {
        file_dirs_have(files, files.len() as int, j);
        let dirs = file_dirs(files, files.len() as int);
        contains_sum(seq![current], dirs, files[j].drop_last());
        contains_sum(arg_starts(args, args.len() as int), dirs, files[j].drop_last());
    }
}

proof fn arg_starts_have(args: Seq<PathArg>, n: int, i: int)
    requires
        0 <= i < n <= args.len(),
        start_of(args[i]) is Some,
    ensures
        arg_starts(args, n).contains(start_of(args[i])->0),
    decreases n,
{
    let last = path_if(start_of(args[n - 1]));
    contains_sum(arg_starts(args, n - 1), last, start_of(args[i])->0);
    if i < n - 1 {
        arg_starts_have(args, n - 1, i);
    } else {
        assert(last[0] == start_of(args[i])->0);
    }
}

proof fn file_dirs_have(files: Seq<Seq<Seq<char>>>, n: int, j: int)
    requires
        0 <= j < n <= files.len(),
        files[j].len() > 1,
    ensures
        file_dirs(files, n).contains(files[j].drop_last()),
    decreases n,
{
    let last = path_if(parent_of(files[n - 1]));
    contains_sum(file_dirs(files, n - 1), last, files[j].drop_last());
    if j < n - 1 {
        file_dirs_have(files, n - 1, j);
    } else {
        assert(last[0] == files[j].drop_last());
    }
}

/// The directories below the root on the way to a directory, innermost first.
pub proof fn directories_below_the_root(dir: Seq<Seq<char>>, root: Seq<Seq<char>>)
    requires
        root.len() > 0,
        root.is_prefix_of(dir),
    ensures
        chain_below(dir, root).len() == dir.len() - root.len(),
        forall|i: int|
            0 <= i < dir.len() - root.len() ==> #[trigger] chain_below(dir, root)[i] == dir.take(
                dir.len() - i,
            ),
    decreases dir.len(),
{
    if dir.len() == root.len() {
        assert(dir =~= root);
    } else {
        assert(dir != root);
        let up = dir.drop_last();
        assert(root =~= up.subrange(0, root.len() as int)) by {
            assert(root =~= dir.subrange(0, root.len() as int));
        }
        directories_below_the_root(up, root);
        let all = chain_below(dir, root);
        let rest = chain_below(up, root);
        assert(all == seq![dir] + rest);
        assert forall|i: int| 0 <= i < dir.len() - root.len() implies #[trigger] all[i]
            == dir.take(dir.len() - i) by {
            if i == 0 {
                assert(dir.take(dir.len() as int) =~= dir);
            } else {
                assert(all[i] == rest[i - 1]);
                assert(up.take(up.len() - (i - 1)) =~= dir.take(dir.len() - i));
            }
        }
    }
}

} // verus!
