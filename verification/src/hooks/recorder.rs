//! What a recorder of hook calls is told of collection: the tree of
//! collectors, with directories, modules and classes, and what each came to.

use vstd::prelude::*;

use crate::item::TestItem;
use crate::lists::{contains_split, push_name, with_all, with_name};
use crate::nodeid::{
    class_key_of, file_part_of, file_stands_before_the_rest, find_class_key, last_part, last_part_of,
    nodeids_come_apart, parts_of,
};
use crate::numbers::{count_value, decimal_round_trip, is_digit, parse_u64};
use crate::report::SkippedModule;
use crate::text::{
    chars_of, contains, decimal_of, halves, head_of, last_at, last_at_bounds, last_halves,
    not_parted, occurs, parted_at_first, parted_at_last_char, same, split_last,
    split_once, string_of, strip_prefix, texts, texts_push,
};

verus! {

/// A file that a `pytest_collect_file` hook skipped.
pub struct SkippedFile {
    pub nodeid: String,
    pub reason: String,
}

/// An item below a collector.
pub struct ItemStub {
    pub nodeid: String,
    pub name: String,
}

/// A class: "file::name", its name and its items.
pub struct ClassNode {
    pub key: String,
    pub name: String,
    /// The position of its module.
    pub module: Option<usize>,
    pub items: Vec<ItemStub>,
}

/// A module with its classes and its items outside classes.
pub struct ModuleNode {
    pub file: String,
    pub name: String,
    /// The position of its directory.
    pub dir: Option<usize>,
    /// The positions of its classes.
    pub classes: Vec<usize>,
    pub items: Vec<ItemStub>,
    /// The names that `pytest_pycollect_makeitem` is called with.
    pub made: Vec<String>,
}

/// A module that was skipped or failed: only its place in the tree is known.
pub struct LeafNode {
    pub nodeid: String,
    pub name: String,
    /// The position of its directory.
    pub dir: Option<usize>,
}

/// Where and why something was skipped.
pub struct SkipNote {
    pub file: String,
    pub line: u64,
    pub text: String,
}

/// A directory with its modules.
pub struct DirNode {
    pub dir: String,
    /// The positions of its modules.
    pub modules: Vec<usize>,
    /// It was skipped as a whole.
    pub skip: Option<SkipNote>,
}

/// The tree of collectors.
pub struct CollectorTree {
    pub dirs: Vec<DirNode>,
    pub modules: Vec<ModuleNode>,
    pub classes: Vec<ClassNode>,
    pub skipped: Vec<LeafNode>,
    pub skip_notes: Vec<SkipNote>,
    pub failing: Vec<LeafNode>,
}

// ---------------------------------------------------------------------------
// Model
// ---------------------------------------------------------------------------

/// Where the components of a path start: after the root, or after the dot
/// that it starts with.
pub open spec fn body_at(path: Seq<char>) -> int {
    if path.len() > 0 && path[0] == '/' {
        1
    } else if path.len() > 0 && path[0] == '.' && (path.len() == 1 || path[1] == '/') {
        1
    } else {
        0
    }
}

/// The last component of a path whose components start at `body`.
pub open spec fn last_component(path: Seq<char>, body: int) -> Seq<char> {
    match last_at(path.skip(body), '/') {
        Some(i) => path.skip(body + i + 1),
        None => path.skip(body),
    }
}

/// What stands before the last component and the slash before it.
pub open spec fn before_component(path: Seq<char>, body: int) -> Seq<char> {
    match last_at(path.skip(body), '/') {
        Some(i) => path.take(body + i),
        None => path.take(body),
    }
}

/// Cutting off a component shortens the path.
pub proof fn cut_is_shorter(path: Seq<char>, body: int)
    requires
        0 <= body < path.len(),
    ensures
        before_component(path, body).len() < path.len(),
{
    last_at_bounds(path.skip(body), '/');
}

/// The path without components at its end that are empty or a single dot:
/// they name nothing.
pub open spec fn settled(path: Seq<char>, body: int) -> Seq<char>
    decreases path.len(),
{
    if !(0 <= body < path.len()) {
        path
    } else {
        let last = last_component(path, body);
        let before = before_component(path, body);
        if last.len() == 0 || last == "."@ {
            proof {
                cut_is_shorter(path, body);
            }
            settled(before, body)
        } else {
            path
        }
    }
}

/// The directory of a file, "." for one without.
pub open spec fn dir_of(file: Seq<char>) -> Seq<char> {
    let body = body_at(file);
    let path = settled(file, body);
    if path.len() <= body {
        "."@
    } else {
        let dir = settled(before_component(path, body), body);
        if dir.len() == 0 {
            "."@
        } else {
            dir
        }
    }
}

/// The last component of a path; all of it where that names no file.
pub open spec fn base_name(file: Seq<char>) -> Seq<char> {
    let body = body_at(file);
    let path = settled(file, body);
    let name = last_component(path, body);
    if path.len() <= body || name == ".."@ {
        file
    } else {
        name
    }
}

/// The files of the first `n` items, each once.
pub open spec fn modules_upto(items: Seq<TestItem>, n: int) -> Seq<Seq<char>>
    decreases n,
{
    if n <= 0 {
        seq![]
    } else {
        with_name(modules_upto(items, n - 1), file_part_of(items[n - 1].nodeid@))
    }
}

/// The classes of the first `n` items, each once.
pub open spec fn classes_upto(items: Seq<TestItem>, n: int) -> Seq<Seq<char>>
    decreases n,
{
    if n <= 0 {
        seq![]
    } else {
        match class_key_of(items[n - 1].nodeid@) {
            Some(key) => with_name(classes_upto(items, n - 1), key),
            None => classes_upto(items, n - 1),
        }
    }
}

/// The directories of files.
pub open spec fn dirs_of(files: Seq<Seq<char>>) -> Seq<Seq<char>> {
    Seq::new(files.len(), |i: int| dir_of(files[i]))
}

/// The nodeids of skipped modules.
pub open spec fn skipped_ids(v: Seq<SkippedModule>) -> Seq<Seq<char>> {
    Seq::new(v.len(), |i: int| v[i].nodeid@)
}

/// The nodeids of skipped files.
pub open spec fn file_skip_ids(v: Seq<SkippedFile>) -> Seq<Seq<char>> {
    Seq::new(v.len(), |i: int| v[i].nodeid@)
}

/// The directories of the tree, the current one first: those of the modules
/// with items, of failing, of skipped modules and of skipped files.
pub open spec fn tree_dirs(
    items: Seq<TestItem>,
    failing: Seq<Seq<char>>,
    skipped: Seq<SkippedModule>,
    file_skips: Seq<SkippedFile>,
) -> Seq<Seq<char>> {
    with_all(
        with_all(
            with_all(
                with_all(seq!["."@], dirs_of(modules_upto(items, items.len() as int))),
                dirs_of(failing),
            ),
            dirs_of(skipped_ids(skipped)),
        ),
        dirs_of(file_skip_ids(file_skips)),
    )
}

/// The first of `list` that equals `x`.
pub open spec fn place_of(list: Seq<Seq<char>>, x: Seq<char>) -> Option<int>
    decreases list.len(),
{
    if list.len() == 0 {
        None
    } else if list[0] == x {
        Some(0)
    } else {
        match place_of(list.skip(1), x) {
            Some(i) => Some(i + 1),
            None => None,
        }
    }
}

/// A position, if it is known.
pub open spec fn at(p: Option<usize>) -> Option<int> {
    match p {
        Some(i) => Some(i as int),
        None => None,
    }
}

/// A stub as a mathematical value.
pub struct StubView {
    pub nodeid: Seq<char>,
    pub name: Seq<char>,
}

/// The stubs of a list.
pub open spec fn stub_views(v: Seq<ItemStub>) -> Seq<StubView> {
    Seq::new(v.len(), |i: int| StubView { nodeid: v[i].nodeid@, name: v[i].name@ })
}

/// The items of a class among the first `n`: those right below it.
pub open spec fn class_items(items: Seq<TestItem>, n: int, key: Seq<char>) -> Seq<StubView>
    decreases n,
{
    if n <= 0 {
        seq![]
    } else {
        let before = class_items(items, n - 1, key);
        let id = items[n - 1].nodeid@;
        let prefix = key + "::"@;
        if prefix.is_prefix_of(id) && !occurs(id.skip(prefix.len() as int), "::"@) {
            before.push(StubView { nodeid: id, name: id.skip(prefix.len() as int) })
        } else {
            before
        }
    }
}

/// The items of a module outside classes, among the first `n`.
pub open spec fn module_items(items: Seq<TestItem>, n: int, file: Seq<char>) -> Seq<StubView>
    decreases n,
{
    if n <= 0 {
        seq![]
    } else {
        let before = module_items(items, n - 1, file);
        let id = items[n - 1].nodeid@;
        if file_part_of(id) == file && class_key_of(id) is None {
            before.push(StubView { nodeid: id, name: last_part_of(id) })
        } else {
            before
        }
    }
}

/// The file of a class.
pub open spec fn class_file(key: Seq<char>) -> Seq<char> {
    match halves(key, "::"@) {
        Some((file, _)) => file,
        None => key,
    }
}

/// The name of a class.
pub open spec fn class_name(key: Seq<char>) -> Seq<char> {
    match halves(key, "::"@) {
        Some((_, name)) => name,
        None => ""@,
    }
}

/// The positions of the classes of a module, among the first `n`.
pub open spec fn module_classes(keys: Seq<Seq<char>>, n: int, file: Seq<char>) -> Seq<usize>
    decreases n,
{
    if n <= 0 {
        seq![]
    } else if class_file(keys[n - 1]) == file {
        module_classes(keys, n - 1, file).push((n - 1) as usize)
    } else {
        module_classes(keys, n - 1, file)
    }
}

/// The names of these classes.
pub open spec fn class_names_at(keys: Seq<Seq<char>>, places: Seq<usize>) -> Seq<Seq<char>> {
    Seq::new(places.len(), |i: int| class_name(keys[places[i] as int]))
}

/// The names of these items.
pub open spec fn stub_names(stubs: Seq<StubView>) -> Seq<Seq<char>> {
    Seq::new(stubs.len(), |i: int| stubs[i].name)
}

/// The node of a class.
pub open spec fn class_ok(
    c: ClassNode,
    key: Seq<char>,
    items: Seq<TestItem>,
    files: Seq<Seq<char>>,
) -> bool {
    &&& c.key@ == key
    &&& c.name@ == class_name(key)
    &&& at(c.module) == place_of(files, class_file(key))
    &&& stub_views(c.items@) == class_items(items, items.len() as int, key)
}

/// The node of a module.
pub open spec fn module_ok(
    m: ModuleNode,
    file: Seq<char>,
    items: Seq<TestItem>,
    dirs: Seq<Seq<char>>,
    keys: Seq<Seq<char>>,
) -> bool {
    let own = module_items(items, items.len() as int, file);
    let classes = module_classes(keys, keys.len() as int, file);
    &&& m.file@ == file
    &&& m.name@ == base_name(file)
    &&& at(m.dir) == place_of(dirs, dir_of(file))
    &&& m.classes@ == classes
    &&& stub_views(m.items@) == own
    &&& texts(m.made@) == class_names_at(keys, classes) + stub_names(own)
}

/// The node of a module without items.
pub open spec fn leaf_ok(l: LeafNode, nodeid: Seq<char>, dirs: Seq<Seq<char>>) -> bool {
    &&& l.nodeid@ == nodeid
    &&& l.name@ == base_name(nodeid)
    &&& at(l.dir) == place_of(dirs, dir_of(nodeid))
}

/// The file and the line of a location; the first line where none is given.
pub open spec fn location_parts(location: Seq<char>) -> (Seq<char>, nat) {
    match last_halves(location, ':') {
        Some((file, line)) => match count_value(line, u64::MAX as nat) {
            Some(n) => (file, n),
            None => (file, 1),
        },
        None => (location, 1),
    }
}

/// The note on a skipped module.
pub open spec fn note_ok(n: SkipNote, s: SkippedModule) -> bool {
    &&& n.file@ == location_parts(s.location@).0
    &&& n.line == location_parts(s.location@).1
    &&& n.text@ == "Skipped: "@ + s.reason@
}

/// Why a directory was skipped as a whole: the first of its skipped files
/// says, unless it has modules with items or failing ones.
pub open spec fn dir_skip_reason(
    dir: Seq<char>,
    files: Seq<Seq<char>>,
    failing: Seq<Seq<char>>,
    file_skips: Seq<SkippedFile>,
) -> Option<Seq<char>> {
    if dirs_of(files).contains(dir) || dirs_of(failing).contains(dir) {
        None
    } else {
        match place_of(dirs_of(file_skip_ids(file_skips)), dir) {
            Some(i) => Some(file_skips[i].reason@),
            None => None,
        }
    }
}

/// The positions of the modules of a directory, among the first `n`.
pub open spec fn dir_modules(files: Seq<Seq<char>>, n: int, dir: Seq<char>) -> Seq<usize>
    decreases n,
{
    if n <= 0 {
        seq![]
    } else if dir_of(files[n - 1]) == dir {
        dir_modules(files, n - 1, dir).push((n - 1) as usize)
    } else {
        dir_modules(files, n - 1, dir)
    }
}

/// The node of a directory.
pub open spec fn dir_ok(
    d: DirNode,
    dir: Seq<char>,
    files: Seq<Seq<char>>,
    failing: Seq<Seq<char>>,
    file_skips: Seq<SkippedFile>,
) -> bool {
    &&& d.dir@ == dir
    &&& d.modules@ == dir_modules(files, files.len() as int, dir)
    &&& match dir_skip_reason(dir, files, failing, file_skips) {
        Some(reason) => d.skip matches Some(note) && note.file@ == dir && note.line == 1
            && note.text@ == "Skipped: "@ + reason,
        None => d.skip is None,
    }
}

/// The whole tree.
pub open spec fn tree_ok(
    t: CollectorTree,
    items: Seq<TestItem>,
    failing: Seq<Seq<char>>,
    skipped: Seq<SkippedModule>,
    file_skips: Seq<SkippedFile>,
) -> bool {
    let files = modules_upto(items, items.len() as int);
    let keys = classes_upto(items, items.len() as int);
    let dirs = tree_dirs(items, failing, skipped, file_skips);
    &&& t.dirs@.len() == dirs.len()
    &&& forall|i: int|
        0 <= i < dirs.len() ==> dir_ok(#[trigger] t.dirs@[i], dirs[i], files, failing, file_skips)
    &&& t.modules@.len() == files.len()
    &&& forall|i: int|
        0 <= i < files.len() ==> module_ok(#[trigger] t.modules@[i], files[i], items, dirs, keys)
    &&& t.classes@.len() == keys.len()
    &&& forall|i: int|
        0 <= i < keys.len() ==> class_ok(#[trigger] t.classes@[i], keys[i], items, files)
    &&& t.skipped@.len() == skipped.len()
    &&& t.skip_notes@.len() == skipped.len()
    &&& forall|i: int|
        0 <= i < skipped.len() ==> leaf_ok(#[trigger] t.skipped@[i], skipped[i].nodeid@, dirs)
    &&& forall|i: int|
        0 <= i < skipped.len() ==> note_ok(#[trigger] t.skip_notes@[i], skipped[i])
    &&& t.failing@.len() == failing.len()
    &&& forall|i: int|
        0 <= i < failing.len() ==> leaf_ok(#[trigger] t.failing@[i], failing[i], dirs)
}

// ---------------------------------------------------------------------------
// Executable functions
// ---------------------------------------------------------------------------

fn body_start(cs: &Vec<char>) -> (r: usize)
    ensures
        r == body_at(cs@),
        r <= cs@.len(),
{
    let n: usize = cs.len();
    if n > 0 && cs[0] == '/' {
        1
    } else if n > 0 && cs[0] == '.' && (n == 1 || cs[1] == '/') {
        1
    } else {
        0
    }
}

/// Where the last component of the first `n` characters is cut off, and where
/// it starts.
fn last_cut(cs: &Vec<char>, body: usize, n: usize) -> (r: (usize, usize))
    requires
        body < n <= cs@.len(),
    ensures
        body <= r.0 < n,
        r.0 <= r.1 <= n,
        before_component(cs@.take(n as int), body as int) == cs@.take(r.0 as int),
        last_component(cs@.take(n as int), body as int) == cs@.subrange(r.1 as int, n as int),
{
    let ghost path = cs@.take(n as int);
    let ghost tail = path.skip(body as int);
    let mut k: usize = n;
    assert(tail.take(n - body) =~= tail);
    while k > body
        invariant
            body <= k <= n <= cs@.len(),
            path == cs@.take(n as int),
            tail == path.skip(body as int),
            last_at(tail, '/') == last_at(tail.take(k - body), '/'),
        decreases k,
    {
        let ghost top = tail.take(k - body);
        assert(top.last() == cs@[k - 1]);
        if cs[k - 1] == '/' {
            assert(path.take(k - 1) =~= cs@.take(k - 1));
            assert(path.skip(k as int) =~= cs@.subrange(k as int, n as int));
            return (k - 1, k);
        }
        assert(top.drop_last() =~= tail.take(k - 1 - body));
        k -= 1;
    }
    assert(path.take(body as int) =~= cs@.take(body as int));
    assert(path.skip(body as int) =~= cs@.subrange(body as int, n as int));
    (body, body)
}

/// How many of the first `n` characters are left without components at their
/// end that name nothing.
fn settle(cs: &Vec<char>, body: usize, n: usize) -> (r: usize)
    requires
        body <= cs@.len(),
        n <= cs@.len(),
    ensures
        r <= n,
        cs@.take(r as int) == settled(cs@.take(n as int), body as int),
{
    proof {
        reveal_strlit(".");
    }
    let mut k: usize = n;
    while k > body
        invariant
            k <= n <= cs@.len(),
            body <= cs@.len(),
            "."@ == seq!['.'],
            settled(cs@.take(k as int), body as int) == settled(cs@.take(n as int), body as int),
        decreases k,
    {
        let (before, from) = last_cut(cs, body, k);
        let ghost last = cs@.subrange(from as int, k as int);
        let nothing = from == k || (from + 1 == k && cs[from] == '.');
        proof {
            if last == "."@ {
                assert(last.len() == 1 && last[0] == '.');
                assert(nothing);
            }
            if from + 1 == k && cs@[from as int] == '.' {
                assert(last =~= "."@);
            }
        }
        if !nothing {
            assert(last_component(cs@.take(k as int), body as int) == last);
            assert(last.len() > 0 && last != "."@);
            return k;
        }
        k = before;
    }
    k
}

/// The directory of a file, "." for one without.
pub fn dir_key(file: &str) -> (r: String)
    ensures
        r@ == dir_of(file@),
{
    let cs = chars_of(file);
    let body: usize = body_start(&cs);
    assert(cs@.take(cs@.len() as int) =~= file@);
    let n: usize = settle(&cs, body, cs.len());
    if n <= body {
        return ".".to_owned();
    }
    let (before, _) = last_cut(&cs, body, n);
    let m: usize = settle(&cs, body, before);
    if m == 0 {
        ".".to_owned()
    } else {
        let dir = string_of(&cs, 0, m);
        assert(dir@ =~= cs@.take(m as int));
        dir
    }
}

/// The last component of a path.
pub fn file_name(file: &str) -> (r: String)
    ensures
        r@ == base_name(file@),
{
    let cs = chars_of(file);
    let body: usize = body_start(&cs);
    assert(cs@.take(cs@.len() as int) =~= file@);
    let n: usize = settle(&cs, body, cs.len());
    if n <= body {
        return file.to_owned();
    }
    let (_, from) = last_cut(&cs, body, n);
    let name = string_of(&cs, from, n);
    assert(name@ =~= last_component(cs@.take(n as int), body as int));
    if same(name.as_str(), "..") {
        file.to_owned()
    } else {
        name
    }
}

/// The files of the items, each once.
fn collect_modules(items: &[TestItem]) -> (r: Vec<String>)
    ensures
        texts(r@) == modules_upto(items@, items@.len() as int),
{
    let mut r: Vec<String> = Vec::new();
    let mut i: usize = 0;
    assert(texts(r@) =~= seq![]);
    while i < items.len()
        invariant
            i <= items@.len(),
            texts(r@) == modules_upto(items@, i as int),
        decreases items@.len() - i,
    {
        let parts = parts_of(items[i].nodeid.as_str());
        push_name(&mut r, parts[0].as_str());
        i += 1;
    }
    r
}

/// The classes of the items, each once.
fn collect_classes(items: &[TestItem]) -> (r: Vec<String>)
    ensures
        texts(r@) == classes_upto(items@, items@.len() as int),
{
    let mut r: Vec<String> = Vec::new();
    let mut i: usize = 0;
    assert(texts(r@) =~= seq![]);
    while i < items.len()
        invariant
            i <= items@.len(),
            texts(r@) == classes_upto(items@, i as int),
        decreases items@.len() - i,
    {
        if let Some(key) = find_class_key(items[i].nodeid.as_str()) {
            push_name(&mut r, key.as_str());
        }
        i += 1;
    }
    r
}

/// Appends the new directories of files.
fn add_dirs(dirs: &mut Vec<String>, files: &Vec<String>)
    ensures
        texts(final(dirs)@) == with_all(texts(old(dirs)@), dirs_of(texts(files@))),
{
    let ghost start = texts(dirs@);
    let ghost more = dirs_of(texts(files@));
    let mut i: usize = 0;
    while i < files.len()
        invariant
            i <= files@.len(),
            more == dirs_of(texts(files@)),
            texts(dirs@) == with_all(start, more.take(i as int)),
        decreases files@.len() - i,
    {
        assert(more.take(i + 1).drop_last() =~= more.take(i as int));
        let dir = dir_key(files[i].as_str());
        push_name(dirs, dir.as_str());
        i += 1;
    }
    assert(more.take(i as int) =~= more);
}

/// The first of `list` that equals `x`.
fn find_place(list: &Vec<String>, x: &str) -> (r: Option<usize>)
    ensures
        at(r) == place_of(texts(list@), x@),
        r matches Some(i) ==> i < list@.len(),
{
    let ghost all = texts(list@);
    let mut i: usize = 0;
    assert(all.skip(0) =~= all);
    while i < list.len()
        invariant
            i <= list@.len(),
            all == texts(list@),
            match place_of(all.skip(i as int), x@) {
                Some(k) => place_of(all, x@) == Some(k + i),
                None => place_of(all, x@) is None,
            },
        decreases list@.len() - i,
    {
        assert(all.skip(i as int).skip(1) =~= all.skip(i + 1));
        if same(list[i].as_str(), x) {
            return Some(i);
        }
        i += 1;
    }
    None
}

/// The directories of files.
fn list_dirs(files: &Vec<String>) -> (r: Vec<String>)
    ensures
        texts(r@) == dirs_of(texts(files@)),
{
    let mut r: Vec<String> = Vec::new();
    let mut i: usize = 0;
    while i < files.len()
        invariant
            i <= files@.len(),
            texts(r@) == dirs_of(texts(files@)).take(i as int),
        decreases files@.len() - i,
    {
        let dir = dir_key(files[i].as_str());
        proof {
            texts_push(r@, dir);
        }
        r.push(dir);
        assert(texts(r@) =~= dirs_of(texts(files@)).take(i + 1));
        i += 1;
    }
    assert(dirs_of(texts(files@)).take(i as int) =~= dirs_of(texts(files@)));
    r
}

/// Appends a stub.
fn push_stub(stubs: &mut Vec<ItemStub>, nodeid: &str, name: &str)
    ensures
        stub_views(final(stubs)@) == stub_views(old(stubs)@).push(
            StubView { nodeid: nodeid@, name: name@ },
        ),
{
    let ghost before = stubs@;
    stubs.push(ItemStub { nodeid: nodeid.to_owned(), name: name.to_owned() });
    assert(stub_views(stubs@) =~= stub_views(before).push(
        StubView { nodeid: nodeid@, name: name@ },
    ));
}

/// The items right below a class.
fn items_of_class(items: &[TestItem], key: &str) -> (r: Vec<ItemStub>)
    ensures
        stub_views(r@) == class_items(items@, items@.len() as int, key@),
{
    let mut prefix: String = key.to_owned();
    prefix.append("::");
    let mut r: Vec<ItemStub> = Vec::new();
    let mut i: usize = 0;
    assert(stub_views(r@) =~= seq![]);
    while i < items.len()
        invariant
            i <= items@.len(),
            prefix@ == key@ + "::"@,
            stub_views(r@) == class_items(items@, i as int, key@),
        decreases items@.len() - i,
    {
        if let Some(tail) = strip_prefix(items[i].nodeid.as_str(), prefix.as_str()) {
            if !contains(tail.as_str(), "::") {
                push_stub(&mut r, items[i].nodeid.as_str(), tail.as_str());
            }
        }
        i += 1;
    }
    r
}

/// The items of a module outside classes.
fn items_of_module(items: &[TestItem], file: &str) -> (r: Vec<ItemStub>)
    ensures
        stub_views(r@) == module_items(items@, items@.len() as int, file@),
{
    let mut r: Vec<ItemStub> = Vec::new();
    let mut i: usize = 0;
    assert(stub_views(r@) =~= seq![]);
    while i < items.len()
        invariant
            i <= items@.len(),
            stub_views(r@) == module_items(items@, i as int, file@),
        decreases items@.len() - i,
    {
        let id = items[i].nodeid.as_str();
        let parts = parts_of(id);
        if same(parts[0].as_str(), file) && find_class_key(id).is_none() {
            push_stub(&mut r, id, last_part(id).as_str());
        }
        i += 1;
    }
    r
}

/// The file and the name of a class.
fn split_key(key: &str) -> (r: (String, String))
    ensures
        r.0@ == class_file(key@),
        r.1@ == class_name(key@),
{
    match split_once(key, "::") {
        Some((file, name)) => (file, name),
        None => (key.to_owned(), "".to_owned()),
    }
}

/// The node of a class.
fn build_class(key: &str, items: &[TestItem], files: &Vec<String>) -> (r: ClassNode)
    ensures
        class_ok(r, key@, items@, texts(files@)),
{
    let (file, name) = split_key(key);
    ClassNode {
        key: key.to_owned(),
        name,
        module: find_place(files, file.as_str()),
        items: items_of_class(items, key),
    }
}

/// The node of a module.
fn build_module(
    file: &str,
    items: &[TestItem],
    dirs: &Vec<String>,
    keys: &Vec<String>,
) -> (r: ModuleNode)
    ensures
        module_ok(r, file@, items@, texts(dirs@), texts(keys@)),
{
    let ghost kv = texts(keys@);
    let mut classes: Vec<usize> = Vec::new();
    let mut made: Vec<String> = Vec::new();
    let mut i: usize = 0;
    assert(texts(made@) =~= class_names_at(kv, seq![]));
    while i < keys.len()
        invariant
            i <= keys@.len(),
            kv == texts(keys@),
            classes@ == module_classes(kv, i as int, file@),
            texts(made@) == class_names_at(kv, classes@),
        decreases keys@.len() - i,
    {
        let (of, name) = split_key(keys[i].as_str());
        if same(of.as_str(), file) {
            classes.push(i);
            proof {
                texts_push(made@, name);
            }
            made.push(name);
            assert(texts(made@) =~= class_names_at(kv, classes@));
        }
        i += 1;
    }
    let own = items_of_module(items, file);
    let ghost names = stub_names(stub_views(own@));
    let ghost start = texts(made@);
    let mut k: usize = 0;
    assert(start + names.take(0) =~= start);
    while k < own.len()
        invariant
            k <= own@.len(),
            names == stub_names(stub_views(own@)),
            texts(made@) == start + names.take(k as int),
        decreases own@.len() - k,
    {
        let name: String = own[k].name.clone();
        proof {
            texts_push(made@, name);
        }
        made.push(name);
        assert(texts(made@) =~= start + names.take(k + 1));
        k += 1;
    }
    assert(names.take(k as int) =~= names);
    let dir = dir_key(file);
    ModuleNode {
        file: file.to_owned(),
        name: file_name(file),
        dir: find_place(dirs, dir.as_str()),
        classes,
        items: own,
        made,
    }
}

/// The node of a module without items.
fn build_leaf(nodeid: &str, dirs: &Vec<String>) -> (r: LeafNode)
    ensures
        leaf_ok(r, nodeid@, texts(dirs@)),
{
    let dir = dir_key(nodeid);
    LeafNode {
        nodeid: nodeid.to_owned(),
        name: file_name(nodeid),
        dir: find_place(dirs, dir.as_str()),
    }
}

/// "Skipped: " with the reason.
fn skip_text(reason: &str) -> (r: String)
    ensures
        r@ == "Skipped: "@ + reason@,
{
    let mut r: String = "Skipped: ".to_owned();
    r.append(reason);
    r
}

/// The note on a skipped module.
fn build_note(s: &SkippedModule) -> (r: SkipNote)
    ensures
        note_ok(r, *s),
{
    let text = skip_text(s.reason.as_str());
    match split_last(s.location.as_str(), ':') {
        Some((file, line)) => {
            let line: u64 = match parse_u64(line.as_str()) {
                Some(n) => n,
                None => 1,
            };
            SkipNote { file, line, text }
        },
        None => SkipNote { file: s.location.clone(), line: 1, text },
    }
}

/// The node of a directory.
fn build_dir(
    dir: &str,
    files: &Vec<String>,
    failing: &Vec<String>,
    skip_ids: &Vec<String>,
    file_skips: &[SkippedFile],
) -> (r: DirNode)
    requires
        texts(skip_ids@) == file_skip_ids(file_skips@),
    ensures
        dir_ok(r, dir@, texts(files@), texts(failing@), file_skips@),
{
    let ghost fv = texts(files@);
    let mut modules: Vec<usize> = Vec::new();
    let mut i: usize = 0;
    while i < files.len()
        invariant
            i <= files@.len(),
            fv == texts(files@),
            modules@ == dir_modules(fv, i as int, dir@),
        decreases files@.len() - i,
    {
        let d = dir_key(files[i].as_str());
        if same(d.as_str(), dir) {
            modules.push(i);
        }
        i += 1;
    }
    let with_items = list_dirs(files);
    let with_errors = list_dirs(failing);
    let skip = if crate::lists::has_text(with_items.as_slice(), dir) || crate::lists::has_text(
        with_errors.as_slice(),
        dir,
    ) {
        None
    } else {
        let skip_dirs = list_dirs(skip_ids);
        assert(texts(skip_ids@).len() == skip_ids@.len());
        assert(texts(skip_dirs@).len() == skip_dirs@.len());
        match find_place(&skip_dirs, dir) {
            Some(k) => Some(
                SkipNote {
                    file: dir.to_owned(),
                    line: 1,
                    text: skip_text(file_skips[k].reason.as_str()),
                },
            ),
            None => None,
        }
    };
    DirNode { dir: dir.to_owned(), modules, skip }
}

/// The tree of collectors that a collection came to: its directories, its
/// modules and classes with their items, and the modules that were skipped or
/// failed.
pub fn collector_tree(
    items: &[TestItem],
    failing: &Vec<String>,
    skipped: &[SkippedModule],
    file_skips: &[SkippedFile],
) -> (r: CollectorTree)
    ensures
        tree_ok(r, items@, texts(failing@), skipped@, file_skips@),
{
    let files = collect_modules(items);
    let keys = collect_classes(items);
    let mut skipped_nodeids: Vec<String> = Vec::new();
    let mut i: usize = 0;
    while i < skipped.len()
        invariant
            i <= skipped@.len(),
            texts(skipped_nodeids@) == skipped_ids(skipped@).take(i as int),
        decreases skipped@.len() - i,
    {
        let id: String = skipped[i].nodeid.clone();
        proof {
            texts_push(skipped_nodeids@, id);
        }
        skipped_nodeids.push(id);
        assert(texts(skipped_nodeids@) =~= skipped_ids(skipped@).take(i + 1));
        i += 1;
    }
    assert(skipped_ids(skipped@).take(i as int) =~= skipped_ids(skipped@));
    let mut skip_ids: Vec<String> = Vec::new();
    let mut j: usize = 0;
    while j < file_skips.len()
        invariant
            j <= file_skips@.len(),
            texts(skip_ids@) == file_skip_ids(file_skips@).take(j as int),
        decreases file_skips@.len() - j,
    {
        let id: String = file_skips[j].nodeid.clone();
        proof {
            texts_push(skip_ids@, id);
        }
        skip_ids.push(id);
        assert(texts(skip_ids@) =~= file_skip_ids(file_skips@).take(j + 1));
        j += 1;
    }
    assert(file_skip_ids(file_skips@).take(j as int) =~= file_skip_ids(file_skips@));
    let mut dirs: Vec<String> = Vec::new();
    dirs.push(".".to_owned());
    assert(texts(dirs@) =~= seq!["."@]);
    add_dirs(&mut dirs, &files);
    add_dirs(&mut dirs, failing);
    add_dirs(&mut dirs, &skipped_nodeids);
    add_dirs(&mut dirs, &skip_ids);
    let ghost fv = texts(files@);
    let ghost kv = texts(keys@);
    let ghost dv = texts(dirs@);
    let ghost bad = texts(failing@);
    assert(dv == tree_dirs(items@, bad, skipped@, file_skips@));

    let mut dir_nodes: Vec<DirNode> = Vec::new();
    let mut a: usize = 0;
    while a < dirs.len()
        invariant
            a <= dirs@.len(),
            dv == texts(dirs@),
            fv == texts(files@),
            bad == texts(failing@),
            texts(skip_ids@) == file_skip_ids(file_skips@),
            dir_nodes@.len() == a,
            forall|i: int|
                0 <= i < a ==> dir_ok(#[trigger] dir_nodes@[i], dv[i], fv, bad, file_skips@),
        decreases dirs@.len() - a,
    {
        let node = build_dir(dirs[a].as_str(), &files, failing, &skip_ids, file_skips);
        dir_nodes.push(node);
        a += 1;
    }
    let mut modules: Vec<ModuleNode> = Vec::new();
    let mut b: usize = 0;
    while b < files.len()
        invariant
            b <= files@.len(),
            fv == texts(files@),
            dv == texts(dirs@),
            kv == texts(keys@),
            modules@.len() == b,
            forall|i: int|
                0 <= i < b ==> module_ok(#[trigger] modules@[i], fv[i], items@, dv, kv),
        decreases files@.len() - b,
    {
        let node = build_module(files[b].as_str(), items, &dirs, &keys);
        modules.push(node);
        b += 1;
    }
    let mut classes: Vec<ClassNode> = Vec::new();
    let mut c: usize = 0;
    while c < keys.len()
        invariant
            c <= keys@.len(),
            fv == texts(files@),
            kv == texts(keys@),
            classes@.len() == c,
            forall|i: int| 0 <= i < c ==> class_ok(#[trigger] classes@[i], kv[i], items@, fv),
        decreases keys@.len() - c,
    {
        let node = build_class(keys[c].as_str(), items, &files);
        classes.push(node);
        c += 1;
    }
    let mut skipped_nodes: Vec<LeafNode> = Vec::new();
    let mut notes: Vec<SkipNote> = Vec::new();
    let mut d: usize = 0;
    while d < skipped.len()
        invariant
            d <= skipped@.len(),
            dv == texts(dirs@),
            skipped_nodes@.len() == d,
            notes@.len() == d,
            forall|i: int|
                0 <= i < d ==> leaf_ok(#[trigger] skipped_nodes@[i], skipped@[i].nodeid@, dv),
            forall|i: int| 0 <= i < d ==> note_ok(#[trigger] notes@[i], skipped@[i]),
        decreases skipped@.len() - d,
    {
        let node = build_leaf(skipped[d].nodeid.as_str(), &dirs);
        skipped_nodes.push(node);
        let note = build_note(&skipped[d]);
        notes.push(note);
        d += 1;
    }
    let mut failing_nodes: Vec<LeafNode> = Vec::new();
    let mut e: usize = 0;
    while e < failing.len()
        invariant
            e <= failing@.len(),
            dv == texts(dirs@),
            bad == texts(failing@),
            failing_nodes@.len() == e,
            forall|i: int| 0 <= i < e ==> leaf_ok(#[trigger] failing_nodes@[i], bad[i], dv),
        decreases failing@.len() - e,
    {
        let node = build_leaf(failing[e].as_str(), &dirs);
        failing_nodes.push(node);
        e += 1;
    }
    CollectorTree {
        dirs: dir_nodes,
        modules,
        classes,
        skipped: skipped_nodes,
        skip_notes: notes,
        failing: failing_nodes,
    }
}

// ---------------------------------------------------------------------------
// Laws
// ---------------------------------------------------------------------------

/// The tree lists the current directory first and no directory, module or
/// class twice.
pub proof fn tree_lists_nothing_twice(
    items: Seq<TestItem>,
    failing: Seq<Seq<char>>,
    skipped: Seq<SkippedModule>,
    file_skips: Seq<SkippedFile>,
)
    ensures
        tree_dirs(items, failing, skipped, file_skips)[0] == "."@,
        tree_dirs(items, failing, skipped, file_skips).no_duplicates(),
        modules_upto(items, items.len() as int).no_duplicates(),
        classes_upto(items, items.len() as int).no_duplicates(),
{
    let files = modules_upto(items, items.len() as int);
    let a = seq!["."@];
    let b = with_all(a, dirs_of(files));
    let c = with_all(b, dirs_of(failing));
    let d = with_all(c, dirs_of(skipped_ids(skipped)));
    crate::lists::with_all_facts(a, dirs_of(files));
    crate::lists::with_all_facts(b, dirs_of(failing));
    crate::lists::with_all_facts(c, dirs_of(skipped_ids(skipped)));
    crate::lists::with_all_facts(d, dirs_of(file_skip_ids(file_skips)));
    distinct_modules(items, items.len() as int);
}

proof fn distinct_modules(items: Seq<TestItem>, n: int)
    requires
        0 <= n <= items.len(),
    ensures
        modules_upto(items, n).no_duplicates(),
        classes_upto(items, n).no_duplicates(),
    decreases n,
{
    if n > 0 {
        distinct_modules(items, n - 1);
    }
}

/// Every module of the tree has its directory in the tree.
pub proof fn modules_have_directories(
    items: Seq<TestItem>,
    failing: Seq<Seq<char>>,
    skipped: Seq<SkippedModule>,
    file_skips: Seq<SkippedFile>,
    i: int,
)
    requires
        0 <= i < modules_upto(items, items.len() as int).len(),
    ensures
        ({
            let files = modules_upto(items, items.len() as int);
            let dirs = tree_dirs(items, failing, skipped, file_skips);
            place_of(dirs, dir_of(files[i])) matches Some(k) && 0 <= k < dirs.len() && dirs[k]
                == dir_of(files[i])
        }),
{
    let files = modules_upto(items, items.len() as int);
    let a = seq!["."@];
    let b = with_all(a, dirs_of(files));
    let c = with_all(b, dirs_of(failing));
    let d = with_all(c, dirs_of(skipped_ids(skipped)));
    let dirs = tree_dirs(items, failing, skipped, file_skips);
    crate::lists::with_all_facts(a, dirs_of(files));
    crate::lists::with_all_facts(b, dirs_of(failing));
    crate::lists::with_all_facts(c, dirs_of(skipped_ids(skipped)));
    crate::lists::with_all_facts(d, dirs_of(file_skip_ids(file_skips)));
    let x = dir_of(files[i]);
    assert(dirs_of(files)[i] == x);
    assert(dirs_of(files).contains(x));
    assert(b.contains(x));
    assert(c.contains(x));
    assert(d.contains(x));
    assert(dirs.contains(x));
    place_is_found(dirs, x);
}

proof fn place_is_found(list: Seq<Seq<char>>, x: Seq<char>)
    requires
        list.contains(x),
    ensures
        place_of(list, x) matches Some(k) && 0 <= k < list.len() && list[k] == x,
    decreases list.len(),
{
    if list[0] != x {
        let k = choose|k: int| 0 <= k < list.len() && list[k] == x;
        assert(list.skip(1)[k - 1] == x);
        place_is_found(list.skip(1), x);
    }
}

/// The directory of a file, and its name: what stands before and after the last slash,
/// and the current directory for a file without one.
pub proof fn files_lie_in_directories(dir: Seq<char>, name: Seq<char>)
    requires
        dir.len() > 0,
        dir[0] != '/' && dir[0] != '.',
        dir.last() != '/' && dir.last() != '.',
        name.len() > 0,
        !name.contains('/'),
        name != "."@ && name != ".."@,
        name[0] != '.',
    ensures
        dir_of(dir + "/"@ + name) == dir,
        base_name(dir + "/"@ + name) == name,
        dir_of(name) == "."@,
        base_name(name) == name,
{
    reveal_strlit("/");
    reveal_strlit(".");
    reveal_strlit("..");
    let path = dir + "/"@ + name;
    assert(path[0] == dir[0]);
    assert(path =~= dir.push('/') + name);
    parted_at_last_char(dir, '/', name);
    assert(path.skip(0) =~= path);
    assert(path.skip((dir.len() + 1) as int) =~= name);
    assert(path.take(dir.len() as int) =~= dir);
    assert(last_component(path, 0) == name);
    assert(before_component(path, 0) == dir);
    assert(settled(path, 0) == path);
    assert(dir.skip(0) =~= dir);
    last_at_bounds(dir, '/');
    let last = last_component(dir, 0);
    assert(last.len() > 0 && last != "."@) by {
        if let Some(i) = last_at(dir, '/') {
            last_at_is(dir, '/');
            assert(dir.skip(i + 1).len() > 0);
            assert(dir.skip(i + 1).last() == dir.last());
        }
    }
    assert(settled(dir, 0) == dir);
    assert(name.contains(name[0]));
    assert(name[0] != '/');
    parted_at_last_char(Seq::empty(), '/', name);
    assert(name.skip(0) =~= name);
    assert(name.take(0) =~= seq![]);
    assert(last_component(name, 0) == name);
    assert(settled(name, 0) == name);
    assert(before_component(name, 0).len() == 0);
}

/// A character that is found last stands there.
proof fn last_at_is(s: Seq<char>, c: char)
    ensures
        last_at(s, c) matches Some(i) ==> 0 <= i < s.len() && s[i] == c,
    decreases s.len(),
{
    if s.len() > 0 {
        last_at_is(s.drop_last(), c);
    }
}

/// Every file and every class with an item is in the tree, and no other, in the order in
/// which they appear first.
pub proof fn trees_have_files_and_classes(
    items: Seq<TestItem>,
    n: int,
    file: Seq<char>,
    key: Seq<char>,
)
    requires
        0 <= n <= items.len(),
    ensures
        modules_upto(items, n).contains(file) <==> exists|i: int|
            0 <= i < n && head_of((#[trigger] items[i]).nodeid@, "::"@) == file,
        classes_upto(items, n).contains(key) <==> exists|i: int|
            0 <= i < n && class_key_of((#[trigger] items[i]).nodeid@) == Some(key),
        n > 0 ==> modules_upto(items, n - 1).is_prefix_of(modules_upto(items, n)),
        n > 0 ==> classes_upto(items, n - 1).is_prefix_of(classes_upto(items, n)),
    decreases n,
{
    if n > 0 {
        trees_have_files_and_classes(items, n - 1, file, key);
        let last = items[n - 1];
        let part = file_part_of(last.nodeid@);
        file_stands_before_the_rest(last.nodeid@);
        let m0 = modules_upto(items, n - 1);
        let m1 = modules_upto(items, n);
        let c0 = classes_upto(items, n - 1);
        let c1 = classes_upto(items, n);
        assert(m0 =~= m1.subrange(0, m0.len() as int));
        assert(c0 =~= c1.subrange(0, c0.len() as int));
        named_once(m0, part, file);
        if let Some(k) = class_key_of(last.nodeid@) {
            named_once(c0, k, key);
        }
        if exists|i: int| 0 <= i < n && head_of((#[trigger] items[i]).nodeid@, "::"@) == file {
            let i = choose|i: int|
                0 <= i < n && head_of((#[trigger] items[i]).nodeid@, "::"@) == file;
            if i < n - 1 {
                assert(m0.contains(file));
            }
        }
        if m1.contains(file) && !m0.contains(file) {
            assert(head_of(items[n - 1].nodeid@, "::"@) == file);
        }
        if exists|i: int| 0 <= i < n && class_key_of((#[trigger] items[i]).nodeid@) == Some(key) {
            let i = choose|i: int|
                0 <= i < n && class_key_of((#[trigger] items[i]).nodeid@) == Some(key);
            if i < n - 1 {
                assert(c0.contains(key));
            }
        }
        if c1.contains(key) && !c0.contains(key) {
            assert(class_key_of(items[n - 1].nodeid@) == Some(key));
        }
    }
}

proof fn named_once(names: Seq<Seq<char>>, name: Seq<char>, x: Seq<char>)
    ensures
        with_name(names, name).contains(x) <==> names.contains(x) || x == name,
{
    if !names.contains(name) {
        contains_split(names.push(name), x);
        assert(names.push(name).drop_last() =~= names);
    }
}

/// The tests of a class are those whose nodeid is that of the class, "::" and a name;
/// the tests of a module are those of its file that lie in no class. They keep their
/// order.
pub proof fn tests_lie_in_classes_or_modules(
    items: Seq<TestItem>,
    n: int,
    key: Seq<char>,
    file: Seq<char>,
    name: Seq<char>,
)
    requires
        0 < n <= items.len(),
        !name.contains(':'),
    ensures
        class_items(items, 0, key).len() == 0,
        module_items(items, 0, file).len() == 0,
        items[n - 1].nodeid@ == key + "::"@ + name ==> class_items(items, n, key) == class_items(
            items,
            n - 1,
            key,
        ).push((StubView { nodeid: key + "::"@ + name, name })),
        !(key + "::"@).is_prefix_of(items[n - 1].nodeid@) ==> class_items(items, n, key)
            == class_items(items, n - 1, key),
        !file.contains(':') && items[n - 1].nodeid@ == file + "::"@ + name ==> module_items(
            items,
            n,
            file,
        ) == module_items(items, n - 1, file).push((StubView { nodeid: file + "::"@ + name, name })),
        class_key_of(items[n - 1].nodeid@) is Some ==> module_items(items, n, file)
            == module_items(items, n - 1, file),
        head_of(items[n - 1].nodeid@, "::"@) != file ==> module_items(items, n, file)
            == module_items(items, n - 1, file),
{
    reveal_strlit("::");
    let id = items[n - 1].nodeid@;
    file_stands_before_the_rest(id);
    let prefix = key + "::"@;
    not_parted(name, "::"@);
    if id == prefix + name {
        assert(prefix =~= id.subrange(0, prefix.len() as int));
        assert(id.skip(prefix.len() as int) =~= name);
    }
    if !file.contains(':') {
        nodeids_come_apart(file, Seq::empty(), name);
    }
}

/// Which modules lie in a directory and which classes in a module, by position.
pub proof fn places_are_listed(files: Seq<Seq<char>>, keys: Seq<Seq<char>>, n: int, i: usize)
    requires
        0 <= n <= files.len() <= usize::MAX,
        n <= keys.len() <= usize::MAX,
    ensures
        forall|dir: Seq<char>| #[trigger]
            dir_modules(files, n, dir).contains(i) <==> i < n && dir_of(files[i as int]) == dir,
        forall|file: Seq<char>| #[trigger]
            module_classes(keys, n, file).contains(i) <==> i < n && class_file(keys[i as int])
                == file,
    decreases n,
{
    if n > 0 {
        places_are_listed(files, keys, n - 1, i);
        assert forall|dir: Seq<char>| #[trigger]
            dir_modules(files, n, dir).contains(i) <==> i < n && dir_of(files[i as int]) == dir by {
            let before = dir_modules(files, n - 1, dir);
            let all = dir_modules(files, n, dir);
            assert(before.contains(i) <==> i < n - 1 && dir_of(files[i as int]) == dir);
            if dir_of(files[n - 1]) == dir {
                contains_split(all, i);
                assert(all.drop_last() =~= before);
            }
        }
        assert forall|file: Seq<char>| #[trigger]
            module_classes(keys, n, file).contains(i) <==> i < n && class_file(keys[i as int])
                == file by {
            let before = module_classes(keys, n - 1, file);
            let all = module_classes(keys, n, file);
            assert(before.contains(i) <==> i < n - 1 && class_file(keys[i as int]) == file);
            if class_file(keys[n - 1]) == file {
                contains_split(all, i);
                assert(all.drop_last() =~= before);
            }
        }
    }
}

/// A class is known by its file and its name; the place of a skip by its file and its
/// line, which is the first one where none is given.
pub proof fn keys_and_places_come_apart(
    file: Seq<char>,
    name: Seq<char>,
    line: nat,
)
    requires
        !file.contains(':'),
        line <= u64::MAX,
    ensures
        class_file(file + "::"@ + name) == file,
        class_name(file + "::"@ + name) == name,
        location_parts(file + ":"@ + decimal_of(line)) == (file, line),
        location_parts(file) == (file, 1nat),
{
    reveal_strlit("::");
    reveal_strlit(":");
    parted_at_first(file, "::"@, name);
    let digits = decimal_of(line);
    decimal_round_trip(line);
    digits_only(line);
    assert(!digits.contains(':')) by {
        if digits.contains(':') {
            let k = choose|k: int| 0 <= k < digits.len() && digits[k] == ':';
            assert(is_digit(digits[k]));
        }
    }
    parted_at_last_char(file, ':', digits);
    assert(file + ":"@ + digits =~= file.push(':') + digits);
    parted_at_last_char(Seq::empty(), ':', file);
}

/// The decimal digits of a number are digits.
proof fn digits_only(n: nat)
    ensures
        forall|i: int| 0 <= i < decimal_of(n).len() ==> is_digit(#[trigger] decimal_of(n)[i]),
    decreases n,
{
    if n >= 10 {
        digits_only(n / 10);
        let before = decimal_of(n / 10);
        assert forall|i: int| 0 <= i < decimal_of(n).len() implies is_digit(
            #[trigger] decimal_of(n)[i],
        ) by {
            if i < before.len() {
                assert(decimal_of(n)[i] == before[i]);
            }
        }
    }
}

/// A directory is skipped, with the reason of the first file of it that was, where it
/// has no module and no file that failed.
pub proof fn empty_directories_are_skipped(
    dir: Seq<char>,
    files: Seq<Seq<char>>,
    failing: Seq<Seq<char>>,
    file_skips: Seq<SkippedFile>,
    i: int,
)
    ensures
        0 <= i < files.len() && dir_of(files[i]) == dir ==> dir_skip_reason(
            dir,
            files,
            failing,
            file_skips,
        ) is None,
        0 <= i < failing.len() && dir_of(failing[i]) == dir ==> dir_skip_reason(
            dir,
            files,
            failing,
            file_skips,
        ) is None,
        (forall|j: int| 0 <= j < files.len() ==> dir_of(#[trigger] files[j]) != dir) && (forall|
            j: int,
        |
            0 <= j < failing.len() ==> dir_of(#[trigger] failing[j]) != dir) && 0 <= i
            < file_skips.len() && dir_of(file_skips[i].nodeid@) == dir && (forall|j: int|
            0 <= j < i ==> dir_of((#[trigger] file_skips[j]).nodeid@) != dir) ==> dir_skip_reason(
            dir,
            files,
            failing,
            file_skips,
        ) == Some(file_skips[i].reason@),
{
    if 0 <= i < files.len() && dir_of(files[i]) == dir {
        assert(dirs_of(files)[i] == dir);
    }
    if 0 <= i < failing.len() && dir_of(failing[i]) == dir {
        assert(dirs_of(failing)[i] == dir);
    }
    if 0 <= i < file_skips.len() && dir_of(file_skips[i].nodeid@) == dir && (forall|j: int|
        0 <= j < i ==> dir_of((#[trigger] file_skips[j]).nodeid@) != dir) {
        let dirs = dirs_of(file_skip_ids(file_skips));
        assert forall|j: int| 0 <= j < i implies #[trigger] dirs[j] != dir by {
            assert(dir_of(file_skips[j].nodeid@) != dir);
        }
        place_is_first(dirs, i);
    }
}

proof fn place_is_first(list: Seq<Seq<char>>, i: int)
    requires
        0 <= i < list.len(),
        forall|j: int| 0 <= j < i ==> #[trigger] list[j] != list[i],
    ensures
        place_of(list, list[i]) == Some(i),
    decreases list.len(),
{
    if i > 0 {
        let rest = list.skip(1);
        assert(list[0] != list[i]);
        assert(rest[i - 1] == list[i]);
        assert forall|j: int| 0 <= j < i - 1 implies #[trigger] rest[j] != rest[i - 1] by {
            assert(rest[j] == list[j + 1]);
        }
        place_is_first(rest, i - 1);
    }
}

/// What the nodes of the tree say: a module has the name of its file, its own tests and
/// offers the names of its classes and then of its tests; a class has the tests below
/// it; a skipped module has a note with its reason.
pub proof fn nodes_say_what_they_are(
    t: CollectorTree,
    items: Seq<TestItem>,
    failing: Seq<Seq<char>>,
    skipped: Seq<SkippedModule>,
    file_skips: Seq<SkippedFile>,
    i: int,
)
    requires
        tree_ok(t, items, failing, skipped, file_skips),
    ensures
        0 <= i < t.modules@.len() ==> {
            let m = t.modules@[i];
            &&& m.file@ == modules_upto(items, items.len() as int)[i]
            &&& m.name@ == base_name(m.file@)
            &&& stub_views(m.items@) == module_items(items, items.len() as int, m.file@)
            &&& m.made@.len() == m.classes@.len() + m.items@.len()
        },
        0 <= i < t.classes@.len() ==> {
            let c = t.classes@[i];
            &&& c.key@ == classes_upto(items, items.len() as int)[i]
            &&& c.name@ == class_name(c.key@)
            &&& stub_views(c.items@) == class_items(items, items.len() as int, c.key@)
        },
        t.skipped@.len() == skipped.len() && t.failing@.len() == failing.len(),
        0 <= i < skipped.len() ==> t.skipped@[i].nodeid@ == skipped[i].nodeid@
            && t.skip_notes@[i].text@ == "Skipped: "@ + skipped[i].reason@
            && t.skip_notes@[i].file@ == location_parts(skipped[i].location@).0
            && t.skip_notes@[i].line == location_parts(skipped[i].location@).1,
        0 <= i < failing.len() ==> t.failing@[i].nodeid@ == failing[i],
{
    let files = modules_upto(items, items.len() as int);
    let keys = classes_upto(items, items.len() as int);
    let dirs = tree_dirs(items, failing, skipped, file_skips);
    if 0 <= i < t.modules@.len() {
        assert(module_ok(t.modules@[i], files[i], items, dirs, keys));
        let m = t.modules@[i];
        assert(texts(m.made@).len() == m.made@.len());
        assert(stub_views(m.items@).len() == m.items@.len());
    }
    if 0 <= i < t.classes@.len() {
        assert(class_ok(t.classes@[i], keys[i], items, files));
    }
    if 0 <= i < skipped.len() {
        assert(leaf_ok(t.skipped@[i], skipped[i].nodeid@, dirs));
        assert(note_ok(t.skip_notes@[i], skipped[i]));
    }
    if 0 <= i < failing.len() {
        assert(leaf_ok(t.failing@[i], failing[i], dirs));
    }
}

/// The directory of everything that was collected, failed or was skipped is in the tree,
/// below the current one.
pub proof fn every_directory_is_in_the_tree(
    items: Seq<TestItem>,
    failing: Seq<Seq<char>>,
    skipped: Seq<SkippedModule>,
    file_skips: Seq<SkippedFile>,
    i: int,
)
    ensures
        0 <= i < failing.len() ==> tree_dirs(items, failing, skipped, file_skips).contains(
            dir_of(failing[i]),
        ),
        0 <= i < skipped.len() ==> tree_dirs(items, failing, skipped, file_skips).contains(
            dir_of(skipped[i].nodeid@),
        ),
        0 <= i < file_skips.len() ==> tree_dirs(items, failing, skipped, file_skips).contains(
            dir_of(file_skips[i].nodeid@),
        ),
{
    let a = with_all(seq!["."@], dirs_of(modules_upto(items, items.len() as int)));
    let b = with_all(a, dirs_of(failing));
    let c = with_all(b, dirs_of(skipped_ids(skipped)));
    crate::lists::with_all_facts(a, dirs_of(failing));
    crate::lists::with_all_facts(b, dirs_of(skipped_ids(skipped)));
    crate::lists::with_all_facts(c, dirs_of(file_skip_ids(file_skips)));
    if 0 <= i < failing.len() {
        assert(dirs_of(failing)[i] == dir_of(failing[i]));
        assert(b.contains(dir_of(failing[i])));
        assert(c.contains(dir_of(failing[i])));
    }
    if 0 <= i < skipped.len() {
        assert(dirs_of(skipped_ids(skipped))[i] == dir_of(skipped[i].nodeid@));
        assert(c.contains(dir_of(skipped[i].nodeid@)));
    }
    if 0 <= i < file_skips.len() {
        assert(dirs_of(file_skip_ids(file_skips))[i] == dir_of(file_skips[i].nodeid@));
    }
}

} // verus!
