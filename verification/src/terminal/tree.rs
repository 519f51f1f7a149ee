//! The `--collect-only` hierarchy: `<Dir>`, `<Package>`, `<Module>`, `<Class>`
//! and `<Function>` nodes, two blanks of indent per level.

use vstd::prelude::*;

use crate::item::TestItem;
use crate::nodeid::split_not_empty;
use crate::lists::{contains_sum, copy_texts, texts_prefix};
use crate::terminal::line::{emit, no_lines, plain, shown, Line, LineView, Style};
use crate::text::{
    filled, halves, not_parted, parted_at_first, repeat, same, split, split_by, split_once,
    starts_with, texts, texts_push,
};

verus! {

/// The import root of a `--pyargs` argument.
pub struct Anchor {
    /// The components of its path.
    pub components: Vec<String>,
    /// The length of its path in bytes.
    pub len: usize,
    /// Its path relative to the root directory.
    pub label: String,
}

/// A directory above an item: where it is and what it is called.
pub struct DirStep {
    pub path: Vec<String>,
    pub name: String,
}

/// A directory above an item, ready to be shown.
pub struct DirLabel {
    pub name: String,
    /// It holds an `__init__.py`.
    pub is_package: bool,
}

/// An item with what the application knows about it.
pub struct TreeItem<'a> {
    pub item: &'a TestItem,
    pub dirs: Vec<DirLabel>,
    /// The lines of the docstrings of the function and of its class.
    pub func_doc: Vec<String>,
    pub class_doc: Vec<String>,
}

// ---------------------------------------------------------------------------
// Model
// ---------------------------------------------------------------------------

/// The components of the directory of an item; the root directory where the
/// item has no path.
pub open spec fn item_dir(item: TestItem, rootdir: Seq<Seq<char>>) -> Seq<Seq<char>> {
    if item.path@.len() == 0 {
        rootdir
    } else {
        texts(item.path@).drop_last()
    }
}

/// The longest of the first `n` anchors that hold the directory, the last one
/// among equals.
pub open spec fn best_anchor(anchors: Seq<Anchor>, n: int, dir: Seq<Seq<char>>) -> Option<int>
    decreases n,
{
    if n <= 0 {
        None
    } else {
        let before = best_anchor(anchors, n - 1, dir);
        if texts(anchors[n - 1].components@).is_prefix_of(dir) {
            match before {
                Some(i) => if anchors[i].len > anchors[n - 1].len {
                    Some(i)
                } else {
                    Some(n - 1)
                },
                None => Some(n - 1),
            }
        } else {
            before
        }
    }
}

/// A directory below `path`.
pub open spec fn below_dir(path: Seq<Seq<char>>, name: Seq<char>) -> Seq<Seq<char>> {
    if name.len() == 0 {
        path
    } else {
        path.push(name)
    }
}

/// The directory after the first `n` names below `path`.
pub open spec fn nested_dir(path: Seq<Seq<char>>, names: Seq<Seq<char>>, n: int) -> Seq<Seq<char>>
    decreases n,
{
    if n <= 0 {
        path
    } else {
        below_dir(nested_dir(path, names, n - 1), names[n - 1])
    }
}

/// A step as a mathematical value.
pub struct StepView {
    pub path: Seq<Seq<char>>,
    pub name: Seq<char>,
}

/// The steps of a list.
pub open spec fn step_views(v: Seq<DirStep>) -> Seq<StepView> {
    Seq::new(v.len(), |i: int| StepView { path: texts(v[i].path@), name: v[i].name@ })
}

/// The steps from `path` down the names.
pub open spec fn steps_down(path: Seq<Seq<char>>, names: Seq<Seq<char>>) -> Seq<StepView> {
    Seq::new(
        names.len(),
        |i: int| StepView { path: nested_dir(path, names, i + 1), name: names[i] },
    )
}

/// The directories above an item: from its anchor down, or from the root
/// directory down the file part of its nodeid.
pub open spec fn dirs_above(
    item: TestItem,
    rootdir: Seq<Seq<char>>,
    anchors: Seq<Anchor>,
    file_part: Seq<char>,
) -> Seq<StepView> {
    let dir = item_dir(item, rootdir);
    match best_anchor(anchors, anchors.len() as int, dir) {
        Some(a) => {
            let top = texts(anchors[a].components@);
            seq![StepView { path: top, name: anchors[a].label@ }] + steps_down(
                top,
                dir.skip(top.len() as int),
            )
        },
        None => steps_down(rootdir, split_by(file_part, "/"@).drop_last()),
    }
}

/// A node's label.
pub open spec fn label_of(kind: Seq<char>, name: Seq<char>) -> Seq<char> {
    "<"@ + kind + " "@ + name + ">"@
}

/// The labels of the directories.
pub open spec fn dir_labels(dirs: Seq<DirLabel>) -> Seq<Seq<char>> {
    Seq::new(
        dirs.len(),
        |i: int|
            label_of(
                if dirs[i].is_package {
                    "Package"@
                } else {
                    "Dir"@
                },
                dirs[i].name@,
            ),
    )
}

/// A class name, or the usual one where there is none.
pub open spec fn kind_or(kind: Seq<char>, usual: Seq<char>) -> Seq<char> {
    if kind.len() == 0 {
        usual
    } else {
        kind
    }
}

/// The labels of the classes of a test.
pub open spec fn class_labels(names: Seq<Seq<char>>) -> Seq<Seq<char>> {
    Seq::new(names.len(), |i: int| label_of("Class"@, names[i]))
}

/// The labels from the topmost directory down to the test.
pub open spec fn item_labels(t: TreeItem) -> Seq<Seq<char>> {
    let (file, rest) = halves(t.item.nodeid@, "::"@)->Some_0;
    let parts = split_by(rest, "::"@);
    dir_labels(t.dirs@).push(
        label_of(kind_or(t.item.collector_class@, "Module"@), split_by(file, "/"@).last()),
    ) + class_labels(parts.drop_last()).push(
        label_of(kind_or(t.item.func_class@, "Function"@), parts.last()),
    )
}

/// How far two lists of labels agree.
pub open spec fn agreement(a: Seq<Seq<char>>, b: Seq<Seq<char>>) -> nat
    decreases a.len(),
{
    if a.len() == 0 || b.len() == 0 || a[0] != b[0] {
        0
    } else {
        1 + agreement(a.skip(1), b.skip(1))
    }
}

/// Lines at an indent.
pub open spec fn indented(indent: Seq<char>, lines: Seq<String>) -> Seq<LineView> {
    Seq::new(lines.len(), |i: int| plain(indent + "  "@ + lines[i]@))
}

/// The docstring shown under the label at `depth`.
pub open spec fn doc_at(t: TreeItem, labels: Seq<Seq<char>>, depth: int) -> Seq<String> {
    if depth == labels.len() - 1 {
        t.func_doc@
    } else if "<Class "@.is_prefix_of(labels[depth]) {
        t.class_doc@
    } else {
        seq![]
    }
}

/// The indent at `depth`.
pub open spec fn indent_at(depth: int, base: int) -> Seq<char> {
    filled(' ', (2 * (depth + base)) as nat)
}

/// The lines for the labels from `shared` up to `n`.
pub open spec fn label_lines(
    t: TreeItem,
    labels: Seq<Seq<char>>,
    shared: int,
    n: int,
    base: int,
    docs: bool,
) -> Seq<LineView>
    decreases n - shared,
{
    if n <= shared {
        seq![]
    } else {
        let indent = indent_at(n - 1, base);
        let before = label_lines(t, labels, shared, n - 1, base, docs).push(
            plain(indent + labels[n - 1]),
        );
        if docs {
            before + indented(indent, doc_at(t, labels, n - 1))
        } else {
            before
        }
    }
}

/// The chain of labels above the current line after the first `n` items.
pub open spec fn open_chain(items: Seq<TreeItem>, n: int) -> Seq<Seq<char>>
    decreases n,
{
    if n <= 0 {
        seq![]
    } else if halves(items[n - 1].item.nodeid@, "::"@) is None {
        open_chain(items, n - 1)
    } else {
        item_labels(items[n - 1])
    }
}

/// The number of labels that an item shares with the one before: never its
/// own last one.
pub open spec fn shared_labels(items: Seq<TreeItem>, i: int) -> int {
    let labels = item_labels(items[i]);
    let same = agreement(open_chain(items, i), labels);
    if same < labels.len() - 1 {
        same as int
    } else {
        labels.len() - 1
    }
}

/// The lines for the first `n` items.
pub open spec fn tree_upto(items: Seq<TreeItem>, n: int, base: int, docs: bool) -> Seq<LineView>
    decreases n,
{
    if n <= 0 {
        seq![]
    } else {
        let before = tree_upto(items, n - 1, base, docs);
        if halves(items[n - 1].item.nodeid@, "::"@) is None {
            before
        } else {
            let labels = item_labels(items[n - 1]);
            before + label_lines(
                items[n - 1],
                labels,
                shared_labels(items, n - 1),
                labels.len() as int,
                base,
                docs,
            )
        }
    }
}

/// The whole tree. Under `--pyargs` there is no line for the root directory.
pub open spec fn tree_lines(
    items: Seq<TreeItem>,
    pyargs: bool,
    root_name: Seq<char>,
    docs: bool,
) -> Seq<LineView> {
    if items.len() == 0 {
        seq![]
    } else if pyargs {
        tree_upto(items, items.len() as int, 0, docs)
    } else {
        seq![plain(label_of("Dir"@, root_name))] + tree_upto(items, items.len() as int, 1, docs)
    }
}

// ---------------------------------------------------------------------------
// Facts
// ---------------------------------------------------------------------------

proof fn agreement_bound(a: Seq<Seq<char>>, b: Seq<Seq<char>>)
    ensures
        agreement(a, b) <= a.len(),
        agreement(a, b) <= b.len(),
    decreases a.len(),
{
    if a.len() > 0 && b.len() > 0 && a[0] == b[0] {
        agreement_bound(a.skip(1), b.skip(1));
    }
}

// ---------------------------------------------------------------------------
// Executable functions
// ---------------------------------------------------------------------------

/// The longest anchor that holds the directory.
fn find_anchor(anchors: &[Anchor], dir: &[String]) -> (r: Option<usize>)
    ensures
        match best_anchor(anchors@, anchors@.len() as int, texts(dir@)) {
            Some(a) => r matches Some(i) && i == a && i < anchors@.len() && texts(
                anchors@[a].components@,
            ).is_prefix_of(texts(dir@)),
            None => r is None,
        },
{
    let mut best: Option<usize> = None;
    let mut i: usize = 0;
    while i < anchors.len()
        invariant
            i <= anchors@.len(),
            match best_anchor(anchors@, i as int, texts(dir@)) {
                Some(a) => best matches Some(k) && k == a && k < i && texts(
                    anchors@[a].components@,
                ).is_prefix_of(texts(dir@)),
                None => best is None,
            },
        decreases anchors@.len() - i,
    {
        if texts_prefix(anchors[i].components.as_slice(), dir) {
            let longer = match best {
                Some(k) => anchors[k].len > anchors[i].len,
                None => false,
            };
            if !longer {
                best = Some(i);
            }
        }
        i += 1;
    }
    best
}

/// Appends the steps from `path` down the names.
fn push_steps(steps: &mut Vec<DirStep>, path: &[String], names: &[String])
    ensures
        step_views(final(steps)@) == step_views(old(steps)@) + steps_down(
            texts(path@),
            texts(names@),
        ),
{
    let ghost start = step_views(steps@);
    let ghost all = steps_down(texts(path@), texts(names@));
    let mut here = copy_texts(path);
    let mut i: usize = 0;
    assert(start + all.take(0) =~= start);
    while i < names.len()
        invariant
            i <= names@.len(),
            all == steps_down(texts(path@), texts(names@)),
            texts(here@) == nested_dir(texts(path@), texts(names@), i as int),
            step_views(steps@) == start + all.take(i as int),
        decreases names@.len() - i,
    {
        if !names[i].as_str().is_empty() {
            let name: String = names[i].clone();
            proof {
                texts_push(here@, name);
            }
            here.push(name);
        }
        let ghost before = steps@;
        let step = DirStep { path: copy_texts(here.as_slice()), name: names[i].clone() };
        steps.push(step);
        assert(step_views(steps@) =~= step_views(before).push(
            StepView { path: texts(here@), name: names@[i as int]@ },
        ));
        assert(step_views(steps@) =~= start + all.take(i + 1));
        i += 1;
    }
    assert(all.take(i as int) =~= all);
}

/// The directories above an item that its branch of the tree shows; nothing
/// for an item without a `::` in its nodeid.
pub fn item_dirs(item: &TestItem, rootdir: &[String], anchors: &[Anchor]) -> (r: Vec<DirStep>)
    ensures
        match halves(item.nodeid@, "::"@) {
            Some((file, _)) => step_views(r@) == dirs_above(
                *item,
                texts(rootdir@),
                anchors@,
                file,
            ),
            None => r@.len() == 0,
        },
{
    let mut steps: Vec<DirStep> = Vec::new();
    let file = match split_once(item.nodeid.as_str(), "::") {
        Some((file, _)) => file,
        None => {
            return steps;
        },
    };
    let dir: Vec<String> = if item.path.len() == 0 {
        copy_texts(rootdir)
    } else {
        let mut d = copy_texts(item.path.as_slice());
        let last = d.pop();
        assert(texts(d@) =~= texts(item.path@).drop_last());
        d
    };
    assert(texts(dir@) == item_dir(*item, texts(rootdir@)));
    match find_anchor(anchors, dir.as_slice()) {
        Some(a) => {
            let top = &anchors[a].components;
            steps.push(DirStep { path: copy_texts(top.as_slice()), name: anchors[a].label.clone() });
            let mut names: Vec<String> = Vec::new();
            let mut i: usize = top.len();
            while i < dir.len()
                invariant
                    top@.len() <= i <= dir@.len(),
                    names@ == dir@.subrange(top@.len() as int, i as int),
                decreases dir@.len() - i,
            {
                names.push(dir[i].clone());
                i += 1;
            }
            assert(texts(names@) =~= texts(dir@).skip(top@.len() as int));
            assert(step_views(steps@) =~= seq![
                StepView { path: texts(top@), name: anchors@[a as int].label@ },
            ]);
            push_steps(&mut steps, top.as_slice(), names.as_slice());
        },
        None => {
            proof {
                reveal_strlit("/");
                split_not_empty(file@, "/"@);
            }
            let mut names = split(file.as_str(), "/");
            let ghost all = texts(names@);
            let last = names.pop();
            assert(texts(names@) =~= all.drop_last());
            push_steps(&mut steps, rootdir, names.as_slice());
            assert(step_views(steps@) =~= steps_down(texts(rootdir@), all.drop_last()));
        },
    }
    steps
}

/// A node's label.
fn label(kind: &str, name: &str) -> (r: String)
    ensures
        r@ == label_of(kind@, name@),
{
    let mut r: String = "<".to_owned();
    r.append(kind);
    r.append(" ");
    r.append(name);
    r.append(">");
    r
}

/// Appends a label.
fn push_label(labels: &mut Vec<String>, text: String)
    ensures
        texts(final(labels)@) == texts(old(labels)@).push(text@),
{
    proof {
        texts_push(labels@, text);
    }
    labels.push(text);
}

/// The labels from the topmost directory down to the test.
fn labels_of(t: &TreeItem, file: &str, rest: &str) -> (r: Vec<String>)
    requires
        halves(t.item.nodeid@, "::"@) == Some((file@, rest@)),
    ensures
        texts(r@) == item_labels(*t),
        r@.len() > 0,
{
    let mut labels: Vec<String> = Vec::new();
    let mut i: usize = 0;
    assert(texts(labels@) =~= dir_labels(t.dirs@).take(0));
    while i < t.dirs.len()
        invariant
            i <= t.dirs@.len(),
            texts(labels@) == dir_labels(t.dirs@).take(i as int),
        decreases t.dirs@.len() - i,
    {
        let kind: &str = if t.dirs[i].is_package {
            "Package"
        } else {
            "Dir"
        };
        push_label(&mut labels, label(kind, t.dirs[i].name.as_str()));
        assert(texts(labels@) =~= dir_labels(t.dirs@).take(i + 1));
        i += 1;
    }
    assert(dir_labels(t.dirs@).take(i as int) =~= dir_labels(t.dirs@));
    proof {
        reveal_strlit("/");
        reveal_strlit("::");
        split_not_empty(file@, "/"@);
        split_not_empty(rest@, "::"@);
    }
    let segments = split(file, "/");
    assert(texts(segments@).len() == segments@.len());
    let module: String = segments[segments.len() - 1].clone();
    assert(module@ == texts(segments@).last());
    let kind: String = if t.item.collector_class.as_str().is_empty() {
        "Module".to_owned()
    } else {
        t.item.collector_class.clone()
    };
    push_label(&mut labels, label(kind.as_str(), module.as_str()));
    let ghost head = texts(labels@);
    let parts = split(rest, "::");
    let ghost names = texts(parts@);
    assert(names.len() == parts@.len());
    let ghost classes = class_labels(names.drop_last());
    let mut k: usize = 0;
    assert(head + classes.take(0) =~= head);
    while k < parts.len() - 1
        invariant
            parts@.len() > 0,
            names == texts(parts@),
            k <= parts@.len() - 1,
            classes == class_labels(names.drop_last()),
            texts(labels@) == head + classes.take(k as int),
        decreases parts@.len() - k,
    {
        push_label(&mut labels, label("Class", parts[k].as_str()));
        assert(texts(labels@) =~= head + classes.take(k + 1));
        k += 1;
    }
    assert(classes.take(k as int) =~= classes);
    let func_kind: String = if t.item.func_class.as_str().is_empty() {
        "Function".to_owned()
    } else {
        t.item.func_class.clone()
    };
    assert(parts@[parts@.len() - 1]@ == names.last());
    push_label(&mut labels, label(func_kind.as_str(), parts[parts.len() - 1].as_str()));
    assert(texts(labels@) =~= item_labels(*t));
    assert(texts(labels@).len() == labels@.len());
    labels
}

/// How far two lists of labels agree.
fn agree(a: &Vec<String>, b: &Vec<String>) -> (r: usize)
    ensures
        r == agreement(texts(a@), texts(b@)),
        r <= b@.len(),
{
    let ghost ta = texts(a@);
    let ghost tb = texts(b@);
    let mut i: usize = 0;
    assert(ta.skip(0) =~= ta);
    assert(tb.skip(0) =~= tb);
    while i < a.len() && i < b.len() && same(a[i].as_str(), b[i].as_str())
        invariant
            i <= a@.len(),
            i <= b@.len(),
            ta == texts(a@),
            tb == texts(b@),
            agreement(ta, tb) == i + agreement(ta.skip(i as int), tb.skip(i as int)),
        decreases a@.len() - i,
    {
        assert(ta.skip(i as int).skip(1) =~= ta.skip(i + 1));
        assert(tb.skip(i as int).skip(1) =~= tb.skip(i + 1));
        i += 1;
    }
    i
}

/// Appends lines at an indent.
fn emit_indented(out: &mut Vec<Line>, indent: &str, lines: &[String])
    ensures
        shown(final(out)@) == shown(old(out)@) + indented(indent@, lines@),
{
    let ghost start = shown(out@);
    let ghost all = indented(indent@, lines@);
    let mut i: usize = 0;
    assert(start + all.take(0) =~= start);
    while i < lines.len()
        invariant
            i <= lines@.len(),
            all == indented(indent@, lines@),
            shown(out@) == start + all.take(i as int),
        decreases lines@.len() - i,
    {
        let mut text: String = indent.to_owned();
        text.append("  ");
        text.append(lines[i].as_str());
        emit(out, text, Style::Plain);
        assert(shown(out@) =~= start + all.take(i + 1));
        i += 1;
    }
    assert(all.take(i as int) =~= all);
}

/// The indent at `depth`: two blanks a level.
fn indent_for(depth: usize, base: usize) -> (r: String)
    requires
        base <= 1,
    ensures
        r@ == indent_at(depth as int, base as int),
{
    let mut r = repeat(' ', depth);
    r.append(repeat(' ', depth).as_str());
    if base == 1 {
        r.push(' ');
        r.push(' ');
    }
    assert(r@ =~= indent_at(depth as int, base as int));
    r
}

/// The lines of the tree. Only the labels that differ from those of the item
/// before are shown, and always the last one. At higher verbosity the
/// docstrings of functions and classes follow their labels.
pub fn collect_tree(
    items: &[TreeItem],
    pyargs: bool,
    root_name: &str,
    show_docstrings: bool,
) -> (r: Vec<Line>)
    ensures
        shown(r@) == tree_lines(items@, pyargs, root_name@, show_docstrings),
{
    let mut out = no_lines();
    if items.len() == 0 {
        return out;
    }
    let base: usize = if pyargs {
        0
    } else {
        1
    };
    if !pyargs {
        emit(&mut out, label("Dir", root_name), Style::Plain);
    }
    let ghost head = shown(out@);
    let mut open: Vec<String> = Vec::new();
    let mut i: usize = 0;
    assert(texts(open@) =~= seq![]);
    assert(head + tree_upto(items@, 0, base as int, show_docstrings) =~= head);
    while i < items.len()
        invariant
            i <= items@.len(),
            base <= 1,
            texts(open@) == open_chain(items@, i as int),
            shown(out@) == head + tree_upto(items@, i as int, base as int, show_docstrings),
        decreases items@.len() - i,
    {
        let t = &items[i];
        match split_once(t.item.nodeid.as_str(), "::") {
            None => {},
            Some((file, rest)) => {
                let labels = labels_of(t, file.as_str(), rest.as_str());
                let last: usize = labels.len() - 1;
                let same_count: usize = agree(&open, &labels);
                let shared: usize = if same_count < last {
                    same_count
                } else {
                    last
                };
                let ghost lv = item_labels(*t);
                assert(lv.len() == labels@.len());
                assert(shared == shared_labels(items@, i as int));
                let ghost before = shown(out@);
                let mut depth: usize = shared;
                assert(before + label_lines(
                    *t,
                    lv,
                    shared as int,
                    shared as int,
                    base as int,
                    show_docstrings,
                ) =~= before);
                while depth < labels.len()
                    invariant
                        base <= 1,
                        shared <= depth <= labels@.len(),
                        labels@.len() == last + 1,
                        lv == texts(labels@),
                        shown(out@) == before + label_lines(
                            *t,
                            lv,
                            shared as int,
                            depth as int,
                            base as int,
                            show_docstrings,
                        ),
                    decreases labels@.len() - depth,
                {
                    let indent = indent_for(depth, base);
                    let mut text: String = indent.clone();
                    text.append(labels[depth].as_str());
                    emit(&mut out, text, Style::Plain);
                    if show_docstrings {
                        if depth == last {
                            emit_indented(&mut out, indent.as_str(), t.func_doc.as_slice());
                        } else if starts_with(labels[depth].as_str(), "<Class ") {
                            emit_indented(&mut out, indent.as_str(), t.class_doc.as_slice());
                        } else {
                            assert(indented(indent@, seq![]) =~= seq![]);
                        }
                    }
                    assert(shown(out@) =~= before + label_lines(
                        *t,
                        lv,
                        shared as int,
                        depth + 1,
                        base as int,
                        show_docstrings,
                    ));
                    depth += 1;
                }
                open = labels;
                assert(shown(out@) =~= head + tree_upto(
                    items@,
                    i + 1,
                    base as int,
                    show_docstrings,
                ));
            },
        }
        i += 1;
    }
    assert(shown(out@) =~= tree_lines(items@, pyargs, root_name@, show_docstrings));
    out
}

// ---------------------------------------------------------------------------
// Laws
// ---------------------------------------------------------------------------

/// Every item with a `::` in its nodeid has a line of its own in the tree,
/// even right after an item with the same nodeid.
pub proof fn every_item_has_its_line(items: Seq<TreeItem>, i: int, base: int, docs: bool)
    requires
        0 <= i < items.len(),
        halves(items[i].item.nodeid@, "::"@) is Some,
    ensures
        ({
            let labels = item_labels(items[i]);
            let line = plain(indent_at(labels.len() - 1, base) + labels.last());
            let shared = shared_labels(items, i);
            &&& 0 <= shared < labels.len()
            &&& label_lines(
                items[i],
                labels,
                shared,
                labels.len() as int,
                base,
                docs,
            ).contains(line)
            &&& tree_upto(items, items.len() as int, base, docs).contains(line)
        }),
{
    let (file, rest) = halves(items[i].item.nodeid@, "::"@)->Some_0;
    split_not_empty(rest, "::"@);
    let labels = item_labels(items[i]);
    agreement_bound(open_chain(items, i), labels);
    let n = labels.len() as int;
    let shared = shared_labels(items, i);
    let indent = indent_at(n - 1, base);
    let line = plain(indent + labels.last());
    let before = label_lines(items[i], labels, shared, n - 1, base, docs);
    let block = label_lines(items[i], labels, shared, n, base, docs);
    assert(before.push(line)[before.len() as int] == line);
    if docs {
        contains_sum(before.push(line), indented(indent, doc_at(items[i], labels, n - 1)), line);
    }
    contains_sum(tree_upto(items, i, base, docs), block, line);
    tree_grows(items, i + 1, items.len() as int, base, docs, line);
}

proof fn tree_grows(items: Seq<TreeItem>, i: int, n: int, base: int, docs: bool, line: LineView)
    requires
        0 <= i <= n <= items.len(),
        tree_upto(items, i, base, docs).contains(line),
    ensures
        tree_upto(items, n, base, docs).contains(line),
    decreases n,
{
    if i < n {
        tree_grows(items, i, n - 1, base, docs, line);
        if halves(items[n - 1].item.nodeid@, "::"@) is Some {
            let labels = item_labels(items[n - 1]);
            contains_sum(
                tree_upto(items, n - 1, base, docs),
                label_lines(
                    items[n - 1],
                    labels,
                    shared_labels(items, n - 1),
                    labels.len() as int,
                    base,
                    docs,
                ),
                line,
            );
        }
    }
}

/// The chain of a test in the tree: its directories, its module by the name of the
/// file, its classes, and the test itself by its name.
pub proof fn chains_name_what_a_test_lies_in(
    t: TreeItem,
    dir: Seq<char>,
    file: Seq<char>,
    cls: Seq<char>,
    name: Seq<char>,
    i: int,
)
    requires
        !dir.contains(':') && !dir.contains('/'),
        !file.contains(':') && !file.contains('/'),
        !cls.contains(':'),
        !name.contains(':'),
        t.item.nodeid@ == dir + "/"@ + file + "::"@ + (cls + "::"@ + name),
        t.item.collector_class@.len() == 0,
        t.item.func_class@.len() == 0,
    ensures
        ({
            let labels = item_labels(t);
            let n = t.dirs@.len() as int;
            &&& labels.len() == n + 3
            &&& 0 <= i < n ==> labels[i] == "<"@ + (if t.dirs@[i].is_package {
                "Package"@
            } else {
                "Dir"@
            }) + " "@ + t.dirs@[i].name@ + ">"@
            &&& labels[n] == "<"@ + "Module"@ + " "@ + file + ">"@
            &&& labels[n + 1] == "<"@ + "Class"@ + " "@ + cls + ">"@
            &&& labels[n + 2] == "<"@ + "Function"@ + " "@ + name + ">"@
        }),
{
    reveal_strlit("::");
    reveal_strlit("/");
    let path = dir + "/"@ + file;
    assert forall|k: int| 0 <= k < path.len() implies path[k] != ':' by {
        if k < dir.len() {
            assert(dir.contains(dir[k]));
        } else if k > dir.len() {
            assert(file.contains(file[k - dir.len() - 1]));
        }
    }
    parted_at_first(path, "::"@, cls + "::"@ + name);
    parted_at_first(cls, "::"@, name);
    not_parted(name, "::"@);
    parted_at_first(dir, "/"@, file);
    not_parted(file, "/"@);
    let parts = split_by(cls + "::"@ + name, "::"@);
    assert(parts =~= seq![cls, name]);
    assert(parts.drop_last() =~= seq![cls]);
    assert(split_by(path, "/"@) =~= seq![dir, file]);
}

/// Labels that a test shares with the one before it are not shown again: as many lines
/// are added as labels are new, at least the one of the test, each indented by its
/// depth.
pub proof fn shared_labels_are_shown_once(
    items: Seq<TreeItem>,
    n: int,
    base: int,
    depth: int,
)
    requires
        0 < n <= items.len(),
        halves(items[n - 1].item.nodeid@, "::"@) is Some,
    ensures
        ({
            let labels = item_labels(items[n - 1]);
            let shared = shared_labels(items, n - 1);
            let before = tree_upto(items, n - 1, base, false);
            let all = tree_upto(items, n, base, false);
            &&& 0 <= shared < labels.len()
            &&& forall|d: int|
                0 <= d < shared ==> d < open_chain(items, n - 1).len() && #[trigger] labels[d]
                    == open_chain(items, n - 1)[d]
            &&& all.len() == before.len() + labels.len() - shared
            &&& shared <= depth < labels.len() ==> all[before.len() + depth - shared] == plain(
                indent_at(depth, base) + labels[depth],
            )
            &&& shared < labels.len() - 1 && shared < open_chain(items, n - 1).len()
                ==> labels[shared] != open_chain(items, n - 1)[shared]
        }),
{
    let t = items[n - 1];
    let labels = item_labels(t);
    let shared = shared_labels(items, n - 1);
    agreement_is(open_chain(items, n - 1), labels);
    plain_labels(t, labels, shared, labels.len() as int, base, depth);
}

proof fn agreement_is(a: Seq<Seq<char>>, b: Seq<Seq<char>>)
    ensures
        agreement(a, b) <= a.len(),
        agreement(a, b) <= b.len(),
        forall|d: int| 0 <= d < agreement(a, b) ==> #[trigger] b[d] == a[d],
        agreement(a, b) < a.len() && agreement(a, b) < b.len() ==> a[agreement(a, b) as int]
            != b[agreement(a, b) as int],
    decreases a.len(),
{
    if a.len() > 0 && b.len() > 0 && a[0] == b[0] {
        agreement_is(a.skip(1), b.skip(1));
        let k = agreement(a.skip(1), b.skip(1)) as int;
        assert forall|d: int| 0 <= d < k + 1 implies #[trigger] b[d] == a[d] by {
            if d > 0 {
                assert(b.skip(1)[d - 1] == a.skip(1)[d - 1]);
            }
        }
        if k < a.skip(1).len() && k < b.skip(1).len() {
            assert(a.skip(1)[k] == a[k + 1]);
            assert(b.skip(1)[k] == b[k + 1]);
        }
    }
}

proof fn plain_labels(
    t: TreeItem,
    labels: Seq<Seq<char>>,
    shared: int,
    n: int,
    base: int,
    depth: int,
)
    requires
        0 <= shared <= n <= labels.len(),
    ensures
        label_lines(t, labels, shared, n, base, false).len() == n - shared,
        shared <= depth < n ==> label_lines(t, labels, shared, n, base, false)[depth - shared]
            == plain(indent_at(depth, base) + labels[depth]),
    decreases n - shared,
{
    if n > shared {
        plain_labels(t, labels, shared, n - 1, base, depth);
    }
}

/// The tree stands below the root directory, unless packages are given; it is empty
/// without an item.
pub proof fn trees_have_a_root(items: Seq<TreeItem>, root_name: Seq<char>, docs: bool)
    requires
        items.len() > 0,
    ensures
        tree_lines(Seq::empty(), false, root_name, docs).len() == 0,
        tree_lines(items, true, root_name, docs) == tree_upto(items, items.len() as int, 0, docs),
        tree_lines(items, false, root_name, docs)[0] == plain(
            "<"@ + "Dir"@ + " "@ + root_name + ">"@,
        ),
        tree_lines(items, false, root_name, docs).skip(1) == tree_upto(
            items,
            items.len() as int,
            1,
            docs,
        ),
{
    let rest = tree_upto(items, items.len() as int, 1, docs);
    assert(tree_lines(items, false, root_name, docs).skip(1) =~= rest);
}

/// The anchor of a directory is the longest one above it, and of equally long ones the
/// last.
pub proof fn longest_anchor_is_taken(anchors: Seq<Anchor>, n: int, dir: Seq<Seq<char>>)
    requires
        0 <= n <= anchors.len(),
    ensures
        match best_anchor(anchors, n, dir) {
            Some(i) => 0 <= i < n && texts(anchors[i].components@).is_prefix_of(dir) && (forall|
                j: int,
            |
                0 <= j < n && texts((#[trigger] anchors[j]).components@).is_prefix_of(dir)
                    ==> anchors[j].len <= anchors[i].len) && (forall|j: int|
                i < j < n && texts((#[trigger] anchors[j]).components@).is_prefix_of(dir)
                    ==> anchors[j].len < anchors[i].len),
            None => forall|j: int|
                0 <= j < n ==> !texts((#[trigger] anchors[j]).components@).is_prefix_of(dir),
        },
    decreases n,
{
    if n > 0 {
        longest_anchor_is_taken(anchors, n - 1, dir);
    }
}

/// With docstrings the one of the test follows its label, and that of a class the label
/// of the class, line by line and two blanks further in.
pub proof fn docstrings_follow_labels(
    t: TreeItem,
    labels: Seq<Seq<char>>,
    shared: int,
    n: int,
    base: int,
)
    requires
        0 <= shared < n <= labels.len(),
    ensures
        ({
            let before = label_lines(t, labels, shared, n - 1, base, true);
            let all = label_lines(t, labels, shared, n, base, true);
            let indent = indent_at(n - 1, base);
            let doc = if n == labels.len() {
                t.func_doc@
            } else if "<Class "@.is_prefix_of(labels[n - 1]) {
                t.class_doc@
            } else {
                Seq::<String>::empty()
            };
            &&& all.len() == before.len() + 1 + doc.len()
            &&& all[before.len() as int] == plain(indent + labels[n - 1])
            &&& forall|k: int|
                0 <= k < doc.len() ==> all[before.len() + 1 + k] == plain(
                    indent + "  "@ + (#[trigger] doc[k])@,
                )
            &&& indent.len() == 2 * (n - 1 + base) || n - 1 + base < 0
        }),
{
}

/// The directories above a test: from its anchor down, each below the one before it;
/// without an anchor from the root down, by the parts of the path of its file.
pub proof fn directories_lead_down(
    item: TestItem,
    rootdir: Seq<Seq<char>>,
    anchors: Seq<Anchor>,
    file_part: Seq<char>,
    a: int,
    i: int,
)
    requires
        0 <= i,
        item.path@.len() > 0,
    ensures
        ({
            let dir = texts(item.path@).drop_last();
            let steps = dirs_above(item, rootdir, anchors, file_part);
            let best = best_anchor(anchors, anchors.len() as int, dir);
            let parts = split_by(file_part, "/"@).drop_last();
            &&& best == Some(a) ==> {
                let top = texts(anchors[a].components@);
                &&& steps[0].path == top && steps[0].name == anchors[a].label@
                &&& top.is_prefix_of(dir) ==> steps.len() == 1 + dir.len() - top.len()
                &&& top.is_prefix_of(dir) && i < dir.len() - top.len() ==> steps[i + 1].name
                    == dir[top.len() + i]
            }
            &&& best is None ==> steps.len() == parts.len() && (i < parts.len() ==> steps[i].name
                == parts[i])
        }),
{
}

/// A directory that a step leads to lies below the one that the step starts from, by its
/// name.
pub proof fn steps_lead_below(path: Seq<Seq<char>>, names: Seq<Seq<char>>, i: int)
    requires
        0 <= i < names.len(),
    ensures
        steps_down(path, names)[i].name == names[i],
        names[i].len() > 0 && i == 0 ==> steps_down(path, names)[i].path == path.push(names[i]),
        names[i].len() > 0 && i > 0 ==> steps_down(path, names)[i].path == steps_down(
            path,
            names,
        )[i - 1].path.push(names[i]),
{
    assert(nested_dir(path, names, 0) == path);
}

} // verus!
