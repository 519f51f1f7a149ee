//! The hook calls that a recorder is told of for a tree of collectors.

use vstd::prelude::*;

use crate::hooks::recorder::{CollectorTree, ModuleNode};
use crate::lists::contains_sum;
use crate::nodeid::{file_part_of, parts_of};

verus! {

/// A collector of the tree, by its position.
#[derive(Debug, Clone, Copy, PartialEq, Eq, Structural)]
pub enum Collector {
    Session,
    Dir(usize),
    Module(usize),
    Class(usize),
    /// A module that was skipped.
    Skipped(usize),
    /// A module that could not be collected.
    Failing(usize),
}

/// A call that is recorded.
#[derive(Debug, Clone, Copy, PartialEq, Eq, Structural)]
pub enum RecordedCall {
    /// `pytest_collectstart`.
    Start(Collector),
    /// `pytest_make_collect_report`.
    MakeReport(Collector),
    /// `pytest_pycollect_makeitem` of a module, with the name at this position.
    MakeItem { module: usize, name: usize },
    /// `pytest_collectreport`.
    Report(Collector),
}

/// What stands below a collector in its report.
#[derive(Debug, Clone, Copy, PartialEq, Eq, Structural)]
pub enum Below {
    Dir(usize),
    Module(usize),
    Class(usize),
    /// An item of a module outside classes, by its position.
    ModuleItem { module: usize, item: usize },
    /// An item of a class, by its position.
    ClassItem { class: usize, item: usize },
}

// ---------------------------------------------------------------------------
// Model
// ---------------------------------------------------------------------------

/// The collector is in the tree.
pub open spec fn in_tree(t: CollectorTree, c: Collector) -> bool {
    match c {
        Collector::Session => true,
        Collector::Dir(i) => i < t.dirs@.len(),
        Collector::Module(i) => i < t.modules@.len(),
        Collector::Class(i) => i < t.classes@.len(),
        Collector::Skipped(i) => i < t.skipped@.len(),
        Collector::Failing(i) => i < t.failing@.len(),
    }
}

/// The calls for a collector that makes no items.
pub open spec fn three_calls(c: Collector) -> Seq<RecordedCall> {
    seq![RecordedCall::Start(c), RecordedCall::MakeReport(c), RecordedCall::Report(c)]
}

/// The calls for a module: what it makes stands before its report.
pub open spec fn module_calls(modules: Seq<ModuleNode>, i: int) -> Seq<RecordedCall> {
    let c = Collector::Module(i as usize);
    seq![RecordedCall::Start(c), RecordedCall::MakeReport(c)] + Seq::new(
        modules[i].made@.len(),
        |k: int| RecordedCall::MakeItem { module: i as usize, name: k as usize },
    ) + seq![RecordedCall::Report(c)]
}

/// The calls of the first `n` classes.
pub open spec fn class_part(n: int) -> Seq<RecordedCall>
    decreases n,
{
    if n <= 0 {
        seq![]
    } else {
        class_part(n - 1) + three_calls(Collector::Class((n - 1) as usize))
    }
}

/// The calls of the first `n` modules.
pub open spec fn module_part(modules: Seq<ModuleNode>, n: int) -> Seq<RecordedCall>
    decreases n,
{
    if n <= 0 {
        seq![]
    } else {
        module_part(modules, n - 1) + module_calls(modules, n - 1)
    }
}

/// The calls of the first `n` skipped modules.
pub open spec fn skipped_part(n: int) -> Seq<RecordedCall>
    decreases n,
{
    if n <= 0 {
        seq![]
    } else {
        skipped_part(n - 1) + three_calls(Collector::Skipped((n - 1) as usize))
    }
}

/// The calls of the failing modules, whose reports were made when they failed.
pub open spec fn failing_part(n: nat) -> Seq<RecordedCall> {
    Seq::new(n, |i: int| RecordedCall::Start(Collector::Failing(i as usize)))
}

/// The calls of the first `n` directories.
pub open spec fn dir_part(n: int) -> Seq<RecordedCall>
    decreases n,
{
    if n <= 0 {
        seq![]
    } else {
        dir_part(n - 1) + three_calls(Collector::Dir((n - 1) as usize))
    }
}

/// All calls: the session, classes, modules, skipped and failing modules, and
/// the directories last.
pub open spec fn calls_of(t: CollectorTree) -> Seq<RecordedCall> {
    three_calls(Collector::Session) + class_part(t.classes@.len() as int) + module_part(
        t.modules@,
        t.modules@.len() as int,
    ) + skipped_part(t.skipped@.len() as int) + failing_part(t.failing@.len()) + dir_part(
        t.dirs@.len() as int,
    )
}

/// The children of a collector: directories below the session, modules below
/// a directory, classes and then items below a module, items below a class.
pub open spec fn below_of(t: CollectorTree, c: Collector) -> Seq<Below> {
    match c {
        Collector::Session => Seq::new(t.dirs@.len(), |k: int| Below::Dir(k as usize)),
        Collector::Dir(i) => t.dirs@[i as int].modules@.map_values(|m: usize| Below::Module(m)),
        Collector::Module(i) => t.modules@[i as int].classes@.map_values(
            |k: usize| Below::Class(k),
        ) + Seq::new(
            t.modules@[i as int].items@.len(),
            |k: int| Below::ModuleItem { module: i, item: k as usize },
        ),
        Collector::Class(i) => Seq::new(
            t.classes@[i as int].items@.len(),
            |k: int| Below::ClassItem { class: i, item: k as usize },
        ),
        _ => seq![],
    }
}

/// The collector above; the session where the directory or the module of one
/// is not in the tree.
pub open spec fn above_of(t: CollectorTree, c: Collector) -> Option<Collector> {
    let in_dir = |dir: Option<usize>|
        match dir {
            Some(d) => Collector::Dir(d),
            None => Collector::Session,
        };
    match c {
        Collector::Session => None,
        Collector::Dir(_) => Some(Collector::Session),
        Collector::Module(i) => Some(in_dir(t.modules@[i as int].dir)),
        Collector::Class(i) => Some(
            match t.classes@[i as int].module {
                Some(m) => Collector::Module(m),
                None => Collector::Session,
            },
        ),
        Collector::Skipped(i) => Some(in_dir(t.skipped@[i as int].dir)),
        Collector::Failing(i) => Some(in_dir(t.failing@[i as int].dir)),
    }
}

/// The nodeid of a collector; the session's is empty.
pub open spec fn id_of(t: CollectorTree, c: Collector) -> Seq<char> {
    match c {
        Collector::Session => ""@,
        Collector::Dir(i) => t.dirs@[i as int].dir@,
        Collector::Module(i) => t.modules@[i as int].file@,
        Collector::Class(i) => t.classes@[i as int].key@,
        Collector::Skipped(i) => t.skipped@[i as int].nodeid@,
        Collector::Failing(i) => t.failing@[i as int].nodeid@,
    }
}

// ---------------------------------------------------------------------------
// Executable functions
// ---------------------------------------------------------------------------

fn push_three(out: &mut Vec<RecordedCall>, c: Collector)
    ensures
        final(out)@ == old(out)@ + three_calls(c),
{
    out.push(RecordedCall::Start(c));
    out.push(RecordedCall::MakeReport(c));
    out.push(RecordedCall::Report(c));
    assert(out@ =~= old(out)@ + three_calls(c));
}

fn push_module(out: &mut Vec<RecordedCall>, modules: &Vec<ModuleNode>, i: usize)
    requires
        i < modules@.len(),
    ensures
        final(out)@ == old(out)@ + module_calls(modules@, i as int),
{
    let c = Collector::Module(i);
    let ghost before = out@;
    out.push(RecordedCall::Start(c));
    out.push(RecordedCall::MakeReport(c));
    let ghost head = out@;
    let ghost made = modules@[i as int].made@.len();
    let ghost names = Seq::new(
        made,
        |k: int| RecordedCall::MakeItem { module: i, name: k as usize },
    );
    let n: usize = modules[i].made.len();
    let mut k: usize = 0;
    assert(head + names.take(0) =~= head);
    while k < n
        invariant
            n == made,
            k <= n,
            names == Seq::new(
                made,
                |k: int| RecordedCall::MakeItem { module: i, name: k as usize },
            ),
            out@ == head + names.take(k as int),
        decreases n - k,
    {
        out.push(RecordedCall::MakeItem { module: i, name: k });
        assert(out@ =~= head + names.take(k + 1));
        k += 1;
    }
    assert(names.take(n as int) =~= names);
    out.push(RecordedCall::Report(c));
    assert(out@ =~= before + module_calls(modules@, i as int));
}

/// The calls for a tree, in order.
pub fn recorded_calls(t: &CollectorTree) -> (r: Vec<RecordedCall>)
    ensures
        r@ == calls_of(*t),
{
    let mut out: Vec<RecordedCall> = Vec::new();
    push_three(&mut out, Collector::Session);
    let ghost first = three_calls(Collector::Session);
    assert(out@ =~= first);
    let mut i: usize = 0;
    let n: usize = t.classes.len();
    assert(first + class_part(0) =~= first);
    while i < n
        invariant
            n == t.classes@.len(),
            i <= n,
            out@ == first + class_part(i as int),
        decreases n - i,
    {
        push_three(&mut out, Collector::Class(i));
        i += 1;
        assert(out@ =~= first + class_part(i as int));
    }
    let ghost second = out@;
    let n: usize = t.modules.len();
    i = 0;
    assert(second + module_part(t.modules@, 0) =~= second);
    while i < n
        invariant
            n == t.modules@.len(),
            i <= n,
            out@ == second + module_part(t.modules@, i as int),
        decreases n - i,
    {
        push_module(&mut out, &t.modules, i);
        i += 1;
        assert(out@ =~= second + module_part(t.modules@, i as int));
    }
    let ghost third = out@;
    let n: usize = t.skipped.len();
    i = 0;
    assert(third + skipped_part(0) =~= third);
    while i < n
        invariant
            n == t.skipped@.len(),
            i <= n,
            out@ == third + skipped_part(i as int),
        decreases n - i,
    {
        push_three(&mut out, Collector::Skipped(i));
        i += 1;
        assert(out@ =~= third + skipped_part(i as int));
    }
    let ghost fourth = out@;
    let n: usize = t.failing.len();
    i = 0;
    assert(fourth + failing_part(0) =~= fourth);
    while i < n
        invariant
            n == t.failing@.len(),
            i <= n,
            out@ == fourth + failing_part(i as nat),
        decreases n - i,
    {
        out.push(RecordedCall::Start(Collector::Failing(i)));
        i += 1;
        assert(out@ =~= fourth + failing_part(i as nat));
    }
    let ghost fifth = out@;
    let n: usize = t.dirs.len();
    i = 0;
    assert(fifth + dir_part(0) =~= fifth);
    while i < n
        invariant
            n == t.dirs@.len(),
            i <= n,
            out@ == fifth + dir_part(i as int),
        decreases n - i,
    {
        push_three(&mut out, Collector::Dir(i));
        i += 1;
        assert(out@ =~= fifth + dir_part(i as int));
    }
    out
}

/// The children that the report of a collector lists.
pub fn children(t: &CollectorTree, c: Collector) -> (r: Vec<Below>)
    requires
        in_tree(*t, c),
    ensures
        r@ == below_of(*t, c),
{
    let mut r: Vec<Below> = Vec::new();
    match c {
        Collector::Session => {
            let n: usize = t.dirs.len();
            let mut k: usize = 0;
            while k < n
                invariant
                    n == t.dirs@.len(),
                    k <= n,
                    r@ == Seq::new(k as nat, |k: int| Below::Dir(k as usize)),
                decreases n - k,
            {
                r.push(Below::Dir(k));
                k += 1;
                assert(r@ =~= Seq::new(k as nat, |k: int| Below::Dir(k as usize)));
            }
        },
        Collector::Dir(i) => {
            let modules = &t.dirs[i].modules;
            let n: usize = modules.len();
            let mut k: usize = 0;
            while k < n
                invariant
                    n == modules@.len(),
                    k <= n,
                    r@ == modules@.take(k as int).map_values(|m: usize| Below::Module(m)),
                decreases n - k,
            {
                r.push(Below::Module(modules[k]));
                k += 1;
                assert(r@ =~= modules@.take(k as int).map_values(|m: usize| Below::Module(m)));
            }
            assert(modules@.take(n as int) =~= modules@);
        },
        Collector::Module(i) => {
            let classes = &t.modules[i].classes;
            let n: usize = classes.len();
            let mut k: usize = 0;
            while k < n
                invariant
                    n == classes@.len(),
                    k <= n,
                    r@ == classes@.take(k as int).map_values(|k: usize| Below::Class(k)),
                decreases n - k,
            {
                r.push(Below::Class(classes[k]));
                k += 1;
                assert(r@ =~= classes@.take(k as int).map_values(|k: usize| Below::Class(k)));
            }
            assert(classes@.take(n as int) =~= classes@);
            let ghost head = r@;
            let m: usize = t.modules[i].items.len();
            let mut j: usize = 0;
            while j < m
                invariant
                    j <= m,
                    r@ == head + Seq::new(
                        j as nat,
                        |k: int| Below::ModuleItem { module: i, item: k as usize },
                    ),
                decreases m - j,
            {
                r.push(Below::ModuleItem { module: i, item: j });
                j += 1;
                assert(r@ =~= head + Seq::new(
                    j as nat,
                    |k: int| Below::ModuleItem { module: i, item: k as usize },
                ));
            }
        },
        Collector::Class(i) => {
            let m: usize = t.classes[i].items.len();
            let mut j: usize = 0;
            while j < m
                invariant
                    j <= m,
                    r@ == Seq::new(
                        j as nat,
                        |k: int| Below::ClassItem { class: i, item: k as usize },
                    ),
                decreases m - j,
            {
                r.push(Below::ClassItem { class: i, item: j });
                j += 1;
                assert(r@ =~= Seq::new(
                    j as nat,
                    |k: int| Below::ClassItem { class: i, item: k as usize },
                ));
            }
        },
        Collector::Skipped(_) => {},
        Collector::Failing(_) => {},
    }
    r
}

fn dir_or_session(dir: Option<usize>) -> (r: Collector)
    ensures
        r == (match dir {
            Some(d) => Collector::Dir(d),
            None => Collector::Session,
        }),
{
    match dir {
        Some(d) => Collector::Dir(d),
        None => Collector::Session,
    }
}

/// The collector above.
pub fn above(t: &CollectorTree, c: Collector) -> (r: Option<Collector>)
    requires
        in_tree(*t, c),
    ensures
        r == above_of(*t, c),
{
    match c {
        Collector::Session => None,
        Collector::Dir(_) => Some(Collector::Session),
        Collector::Module(i) => Some(dir_or_session(t.modules[i].dir)),
        Collector::Class(i) => match t.classes[i].module {
            Some(m) => Some(Collector::Module(m)),
            None => Some(Collector::Session),
        },
        Collector::Skipped(i) => Some(dir_or_session(t.skipped[i].dir)),
        Collector::Failing(i) => Some(dir_or_session(t.failing[i].dir)),
    }
}

/// The nodeid of a collector's report, and the file that the report names as
/// its location.
pub fn report_place(t: &CollectorTree, c: Collector) -> (r: (String, String))
    requires
        in_tree(*t, c),
    ensures
        r.0@ == id_of(*t, c),
        r.1@ == file_part_of(id_of(*t, c)),
{
    let nodeid: String = match c {
        Collector::Session => "".to_owned(),
        Collector::Dir(i) => t.dirs[i].dir.clone(),
        Collector::Module(i) => t.modules[i].file.clone(),
        Collector::Class(i) => t.classes[i].key.clone(),
        Collector::Skipped(i) => t.skipped[i].nodeid.clone(),
        Collector::Failing(i) => t.failing[i].nodeid.clone(),
    };
    let parts = parts_of(nodeid.as_str());
    let file: String = parts[0].clone();
    (nodeid, file)
}

// ---------------------------------------------------------------------------
// Laws
// ---------------------------------------------------------------------------

proof fn three_hold(k: Collector, c: Collector)
    ensures
        three_calls(k).contains(RecordedCall::Start(c)) <==> c == k,
        three_calls(k).contains(RecordedCall::Report(c)) <==> c == k,
{
    assert(three_calls(k)[0] == RecordedCall::Start(k));
    assert(three_calls(k)[2] == RecordedCall::Report(k));
}

proof fn module_calls_hold(modules: Seq<ModuleNode>, i: int, c: Collector)
    ensures
        module_calls(modules, i).contains(RecordedCall::Start(c)) <==> c == Collector::Module(
            i as usize,
        ),
        module_calls(modules, i).contains(RecordedCall::Report(c)) <==> c == Collector::Module(
            i as usize,
        ),
{
    let calls = module_calls(modules, i);
    let k = Collector::Module(i as usize);
    assert(calls[0] == RecordedCall::Start(k));
    assert(calls.last() == RecordedCall::Report(k));
    assert(calls[calls.len() - 1] == RecordedCall::Report(k));
}

proof fn class_part_holds(n: int, c: Collector)
    requires
        n <= usize::MAX,
    ensures
        class_part(n).contains(RecordedCall::Start(c)) <==> (c matches Collector::Class(i) && i
            < n),
        class_part(n).contains(RecordedCall::Report(c)) <==> (c matches Collector::Class(i) && i
            < n),
    decreases n,
{
    if n > 0 {
        let k = Collector::Class((n - 1) as usize);
        class_part_holds(n - 1, c);
        three_hold(k, c);
        contains_sum(class_part(n - 1), three_calls(k), RecordedCall::Start(c));
        contains_sum(class_part(n - 1), three_calls(k), RecordedCall::Report(c));
    }
}

proof fn module_part_holds(modules: Seq<ModuleNode>, n: int, c: Collector)
    requires
        n <= usize::MAX,
    ensures
        module_part(modules, n).contains(RecordedCall::Start(c)) <==> (c matches Collector::Module(
            i,
        ) && i < n),
        module_part(modules, n).contains(RecordedCall::Report(c)) <==> (c matches Collector::Module(
            i,
        ) && i < n),
    decreases n,
{
    if n > 0 {
        module_part_holds(modules, n - 1, c);
        module_calls_hold(modules, n - 1, c);
        let before = module_part(modules, n - 1);
        let calls = module_calls(modules, n - 1);
        contains_sum(before, calls, RecordedCall::Start(c));
        contains_sum(before, calls, RecordedCall::Report(c));
    }
}

proof fn skipped_part_holds(n: int, c: Collector)
    requires
        n <= usize::MAX,
    ensures
        skipped_part(n).contains(RecordedCall::Start(c)) <==> (c matches Collector::Skipped(i) && i
            < n),
        skipped_part(n).contains(RecordedCall::Report(c)) <==> (c matches Collector::Skipped(i) && i
            < n),
    decreases n,
{
    if n > 0 {
        let k = Collector::Skipped((n - 1) as usize);
        skipped_part_holds(n - 1, c);
        three_hold(k, c);
        contains_sum(skipped_part(n - 1), three_calls(k), RecordedCall::Start(c));
        contains_sum(skipped_part(n - 1), three_calls(k), RecordedCall::Report(c));
    }
}

proof fn failing_part_holds(n: nat, c: Collector)
    requires
        n <= usize::MAX,
    ensures
        failing_part(n).contains(RecordedCall::Start(c)) <==> (c matches Collector::Failing(i) && i
            < n),
        !failing_part(n).contains(RecordedCall::Report(c)),
{
    if let Collector::Failing(i) = c {
        if i < n {
            assert(failing_part(n)[i as int] == RecordedCall::Start(c));
        }
    }
}

proof fn dir_part_holds(n: int, c: Collector)
    requires
        n <= usize::MAX,
    ensures
        dir_part(n).contains(RecordedCall::Start(c)) <==> (c matches Collector::Dir(i) && i < n),
        dir_part(n).contains(RecordedCall::Report(c)) <==> (c matches Collector::Dir(i) && i < n),
    decreases n,
{
    if n > 0 {
        let k = Collector::Dir((n - 1) as usize);
        dir_part_holds(n - 1, c);
        three_hold(k, c);
        contains_sum(dir_part(n - 1), three_calls(k), RecordedCall::Start(c));
        contains_sum(dir_part(n - 1), three_calls(k), RecordedCall::Report(c));
    }
}

/// A call is among all calls just if it is among those of one part.
proof fn calls_hold(t: CollectorTree, x: RecordedCall)
    ensures
        calls_of(t).contains(x) <==> {
            ||| three_calls(Collector::Session).contains(x)
            ||| class_part(t.classes@.len() as int).contains(x)
            ||| module_part(t.modules@, t.modules@.len() as int).contains(x)
            ||| skipped_part(t.skipped@.len() as int).contains(x)
            ||| failing_part(t.failing@.len()).contains(x)
            ||| dir_part(t.dirs@.len() as int).contains(x)
        },
{
    let a = three_calls(Collector::Session);
    let b = class_part(t.classes@.len() as int);
    let c = module_part(t.modules@, t.modules@.len() as int);
    let d = skipped_part(t.skipped@.len() as int);
    let e = failing_part(t.failing@.len());
    let f = dir_part(t.dirs@.len() as int);
    contains_sum(a, b, x);
    contains_sum(a + b, c, x);
    contains_sum(a + b + c, d, x);
    contains_sum(a + b + c + d, e, x);
    contains_sum(a + b + c + d + e, f, x);
}

/// Every collector of the tree is started, and nothing else; each is also
/// reported, but for failing modules.
pub proof fn collectors_are_started_and_reported(t: CollectorTree, c: Collector)
    requires
        t.classes@.len() <= usize::MAX,
        t.modules@.len() <= usize::MAX,
        t.skipped@.len() <= usize::MAX,
        t.failing@.len() <= usize::MAX,
        t.dirs@.len() <= usize::MAX,
    ensures
        calls_of(t).contains(RecordedCall::Start(c)) <==> in_tree(t, c),
        calls_of(t).contains(RecordedCall::Report(c)) <==> in_tree(t, c) && !(c is Failing),
{
    calls_hold(t, RecordedCall::Start(c));
    calls_hold(t, RecordedCall::Report(c));
    three_hold(Collector::Session, c);
    class_part_holds(t.classes@.len() as int, c);
    module_part_holds(t.modules@, t.modules@.len() as int, c);
    skipped_part_holds(t.skipped@.len() as int, c);
    failing_part_holds(t.failing@.len(), c);
    dir_part_holds(t.dirs@.len() as int, c);
}

/// The calls of a collection in their order: the session comes first, then the
/// classes; each collector is started, then asked for its report, then reported.
pub proof fn collectors_are_called_in_order(t: CollectorTree, i: int)
    requires
        0 <= i < t.classes@.len() <= usize::MAX,
    ensures
        ({
            let calls = calls_of(t);
            let class = Collector::Class(i as usize);
            &&& calls.len() >= 3 + 3 * (i + 1)
            &&& calls[0] == RecordedCall::Start(Collector::Session)
            &&& calls[1] == RecordedCall::MakeReport(Collector::Session)
            &&& calls[2] == RecordedCall::Report(Collector::Session)
            &&& calls[3 + 3 * i] == RecordedCall::Start(class)
            &&& calls[4 + 3 * i] == RecordedCall::MakeReport(class)
            &&& calls[5 + 3 * i] == RecordedCall::Report(class)
        }),
{
    let n = t.classes@.len() as int;
    let session = three_calls(Collector::Session);
    let classes = class_part(n);
    class_part_has(n, i);
    let rest = session + classes;
    assert(rest[3 + 3 * i] == classes[3 * i]);
    assert(rest[4 + 3 * i] == classes[3 * i + 1]);
    assert(rest[5 + 3 * i] == classes[3 * i + 2]);
}

proof fn class_part_has(n: int, i: int)
    requires
        0 <= i < n,
    ensures
        class_part(n).len() == 3 * n,
        class_part(n)[3 * i] == RecordedCall::Start(Collector::Class(i as usize)),
        class_part(n)[3 * i + 1] == RecordedCall::MakeReport(Collector::Class(i as usize)),
        class_part(n)[3 * i + 2] == RecordedCall::Report(Collector::Class(i as usize)),
    decreases n,
{
    if n == 1 {
        assert(class_part(0).len() == 0);
    } else {
        class_part_has(n - 1, if i < n - 1 {
            i
        } else {
            0
        });
    }
}

/// The modules follow each other: each is started and asked for its report, then its
/// names are offered in order, then it is reported.
pub proof fn modules_are_called_in_order(modules: Seq<ModuleNode>, n: int, k: int)
    requires
        0 < n <= modules.len() <= usize::MAX,
        0 <= k < modules[n - 1].made@.len(),
    ensures
        ({
            let before = module_part(modules, n - 1);
            let all = module_part(modules, n);
            let at = before.len() as int;
            let module = Collector::Module((n - 1) as usize);
            &&& all.len() == at + modules[n - 1].made@.len() + 3
            &&& all.take(at) == before
            &&& all[at] == RecordedCall::Start(module)
            &&& all[at + 1] == RecordedCall::MakeReport(module)
            &&& all[at + 2 + k] == (RecordedCall::MakeItem {
                module: (n - 1) as usize,
                name: k as usize,
            })
            &&& all.last() == RecordedCall::Report(module)
        }),
{
    let before = module_part(modules, n - 1);
    assert(module_part(modules, n).take(before.len() as int) =~= before);
}

/// What lies above a collector: a module in its directory, or in the session where it
/// has none; a class in its module; a directory in the session.
pub proof fn collectors_have_a_place(t: CollectorTree, i: usize)
    ensures
        above_of(t, Collector::Session) is None,
        above_of(t, Collector::Dir(i)) == Some(Collector::Session),
        t.modules@[i as int].dir is Some ==> above_of(t, Collector::Module(i)) == Some(
            Collector::Dir(t.modules@[i as int].dir->0),
        ),
        t.modules@[i as int].dir is None ==> above_of(t, Collector::Module(i)) == Some(
            Collector::Session,
        ),
        t.classes@[i as int].module is Some ==> above_of(t, Collector::Class(i)) == Some(
            Collector::Module(t.classes@[i as int].module->0),
        ),
        t.classes@[i as int].module is None ==> above_of(t, Collector::Class(i)) == Some(
            Collector::Session,
        ),
        id_of(t, Collector::Session).len() == 0,
        id_of(t, Collector::Dir(i)) == t.dirs@[i as int].dir@,
        id_of(t, Collector::Module(i)) == t.modules@[i as int].file@,
        id_of(t, Collector::Class(i)) == t.classes@[i as int].key@,
        id_of(t, Collector::Skipped(i)) == t.skipped@[i as int].nodeid@,
        id_of(t, Collector::Failing(i)) == t.failing@[i as int].nodeid@,
{
    reveal_strlit("");
}

/// What lies below a collector, in order: the directories below the session, the
/// modules below a directory, the classes and then the tests below a module, the
/// tests below a class.
pub proof fn collectors_have_children(t: CollectorTree, i: usize, k: int)
    requires
        0 <= k,
    ensures
        below_of(t, Collector::Session).len() == t.dirs@.len(),
        k < t.dirs@.len() ==> below_of(t, Collector::Session)[k] == Below::Dir(k as usize),
        below_of(t, Collector::Dir(i)).len() == t.dirs@[i as int].modules@.len(),
        k < t.dirs@[i as int].modules@.len() ==> below_of(t, Collector::Dir(i))[k]
            == Below::Module(t.dirs@[i as int].modules@[k]),
        ({
            let m = t.modules@[i as int];
            let below = below_of(t, Collector::Module(i));
            &&& below.len() == m.classes@.len() + m.items@.len()
            &&& k < m.classes@.len() ==> below[k] == Below::Class(m.classes@[k])
            &&& k < m.items@.len() ==> below[m.classes@.len() + k] == (Below::ModuleItem {
                module: i,
                item: k as usize,
            })
        }),
        below_of(t, Collector::Class(i)).len() == t.classes@[i as int].items@.len(),
        k < t.classes@[i as int].items@.len() ==> below_of(t, Collector::Class(i))[k] == (
        Below::ClassItem { class: i, item: k as usize }),
{
}

} // verus!
