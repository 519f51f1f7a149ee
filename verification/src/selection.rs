//! Which of the collected items are run: `--deselect`, `-k` and `-m`; whether
//! their marks are registered; and how many workers run them.

use vstd::prelude::*;

use crate::banner::{builtin_mark, is_builtin_mark};
use crate::item::TestItem;
use crate::lists::{chosen, chosen_keeps_order, partition, partition_keeps_all};
use crate::numbers::{count_value, counts_are_read, decimal_round_trip, parse_count};
use crate::text::{
    chars_of, decimal_of, is_space, left_trimmed, opt_str, same, starts_with, string_of, texts,
    trim, trim_start, trimmed, trimming_takes_white_space,
};

verus! {

/// How many workers there are, as far as the options tell.
#[derive(Debug, Clone, Copy, PartialEq, Eq, Structural)]
pub enum WorkersPlan {
    /// This many; none where the items run in this process.
    Fixed(Option<usize>),
    /// Hooks are asked, and then the machine; `logical` asks for all threads
    /// of a processor.
    Auto { logical: bool },
}

// ---------------------------------------------------------------------------
// Model
// ---------------------------------------------------------------------------

/// An ini value that switches an option on.
pub open spec fn is_on(value: Seq<char>) -> bool {
    let v = trimmed(value);
    v == "true"@ || v == "True"@ || v == "1"@
}

/// An ini value that is there and switches an option on.
pub open spec fn on_if_set(value: Option<Seq<char>>) -> bool {
    value matches Some(v) && is_on(v)
}

/// The part of a line before the first ':' or '('.
pub open spec fn before_mark_end(line: Seq<char>) -> Seq<char>
    decreases line.len(),
{
    if line.len() == 0 || line[0] == ':' || line[0] == '(' {
        seq![]
    } else {
        seq![line[0]] + before_mark_end(line.skip(1))
    }
}

/// The name of the marker that a line of the `markers` option registers.
pub open spec fn marker_of(line: Seq<char>) -> Seq<char> {
    trimmed(before_mark_end(trimmed(line)))
}

/// Some line registers a marker.
pub open spec fn registers(lines: Seq<Seq<char>>, name: Seq<char>) -> bool {
    name.len() > 0 && exists|i: int| 0 <= i < lines.len() && marker_of(#[trigger] lines[i]) == name
}

/// A mark that may be used.
pub open spec fn is_known_mark(
    name: Seq<char>,
    lines: Seq<Seq<char>>,
    more: Seq<Seq<char>>,
) -> bool {
    is_builtin_mark(name) || registers(lines, name) || registers(more, name)
}

/// All marks of an item are known.
pub open spec fn marks_known(
    item: TestItem,
    lines: Seq<Seq<char>>,
    more: Seq<Seq<char>>,
) -> bool {
    forall|j: int|
        0 <= j < item.marks@.len() ==> is_known_mark(
            (#[trigger] item.marks@[j]).name@,
            lines,
            more,
        )
}

/// The mark `j` of item `i` is the first one that is not known.
pub open spec fn first_unknown(
    items: Seq<TestItem>,
    lines: Seq<Seq<char>>,
    more: Seq<Seq<char>>,
    i: int,
    j: int,
) -> bool {
    &&& 0 <= i < items.len()
    &&& 0 <= j < items[i].marks@.len()
    &&& !is_known_mark(items[i].marks@[j].name@, lines, more)
    &&& forall|k: int| 0 <= k < i ==> marks_known(#[trigger] items[k], lines, more)
    &&& forall|l: int|
        0 <= l < j ==> is_known_mark((#[trigger] items[i].marks@[l]).name@, lines, more)
}

/// What is said of a mark that is not registered.
pub open spec fn unknown_mark_text(name: Seq<char>) -> Seq<char> {
    "'"@ + name + "' not found in `markers` configuration option"@
}

/// Some `--deselect` names the item or something it is in.
pub open spec fn is_deselected(nodeid: Seq<char>, prefixes: Seq<Seq<char>>) -> bool {
    exists|i: int| 0 <= i < prefixes.len() && (#[trigger] prefixes[i]).is_prefix_of(nodeid)
}

/// Which items `--deselect` leaves.
pub open spec fn kept_marks(items: Seq<TestItem>, prefixes: Seq<Seq<char>>) -> Seq<bool> {
    Seq::new(items.len(), |i: int| !is_deselected(items[i].nodeid@, prefixes))
}

/// Which items an expression leaves: those it is true of, and those on which
/// it raised.
pub open spec fn result_marks(results: Seq<Option<bool>>) -> Seq<bool> {
    Seq::new(results.len(), |i: int| results[i] != Some(false))
}

/// A count, unless it is zero.
pub open spec fn some_workers(n: int) -> Option<usize> {
    if n > 0 {
        Some(n as usize)
    } else {
        None
    }
}

/// How many workers there are, as far as the options tell. `tx` is the number
/// of workers that `--tx` describes.
pub open spec fn plan_of(
    numprocesses: Option<Seq<char>>,
    dist_load: bool,
    has_tx: bool,
    tx: Option<usize>,
) -> WorkersPlan {
    match numprocesses {
        None => if dist_load || has_tx {
            match tx {
                Some(n) => WorkersPlan::Fixed(some_workers(n as int)),
                None => WorkersPlan::Fixed(None),
            }
        } else {
            WorkersPlan::Fixed(None)
        },
        Some(n) => if n == "auto"@ {
            WorkersPlan::Auto { logical: false }
        } else if n == "logical"@ {
            WorkersPlan::Auto { logical: true }
        } else {
            match count_value(n, usize::MAX as nat) {
                Some(v) => WorkersPlan::Fixed(some_workers(v as int)),
                None => WorkersPlan::Fixed(None),
            }
        },
    }
}

/// The smaller of a number and a limit.
pub open spec fn capped(n: usize, max: Option<usize>) -> usize {
    match max {
        Some(m) => if m < n {
            m
        } else {
            n
        },
        None => n,
    }
}

// ---------------------------------------------------------------------------
// Executable functions
// ---------------------------------------------------------------------------

fn switched_on(value: &str) -> (r: bool)
    ensures
        r == is_on(value@),
{
    let v = trim(value);
    same(v.as_str(), "true") || same(v.as_str(), "True") || same(v.as_str(), "1")
}

fn set_and_on(value: Option<&str>) -> (r: bool)
    ensures
        r == on_if_set(opt_str(value)),
{
    match value {
        Some(v) => switched_on(v),
        None => false,
    }
}

/// Whether marks must be registered: by `--strict-markers`, `--strict` or the
/// ini options of these names.
pub fn strict_markers(
    strict_markers_flag: bool,
    strict_flag: bool,
    strict_markers_ini: Option<&str>,
    strict_ini: Option<&str>,
) -> (r: bool)
    ensures
        r == (strict_markers_flag || strict_flag || on_if_set(opt_str(strict_markers_ini))
            || on_if_set(opt_str(strict_ini))),
{
    strict_markers_flag || strict_flag || set_and_on(strict_markers_ini) || set_and_on(strict_ini)
}

/// Whether two parameter sets with one id are an error: by the ini option of
/// this name, or else by `strict`.
pub fn strict_parametrization_ids(ids_ini: Option<&str>, strict_ini: Option<&str>) -> (r: bool)
    ensures
        r == (match opt_str(ids_ini) {
            Some(v) => is_on(v),
            None => on_if_set(opt_str(strict_ini)),
        }),
{
    match ids_ini {
        Some(v) => switched_on(v),
        None => set_and_on(strict_ini),
    }
}

/// The name of the marker that a line of the `markers` option registers.
pub fn marker_name(line: &str) -> (r: String)
    ensures
        r@ == marker_of(line@),
{
    let bare = trim(line);
    let cs = chars_of(bare.as_str());
    let n: usize = cs.len();
    let mut i: usize = 0;
    assert(cs@.skip(0) =~= bare@);
    assert(cs@.take(0) + before_mark_end(cs@.skip(0)) =~= before_mark_end(bare@));
    while i < n && cs[i] != ':' && cs[i] != '('
        invariant
            n == cs@.len(),
            i <= n,
            cs@ == bare@,
            cs@.take(i as int) + before_mark_end(cs@.skip(i as int)) == before_mark_end(bare@),
        decreases n - i,
    {
        let ghost rest = cs@.skip(i as int);
        let ghost c = cs@[i as int];
        assert(rest.skip(1) =~= cs@.skip(i + 1));
        assert(cs@.take(i + 1) =~= cs@.take(i as int).push(c));
        let ghost later = before_mark_end(cs@.skip(i + 1));
        assert(cs@.take(i as int) + (seq![c] + later) =~= cs@.take(i as int).push(c) + later);
        i += 1;
    }
    assert(before_mark_end(cs@.skip(i as int)) =~= seq![]);
    let name = string_of(cs.as_slice(), 0, i);
    assert(cs@.subrange(0, i as int) =~= cs@.take(i as int));
    assert(cs@.take(i as int) + Seq::<char>::empty() =~= cs@.take(i as int));
    trim(name.as_str())
}

fn is_registered(lines: &[String], name: &str) -> (r: bool)
    ensures
        r == registers(texts(lines@), name@),
{
    if name.is_empty() {
        return false;
    }
    let n: usize = lines.len();
    let mut i: usize = 0;
    while i < n
        invariant
            n == lines@.len(),
            i <= n,
            name@.len() > 0,
            forall|k: int| 0 <= k < i ==> marker_of(#[trigger] texts(lines@)[k]) != name@,
        decreases n - i,
    {
        assert(texts(lines@)[i as int] == lines@[i as int]@);
        let marker = marker_name(lines[i].as_str());
        if same(marker.as_str(), name) {
            return true;
        }
        i += 1;
    }
    false
}

/// Checks that every mark of the items is registered, in a line of one of the
/// lists, or built in. Nothing is checked unless marks must be registered.
pub fn check_strict_markers(strict: bool, lines: &[String], more: &[String], items: &[TestItem]) -> (
r: Result<(), String>)
    ensures
        match r {
            Ok(_) => !strict || forall|i: int|
                0 <= i < items@.len() ==> marks_known(
                    #[trigger] items@[i],
                    texts(lines@),
                    texts(more@),
                ),
            Err(m) => strict && exists|i: int, j: int|
                #[trigger] first_unknown(items@, texts(lines@), texts(more@), i, j) && m@
                    == unknown_mark_text(items@[i].marks@[j].name@),
        },
{
    if !strict {
        return Ok(());
    }
    let n: usize = items.len();
    let mut i: usize = 0;
    while i < n
        invariant
            n == items@.len(),
            i <= n,
            strict,
            forall|k: int|
                0 <= k < i ==> marks_known(#[trigger] items@[k], texts(lines@), texts(more@)),
        decreases n - i,
    {
        let m: usize = items[i].marks.len();
        let mut j: usize = 0;
        while j < m
            invariant
                n == items@.len(),
                i < n,
                strict,
                m == items@[i as int].marks@.len(),
                j <= m,
                forall|k: int|
                    0 <= k < i ==> marks_known(#[trigger] items@[k], texts(lines@), texts(more@)),
                forall|l: int|
                    0 <= l < j ==> is_known_mark(
                        (#[trigger] items@[i as int].marks@[l]).name@,
                        texts(lines@),
                        texts(more@),
                    ),
            decreases m - j,
        {
            let name = items[i].marks[j].name.as_str();
            if !builtin_mark(name) && !is_registered(lines, name) && !is_registered(more, name) {
                let mut text: String = "'".to_owned();
                text.append(name);
                text.append("' not found in `markers` configuration option");
                assert(first_unknown(items@, texts(lines@), texts(more@), i as int, j as int));
                return Err(text);
            }
            j += 1;
        }
        assert(marks_known(items@[i as int], texts(lines@), texts(more@)));
        i += 1;
    }
    Ok(())
}

fn deselects(nodeid: &str, prefixes: &[String]) -> (r: bool)
    ensures
        r == is_deselected(nodeid@, texts(prefixes@)),
{
    let n: usize = prefixes.len();
    let mut i: usize = 0;
    while i < n
        invariant
            n == prefixes@.len(),
            i <= n,
            forall|k: int| 0 <= k < i ==> !(#[trigger] texts(prefixes@)[k]).is_prefix_of(nodeid@),
        decreases n - i,
    {
        assert(texts(prefixes@)[i as int] == prefixes@[i as int]@);
        if starts_with(nodeid, prefixes[i].as_str()) {
            return true;
        }
        i += 1;
    }
    false
}

/// The items that `--deselect` leaves and those that it takes out.
pub fn apply_deselect(items: Vec<TestItem>, prefixes: &[String]) -> (r: (
    Vec<TestItem>,
    Vec<TestItem>,
))
    ensures
        r.0@ == chosen(items@, kept_marks(items@, texts(prefixes@)), true),
        r.1@ == chosen(items@, kept_marks(items@, texts(prefixes@)), false),
{
    let n: usize = items.len();
    let mut marks: Vec<bool> = Vec::new();
    let mut i: usize = 0;
    while i < n
        invariant
            n == items@.len(),
            i <= n,
            marks@.len() == i,
            forall|k: int|
                0 <= k < i ==> #[trigger] marks@[k] == !is_deselected(
                    items@[k].nodeid@,
                    texts(prefixes@),
                ),
        decreases n - i,
    {
        marks.push(!deselects(items[i].nodeid.as_str(), prefixes));
        i += 1;
    }
    assert(marks@ =~= kept_marks(items@, texts(prefixes@)));
    partition(items, marks.as_slice())
}

/// The `-k` expression, without blanks at its start; none where it is empty.
pub fn keyword_expression(expr: &str) -> (r: Option<String>)
    ensures
        match r {
            Some(e) => e@ == left_trimmed(expr@) && e@.len() > 0,
            None => left_trimmed(expr@).len() == 0,
        },
{
    let e = trim_start(expr);
    if e.as_str().is_empty() {
        None
    } else {
        Some(e)
    }
}

/// The `-m` expression, without blanks around it; none where it is empty.
pub fn mark_expression(expr: &str) -> (r: Option<String>)
    ensures
        match r {
            Some(e) => e@ == trimmed(expr@) && e@.len() > 0,
            None => trimmed(expr@).len() == 0,
        },
{
    let e = trim(expr);
    if e.as_str().is_empty() {
        None
    } else {
        Some(e)
    }
}

/// The items that an expression leaves and those that it takes out, by what it
/// came to for each; `None` where it raised, which leaves the item.
pub fn apply_results(items: Vec<TestItem>, results: &[Option<bool>]) -> (r: (
    Vec<TestItem>,
    Vec<TestItem>,
))
    requires
        results@.len() == items@.len(),
    ensures
        r.0@ == chosen(items@, result_marks(results@), true),
        r.1@ == chosen(items@, result_marks(results@), false),
{
    let n: usize = results.len();
    let mut marks: Vec<bool> = Vec::new();
    let mut i: usize = 0;
    while i < n
        invariant
            n == results@.len(),
            i <= n,
            marks@.len() == i,
            forall|k: int| 0 <= k < i ==> #[trigger] marks@[k] == (results@[k] != Some(false)),
        decreases n - i,
    {
        let keep = match results[i] {
            Some(b) => b,
            None => true,
        };
        marks.push(keep);
        i += 1;
    }
    assert(marks@ =~= result_marks(results@));
    partition(items, marks.as_slice())
}

/// The first item on which an expression raised: its exception is reported.
pub fn first_raised(results: &[Option<bool>]) -> (r: Option<usize>)
    ensures
        match r {
            Some(i) => i < results@.len() && results@[i as int] is None && forall|k: int|
                0 <= k < i ==> (#[trigger] results@[k]) is Some,
            None => forall|k: int| 0 <= k < results@.len() ==> (#[trigger] results@[k]) is Some,
        },
{
    let n: usize = results.len();
    let mut i: usize = 0;
    while i < n
        invariant
            n == results@.len(),
            i <= n,
            forall|k: int| 0 <= k < i ==> (#[trigger] results@[k]) is Some,
        decreases n - i,
    {
        if results[i].is_none() {
            return Some(i);
        }
        i += 1;
    }
    None
}

fn unless_zero(n: usize) -> (r: Option<usize>)
    ensures
        r == some_workers(n as int),
{
    if n > 0 {
        Some(n)
    } else {
        None
    }
}

/// How many workers there are, as far as the options tell.
pub fn workers_plan(
    numprocesses: Option<&str>,
    dist_load: bool,
    has_tx: bool,
    tx_workers: Option<usize>,
) -> (r: WorkersPlan)
    ensures
        r == plan_of(opt_str(numprocesses), dist_load, has_tx, tx_workers),
{
    match numprocesses {
        None => match tx_workers {
            Some(n) => if dist_load || has_tx {
                WorkersPlan::Fixed(unless_zero(n))
            } else {
                WorkersPlan::Fixed(None)
            },
            None => WorkersPlan::Fixed(None),
        },
        Some(n) => if same(n, "auto") {
            WorkersPlan::Auto { logical: false }
        } else if same(n, "logical") {
            WorkersPlan::Auto { logical: true }
        } else {
            match parse_count(n) {
                Some(v) => WorkersPlan::Fixed(unless_zero(v)),
                None => WorkersPlan::Fixed(None),
            }
        },
    }
}

/// The number of workers where it was left open: what a hook said, or else
/// what the machine has, but not more than `--maxprocesses`.
pub fn auto_workers(from_hook: Option<usize>, detected: usize, maxprocesses: Option<usize>) -> (r:
    Option<usize>)
    ensures
        r == some_workers(
            capped(
                match from_hook {
                    Some(n) => n,
                    None => detected,
                },
                maxprocesses,
            ) as int,
        ),
{
    let n: usize = match from_hook {
        Some(n) => n,
        None => detected,
    };
    let n: usize = match maxprocesses {
        Some(m) => if m < n {
            m
        } else {
            n
        },
        None => n,
    };
    unless_zero(n)
}

// ---------------------------------------------------------------------------
// Laws
// ---------------------------------------------------------------------------

/// Deselection loses no item: each is either left or taken out.
pub proof fn deselection_loses_nothing(items: Seq<TestItem>, prefixes: Seq<Seq<char>>)
    ensures
        ({
            let kept = chosen(items, kept_marks(items, prefixes), true);
            let removed = chosen(items, kept_marks(items, prefixes), false);
            &&& kept.to_multiset().add(removed.to_multiset()) == items.to_multiset()
            &&& kept.len() + removed.len() == items.len()
        }),
{
    partition_keeps_all(items, kept_marks(items, prefixes));
}

/// An expression that is true of every item, or raises, takes none out.
pub proof fn raising_keeps_items(items: Seq<TestItem>, results: Seq<Option<bool>>)
    requires
        items.len() <= results.len(),
        forall|i: int| 0 <= i < items.len() ==> #[trigger] results[i] != Some(false),
    ensures
        chosen(items, result_marks(results), true) == items,
        chosen(items, result_marks(results), false) == Seq::<TestItem>::empty(),
    decreases items.len(),
{
    if items.len() > 0 {
        raising_keeps_items(items.drop_last(), results);
        assert(result_marks(results)[items.len() - 1] == (results[items.len() - 1] != Some(false)));
        assert(items =~= items.drop_last().push(items.last()));
    }
}

/// `--maxprocesses` bounds the number of workers that was left open.
pub proof fn workers_are_capped(n: usize, max: usize)
    ensures
        some_workers(capped(n, Some(max)) as int) matches Some(w) ==> w <= max && w <= n && w > 0,
{
}

/// A deselected item is one whose nodeid starts with one of the prefixes; all
/// others stay. Both lists keep the order of the items.
pub proof fn prefixes_deselect(items: Seq<TestItem>, prefixes: Seq<Seq<char>>) -> (at: (
    Seq<int>,
    Seq<int>,
))
    ensures
        ({
            let kept = chosen(items, kept_marks(items, prefixes), true);
            let removed = chosen(items, kept_marks(items, prefixes), false);
            &&& at.0.len() == kept.len() && at.1.len() == removed.len()
            &&& forall|k: int|
                0 <= k < kept.len() ==> {
                    let i = #[trigger] at.0[k];
                    &&& 0 <= i < items.len() && kept[k] == items[i]
                    &&& forall|p: int|
                        0 <= p < prefixes.len() ==> !(#[trigger] prefixes[p]).is_prefix_of(
                            items[i].nodeid@,
                        )
                }
            &&& forall|k: int|
                0 <= k < removed.len() ==> {
                    let i = #[trigger] at.1[k];
                    &&& 0 <= i < items.len() && removed[k] == items[i]
                    &&& exists|p: int|
                        0 <= p < prefixes.len() && (#[trigger] prefixes[p]).is_prefix_of(
                            items[i].nodeid@,
                        )
                }
            &&& forall|j: int, k: int|
                0 <= j < k < at.0.len() ==> #[trigger] at.0[j] < #[trigger] at.0[k]
            &&& forall|j: int, k: int|
                0 <= j < k < at.1.len() ==> #[trigger] at.1[j] < #[trigger] at.1[k]
            &&& forall|i: int|
                0 <= i < items.len() ==> #[trigger] at.0.contains(i) || at.1.contains(i)
        }),
{
    let marks = kept_marks(items, prefixes);
    let kept = chosen_keeps_order(items, marks, true);
    let removed = chosen_keeps_order(items, marks, false);
    assert forall|i: int| 0 <= i < items.len() implies #[trigger] kept.contains(i)
        || removed.contains(i) by {
        if marks[i] {
            assert(kept.contains(i));
        } else {
            assert(removed.contains(i));
        }
    }
    (kept, removed)
}

/// An expression that is false of an item deselects it; one that is true of it, or
/// that cannot be told, keeps it. Both lists keep the order of the items.
pub proof fn results_deselect(items: Seq<TestItem>, results: Seq<Option<bool>>) -> (at: (
    Seq<int>,
    Seq<int>,
))
    requires
        results.len() == items.len(),
    ensures
        ({
            let kept = chosen(items, result_marks(results), true);
            let removed = chosen(items, result_marks(results), false);
            &&& at.0.len() == kept.len() && at.1.len() == removed.len()
            &&& forall|k: int|
                0 <= k < kept.len() ==> 0 <= #[trigger] at.0[k] < items.len() && kept[k]
                    == items[at.0[k]] && results[at.0[k]] != Some(false)
            &&& forall|k: int|
                0 <= k < removed.len() ==> 0 <= #[trigger] at.1[k] < items.len() && removed[k]
                    == items[at.1[k]] && results[at.1[k]] == Some(false)
            &&& forall|j: int, k: int|
                0 <= j < k < at.0.len() ==> #[trigger] at.0[j] < #[trigger] at.0[k]
            &&& forall|j: int, k: int|
                0 <= j < k < at.1.len() ==> #[trigger] at.1[j] < #[trigger] at.1[k]
            &&& forall|i: int|
                0 <= i < items.len() ==> #[trigger] at.0.contains(i) || at.1.contains(i)
        }),
{
    let marks = result_marks(results);
    let kept = chosen_keeps_order(items, marks, true);
    let removed = chosen_keeps_order(items, marks, false);
    assert forall|i: int| 0 <= i < items.len() implies #[trigger] kept.contains(i)
        || removed.contains(i) by {
        if marks[i] {
            assert(kept.contains(i));
        } else {
            assert(removed.contains(i));
        }
    }
    (kept, removed)
}

/// A setting is on when it reads `true`, `True` or `1`, white space aside; one
/// that is not there is off.
pub proof fn settings_are_on(value: Seq<char>)
    ensures
        is_on(value) <==> trimmed(value) == "true"@ || trimmed(value) == "True"@ || trimmed(value)
            == "1"@,
        on_if_set(Some(value)) == is_on(value),
        !on_if_set(None),
{
}

/// A line that registers a marker names it up to its arguments or its
/// description.
pub proof fn markers_are_named_first(name: Seq<char>, mark: char, rest: Seq<char>)
    requires
        mark == ':' || mark == '(',
        name.len() > 0,
        !name.contains(':') && !name.contains('('),
        !is_space(name[0]) && !is_space(name.last()),
        rest.len() > 0 ==> !is_space(rest.last()),
    ensures
        marker_of(name) == name,
        marker_of(name.push(mark) + rest) == name,
{
    let none = Seq::<char>::empty();
    let line = name.push(mark) + rest;
    trimming_takes_white_space(none, name, none);
    assert(none + name + none =~= name);
    assert(line[0] == name[0]);
    assert(!is_space(mark));
    assert(!is_space(line.last()));
    trimming_takes_white_space(none, line, none);
    assert(none + line + none =~= line);
    before_mark(name, seq![mark] + rest);
    assert(name + (seq![mark] + rest) =~= line);
    before_mark(name, none);
    assert(name + none =~= name);
}

proof fn before_mark(name: Seq<char>, rest: Seq<char>)
    requires
        !name.contains(':') && !name.contains('('),
        rest.len() > 0 ==> rest[0] == ':' || rest[0] == '(',
    ensures
        before_mark_end(name + rest) == name,
    decreases name.len(),
{
    let s = name + rest;
    if name.len() == 0 {
        assert(s =~= rest);
    } else {
        assert(name.contains(name[0]));
        assert(s[0] == name[0]);
        assert(s.skip(1) =~= name.skip(1) + rest);
        assert forall|k: int| 0 <= k < name.skip(1).len() implies name.skip(1)[k] != ':'
            && name.skip(1)[k] != '(' by {
            assert(name.contains(name[k + 1]));
        }
        before_mark(name.skip(1), rest);
        assert(seq![name[0]] + name.skip(1) =~= name);
    }
}

/// A mark is known when it is a built-in one or a line registers it; the first
/// mark that is not is named, with the setting that would register it.
pub proof fn marks_are_known_by_registration(
    name: Seq<char>,
    lines: Seq<Seq<char>>,
    more: Seq<Seq<char>>,
    i: int,
)
    ensures
        0 <= i < lines.len() && marker_of(lines[i]) == name && name.len() > 0 ==> is_known_mark(
            name,
            lines,
            more,
        ),
        0 <= i < more.len() && marker_of(more[i]) == name && name.len() > 0 ==> is_known_mark(
            name,
            lines,
            more,
        ),
        is_builtin_mark(name) ==> is_known_mark(name, lines, more),
        is_known_mark(name, lines, more) && !is_builtin_mark(name) ==> exists|k: int|
            0 <= k < lines.len() && marker_of(#[trigger] lines[k]) == name || 0 <= k < more.len()
                && marker_of(more[k]) == name,
        unknown_mark_text(name) == "'"@ + name + "' not found in `markers` configuration option"@,
{
    if 0 <= i < lines.len() && marker_of(lines[i]) == name && name.len() > 0 {
        assert(registers(lines, name));
    }
    if 0 <= i < more.len() && marker_of(more[i]) == name && name.len() > 0 {
        assert(registers(more, name));
    }
    if is_known_mark(name, lines, more) && !is_builtin_mark(name) {
        if registers(lines, name) {
            let k = choose|k: int| 0 <= k < lines.len() && marker_of(#[trigger] lines[k]) == name;
            assert(marker_of(lines[k]) == name);
        } else {
            let k = choose|k: int| 0 <= k < more.len() && marker_of(#[trigger] more[k]) == name;
            let l = lines[k];
            assert(0 <= k < more.len() && marker_of(more[k]) == name);
        }
    }
}

/// How many workers there are to be: a number as it is given, and none for zero
/// or for what is no number; `auto` and `logical` are left to the machine. Where
/// no number is given, a distribution by load or by `--tx` takes the number of
/// `--tx`.
pub proof fn worker_numbers_are_read(
    numprocesses: Option<Seq<char>>,
    dist_load: bool,
    has_tx: bool,
    tx: Option<usize>,
    n: usize,
)
    ensures
        ({
            let plan = plan_of(numprocesses, dist_load, has_tx, tx);
            &&& numprocesses is None && !dist_load && !has_tx ==> plan == WorkersPlan::Fixed(None)
            &&& numprocesses is None && (dist_load || has_tx) && tx is Some && tx->0 > 0 ==> plan
                == WorkersPlan::Fixed(tx)
            &&& numprocesses is None && (tx is None || tx->0 == 0) ==> plan == WorkersPlan::Fixed(
                None,
            )
            &&& numprocesses == Some("auto"@) ==> plan == WorkersPlan::Auto { logical: false }
            &&& numprocesses == Some("logical"@) ==> plan == WorkersPlan::Auto { logical: true }
            &&& numprocesses == Some(decimal_of(n as nat)) && n > 0 ==> plan == WorkersPlan::Fixed(
                Some(n),
            )
            &&& numprocesses == Some(decimal_of(0)) ==> plan == WorkersPlan::Fixed(None)
        }),
{
    reveal_strlit("auto");
    reveal_strlit("logical");
    assert("auto"@[0] == 'a' && "logical"@[0] == 'l' && "auto"@.len() == 4);
    decimal_round_trip(n as nat);
    decimal_round_trip(0);
    counts_are_read(n as nat, usize::MAX as nat, "auto"@, 1);
    counts_are_read(0, usize::MAX as nat, "auto"@, 1);
}

/// The number of workers that is found out: that of the hook, else that of the
/// machine, and no more than `--maxprocesses`; none for zero.
pub proof fn found_workers_are_capped(n: usize, max: Option<usize>)
    ensures
        max is None || max->0 >= n ==> capped(n, max) == n,
        max is Some && max->0 < n ==> capped(n, max) == max->0,
        some_workers(0) is None,
        n > 0 ==> some_workers(n as int) == Some(n),
{
}

} // verus!
