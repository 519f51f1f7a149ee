//! `--durations`: the slowest phases of the tests.

use vstd::prelude::*;

use crate::banner::{banner_of, center_banner};
use crate::lists::contains_sum;
use crate::report::Phase;
use crate::sorting::{ints, is_order, sort, sorted, sorting_orders};
use crate::terminal::line::{emit, no_lines, plain, shown, Line, LineView, Style};
use crate::text::{decimal, decimal_of};

verus! {

/// A phase with the time that it took.
pub struct TimedPhase {
    pub nodeid: String,
    pub phase: Phase,
    /// A number that is the larger the longer the phase took.
    pub rank: u64,
    /// The time in seconds.
    pub seconds: String,
    /// It took less than `--durations-min`.
    pub below_min: bool,
}

// ---------------------------------------------------------------------------
// Model
// ---------------------------------------------------------------------------

/// The name of a phase, in eight columns.
pub open spec fn phase_column(phase: Phase) -> Seq<char> {
    match phase {
        Phase::Setup => "setup   "@,
        Phase::Call => "call    "@,
        Phase::Teardown => "teardown"@,
    }
}

/// The order of the phases by the time that they took.
pub open spec fn time_order(phases: Seq<TimedPhase>) -> spec_fn(int, int) -> bool {
    |a: int, b: int| phases[a].rank > phases[b].rank
}

/// The first `n` phases, the slowest first; phases that took as long stay in
/// order.
pub open spec fn by_time(phases: Seq<TimedPhase>, n: int) -> Seq<int> {
    sorted(time_order(phases), n)
}

/// The phases that are looked at: the `n` slowest, or all where `n` is zero.
pub open spec fn slowest(phases: Seq<TimedPhase>, n: nat) -> Seq<int> {
    let all = by_time(phases, phases.len() as int);
    if 0 < n < all.len() {
        all.take(n as int)
    } else {
        all
    }
}

/// The line of a phase.
pub open spec fn phase_text(p: TimedPhase) -> Seq<char> {
    p.seconds@ + "s "@ + phase_column(p.phase) + " "@ + p.nodeid@
}

/// The lines of the phases that did not take too little.
pub open spec fn phase_lines(phases: Seq<TimedPhase>, ixs: Seq<int>) -> Seq<LineView>
    decreases ixs.len(),
{
    if ixs.len() == 0 {
        seq![]
    } else {
        let before = phase_lines(phases, ixs.drop_last());
        if phases[ixs.last()].below_min {
            before
        } else {
            before.push(plain(phase_text(phases[ixs.last()])))
        }
    }
}

/// The number of phases that took too little.
pub open spec fn hidden_count(phases: Seq<TimedPhase>, ixs: Seq<int>) -> nat
    decreases ixs.len(),
{
    if ixs.len() == 0 {
        0
    } else {
        hidden_count(phases, ixs.drop_last()) + (if phases[ixs.last()].below_min {
            1nat
        } else {
            0
        })
    }
}

/// What is said of the phases that are not shown.
pub open spec fn hidden_text(hidden: nat, min: Seq<char>, explicit: bool) -> Seq<char> {
    "("@ + decimal_of(hidden) + " durations < "@ + min + (if explicit {
        "s hidden.)"@
    } else {
        "s hidden.  Use -vv to show these durations.)"@
    })
}

/// The heading of the list.
pub open spec fn durations_title(n: nat) -> Seq<char> {
    if n > 0 {
        "slowest "@ + decimal_of(n) + " durations"@
    } else {
        "slowest durations"@
    }
}

/// What `--durations` shows.
pub open spec fn durations_view(
    phases: Seq<TimedPhase>,
    n: nat,
    min: Seq<char>,
    explicit: bool,
) -> Seq<LineView> {
    let ixs = slowest(phases, n);
    let hidden = hidden_count(phases, ixs);
    seq![plain(banner_of(durations_title(n), '='))] + phase_lines(phases, ixs) + (if hidden > 0 {
        seq![plain(""@), plain(hidden_text(hidden, min, explicit))]
    } else {
        seq![]
    })
}

// ---------------------------------------------------------------------------
// Executable functions
// ---------------------------------------------------------------------------

fn rank_phases(phases: &[TimedPhase], n: usize) -> (r: Vec<usize>)
    ensures
        ints(r@) == slowest(phases@, n as nat),
        forall|i: int| 0 <= i < r@.len() ==> #[trigger] r@[i] < phases@.len(),
{
    let len: usize = phases.len();
    let ghost order = time_order(phases@);
    let by = |a: usize, b: usize| -> (r: bool)
        requires
            a < phases@.len(),
            b < phases@.len(),
        ensures
            r == time_order(phases@)(a as int, b as int),
        { phases[a].rank > phases[b].rank };
    let mut r = sort(len, &by, Ghost(order));
    let ghost all = r@;
    assert(ints(all).len() == all.len());
    if n > 0 && n < r.len() {
        r.truncate(n);
        assert(ints(r@) =~= ints(all).take(n as int));
    }
    r
}

fn phase_name(phase: Phase) -> (r: &'static str)
    ensures
        r@ == phase_column(phase),
{
    match phase {
        Phase::Setup => "setup   ",
        Phase::Call => "call    ",
        Phase::Teardown => "teardown",
    }
}

fn phase_line(p: &TimedPhase) -> (r: String)
    ensures
        r@ == phase_text(*p),
{
    let mut r: String = p.seconds.clone();
    r.append("s ");
    r.append(phase_name(p.phase));
    r.append(" ");
    r.append(p.nodeid.as_str());
    r
}

fn hidden_line(hidden: usize, min: &str, explicit: bool) -> (r: String)
    ensures
        r@ == hidden_text(hidden as nat, min@, explicit),
{
    let count = decimal(hidden);
    let mut r: String = "(".to_owned();
    r.append(count.as_str());
    r.append(" durations < ");
    r.append(min);
    if explicit {
        r.append("s hidden.)");
    } else {
        r.append("s hidden.  Use -vv to show these durations.)");
    }
    r
}

fn title(n: usize) -> (r: String)
    ensures
        r@ == durations_title(n as nat),
{
    if n > 0 {
        let count = decimal(n);
        let mut r: String = "slowest ".to_owned();
        r.append(count.as_str());
        r.append(" durations");
        r
    } else {
        "slowest durations".to_owned()
    }
}

/// What `--durations` shows: the `n` slowest phases, or all where `n` is zero.
/// `min` is `--durations-min`, and `explicit` says whether it was given.
pub fn durations_lines(phases: &[TimedPhase], n: usize, min: &str, explicit: bool) -> (r: Vec<Line>)
    ensures
        shown(r@) == durations_view(phases@, n as nat, min@, explicit),
{
    let order = rank_phases(phases, n);
    let ghost ixs = ints(order@);
    let mut out = no_lines();
    let heading = title(n);
    emit(&mut out, center_banner(heading.as_str()), Style::Plain);
    let ghost first = shown(out@);
    assert(first =~= seq![plain(banner_of(durations_title(n as nat), '='))]);
    let len: usize = order.len();
    let mut hidden: usize = 0;
    let mut i: usize = 0;
    assert(ixs.take(0) =~= seq![]);
    assert(first + phase_lines(phases@, ixs.take(0)) =~= first);
    while i < len
        invariant
            len == order@.len(),
            i <= len,
            ixs == ints(order@),
            hidden <= i,
            forall|k: int| 0 <= k < len ==> #[trigger] order@[k] < phases@.len(),
            shown(out@) == first + phase_lines(phases@, ixs.take(i as int)),
            hidden == hidden_count(phases@, ixs.take(i as int)),
        decreases len - i,
    {
        let k: usize = order[i];
        let ghost before = phase_lines(phases@, ixs.take(i as int));
        assert(ixs.take(i + 1).drop_last() =~= ixs.take(i as int));
        assert(ixs.take(i + 1).last() == k as int);
        if phases[k].below_min {
            hidden += 1;
        } else {
            emit(&mut out, phase_line(&phases[k]), Style::Plain);
            assert((first + before).push(plain(phase_text(phases@[k as int]))) =~= first
                + before.push(plain(phase_text(phases@[k as int]))));
        }
        i += 1;
    }
    assert(ixs.take(len as int) =~= ixs);
    let ghost body = shown(out@);
    if hidden > 0 {
        emit(&mut out, "".to_owned(), Style::Plain);
        emit(&mut out, hidden_line(hidden, min, explicit), Style::Plain);
        assert(shown(out@) =~= body + seq![
            plain(""@),
            plain(hidden_text(hidden as nat, min@, explicit)),
        ]);
    } else {
        assert(shown(out@) =~= body + Seq::<LineView>::empty());
    }
    out
}

// ---------------------------------------------------------------------------
// Laws
// ---------------------------------------------------------------------------

/// The phases at these positions: slower ones first, and those that took as
/// long in order.
pub open spec fn slower_first(phases: Seq<TimedPhase>, ixs: Seq<int>) -> bool {
    forall|i: int, j: int|
        0 <= i < j < ixs.len() ==> {
            let (a, b) = (#[trigger] phases[ixs[i]], #[trigger] phases[ixs[j]]);
            a.rank > b.rank || (a.rank == b.rank && ixs[i] < ixs[j])
        }
}

/// Slower phases come first, and each phase is ranked once.
pub proof fn slowest_come_first(phases: Seq<TimedPhase>, n: int)
    requires
        0 <= n <= phases.len(),
    ensures
        slower_first(phases, by_time(phases, n)),
        by_time(phases, n).to_multiset() == Seq::new(n as nat, |i: int| i).to_multiset(),
{
    let ixs = by_time(phases, n);
    let before = time_order(phases);
    assert(is_order(before));
    sorting_orders(before, n);
    assert forall|i: int, j: int| 0 <= i < j < ixs.len() implies ({
        let (a, b) = (#[trigger] phases[ixs[i]], #[trigger] phases[ixs[j]]);
        a.rank > b.rank || (a.rank == b.rank && ixs[i] < ixs[j])
    }) by {
        assert(before(ixs[i], ixs[j]) || !before(ixs[j], ixs[i]));
    }
}

/// Every phase that is looked at is shown or counted.
pub proof fn every_phase_is_accounted_for(phases: Seq<TimedPhase>, ixs: Seq<int>)
    ensures
        phase_lines(phases, ixs).len() + hidden_count(phases, ixs) == ixs.len(),
    decreases ixs.len(),
{
    if ixs.len() > 0 {
        every_phase_is_accounted_for(phases, ixs.drop_last());
    }
}

/// The list of durations has a title, a line for each phase that is among the slowest
/// and not too short, and a word on those that are hidden, where there are any.
pub proof fn durations_are_listed(
    phases: Seq<TimedPhase>,
    n: nat,
    min: Seq<char>,
    explicit: bool,
    k: int,
)
    requires
        0 <= k < slowest(phases, n).len(),
    ensures
        ({
            let view = durations_view(phases, n, min, explicit);
            let p = phases[slowest(phases, n)[k]];
            let hidden = hidden_count(phases, slowest(phases, n));
            let column = match p.phase {
                Phase::Setup => "setup   "@,
                Phase::Call => "call    "@,
                Phase::Teardown => "teardown"@,
            };
            &&& n > 0 ==> view[0] == plain(
                banner_of("slowest "@ + decimal_of(n) + " durations"@, '='),
            )
            &&& n == 0 ==> view[0] == plain(banner_of("slowest durations"@, '='))
            &&& !p.below_min ==> view.contains(
                plain(p.seconds@ + "s "@ + column + " "@ + p.nodeid@),
            )
            &&& p.below_min ==> hidden > 0
            &&& hidden > 0 && explicit ==> view.last() == plain(
                "("@ + decimal_of(hidden) + " durations < "@ + min + "s hidden.)"@,
            )
            &&& hidden > 0 && !explicit ==> view.last() == plain(
                "("@ + decimal_of(hidden) + " durations < "@ + min
                    + "s hidden.  Use -vv to show these durations.)"@,
            )
        }),
{
    let ixs = slowest(phases, n);
    let lines = phase_lines(phases, ixs);
    let top = seq![plain(banner_of(durations_title(n), '='))];
    let hidden = hidden_count(phases, ixs);
    let tail = if hidden > 0 {
        seq![plain(""@), plain(hidden_text(hidden, min, explicit))]
    } else {
        seq![]
    };
    phase_is_listed(phases, ixs, k);
    let line = plain(phase_text(phases[ixs[k]]));
    contains_sum(top, lines, line);
    contains_sum(top + lines, tail, line);
}

proof fn phase_is_listed(phases: Seq<TimedPhase>, ixs: Seq<int>, k: int)
    requires
        0 <= k < ixs.len(),
    ensures
        !phases[ixs[k]].below_min ==> phase_lines(phases, ixs).contains(
            plain(phase_text(phases[ixs[k]])),
        ),
        phases[ixs[k]].below_min ==> hidden_count(phases, ixs) > 0,
    decreases ixs.len(),
{
    let init = ixs.drop_last();
    let before = phase_lines(phases, init);
    let all = phase_lines(phases, ixs);
    let line = plain(phase_text(phases[ixs[k]]));
    if k < init.len() {
        phase_is_listed(phases, init, k);
        if !phases[ixs[k]].below_min {
            let j = choose|j: int| 0 <= j < before.len() && before[j] == line;
            assert(all[j] == line);
        }
    } else if !phases[ixs[k]].below_min {
        assert(all[before.len() as int] == line);
    }
}

/// As many phases are listed as are asked for, the slowest ones; with none asked for,
/// or more than there are, all of them.
pub proof fn slowest_are_taken(phases: Seq<TimedPhase>, n: nat)
    ensures
        0 < n < phases.len() ==> slowest(phases, n).len() == n,
        n == 0 || n >= phases.len() ==> slowest(phases, n).len() == phases.len(),
        forall|i: int|
            0 <= i < slowest(phases, n).len() ==> #[trigger] slowest(phases, n)[i] == by_time(
                phases,
                phases.len() as int,
            )[i],
        slower_first(phases, by_time(phases, phases.len() as int)),
{
    let all = by_time(phases, phases.len() as int);
    slowest_come_first(phases, phases.len() as int);
    let numbers = Seq::new(phases.len(), |i: int| i);
    vstd::seq_lib::to_multiset_len(all);
    vstd::seq_lib::to_multiset_len(numbers);
}

} // verus!
