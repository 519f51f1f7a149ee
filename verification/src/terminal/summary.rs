//! The "short test summary info" section.

use vstd::prelude::*;

use crate::banner::{banner_of, center_banner, message_of, short_message};
use crate::item::TestItem;
use crate::report::{text_or_empty, Outcome, Phase, TestReport};
use crate::terminal::line::{emit, no_lines, plain, shown, Line, LineView, Style};
use crate::terminal::results::{flags_of, report_chars, ReportOptions};
use crate::text::{
    chars_of, decimal, decimal_of, first_at_char, head, head_of, same, starts_with, string_of,
};

verus! {

/// A report with what the application knows about it.
pub struct SummaryReport<'a> {
    pub report: &'a TestReport,
    /// The nodeid relative to the directory of the invocation.
    pub shown_nodeid: String,
    /// The word that `pytest_report_teststatus` has for the report.
    pub status_word: Option<String>,
}

/// What shapes the short summary.
pub struct SummaryOptions {
    /// Subtests that did not fail are left out.
    pub hide_subtests: bool,
    /// `--no-fold-skipped`.
    pub no_fold_skipped: bool,
    /// `--force-short-summary`.
    pub force_short: bool,
    pub on_ci: bool,
    pub verbose: i32,
    /// The width of the terminal.
    pub width: usize,
}

// ---------------------------------------------------------------------------
// Model
// ---------------------------------------------------------------------------

/// The first line of `msg` after `prefix`, ellipsized to fit `available`
/// columns; None when even the ellipsis does not fit.
pub open spec fn fitted(prefix: Seq<char>, msg: Seq<char>, available: nat) -> Option<Seq<char>> {
    let first = head_of(msg, "\n"@);
    if prefix.len() + 3 > available {
        None
    } else if prefix.len() + first.len() <= available {
        Some(prefix + first)
    } else {
        Some(prefix + first.take(available - prefix.len() - 3) + "..."@)
    }
}

/// The summary word of a report: the one of the status hook, else one for the
/// outcome of a subtest.
pub open spec fn word_of(r: SummaryReport, fallback: Seq<char>) -> Seq<char> {
    let desc = text_or_empty(r.report.subtest_desc);
    if r.status_word matches Some(word) && word@.len() > 0 {
        r.status_word->Some_0@
    } else {
        match r.report.outcome {
            Outcome::Failed => "SUBFAILED"@ + desc,
            Outcome::Passed => "SUBPASSED"@ + desc,
            Outcome::Skipped => "SUBSKIPPED"@ + desc,
            Outcome::XFailed => "SUBXFAILED"@ + desc,
            Outcome::XPassed => fallback,
        }
    }
}

/// A skip that the summary lists.
pub open spec fn listed_skip(r: SummaryReport, options: SummaryOptions) -> bool {
    r.report.outcome == Outcome::Skipped && !(options.hide_subtests
        && r.report.subtest_desc is Some)
}

/// A reason that says that it is a skip.
pub open spec fn skip_reason(reason: Seq<char>) -> Seq<char> {
    if "Skipped"@.is_prefix_of(reason) {
        reason
    } else {
        "Skipped: "@ + reason
    }
}

/// The line for one skip.
pub open spec fn unfolded_line(r: SummaryReport) -> Seq<char> {
    let line = word_of(r, "SKIPPED"@) + " "@ + r.shown_nodeid@;
    let reason = text_or_empty(r.report.longrepr);
    if reason.len() == 0 {
        line
    } else {
        line + " - "@ + skip_reason(reason)
    }
}

/// The lines for the skips among the first `n` reports, one each.
pub open spec fn unfolded_lines(
    reports: Seq<SummaryReport>,
    n: int,
    options: SummaryOptions,
) -> Seq<LineView>
    decreases n,
{
    if n <= 0 {
        seq![]
    } else {
        let before = unfolded_lines(reports, n - 1, options);
        if listed_skip(reports[n - 1], options) {
            before.push(plain(unfolded_line(reports[n - 1])))
        } else {
            before
        }
    }
}

/// Skips at one place for one reason.
pub struct SkipView {
    pub location: Seq<char>,
    pub reason: Seq<char>,
    pub count: nat,
}

/// The group holds skips at this place for this reason.
pub open spec fn is_group(g: SkipView, location: Seq<char>, reason: Seq<char>) -> bool {
    g.location == location && g.reason == reason
}

/// One more skip: it joins the first group of its place and reason, or starts
/// one.
pub open spec fn joined_group(
    groups: Seq<SkipView>,
    location: Seq<char>,
    reason: Seq<char>,
) -> Seq<SkipView>
    decreases groups.len(),
{
    if groups.len() == 0 {
        seq![SkipView { location, reason, count: 1 }]
    } else if is_group(groups[0], location, reason) {
        seq![SkipView { location, reason, count: groups[0].count + 1 }] + groups.skip(1)
    } else {
        seq![groups[0]] + joined_group(groups.skip(1), location, reason)
    }
}

/// Where a test was skipped.
pub open spec fn skip_location(r: SummaryReport) -> Seq<char> {
    match r.report.location {
        Some(location) => location@,
        None => r.shown_nodeid@,
    }
}

/// The groups of the skips among the first `n` reports.
pub open spec fn skip_groups(
    reports: Seq<SummaryReport>,
    n: int,
    options: SummaryOptions,
) -> Seq<SkipView>
    decreases n,
{
    if n <= 0 {
        seq![]
    } else {
        let before = skip_groups(reports, n - 1, options);
        let r = reports[n - 1];
        if listed_skip(r, options) {
            joined_group(before, skip_location(r), text_or_empty(r.report.longrepr))
        } else {
            before
        }
    }
}

/// The word for all skips: that of the first one.
pub open spec fn skip_label(
    reports: Seq<SummaryReport>,
    n: int,
    options: SummaryOptions,
) -> Option<Seq<char>>
    decreases n,
{
    if n <= 0 {
        None
    } else {
        match skip_label(reports, n - 1, options) {
            Some(label) => Some(label),
            None => if listed_skip(reports[n - 1], options) {
                Some(word_of(reports[n - 1], "SKIPPED"@))
            } else {
                None
            },
        }
    }
}

/// The line for a group of skips.
pub open spec fn folded_line(label: Seq<char>, g: SkipView) -> Seq<char> {
    label + " ["@ + decimal_of(g.count) + "] "@ + g.location + ": "@ + g.reason
}

/// The lines for the skips, folded by place and reason.
pub open spec fn folded_lines(
    reports: Seq<SummaryReport>,
    options: SummaryOptions,
) -> Seq<LineView> {
    let n = reports.len() as int;
    let groups = skip_groups(reports, n, options);
    let label = match skip_label(reports, n, options) {
        Some(label) => label,
        None => "SKIPPED"@,
    };
    Seq::new(groups.len(), |i: int| plain(folded_line(label, groups[i])))
}

/// The word for a report under a report character, if it is listed there.
pub open spec fn listed_word(c: char, phase: Phase, outcome: Outcome) -> Option<Seq<char>> {
    if c == 'f' && phase == Phase::Call && outcome == Outcome::Failed {
        Some("FAILED"@)
    } else if c == 'E' && phase != Phase::Call && outcome == Outcome::Failed {
        Some("ERROR"@)
    } else if c == 'x' && outcome == Outcome::XFailed {
        Some("XFAIL"@)
    } else if c == 'X' && outcome == Outcome::XPassed {
        Some("XPASS"@)
    } else if c == 'p' && phase == Phase::Call && outcome == Outcome::Passed {
        Some("PASSED"@)
    } else {
        None
    }
}

/// The first item with this nodeid is a doctest.
pub open spec fn is_doctest_id(items: Seq<TestItem>, nodeid: Seq<char>) -> bool
    decreases items.len(),
{
    if items.len() == 0 {
        false
    } else if items[0].nodeid@ == nodeid {
        items[0].is_doctest
    } else {
        is_doctest_id(items.skip(1), nodeid)
    }
}

/// The crash message of a report: none for a doctest, and none is made up for
/// a syntax error.
pub open spec fn crash_message(r: TestReport, items: Seq<TestItem>) -> Option<Seq<char>> {
    if is_doctest_id(items, r.nodeid@) {
        None
    } else {
        match r.reprcrash_message {
            Some(m) => Some(m@),
            None => match r.longrepr {
                Some(text) => message_unless_syntax(text@),
                None => None,
            },
        }
    }
}

/// The one-line message of a traceback, except for a syntax error.
pub open spec fn message_unless_syntax(text: Seq<char>) -> Option<Seq<char>> {
    match message_of(text) {
        Some(m) => if "SyntaxError:"@.is_prefix_of(m) {
            None
        } else {
            Some(m)
        },
        None => None,
    }
}

/// `a - b`, but not below zero.
pub open spec fn monus(a: int, b: int) -> nat {
    (if a > b {
        a - b
    } else {
        0
    }) as nat
}

/// What follows the nodeid: the whole message for expected outcomes, on CI
/// and at `-vv`, else as much as fits.
pub open spec fn message_suffix(
    c: char,
    used: nat,
    message: Option<Seq<char>>,
    options: SummaryOptions,
) -> Seq<char> {
    match message {
        None => seq![],
        Some(m) => {
            let trimmable = c == 'f' || c == 'E' || c == 'p';
            let full = (options.on_ci || options.verbose >= 2) && !options.force_short;
            if !trimmable || full {
                " - "@ + m
            } else {
                match fitted(" - "@, m, monus(options.width as int, used as int)) {
                    Some(text) => text,
                    None => seq![],
                }
            }
        },
    }
}

/// The line for a report under a report character.
pub open spec fn report_line(
    c: char,
    word: Seq<char>,
    r: SummaryReport,
    items: Seq<TestItem>,
    options: SummaryOptions,
) -> Seq<char> {
    let w = if r.report.subtest_desc is Some {
        word_of(r, word)
    } else {
        word
    };
    let line = w + " "@ + r.shown_nodeid@;
    line + message_suffix(c, line.len(), crash_message(*r.report, items), options)
}

/// The lines for the first `n` reports under a report character.
pub open spec fn char_lines(
    c: char,
    reports: Seq<SummaryReport>,
    n: int,
    items: Seq<TestItem>,
    options: SummaryOptions,
) -> Seq<LineView>
    decreases n,
{
    if n <= 0 {
        seq![]
    } else {
        let before = char_lines(c, reports, n - 1, items, options);
        let r = reports[n - 1];
        if options.hide_subtests && r.report.subtest_desc is Some && r.report.outcome
            != Outcome::Failed {
            before
        } else {
            match listed_word(c, r.report.phase, r.report.outcome) {
                Some(word) => before.push(plain(report_line(c, word, r, items, options))),
                None => before,
            }
        }
    }
}

/// The lines for one report character.
pub open spec fn group_lines(
    c: char,
    reports: Seq<SummaryReport>,
    items: Seq<TestItem>,
    options: SummaryOptions,
) -> Seq<LineView> {
    if c == 's' {
        if options.no_fold_skipped {
            unfolded_lines(reports, reports.len() as int, options)
        } else {
            folded_lines(reports, options)
        }
    } else {
        char_lines(c, reports, reports.len() as int, items, options)
    }
}

/// The lines for the report characters, in their order.
pub open spec fn all_group_lines(
    chars: Seq<char>,
    reports: Seq<SummaryReport>,
    items: Seq<TestItem>,
    options: SummaryOptions,
) -> Seq<LineView>
    decreases chars.len(),
{
    if chars.len() == 0 {
        seq![]
    } else {
        all_group_lines(chars.drop_last(), reports, items, options) + group_lines(
            chars.last(),
            reports,
            items,
            options,
        )
    }
}

/// The section: a banner and the lines, or nothing without lines.
pub open spec fn summary_lines(
    chars: Seq<char>,
    reports: Seq<SummaryReport>,
    items: Seq<TestItem>,
    options: SummaryOptions,
) -> Seq<LineView> {
    let lines = all_group_lines(chars, reports, items, options);
    if lines.len() == 0 {
        seq![]
    } else {
        seq![plain(banner_of("short test summary info"@, '='))] + lines
    }
}

// ---------------------------------------------------------------------------
// Executable functions
// ---------------------------------------------------------------------------

/// Ellipsizes the first line of `msg` to fit `available` columns after the
/// prefix; None when even the ellipsis would not fit.
pub fn format_trimmed(prefix: &str, msg: &str, available: usize) -> (r: Option<String>)
    ensures
        match r {
            Some(s) => fitted(prefix@, msg@, available as nat) == Some(s@),
            None => fitted(prefix@, msg@, available as nat) is None,
        },
{
    let first = head(msg, "\n");
    let width: usize = chars_of(prefix).len();
    let cs = chars_of(first.as_str());
    if width > available || available - width < 3 {
        return None;
    }
    let mut r: String = prefix.to_owned();
    if cs.len() <= available - width {
        r.append(first.as_str());
        return Some(r);
    }
    let cut = string_of(&cs, 0, available - width - 3);
    assert(cut@ =~= first@.take(available - width - 3));
    r.append(cut.as_str());
    r.append("...");
    Some(r)
}

/// The text of an optional string, "" without one.
fn or_empty(s: &Option<String>) -> (r: String)
    ensures
        r@ == text_or_empty(*s),
{
    match s {
        Some(s) => s.clone(),
        None => String::new(),
    }
}

/// The summary word of a subtest report: the word of the status hook, which
/// respects installed plugins, else the built-in one.
pub fn subtest_summary_word(r: &SummaryReport, fallback: &str) -> (w: String)
    ensures
        w@ == word_of(*r, fallback@),
{
    if let Some(word) = &r.status_word {
        if !word.as_str().is_empty() {
            return word.clone();
        }
    }
    let desc = or_empty(&r.report.subtest_desc);
    let mut w: String = match r.report.outcome {
        Outcome::Failed => "SUBFAILED".to_owned(),
        Outcome::Passed => "SUBPASSED".to_owned(),
        Outcome::Skipped => "SUBSKIPPED".to_owned(),
        Outcome::XFailed => "SUBXFAILED".to_owned(),
        Outcome::XPassed => {
            return fallback.to_owned();
        },
    };
    w.append(desc.as_str());
    w
}

/// Whether the summary lists a skip.
fn is_listed_skip(r: &SummaryReport, options: &SummaryOptions) -> (b: bool)
    ensures
        b == listed_skip(*r, *options),
{
    r.report.outcome == Outcome::Skipped && !(options.hide_subtests
        && r.report.subtest_desc.is_some())
}

/// Appends a line for each skip.
fn emit_unfolded(out: &mut Vec<Line>, reports: &[SummaryReport], options: &SummaryOptions)
    ensures
        shown(final(out)@) == shown(old(out)@) + unfolded_lines(
            reports@,
            reports@.len() as int,
            *options,
        ),
{
    let ghost start = shown(out@);
    let mut i: usize = 0;
    assert(start + unfolded_lines(reports@, 0, *options) =~= start);
    while i < reports.len()
        invariant
            i <= reports@.len(),
            shown(out@) == start + unfolded_lines(reports@, i as int, *options),
        decreases reports@.len() - i,
    {
        let r = &reports[i];
        if is_listed_skip(r, options) {
            let mut line = subtest_summary_word(r, "SKIPPED");
            line.append(" ");
            line.append(r.shown_nodeid.as_str());
            let reason = or_empty(&r.report.longrepr);
            if !reason.as_str().is_empty() {
                line.append(" - ");
                let mut said: String = "Skipped: ".to_owned();
                if starts_with(reason.as_str(), "Skipped") {
                    said = reason;
                } else {
                    said.append(reason.as_str());
                }
                line.append(said.as_str());
            }
            emit(out, line, Style::Plain);
        }
        assert(shown(out@) =~= start + unfolded_lines(reports@, i + 1, *options));
        i += 1;
    }
}

/// Skips at one place for one reason.
struct SkipGroup {
    location: String,
    reason: String,
    count: usize,
}

spec fn group_views(v: Seq<SkipGroup>) -> Seq<SkipView> {
    Seq::new(
        v.len(),
        |i: int|
            SkipView {
                location: v[i].location@,
                reason: v[i].reason@,
                count: v[i].count as nat,
            },
    )
}

/// Counts one more skip.
fn add_skip(groups: &mut Vec<SkipGroup>, location: String, reason: String, Ghost(bound): Ghost<nat>)
    requires
        bound < usize::MAX,
        forall|i: int| 0 <= i < old(groups)@.len() ==> #[trigger] old(groups)@[i].count <= bound,
    ensures
        group_views(final(groups)@) == joined_group(
            group_views(old(groups)@),
            location@,
            reason@,
        ),
        forall|i: int|
            0 <= i < final(groups)@.len() ==> #[trigger] final(groups)@[i].count <= bound + 1,
{
    let ghost start = groups@;
    let ghost all = group_views(start);
    let mut i: usize = 0;
    assert(all.take(0) + joined_group(all.skip(0), location@, reason@) =~= joined_group(
        all,
        location@,
        reason@,
    )) by {
        assert(all.skip(0) =~= all);
    }
    while i < groups.len()
        invariant
            i <= groups@.len(),
            groups@ == start,
            start == old(groups)@,
            all == group_views(start),
            bound < usize::MAX,
            forall|k: int| 0 <= k < groups@.len() ==> #[trigger] groups@[k].count <= bound,
            all.take(i as int) + joined_group(all.skip(i as int), location@, reason@)
                == joined_group(all, location@, reason@),
        decreases groups@.len() - i,
    {
        let ghost rest = all.skip(i as int);
        assert(rest.skip(1) =~= all.skip(i + 1));
        assert(rest[0] == all[i as int]);
        if same(groups[i].location.as_str(), location.as_str()) && same(
            groups[i].reason.as_str(),
            reason.as_str(),
        ) {
            assert(groups@[i as int].count <= bound);
            let count: usize = groups[i].count + 1;
            groups.set(i, SkipGroup { location, reason, count });
            assert(group_views(groups@) =~= all.take(i as int) + joined_group(
                rest,
                location@,
                reason@,
            ));
            return;
        }
        assert(all.take(i as int) + joined_group(rest, location@, reason@) =~= all.take(i + 1)
            + joined_group(all.skip(i + 1), location@, reason@));
        i += 1;
    }
    assert(all.take(i as int) =~= all);
    groups.push(SkipGroup { location, reason, count: 1 });
    assert(group_views(groups@) =~= all + joined_group(all.skip(i as int), location@, reason@));
}

/// Appends a line for each group of skips. The word for all of them is that
/// of the first skip.
fn emit_folded(out: &mut Vec<Line>, reports: &[SummaryReport], options: &SummaryOptions)
    ensures
        shown(final(out)@) == shown(old(out)@) + folded_lines(reports@, *options),
{
    let mut label: Option<String> = None;
    let mut groups: Vec<SkipGroup> = Vec::new();
    let n: usize = reports.len();
    let mut i: usize = 0;
    assert(group_views(groups@) =~= seq![]);
    while i < n
        invariant
            i <= n == reports@.len(),
            group_views(groups@) == skip_groups(reports@, i as int, *options),
            forall|k: int| 0 <= k < groups@.len() ==> #[trigger] groups@[k].count <= i,
            match label {
                Some(s) => skip_label(reports@, i as int, *options) == Some(s@),
                None => skip_label(reports@, i as int, *options) is None,
            },
        decreases reports@.len() - i,
    {
        let r = &reports[i];
        if is_listed_skip(r, options) {
            if label.is_none() {
                label = Some(subtest_summary_word(r, "SKIPPED"));
            }
            let location: String = match &r.report.location {
                Some(location) => location.clone(),
                None => r.shown_nodeid.clone(),
            };
            let reason = or_empty(&r.report.longrepr);
            add_skip(&mut groups, location, reason, Ghost(i as nat));
        }
        i += 1;
    }
    let label: String = match label {
        Some(label) => label,
        None => "SKIPPED".to_owned(),
    };
    let ghost start = shown(out@);
    let ghost all = folded_lines(reports@, *options);
    let mut k: usize = 0;
    assert(start + all.take(0) =~= start);
    while k < groups.len()
        invariant
            k <= groups@.len(),
            group_views(groups@) == skip_groups(reports@, reports@.len() as int, *options),
            label@ == (match skip_label(reports@, reports@.len() as int, *options) {
                Some(label) => label,
                None => "SKIPPED"@,
            }),
            all == folded_lines(reports@, *options),
            shown(out@) == start + all.take(k as int),
        decreases groups@.len() - k,
    {
        let g = &groups[k];
        let mut line: String = label.clone();
        line.append(" [");
        line.append(decimal(g.count).as_str());
        line.append("] ");
        line.append(g.location.as_str());
        line.append(": ");
        line.append(g.reason.as_str());
        assert(group_views(groups@)[k as int] == SkipView {
            location: g.location@,
            reason: g.reason@,
            count: g.count as nat,
        });
        emit(out, line, Style::Plain);
        assert(shown(out@) =~= start + all.take(k + 1));
        k += 1;
    }
    assert(all.take(k as int) =~= all);
}

/// Whether the first item with this nodeid is a doctest.
fn find_doctest(items: &[TestItem], nodeid: &str) -> (r: bool)
    ensures
        r == is_doctest_id(items@, nodeid@),
{
    let mut i: usize = 0;
    assert(items@.skip(0) =~= items@);
    while i < items.len()
        invariant
            i <= items@.len(),
            is_doctest_id(items@, nodeid@) == is_doctest_id(items@.skip(i as int), nodeid@),
        decreases items@.len() - i,
    {
        assert(items@.skip(i as int).skip(1) =~= items@.skip(i + 1));
        if same(items[i].nodeid.as_str(), nodeid) {
            return items[i].is_doctest;
        }
        i += 1;
    }
    false
}

/// The one-line message of a traceback, except for a syntax error.
pub fn crash_line(text: &str) -> (r: Option<String>)
    ensures
        match r {
            Some(m) => message_unless_syntax(text@) == Some(m@),
            None => message_unless_syntax(text@) is None,
        },
{
    match short_message(text) {
        Some(m) => if starts_with(m.as_str(), "SyntaxError:") {
            None
        } else {
            Some(m)
        },
        None => None,
    }
}

/// The crash message of a report.
fn find_crash_message(r: &TestReport, items: &[TestItem]) -> (m: Option<String>)
    ensures
        match m {
            Some(m) => crash_message(*r, items@) == Some(m@),
            None => crash_message(*r, items@) is None,
        },
{
    if find_doctest(items, r.nodeid.as_str()) {
        return None;
    }
    match &r.reprcrash_message {
        Some(m) => Some(m.clone()),
        None => match &r.longrepr {
            Some(text) => crash_line(text.as_str()),
            None => None,
        },
    }
}

/// The word for a report under a report character, if it is listed there.
fn find_word(c: char, phase: Phase, outcome: Outcome) -> (r: Option<&'static str>)
    ensures
        match r {
            Some(w) => listed_word(c, phase, outcome) == Some(w@),
            None => listed_word(c, phase, outcome) is None,
        },
{
    if c == 'f' && phase == Phase::Call && outcome == Outcome::Failed {
        Some("FAILED")
    } else if c == 'E' && phase != Phase::Call && outcome == Outcome::Failed {
        Some("ERROR")
    } else if c == 'x' && outcome == Outcome::XFailed {
        Some("XFAIL")
    } else if c == 'X' && outcome == Outcome::XPassed {
        Some("XPASS")
    } else if c == 'p' && phase == Phase::Call && outcome == Outcome::Passed {
        Some("PASSED")
    } else {
        None
    }
}

/// The line for a report under a report character.
fn line_for(
    c: char,
    word: &str,
    r: &SummaryReport,
    items: &[TestItem],
    options: &SummaryOptions,
) -> (line: String)
    ensures
        line@ == report_line(c, word@, *r, items@, *options),
{
    let mut line: String = if r.report.subtest_desc.is_some() {
        subtest_summary_word(r, word)
    } else {
        word.to_owned()
    };
    line.append(" ");
    line.append(r.shown_nodeid.as_str());
    let ghost bare = line@;
    let used: usize = chars_of(line.as_str()).len();
    match find_crash_message(r.report, items) {
        Some(m) => {
            let trimmable = c == 'f' || c == 'E' || c == 'p';
            let full = (options.on_ci || options.verbose >= 2) && !options.force_short;
            if !trimmable || full {
                let mut suffix: String = " - ".to_owned();
                suffix.append(m.as_str());
                line.append(suffix.as_str());
            } else {
                let available: usize = if options.width > used {
                    options.width - used
                } else {
                    0
                };
                match format_trimmed(" - ", m.as_str(), available) {
                    Some(suffix) => {
                        line.append(suffix.as_str());
                    },
                    None => {
                        assert(bare + Seq::<char>::empty() =~= bare);
                    },
                }
            }
        },
        None => {
            assert(bare + Seq::<char>::empty() =~= bare);
        },
    }
    line
}

/// Appends the lines under a report character other than `s`.
fn emit_char(
    out: &mut Vec<Line>,
    c: char,
    reports: &[SummaryReport],
    items: &[TestItem],
    options: &SummaryOptions,
)
    ensures
        shown(final(out)@) == shown(old(out)@) + char_lines(
            c,
            reports@,
            reports@.len() as int,
            items@,
            *options,
        ),
{
    let ghost start = shown(out@);
    let mut i: usize = 0;
    assert(start + char_lines(c, reports@, 0, items@, *options) =~= start);
    while i < reports.len()
        invariant
            i <= reports@.len(),
            shown(out@) == start + char_lines(c, reports@, i as int, items@, *options),
        decreases reports@.len() - i,
    {
        let r = &reports[i];
        if !(options.hide_subtests && r.report.subtest_desc.is_some() && r.report.outcome
            != Outcome::Failed) {
            match find_word(c, r.report.phase, r.report.outcome) {
                Some(word) => {
                    emit(out, line_for(c, word, r, items, options), Style::Plain);
                },
                None => {},
            }
        }
        assert(shown(out@) =~= start + char_lines(c, reports@, i + 1, items@, *options));
        i += 1;
    }
}

/// The "short test summary info" section, controlled by the `-r` characters:
/// groups come in the order of the characters.
pub fn short_summary(
    report_options: &ReportOptions,
    reports: &[SummaryReport],
    items: &[TestItem],
    options: &SummaryOptions,
) -> (r: Vec<Line>)
    ensures
        shown(r@) == summary_lines(flags_of(*report_options), reports@, items@, *options),
{
    let chars = report_chars(report_options);
    let mut lines = no_lines();
    let mut i: usize = 0;
    while i < chars.len()
        invariant
            i <= chars@.len(),
            shown(lines@) == all_group_lines(
                chars@.take(i as int),
                reports@,
                items@,
                *options,
            ),
        decreases chars@.len() - i,
    {
        assert(chars@.take(i + 1).drop_last() =~= chars@.take(i as int));
        let c: char = chars[i];
        if c == 's' {
            if options.no_fold_skipped {
                emit_unfolded(&mut lines, reports, options);
            } else {
                emit_folded(&mut lines, reports, options);
            }
        } else {
            emit_char(&mut lines, c, reports, items, options);
        }
        i += 1;
    }
    assert(chars@.take(i as int) =~= chars@);
    if lines.len() == 0 {
        assert(shown(lines@) =~= seq![]);
        return lines;
    }
    let mut out = no_lines();
    emit(&mut out, center_banner("short test summary info"), Style::Plain);
    crate::terminal::line::emit_all(&mut out, lines);
    assert(shown(out@) =~= summary_lines(
        flags_of(*report_options),
        reports@,
        items@,
        *options,
    ));
    out
}

// ---------------------------------------------------------------------------
// Laws
// ---------------------------------------------------------------------------

/// A trimmed message fits the columns that were available.
pub proof fn trimmed_message_fits(prefix: Seq<char>, msg: Seq<char>, available: nat)
    ensures
        fitted(prefix, msg, available) matches Some(s) ==> s.len() <= available
            && prefix.is_prefix_of(s),
        fitted(prefix, msg, available) is None <==> prefix.len() + 3 > available,
{
    reveal_strlit("...");
    if let Some(s) = fitted(prefix, msg, available) {
        assert(prefix =~= s.subrange(0, prefix.len() as int));
    }
}

/// A folded summary counts every skip just once: the counts of the groups add
/// up to the number of the skips listed.
pub proof fn folding_counts_every_skip(
    reports: Seq<SummaryReport>,
    n: int,
    options: SummaryOptions,
)
    requires
        0 <= n <= reports.len(),
    ensures
        count_sum(skip_groups(reports, n, options)) == unfolded_lines(
            reports,
            n,
            options,
        ).len(),
    decreases n,
{
    if n > 0 {
        folding_counts_every_skip(reports, n - 1, options);
        let r = reports[n - 1];
        if listed_skip(r, options) {
            joined_group_counts(
                skip_groups(reports, n - 1, options),
                skip_location(r),
                text_or_empty(r.report.longrepr),
            );
        }
    }
}

/// The sum of the counts of the groups.
pub open spec fn count_sum(groups: Seq<SkipView>) -> nat
    decreases groups.len(),
{
    if groups.len() == 0 {
        0
    } else {
        groups[0].count + count_sum(groups.skip(1))
    }
}

proof fn joined_group_counts(groups: Seq<SkipView>, location: Seq<char>, reason: Seq<char>)
    ensures
        count_sum(joined_group(groups, location, reason)) == count_sum(groups) + 1,
    decreases groups.len(),
{
    let after = joined_group(groups, location, reason);
    if groups.len() == 0 {
        assert(after.skip(1) =~= seq![]);
        assert(count_sum(after.skip(1)) == 0);
    } else if is_group(groups[0], location, reason) {
        assert(after.skip(1) =~= groups.skip(1));
    } else {
        joined_group_counts(groups.skip(1), location, reason);
        assert(after.skip(1) =~= joined_group(groups.skip(1), location, reason));
    }
}

/// A line starts with a word and a nodeid.
pub open spec fn says(line: LineView, word: Seq<char>, nodeid: Seq<char>) -> bool {
    line.style == Style::Plain && (word + " "@ + nodeid).is_prefix_of(line.text)
}

/// A subtest that did not fail, where those are not shown.
pub open spec fn left_out_subtest(r: SummaryReport, options: SummaryOptions) -> bool {
    options.hide_subtests && r.report.subtest_desc is Some && r.report.outcome != Outcome::Failed
}

/// The words tell the outcomes apart: each report character lists just the
/// reports of one outcome, failures of the test itself under `f` and those of
/// its setup and teardown under `E`, and no two of them use the same word.
pub proof fn words_tell_outcomes_apart(c: char, phase: Phase, outcome: Outcome)
    ensures
        listed_word(c, phase, outcome) == Some("FAILED"@) <==> c == 'f' && phase == Phase::Call
            && outcome == Outcome::Failed,
        listed_word(c, phase, outcome) == Some("ERROR"@) <==> c == 'E' && phase != Phase::Call
            && outcome == Outcome::Failed,
        listed_word(c, phase, outcome) == Some("XFAIL"@) <==> c == 'x' && outcome
            == Outcome::XFailed,
        listed_word(c, phase, outcome) == Some("XPASS"@) <==> c == 'X' && outcome
            == Outcome::XPassed,
        listed_word(c, phase, outcome) == Some("PASSED"@) <==> c == 'p' && phase == Phase::Call
            && outcome == Outcome::Passed,
        listed_word(c, phase, outcome) matches Some(w) ==> w == "FAILED"@ || w == "ERROR"@ || w
            == "XFAIL"@ || w == "XPASS"@ || w == "PASSED"@,
{
    reveal_strlit("FAILED");
    reveal_strlit("ERROR");
    reveal_strlit("XFAIL");
    reveal_strlit("XPASS");
    reveal_strlit("PASSED");
    assert("FAILED"@[0] == 'F' && "ERROR"@[0] == 'E' && "PASSED"@[0] == 'P');
    assert("XFAIL"@[1] == 'F' && "XPASS"@[1] == 'P' && "XFAIL"@[0] == 'X' && "XPASS"@[0] == 'X');
}

proof fn report_line_starts(
    c: char,
    word: Seq<char>,
    r: SummaryReport,
    items: Seq<TestItem>,
    options: SummaryOptions,
)
    ensures
        r.report.subtest_desc is None ==> says(
            plain(report_line(c, word, r, items, options)),
            word,
            r.shown_nodeid@,
        ),
        r.report.subtest_desc is Some ==> says(
            plain(report_line(c, word, r, items, options)),
            word_of(r, word),
            r.shown_nodeid@,
        ),
{
    let w = if r.report.subtest_desc is Some {
        word_of(r, word)
    } else {
        word
    };
    let head = w + " "@ + r.shown_nodeid@;
    let line = report_line(c, word, r, items, options);
    assert(head =~= line.subrange(0, head.len() as int));
}

/// Under each report character the summary lists every report of its outcome,
/// by a line with the word for that outcome and the nodeid.
pub proof fn every_report_has_its_line(
    c: char,
    reports: Seq<SummaryReport>,
    n: int,
    items: Seq<TestItem>,
    options: SummaryOptions,
    i: int,
)
    requires
        0 <= i < n <= reports.len(),
        reports[i].report.subtest_desc is None,
    ensures
        ({
            let r = reports[i];
            let lines = char_lines(c, reports, n, items, options);
            let call = r.report.phase == Phase::Call;
            let outcome = r.report.outcome;
            &&& c == 'f' && call && outcome == Outcome::Failed ==> exists|k: int|
                0 <= k < lines.len() && says(#[trigger] lines[k], "FAILED"@, r.shown_nodeid@)
            &&& c == 'E' && !call && outcome == Outcome::Failed ==> exists|k: int|
                0 <= k < lines.len() && says(#[trigger] lines[k], "ERROR"@, r.shown_nodeid@)
            &&& c == 'x' && outcome == Outcome::XFailed ==> exists|k: int|
                0 <= k < lines.len() && says(#[trigger] lines[k], "XFAIL"@, r.shown_nodeid@)
            &&& c == 'X' && outcome == Outcome::XPassed ==> exists|k: int|
                0 <= k < lines.len() && says(#[trigger] lines[k], "XPASS"@, r.shown_nodeid@)
            &&& c == 'p' && call && outcome == Outcome::Passed ==> exists|k: int|
                0 <= k < lines.len() && says(#[trigger] lines[k], "PASSED"@, r.shown_nodeid@)
        }),
    decreases n,
{
    let r = reports[i];
    let lines = char_lines(c, reports, n, items, options);
    words_tell_outcomes_apart(c, r.report.phase, r.report.outcome);
    if listed_word(c, r.report.phase, r.report.outcome) is Some {
        let word = listed_word(c, r.report.phase, r.report.outcome)->0;
        line_is_there(c, reports, n, items, options, i);
        let k = choose|k: int|
            0 <= k < lines.len() && #[trigger] lines[k] == plain(
                report_line(c, word, r, items, options),
            );
        report_line_starts(c, word, r, items, options);
        assert(says(lines[k], word, r.shown_nodeid@));
    }
}

proof fn line_is_there(
    c: char,
    reports: Seq<SummaryReport>,
    n: int,
    items: Seq<TestItem>,
    options: SummaryOptions,
    i: int,
)
    requires
        0 <= i < n <= reports.len(),
        !left_out_subtest(reports[i], options),
        listed_word(c, reports[i].report.phase, reports[i].report.outcome) is Some,
    ensures
        ({
            let r = reports[i];
            let word = listed_word(c, r.report.phase, r.report.outcome)->0;
            let lines = char_lines(c, reports, n, items, options);
            exists|k: int|
                0 <= k < lines.len() && #[trigger] lines[k] == plain(
                    report_line(c, word, r, items, options),
                )
        }),
    decreases n,
{
    let r = reports[i];
    let word = listed_word(c, r.report.phase, r.report.outcome)->0;
    let lines = char_lines(c, reports, n, items, options);
    if i == n - 1 {
        assert(lines[lines.len() - 1] == plain(report_line(c, word, r, items, options)));
    } else {
        line_is_there(c, reports, n - 1, items, options, i);
        let before = char_lines(c, reports, n - 1, items, options);
        let k = choose|k: int|
            0 <= k < before.len() && #[trigger] before[k] == plain(
                report_line(c, word, r, items, options),
            );
        assert(lines[k] == before[k]);
    }
}

/// Under a report character the summary lists nothing else: each line belongs
/// to a report of the outcome that the character stands for, and the lines
/// come in the order of the reports.
pub proof fn every_line_has_its_report(
    c: char,
    reports: Seq<SummaryReport>,
    n: int,
    items: Seq<TestItem>,
    options: SummaryOptions,
) -> (of: Seq<int>)
    requires
        0 <= n <= reports.len(),
    ensures
        of.len() == char_lines(c, reports, n, items, options).len(),
        forall|k: int| 0 <= k < of.len() ==> 0 <= #[trigger] of[k] < n,
        forall|j: int, k: int| 0 <= j < k < of.len() ==> #[trigger] of[j] < #[trigger] of[k],
        forall|k: int|
            0 <= k < of.len() ==> {
                let r = reports[#[trigger] of[k]];
                let call = r.report.phase == Phase::Call;
                let outcome = r.report.outcome;
                &&& !left_out_subtest(r, options)
                &&& c == 'f' && call && outcome == Outcome::Failed || c == 'E' && !call && outcome
                    == Outcome::Failed || c == 'x' && outcome == Outcome::XFailed || c == 'X'
                    && outcome == Outcome::XPassed || c == 'p' && call && outcome
                    == Outcome::Passed
                &&& says(
                    char_lines(c, reports, n, items, options)[k],
                    if r.report.subtest_desc is Some {
                        word_of(r, listed_word(c, r.report.phase, outcome)->0)
                    } else {
                        listed_word(c, r.report.phase, outcome)->0
                    },
                    r.shown_nodeid@,
                )
            },
    decreases n,
{
    if n <= 0 {
        Seq::empty()
    } else {
        let init = every_line_has_its_report(c, reports, n - 1, items, options);
        let before = char_lines(c, reports, n - 1, items, options);
        let lines = char_lines(c, reports, n, items, options);
        let r = reports[n - 1];
        words_tell_outcomes_apart(c, r.report.phase, r.report.outcome);
        if !left_out_subtest(r, options) && listed_word(c, r.report.phase, r.report.outcome) is Some {
            let word = listed_word(c, r.report.phase, r.report.outcome)->0;
            report_line_starts(c, word, r, items, options);
            let all = init.push(n - 1);
            assert forall|k: int| 0 <= k < all.len() implies 0 <= #[trigger] all[k] < n by {
                if k < init.len() {
                    assert(all[k] == init[k]);
                }
            }
            assert forall|j: int, k: int| 0 <= j < k < all.len() implies #[trigger] all[j]
                < #[trigger] all[k] by {
                assert(all[j] == init[j]);
                if k < init.len() {
                    assert(all[k] == init[k]);
                }
            }
            assert forall|k: int| 0 <= k < init.len() implies all[k] == #[trigger] init[k]
                && lines[k] == before[k] by {}
            all
        } else {
            init
        }
    }
}

/// The word of a subtest: the one of the status hook where it has one, else
/// one that tells the outcome and describes the subtest.
pub proof fn subtest_words(r: SummaryReport, fallback: Seq<char>)
    ensures
        r.status_word is Some && r.status_word->0@.len() > 0 ==> word_of(r, fallback)
            == r.status_word->0@,
        r.report.subtest_desc is Some && (r.status_word is None || r.status_word->0@.len() == 0)
            ==> {
            let desc = r.report.subtest_desc->0@;
            match r.report.outcome {
                Outcome::Failed => word_of(r, fallback) == "SUBFAILED"@ + desc,
                Outcome::Passed => word_of(r, fallback) == "SUBPASSED"@ + desc,
                Outcome::Skipped => word_of(r, fallback) == "SUBSKIPPED"@ + desc,
                Outcome::XFailed => word_of(r, fallback) == "SUBXFAILED"@ + desc,
                Outcome::XPassed => word_of(r, fallback) == fallback,
            }
        },
{
}

/// What follows the nodeid on a line: the message of the crash in full on CI,
/// at `-vv` and for expected outcomes, unless it is forced to be short; else
/// as much of its first line as fits the terminal; a doctest has none.
pub proof fn messages_follow_the_nodeid(
    c: char,
    word: Seq<char>,
    r: SummaryReport,
    items: Seq<TestItem>,
    at: int,
    options: SummaryOptions,
)
    requires
        item_stands_at(items, r.report.nodeid@, at),
        r.report.subtest_desc is None,
        r.report.reprcrash_message is Some,
    ensures
        ({
            let line = report_line(c, word, r, items, options);
            let head = word + " "@ + r.shown_nodeid@;
            let message = r.report.reprcrash_message->0@;
            let short = c == 'f' || c == 'E' || c == 'p';
            let doctest = at < items.len() && items[at].is_doctest;
            &&& doctest ==> line == head
            &&& !doctest && !short ==> line == head + " - "@ + message
            &&& !doctest && (options.on_ci || options.verbose >= 2) && !options.force_short ==> line
                == head + " - "@ + message
            &&& !doctest && short && (options.force_short || !options.on_ci && options.verbose < 2)
                ==> {
                &&& line == head || line.len() <= options.width
                &&& head.len() + 6 <= options.width ==> (head + " - "@).is_prefix_of(line)
                &&& head.len() + 3 + message.len() <= options.width && head.len() + 6
                    <= options.width && !message.contains('\n') ==> line == head + " - "@ + message
            }
        }),
{
    reveal_strlit(" - ");
    reveal_strlit("...");
    reveal_strlit("\n");
    let line = report_line(c, word, r, items, options);
    let head = word + " "@ + r.shown_nodeid@;
    let message = r.report.reprcrash_message->0@;
    doctest_id_facts(items, r.report.nodeid@, at);
    if is_doctest_id(items, r.report.nodeid@) {
        assert(line =~= head);
    } else {
        let available = monus(options.width as int, head.len() as int);
        trimmed_message_fits(" - "@, message, available);
        assert(head + (" - "@ + message) =~= head + " - "@ + message);
        if !message.contains('\n') {
            first_at_char(message, '\n');
            assert("\n"@ =~= seq!['\n']);
        }
        if let Some(s) = fitted(" - "@, message, available) {
            assert((head + " - "@) =~= (head + s).subrange(0, (head.len() + 3) as int)) by {
                assert(" - "@ =~= s.subrange(0, 3));
            }
        } else {
            assert(head + Seq::<char>::empty() =~= head);
        }
    }
}

/// The test item of a nodeid: the first one with it, at `at`; there is none
/// where `at` is the number of items.
pub open spec fn item_stands_at(items: Seq<TestItem>, nodeid: Seq<char>, at: int) -> bool {
    &&& 0 <= at <= items.len()
    &&& forall|j: int| 0 <= j < at ==> (#[trigger] items[j]).nodeid@ != nodeid
    &&& at < items.len() ==> items[at].nodeid@ == nodeid
}

proof fn doctest_id_facts(items: Seq<TestItem>, nodeid: Seq<char>, at: int)
    requires
        item_stands_at(items, nodeid, at),
    ensures
        is_doctest_id(items, nodeid) == (at < items.len() && items[at].is_doctest),
    decreases items.len(),
{
    if at > 0 {
        let rest = items.skip(1);
        assert(items[0].nodeid@ != nodeid);
        assert forall|j: int| 0 <= j < at - 1 implies (#[trigger] rest[j]).nodeid@ != nodeid by {
            assert(rest[j] == items[j + 1]);
        }
        doctest_id_facts(rest, nodeid, at - 1);
    }
}

/// The section has the lines of all its report characters, those of an earlier
/// character first, below a banner; without a line there is no section.
pub proof fn summary_has_all_groups(
    chars: Seq<char>,
    reports: Seq<SummaryReport>,
    items: Seq<TestItem>,
    options: SummaryOptions,
    k: int,
    i: int,
) -> (at: int)
    requires
        0 <= k < chars.len(),
        0 <= i < group_lines(chars[k], reports, items, options).len(),
    ensures
        ({
            let lines = summary_lines(chars, reports, items, options);
            &&& 0 < at < lines.len()
            &&& lines[at] == group_lines(chars[k], reports, items, options)[i]
            &&& lines[0] == plain(banner_of("short test summary info"@, '='))
            &&& at == 1 + all_group_lines(chars.take(k), reports, items, options).len() + i
        }),
{
    let all = all_group_lines(chars, reports, items, options);
    let at = group_in_its_place(chars, reports, items, options, k, i);
    let lines = summary_lines(chars, reports, items, options);
    assert(lines[at + 1] == all[at]);
    at + 1
}

proof fn group_in_its_place(
    chars: Seq<char>,
    reports: Seq<SummaryReport>,
    items: Seq<TestItem>,
    options: SummaryOptions,
    k: int,
    i: int,
) -> (at: int)
    requires
        0 <= k < chars.len(),
        0 <= i < group_lines(chars[k], reports, items, options).len(),
    ensures
        0 <= at < all_group_lines(chars, reports, items, options).len(),
        at == all_group_lines(chars.take(k), reports, items, options).len() + i,
        all_group_lines(chars, reports, items, options)[at] == group_lines(
            chars[k],
            reports,
            items,
            options,
        )[i],
    decreases chars.len(),
{
    let before = all_group_lines(chars.drop_last(), reports, items, options);
    let all = all_group_lines(chars, reports, items, options);
    if k == chars.len() - 1 {
        assert(chars.take(k) =~= chars.drop_last());
        before.len() + i
    } else {
        let at = group_in_its_place(chars.drop_last(), reports, items, options, k, i);
        assert(chars.drop_last().take(k) =~= chars.take(k));
        assert(all[at] == before[at]);
        at
    }
}

/// Every skip that is not left out is in the summary: unfolded by a line with
/// its nodeid, and after it the reason, which says that it is a skip.
pub proof fn every_skip_is_listed(
    reports: Seq<SummaryReport>,
    n: int,
    options: SummaryOptions,
    i: int,
)
    requires
        0 <= i < n <= reports.len(),
        reports[i].report.outcome == Outcome::Skipped,
        reports[i].report.subtest_desc is None || !options.hide_subtests,
    ensures
        ({
            let r = reports[i];
            let lines = unfolded_lines(reports, n, options);
            let head = word_of(r, "SKIPPED"@) + " "@ + r.shown_nodeid@;
            let reason = text_or_empty(r.report.longrepr);
            exists|k: int|
                0 <= k < lines.len() && (#[trigger] lines[k]).text == (if reason.len() == 0 {
                    head
                } else if "Skipped"@.is_prefix_of(reason) {
                    head + " - "@ + reason
                } else {
                    head + " - "@ + ("Skipped: "@ + reason)
                })
        }),
        exists|g: int|
            0 <= g < skip_groups(reports, n, options).len() && {
                let group = #[trigger] skip_groups(reports, n, options)[g];
                &&& group.reason == text_or_empty(reports[i].report.longrepr)
                &&& group.location == (match reports[i].report.location {
                    Some(place) => place@,
                    None => reports[i].shown_nodeid@,
                })
                &&& group.count >= 1
            },
    decreases n,
{
    let r = reports[i];
    let lines = unfolded_lines(reports, n, options);
    let groups = skip_groups(reports, n, options);
    let reason = text_or_empty(r.report.longrepr);
    if i == n - 1 {
        assert(lines[lines.len() - 1] == plain(unfolded_line(r)));
        joined_group_facts(
            skip_groups(reports, n - 1, options),
            skip_location(r),
            reason,
        );
    } else {
        every_skip_is_listed(reports, n - 1, options, i);
        let before = unfolded_lines(reports, n - 1, options);
        let head = word_of(r, "SKIPPED"@) + " "@ + r.shown_nodeid@;
        let text = if reason.len() == 0 {
            head
        } else if "Skipped"@.is_prefix_of(reason) {
            head + " - "@ + reason
        } else {
            head + " - "@ + ("Skipped: "@ + reason)
        };
        let k = choose|k: int| 0 <= k < before.len() && (#[trigger] before[k]).text == text;
        assert(lines[k] == before[k]);
        let groups0 = skip_groups(reports, n - 1, options);
        let g = choose|g: int|
            0 <= g < groups0.len() && {
                let group = #[trigger] groups0[g];
                &&& group.reason == reason
                &&& group.location == skip_location(r)
                &&& group.count >= 1
            };
        let last = reports[n - 1];
        if listed_skip(last, options) {
            joined_group_keeps(
                groups0,
                skip_location(last),
                text_or_empty(last.report.longrepr),
                g,
            );
        } else {
            assert(groups[g] == groups0[g]);
        }
    }
}

proof fn joined_group_facts(
    groups: Seq<SkipView>,
    location: Seq<char>,
    reason: Seq<char>,
)
    ensures
        exists|g: int|
            0 <= g < joined_group(groups, location, reason).len() && {
                let group = #[trigger] joined_group(groups, location, reason)[g];
                group.location == location && group.reason == reason && group.count >= 1
            },
    decreases groups.len(),
{
    let all = joined_group(groups, location, reason);
    if groups.len() == 0 || is_group(groups[0], location, reason) {
        assert(all[0].location == location && all[0].reason == reason && all[0].count >= 1);
    } else {
        joined_group_facts(groups.skip(1), location, reason);
        let rest = joined_group(groups.skip(1), location, reason);
        let g = choose|g: int|
            0 <= g < rest.len() && {
                let group = #[trigger] rest[g];
                group.location == location && group.reason == reason && group.count >= 1
            };
        assert(all[g + 1] == rest[g]);
    }
}

proof fn joined_group_keeps(groups: Seq<SkipView>, location: Seq<char>, reason: Seq<char>, g: int)
    requires
        0 <= g < groups.len(),
    ensures
        g < joined_group(groups, location, reason).len(),
        joined_group(groups, location, reason)[g].location == groups[g].location,
        joined_group(groups, location, reason)[g].reason == groups[g].reason,
        joined_group(groups, location, reason)[g].count >= groups[g].count,
    decreases groups.len(),
{
    let all = joined_group(groups, location, reason);
    if is_group(groups[0], location, reason) {
        if g > 0 {
            assert(all[g] == groups.skip(1)[g - 1]);
        }
    } else if g > 0 {
        joined_group_keeps(groups.skip(1), location, reason, g - 1);
        assert(all[g] == joined_group(groups.skip(1), location, reason)[g - 1]);
    }
}

/// What the summary is for: where a report character is asked for, each report
/// of its outcome is named in the section, by the word for that outcome and the
/// nodeid.
pub proof fn summary_names_every_outcome(
    chars: Seq<char>,
    reports: Seq<SummaryReport>,
    items: Seq<TestItem>,
    options: SummaryOptions,
    i: int,
    word: Seq<char>,
)
    requires
        0 <= i < reports.len(),
        reports[i].report.subtest_desc is None,
        ({
            let call = reports[i].report.phase == Phase::Call;
            let outcome = reports[i].report.outcome;
            ||| chars.contains('f') && call && outcome == Outcome::Failed && word == "FAILED"@
            ||| chars.contains('E') && !call && outcome == Outcome::Failed && word == "ERROR"@
            ||| chars.contains('x') && outcome == Outcome::XFailed && word == "XFAIL"@
            ||| chars.contains('X') && outcome == Outcome::XPassed && word == "XPASS"@
            ||| chars.contains('p') && call && outcome == Outcome::Passed && word == "PASSED"@
        }),
    ensures
        exists|k: int|
            0 < k < summary_lines(chars, reports, items, options).len() && says(
                #[trigger] summary_lines(chars, reports, items, options)[k],
                word,
                reports[i].shown_nodeid@,
            ),
{
    let call = reports[i].report.phase == Phase::Call;
    let outcome = reports[i].report.outcome;
    let c = if outcome == Outcome::Passed {
        'p'
    } else if outcome == Outcome::XPassed {
        'X'
    } else if outcome == Outcome::XFailed {
        'x'
    } else if call {
        'f'
    } else {
        'E'
    };
    let k = choose|k: int| 0 <= k < chars.len() && chars[k] == c;
    every_report_has_its_line(c, reports, reports.len() as int, items, options, i);
    let lines = char_lines(c, reports, reports.len() as int, items, options);
    let j = choose|j: int|
        0 <= j < lines.len() && says(#[trigger] lines[j], word, reports[i].shown_nodeid@);
    let at = summary_has_all_groups(chars, reports, items, options, k, j);
    assert(says(
        summary_lines(chars, reports, items, options)[at],
        word,
        reports[i].shown_nodeid@,
    ));
}

/// A section that names nothing is not there: without a report of an outcome
/// that is asked for, the summary has no line.
pub proof fn nothing_to_say_is_silent(
    chars: Seq<char>,
    reports: Seq<SummaryReport>,
    items: Seq<TestItem>,
    options: SummaryOptions,
)
    requires
        forall|i: int|
            0 <= i < reports.len() ==> {
                let r = #[trigger] reports[i];
                let call = r.report.phase == Phase::Call;
                match r.report.outcome {
                    Outcome::Failed => if call {
                        !chars.contains('f')
                    } else {
                        !chars.contains('E')
                    },
                    Outcome::Passed => !call || !chars.contains('p'),
                    Outcome::Skipped => !chars.contains('s'),
                    Outcome::XFailed => !chars.contains('x'),
                    Outcome::XPassed => !chars.contains('X'),
                }
            },
    ensures
        summary_lines(chars, reports, items, options) == Seq::<LineView>::empty(),
{
    silent_groups(chars, chars, reports, items, options);
}

proof fn silent_groups(
    chars: Seq<char>,
    asked: Seq<char>,
    reports: Seq<SummaryReport>,
    items: Seq<TestItem>,
    options: SummaryOptions,
)
    requires
        chars.is_prefix_of(asked),
        forall|i: int|
            0 <= i < reports.len() ==> {
                let r = #[trigger] reports[i];
                let call = r.report.phase == Phase::Call;
                match r.report.outcome {
                    Outcome::Failed => if call {
                        !asked.contains('f')
                    } else {
                        !asked.contains('E')
                    },
                    Outcome::Passed => !call || !asked.contains('p'),
                    Outcome::Skipped => !asked.contains('s'),
                    Outcome::XFailed => !asked.contains('x'),
                    Outcome::XPassed => !asked.contains('X'),
                }
            },
    ensures
        all_group_lines(chars, reports, items, options).len() == 0,
    decreases chars.len(),
{
    if chars.len() > 0 {
        let c = chars.last();
        assert(asked[chars.len() - 1] == c);
        assert(chars.drop_last().is_prefix_of(asked)) by {
            assert(chars.drop_last() =~= asked.subrange(0, chars.len() - 1));
        }
        silent_groups(chars.drop_last(), asked, reports, items, options);
        silent_group(c, asked, reports, reports.len() as int, items, options);
    }
}

proof fn silent_group(
    c: char,
    asked: Seq<char>,
    reports: Seq<SummaryReport>,
    n: int,
    items: Seq<TestItem>,
    options: SummaryOptions,
)
    requires
        asked.contains(c),
        0 <= n <= reports.len(),
        forall|i: int|
            0 <= i < reports.len() ==> {
                let r = #[trigger] reports[i];
                let call = r.report.phase == Phase::Call;
                match r.report.outcome {
                    Outcome::Failed => if call {
                        !asked.contains('f')
                    } else {
                        !asked.contains('E')
                    },
                    Outcome::Passed => !call || !asked.contains('p'),
                    Outcome::Skipped => !asked.contains('s'),
                    Outcome::XFailed => !asked.contains('x'),
                    Outcome::XPassed => !asked.contains('X'),
                }
            },
    ensures
        c != 's' ==> char_lines(c, reports, n, items, options).len() == 0,
        c == 's' ==> unfolded_lines(reports, n, options).len() == 0 && skip_groups(
            reports,
            n,
            options,
        ).len() == 0,
    decreases n,
{
    if n > 0 {
        silent_group(c, asked, reports, n - 1, items, options);
        let r = reports[n - 1];
        words_tell_outcomes_apart(c, r.report.phase, r.report.outcome);
    }
}

/// Skips that are folded: a group for each place and reason, its line with the
/// count, the place and the reason; all lines share the word of the first skip.
pub proof fn folded_skips_are_grouped(
    reports: Seq<SummaryReport>,
    options: SummaryOptions,
    g: int,
)
    requires
        0 <= g < folded_lines(reports, options).len(),
    ensures
        ({
            let n = reports.len() as int;
            let groups = skip_groups(reports, n, options);
            let group = groups[g];
            &&& groups.len() == folded_lines(reports, options).len()
            &&& exists|i: int|
                0 <= i < n && (#[trigger] reports[i]).report.outcome == Outcome::Skipped
                    && text_or_empty(reports[i].report.longrepr) == group.reason
            &&& exists|i: int|
                0 <= i < n && (#[trigger] reports[i]).report.outcome == Outcome::Skipped
                    && folded_lines(reports, options)[g].text == word_of(reports[i], "SKIPPED"@)
                    + " ["@ + decimal_of(group.count) + "] "@ + group.location + ": "@
                    + group.reason
            &&& forall|h: int|
                0 <= h < groups.len() && h != g ==> #[trigger] groups[h].location != group.location
                    || groups[h].reason != group.reason
        }),
{
    let n = reports.len() as int;
    groups_have_reports(reports, n, options, g);
    let i = label_has_report(reports, n, options);
    assert(folded_lines(reports, options)[g].text == word_of(reports[i], "SKIPPED"@) + " ["@
        + decimal_of(skip_groups(reports, n, options)[g].count) + "] "@ + skip_groups(
        reports,
        n,
        options,
    )[g].location + ": "@ + skip_groups(reports, n, options)[g].reason);
}

proof fn label_has_report(reports: Seq<SummaryReport>, n: int, options: SummaryOptions) -> (i: int)
    requires
        0 <= n <= reports.len(),
        skip_groups(reports, n, options).len() > 0,
    ensures
        0 <= i < n,
        reports[i].report.outcome == Outcome::Skipped,
        skip_label(reports, n, options) == Some(word_of(reports[i], "SKIPPED"@)),
    decreases n,
{
    if skip_groups(reports, n - 1, options).len() > 0 {
        label_has_report(reports, n - 1, options)
    } else {
        no_groups_no_label(reports, n - 1, options);
        n - 1
    }
}

proof fn no_groups_no_label(reports: Seq<SummaryReport>, n: int, options: SummaryOptions)
    requires
        n <= reports.len(),
        skip_groups(reports, n, options).len() == 0,
    ensures
        skip_label(reports, n, options) is None,
    decreases n,
{
    if n > 0 {
        let before = skip_groups(reports, n - 1, options);
        let r = reports[n - 1];
        if listed_skip(r, options) {
            joined_group_facts(before, skip_location(r), text_or_empty(r.report.longrepr));
        }
        no_groups_no_label(reports, n - 1, options);
    }
}

/// No two groups are the same.
spec fn apart(groups: Seq<SkipView>) -> bool {
    forall|g: int, h: int|
        0 <= g < h < groups.len() ==> #[trigger] groups[g].location != #[trigger] groups[h].location
            || groups[g].reason != groups[h].reason
}

proof fn groups_have_reports(
    reports: Seq<SummaryReport>,
    n: int,
    options: SummaryOptions,
    g: int,
)
    requires
        0 <= n <= reports.len(),
        0 <= g < skip_groups(reports, n, options).len(),
    ensures
        apart(skip_groups(reports, n, options)),
        exists|i: int|
            0 <= i < n && (#[trigger] reports[i]).report.outcome == Outcome::Skipped
                && text_or_empty(reports[i].report.longrepr) == skip_groups(
                reports,
                n,
                options,
            )[g].reason,
    decreases n,
{
    if n > 0 {
        let before = skip_groups(reports, n - 1, options);
        let groups = skip_groups(reports, n, options);
        let r = reports[n - 1];
        if before.len() > 0 {
            groups_have_reports(reports, n - 1, options, 0);
        }
        if listed_skip(r, options) {
            let reason = text_or_empty(r.report.longrepr);
            joined_group_apart(before, skip_location(r), reason, g);
            if groups[g].reason != reason {
                groups_have_reports(reports, n - 1, options, g);
            } else {
                assert(reports[n - 1].report.outcome == Outcome::Skipped);
            }
        } else {
            groups_have_reports(reports, n - 1, options, g);
        }
    }
}

proof fn joined_group_apart(
    groups: Seq<SkipView>,
    location: Seq<char>,
    reason: Seq<char>,
    g: int,
)
    requires
        apart(groups),
        0 <= g < joined_group(groups, location, reason).len(),
    ensures
        apart(joined_group(groups, location, reason)),
        joined_group(groups, location, reason)[g].reason == reason || g < groups.len()
            && joined_group(groups, location, reason)[g] == groups[g],
        forall|h: int|
            0 <= h < groups.len() ==> is_group(
                #[trigger] joined_group(groups, location, reason)[h],
                groups[h].location,
                groups[h].reason,
            ),
        joined_group(groups, location, reason).len() > groups.len() ==> joined_group(
            groups,
            location,
            reason,
        ).last().location == location && joined_group(groups, location, reason).last().reason
            == reason && forall|h: int|
            0 <= h < groups.len() ==> #[trigger] groups[h].location != location || groups[h].reason
                != reason,
        groups.len() <= joined_group(groups, location, reason).len() <= groups.len() + 1,
    decreases groups.len(),
{
    let all = joined_group(groups, location, reason);
    if groups.len() == 0 {
    } else if is_group(groups[0], location, reason) {
        assert forall|h: int| 0 <= h < groups.len() implies is_group(
            #[trigger] all[h],
            groups[h].location,
            groups[h].reason,
        ) by {
            if h > 0 {
                assert(all[h] == groups.skip(1)[h - 1]);
            }
        }
        if g > 0 {
            assert(all[g] == groups.skip(1)[g - 1]);
        }
        assert(apart(all));
    } else {
        let rest = groups.skip(1);
        let joined = joined_group(rest, location, reason);
        assert(apart(rest)) by {
            assert forall|x: int, y: int| 0 <= x < y < rest.len() implies #[trigger] rest[x].location
                != #[trigger] rest[y].location || rest[x].reason != rest[y].reason by {
                assert(rest[x] == groups[x + 1] && rest[y] == groups[y + 1]);
            }
        }
        joined_group_apart(rest, location, reason, if g > 0 {
            g - 1
        } else {
            0
        });
        if joined.len() == 0 {
            joined_group_facts(rest, location, reason);
        }
        if g > 0 {
            assert(all[g] == joined[g - 1]);
        }
        assert forall|h: int| 0 <= h < groups.len() implies is_group(
            #[trigger] all[h],
            groups[h].location,
            groups[h].reason,
        ) by {
            if h > 0 {
                assert(all[h] == joined[h - 1]);
                assert(rest[h - 1] == groups[h]);
            }
        }
        if all.len() > groups.len() {
            assert(all.last() == joined.last());
            assert forall|h: int| 0 <= h < groups.len() implies #[trigger] groups[h].location
                != location || groups[h].reason != reason by {
                if h > 0 {
                    assert(rest[h - 1] == groups[h]);
                }
            }
        }
        assert forall|x: int, y: int| 0 <= x < y < all.len() implies #[trigger] all[x].location
            != #[trigger] all[y].location || all[x].reason != all[y].reason by {
            if y < groups.len() {
                assert(all[x].location == groups[x].location && all[y].location
                    == groups[y].location);
            } else {
                assert(all[y] == all.last());
                assert(all[x].location == groups[x].location);
            }
        }
    }
}

/// The message of a failure is the one that the crash left, else one that its text has;
/// a syntax error has none, and neither has a doctest.
pub proof fn crashes_leave_messages(r: TestReport, items: Seq<TestItem>, at: int)
    requires
        item_stands_at(items, r.nodeid@, at),
    ensures
        ({
            let doctest = at < items.len() && items[at].is_doctest;
            &&& doctest ==> crash_message(r, items) is None
            &&& !doctest && r.reprcrash_message is Some ==> crash_message(r, items) == Some(
                r.reprcrash_message->0@,
            )
            &&& !doctest && r.reprcrash_message is None && r.longrepr is None ==> crash_message(
                r,
                items,
            ) is None
            &&& !doctest && r.reprcrash_message is None && r.longrepr is Some ==> (
            match message_of(r.longrepr->0@) {
                Some(m) => if "SyntaxError:"@.is_prefix_of(m) {
                    crash_message(r, items) is None
                } else {
                    crash_message(r, items) == Some(m)
                },
                None => crash_message(r, items) is None,
            })
        }),
{
    doctest_id_facts(items, r.nodeid@, at);
}

} // verus!
