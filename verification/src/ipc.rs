//! The protocol between a controller and its workers. The controller writes
//! lines to the stdin of a worker; the worker writes frames to its stdout,
//! where they stand among whatever the tests print.

use vstd::prelude::*;

use crate::report::TestReport;
use crate::text::{first_at, first_at_char, lines_of, strip_prefix, without_cr};

verus! {

/// What every frame starts with in the output of a worker.
pub const FRAME_PREFIX: &'static str = "##pytest-rs-ipc##";

/// What the controller tells a worker.
#[derive(Debug)]
pub enum ParentMsg {
    /// Run these tests.
    Run { nodeids: Vec<String> },
    /// There is no more work: tear down and exit.
    Shutdown,
}

/// What a worker tells the controller.
#[derive(Debug)]
pub enum WorkerMsg {
    /// The report on one phase of one test.
    Report { report: TestReport },
    /// The tests that it was given have run.
    Done,
    /// A test interrupted the session, which stops with this exit code.
    Interrupted { code: i32, banner: Option<String> },
    /// The state of a plugin, to be merged by the controller.
    Extra { plugin: String, payload: String },
    /// The warnings of the worker.
    Warnings { lines: Vec<String>, count: usize },
    /// What the worker leaves for the hooks of the controller.
    Workeroutput { payload: String },
    /// The worker exits.
    Bye,
    /// The items that the worker collected, each with its group, the files
    /// that could not be collected, and the number of deselected items.
    Collection {
        nodeids: Vec<String>,
        xdist_groups: Vec<Option<String>>,
        errors: Vec<(String, String)>,
        deselected: usize,
    },
}

// ---------------------------------------------------------------------------
// Model
// ---------------------------------------------------------------------------

/// The frame of a message. It starts on a line of its own, even after output
/// that does not end its line.
pub open spec fn frame_of(json: Seq<char>) -> Seq<char> {
    seq!['\n'] + FRAME_PREFIX@ + json + seq!['\n']
}

/// The message in a line, where the line is a frame.
pub open spec fn payload_of(line: Seq<char>) -> Option<Seq<char>> {
    if FRAME_PREFIX@.is_prefix_of(line) {
        Some(line.skip(FRAME_PREFIX@.len() as int))
    } else {
        None
    }
}

/// The messages in lines.
pub open spec fn payloads_in(lines: Seq<Seq<char>>) -> Seq<Seq<char>>
    decreases lines.len(),
{
    if lines.len() == 0 {
        seq![]
    } else {
        let before = payloads_in(lines.drop_last());
        match payload_of(lines.last()) {
            Some(p) => before.push(p),
            None => before,
        }
    }
}

/// The messages that the controller reads from the output of a worker.
pub open spec fn received(output: Seq<char>) -> Seq<Seq<char>> {
    payloads_in(lines_of(output))
}

/// The frames of messages, one after the other.
pub open spec fn frames_of(messages: Seq<Seq<char>>) -> Seq<char>
    decreases messages.len(),
{
    if messages.len() == 0 {
        seq![]
    } else {
        frames_of(messages.drop_last()) + frame_of(messages.last())
    }
}

/// A message that fits on one line.
pub open spec fn on_one_line(json: Seq<char>) -> bool {
    !json.contains('\n') && (json.len() > 0 ==> json.last() != '\r')
}

// ---------------------------------------------------------------------------
// Executable functions
// ---------------------------------------------------------------------------

/// The frame of a message that is given as JSON.
pub fn encode_frame(json: &str) -> (r: String)
    ensures
        r@ == frame_of(json@),
{
    proof {
        reveal_strlit("\n");
        assert("\n"@ =~= seq!['\n']);
    }
    let mut r: String = "\n".to_owned();
    r.append(FRAME_PREFIX);
    r.append(json);
    r.append("\n");
    r
}

/// The message in a line, as JSON; a line that is no frame is output of a
/// test.
pub fn decode_frame(line: &str) -> (r: Option<String>)
    ensures
        match r {
            Some(json) => payload_of(line@) == Some(json@),
            None => payload_of(line@) is None,
        },
{
    strip_prefix(line, FRAME_PREFIX)
}

// ---------------------------------------------------------------------------
// Laws
// ---------------------------------------------------------------------------

/// The lines of a text that starts with a whole line.
proof fn lines_of_line(line: Seq<char>, rest: Seq<char>)
    requires
        !line.contains('\n'),
    ensures
        lines_of(line + seq!['\n'] + rest) == seq![without_cr(line)] + lines_of(rest),
{
    let all = line + seq!['\n'] + rest;
    first_at_char(all, '\n');
    assert(all[line.len() as int] == '\n');
    assert(all.contains('\n'));
    let i = first_at(all, seq!['\n'])->Some_0;
    if i < line.len() {
        assert(line[i] == '\n');
        assert(false);
    }
    assert(i == line.len());
    assert(all.take(i) =~= line);
    assert(all.skip(i + 1) =~= rest);
}

/// The lines of a text that ends its last line, followed by another text.
proof fn lines_of_sum(a: Seq<char>, b: Seq<char>)
    ensures
        lines_of(a + seq!['\n'] + b) == lines_of(a + seq!['\n']) + lines_of(b),
    decreases a.len(),
{
    first_at_char(a, '\n');
    match first_at(a, seq!['\n']) {
        Some(i) => {
            let line = a.take(i);
            let rest = a.skip(i + 1);
            assert(a =~= line + seq!['\n'] + rest);
            assert forall|j: int| 0 <= j < line.len() implies line[j] != '\n' by {
                assert(a[j] != '\n');
            }
            assert(!line.contains('\n'));
            lines_of_sum(rest, b);
            lines_of_line(line, rest + seq!['\n'] + b);
            lines_of_line(line, rest + seq!['\n']);
            assert(a + seq!['\n'] + b =~= line + seq!['\n'] + (rest + seq!['\n'] + b));
            assert(a + seq!['\n'] =~= line + seq!['\n'] + (rest + seq!['\n']));
            assert(seq![without_cr(line)] + (lines_of(rest + seq!['\n']) + lines_of(b)) =~= (seq![
                without_cr(line),
            ] + lines_of(rest + seq!['\n'])) + lines_of(b));
        },
        None => {
            lines_of_line(a, b);
            lines_of_line(a, seq![]);
            assert(a + seq!['\n'] + Seq::<char>::empty() =~= a + seq!['\n']);
            empty_has_no_lines();
            assert(seq![without_cr(a)] + Seq::<Seq<char>>::empty() =~= seq![without_cr(a)]);
        },
    }
}

proof fn empty_has_no_lines()
    ensures
        lines_of(seq![]) == Seq::<Seq<char>>::empty(),
{
    first_at_char(seq![], '\n');
}

/// A frame arrives whole whatever the worker printed before it, and neither
/// changes a message before it nor adds another one.
pub proof fn frame_arrives(output: Seq<char>, json: Seq<char>)
    requires
        on_one_line(json),
    ensures
        received(output + frame_of(json)) == received(output + seq!['\n']).push(json),
{
    let line = FRAME_PREFIX@ + json;
    reveal_strlit("##pytest-rs-ipc##");
    assert forall|j: int| 0 <= j < line.len() implies line[j] != '\n' by {
        if j >= FRAME_PREFIX@.len() {
            assert(line[j] == json[j - FRAME_PREFIX@.len()]);
        }
    }
    assert(!line.contains('\n'));
    let tail = line + seq!['\n'];
    assert(output + frame_of(json) =~= output + seq!['\n'] + tail);
    lines_of_sum(output, tail);
    lines_of_line(line, seq![]);
    empty_has_no_lines();
    assert(tail =~= line + seq!['\n'] + Seq::<char>::empty());
    assert(line.last() != '\r') by {
        if json.len() > 0 {
            assert(line.last() == json.last());
        }
    }
    assert(without_cr(line) == line);
    assert(lines_of(tail) =~= seq![line]);
    let before = lines_of(output + seq!['\n']);
    let all = before + seq![line];
    assert(all.drop_last() =~= before);
    assert(all.last() == line);
    assert(FRAME_PREFIX@.is_prefix_of(line));
    assert(line.skip(FRAME_PREFIX@.len() as int) =~= json);
}

/// What a worker writes is what the controller reads, message by message.
pub proof fn messages_arrive_in_order(messages: Seq<Seq<char>>)
    requires
        forall|i: int| 0 <= i < messages.len() ==> on_one_line(#[trigger] messages[i]),
    ensures
        received(frames_of(messages)) == messages,
        received(frames_of(messages) + seq!['\n']) == messages,
    decreases messages.len(),
{
    reveal_strlit("##pytest-rs-ipc##");
    empty_has_no_lines();
    let written = frames_of(messages);
    if messages.len() == 0 {
        lines_of_line(seq![], seq![]);
        assert(seq!['\n'] =~= Seq::<char>::empty() + seq!['\n'] + Seq::<char>::empty());
        assert(written + seq!['\n'] =~= seq!['\n']);
        assert(lines_of(seq!['\n']) =~= seq![Seq::<char>::empty()]);
        assert(lines_of(seq!['\n']).drop_last() =~= seq![]);
        assert(received(written) =~= messages);
        assert(received(written + seq!['\n']) =~= messages);
    } else {
        let before = messages.drop_last();
        messages_arrive_in_order(before);
        frame_arrives(frames_of(before), messages.last());
        assert(messages =~= before.push(messages.last()));
        // The frames end their last line, so that one more line break adds an
        // empty line, which is no frame.
        let head = frames_of(before) + seq!['\n'] + FRAME_PREFIX@ + messages.last();
        assert(written =~= head + seq!['\n']);
        lines_of_sum(head, seq!['\n']);
        lines_of_line(seq![], seq![]);
        assert(seq!['\n'] =~= Seq::<char>::empty() + seq!['\n'] + Seq::<char>::empty());
        assert(lines_of(seq!['\n']) =~= seq![Seq::<char>::empty()]);
        let all = lines_of(written) + seq![Seq::<char>::empty()];
        assert(lines_of(written + seq!['\n']) == all);
        assert(all.drop_last() =~= lines_of(written));
        assert(payload_of(all.last()) is None);
    }
}

/// Output of a test that is no frame is not taken for one.
pub proof fn other_output_is_no_frame(line: Seq<char>)
    ensures
        payload_of(line) is Some <==> FRAME_PREFIX@.is_prefix_of(line),
        payload_of(line) matches Some(json) ==> line == FRAME_PREFIX@ + json,
{
    if let Some(json) = payload_of(line) {
        assert(line =~= FRAME_PREFIX@ + json);
    }
}

/// A frame is a line of its own, which starts with the prefix of frames.
pub proof fn frames_are_lines(json: Seq<char>)
    ensures
        frame_of(json) == seq!['\n'] + "##pytest-rs-ipc##"@ + json + seq!['\n'],
        payload_of("##pytest-rs-ipc##"@ + json) == Some(json),
{
    let line = FRAME_PREFIX@ + json;
    assert(FRAME_PREFIX@ =~= line.subrange(0, FRAME_PREFIX@.len() as int));
    assert(line.skip(FRAME_PREFIX@.len() as int) =~= json);
}

} // verus!
