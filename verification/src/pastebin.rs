//! `--pastebin=all`: a copy of everything that goes to stdout. A pipe takes the
//! place of stdout, and what comes out of it is written to where stdout went.

use vstd::prelude::*;

verus! {

/// A descriptor of the copy.
#[derive(Debug, Clone, Copy, PartialEq, Eq, Structural)]
pub enum Descriptor {
    /// Where stdout went.
    Original,
    /// The end of the pipe that is read.
    Reader,
    /// The end of the pipe that is written.
    Writer,
}

/// What the application does next.
#[derive(Debug, Clone, Copy, PartialEq, Eq, Structural)]
pub enum TeeAction {
    /// Duplicate stdout.
    Duplicate,
    /// Open a pipe.
    OpenPipe,
    /// Put the pipe in the place of stdout.
    Redirect,
    /// Read the pipe, write to where stdout went, and keep a copy.
    Relay,
    /// There is no copy.
    Abandon,
}

/// What follows on an action.
pub struct TeeStep {
    pub action: TeeAction,
    /// Descriptors to close first.
    pub close: Vec<Descriptor>,
}

// ---------------------------------------------------------------------------
// Model
// ---------------------------------------------------------------------------

/// The descriptors that are open before an action.
pub open spec fn open_before(action: TeeAction) -> Seq<Descriptor> {
    match action {
        TeeAction::Duplicate => seq![],
        TeeAction::OpenPipe => seq![Descriptor::Original],
        TeeAction::Redirect => seq![Descriptor::Original, Descriptor::Reader, Descriptor::Writer],
        TeeAction::Relay => seq![Descriptor::Original, Descriptor::Reader],
        TeeAction::Abandon => seq![],
    }
}

/// The descriptors that an action opens where it succeeds.
pub open spec fn opened_by(action: TeeAction) -> Seq<Descriptor> {
    match action {
        TeeAction::Duplicate => seq![Descriptor::Original],
        TeeAction::OpenPipe => seq![Descriptor::Reader, Descriptor::Writer],
        _ => seq![],
    }
}

/// The action after this one.
pub open spec fn tee_after(action: TeeAction, ok: bool) -> TeeAction {
    match action {
        TeeAction::Duplicate => if ok {
            TeeAction::OpenPipe
        } else {
            TeeAction::Abandon
        },
        TeeAction::OpenPipe => if ok {
            TeeAction::Redirect
        } else {
            TeeAction::Abandon
        },
        TeeAction::Redirect => if ok {
            TeeAction::Relay
        } else {
            TeeAction::Abandon
        },
        TeeAction::Relay => TeeAction::Relay,
        TeeAction::Abandon => TeeAction::Abandon,
    }
}

/// The descriptors to close after an action.
pub open spec fn closed_after(action: TeeAction, ok: bool) -> Seq<Descriptor> {
    match action {
        TeeAction::OpenPipe => if ok {
            seq![]
        } else {
            seq![Descriptor::Original]
        },
        TeeAction::Redirect => if ok {
            seq![Descriptor::Writer]
        } else {
            seq![Descriptor::Original, Descriptor::Reader, Descriptor::Writer]
        },
        _ => seq![],
    }
}

// ---------------------------------------------------------------------------
// Executable functions
// ---------------------------------------------------------------------------

/// What follows on an action that succeeded or failed.
pub fn next_tee(action: TeeAction, ok: bool) -> (r: TeeStep)
    ensures
        r.action == tee_after(action, ok),
        r.close@ == closed_after(action, ok),
{
    let mut close: Vec<Descriptor> = Vec::new();
    let next = match action {
        TeeAction::Duplicate => if ok {
            TeeAction::OpenPipe
        } else {
            TeeAction::Abandon
        },
        TeeAction::OpenPipe => if ok {
            TeeAction::Redirect
        } else {
            close.push(Descriptor::Original);
            TeeAction::Abandon
        },
        TeeAction::Redirect => if ok {
            close.push(Descriptor::Writer);
            TeeAction::Relay
        } else {
            close.push(Descriptor::Original);
            close.push(Descriptor::Reader);
            close.push(Descriptor::Writer);
            TeeAction::Abandon
        },
        TeeAction::Relay => TeeAction::Relay,
        TeeAction::Abandon => TeeAction::Abandon,
    };
    assert(close@ =~= closed_after(action, ok));
    TeeStep { action: next, close }
}

/// Whether the pipe is at its end: a read brought nothing, or failed.
pub fn pipe_ended(read: isize) -> (r: bool)
    ensures
        r == (read <= 0),
{
    read <= 0
}

// ---------------------------------------------------------------------------
// Laws
// ---------------------------------------------------------------------------

/// No descriptor leaks: what was open or was opened stays open, or is closed,
/// and nothing else is closed.
pub proof fn no_descriptor_leaks(action: TeeAction, ok: bool, d: Descriptor)
    requires
        action != TeeAction::Relay,
        action != TeeAction::Abandon,
    ensures
        ({
            let held = open_before(action) + (if ok {
                opened_by(action)
            } else {
                seq![]
            });
            let left = open_before(tee_after(action, ok));
            let closed = closed_after(action, ok);
            &&& held.contains(d) <==> left.contains(d) || closed.contains(d)
            &&& !(left.contains(d) && closed.contains(d))
        }),
{
    let original = seq![Descriptor::Original];
    let pipe = seq![Descriptor::Reader, Descriptor::Writer];
    let both = seq![Descriptor::Original, Descriptor::Reader];
    let all = seq![Descriptor::Original, Descriptor::Reader, Descriptor::Writer];
    let writer = seq![Descriptor::Writer];
    assert(original[0] == Descriptor::Original);
    assert(pipe[0] == Descriptor::Reader && pipe[1] == Descriptor::Writer);
    assert(both[0] == Descriptor::Original && both[1] == Descriptor::Reader);
    assert(all[0] == Descriptor::Original && all[1] == Descriptor::Reader && all[2]
        == Descriptor::Writer);
    assert(writer[0] == Descriptor::Writer);
    assert(Seq::<Descriptor>::empty() + original =~= original);
    assert(original + pipe =~= all);
    assert(original + Seq::<Descriptor>::empty() =~= original);
    assert(all + Seq::<Descriptor>::empty() =~= all);
    assert(Seq::<Descriptor>::empty() + Seq::<Descriptor>::empty() =~= Seq::<Descriptor>::empty());
}

/// The steps of copying the output, where each succeeds: the stream is duplicated, a
/// pipe opened, the stream redirected into it, and what comes out of it relayed. A step
/// that fails abandons it, and closes what was opened so far.
pub proof fn copying_goes_in_order(ok: bool)
    ensures
        tee_after(TeeAction::Duplicate, true) == TeeAction::OpenPipe,
        tee_after(TeeAction::OpenPipe, true) == TeeAction::Redirect,
        tee_after(TeeAction::Redirect, true) == TeeAction::Relay,
        tee_after(TeeAction::Duplicate, false) == TeeAction::Abandon,
        tee_after(TeeAction::OpenPipe, false) == TeeAction::Abandon,
        tee_after(TeeAction::Redirect, false) == TeeAction::Abandon,
        tee_after(TeeAction::Relay, ok) == TeeAction::Relay,
        tee_after(TeeAction::Abandon, ok) == TeeAction::Abandon,
        closed_after(TeeAction::Duplicate, ok).len() == 0,
        closed_after(TeeAction::OpenPipe, true).len() == 0,
        closed_after(TeeAction::OpenPipe, false) == seq![Descriptor::Original],
        closed_after(TeeAction::Redirect, true) == seq![Descriptor::Writer],
        closed_after(TeeAction::Redirect, false) == seq![
            Descriptor::Original,
            Descriptor::Reader,
            Descriptor::Writer,
        ],
{
}

} // verus!
