//! What the library asks of the world around it, and what it is told back.
//!
//! An operation that must run commands or read the forward table is a small
//! state machine: each step either finishes with the operation's result or
//! names one [`Request`]; whoever drives it performs the request and resumes
//! the machine with the matching [`Reply`].

use crate::host::ip::{Host, Info, InfoView};
use crate::text::views;
use vstd::prelude::*;

verus! {

/// Work that the library cannot do itself.
#[derive(Debug)]
pub enum Request {
    /// Run a command line: it is cut at every space, the first piece names the
    /// program and the others are its arguments. Answered by `Reply::Output`.
    Command(String),
    /// Ask for this host's own address (`hostname -I`). Answered by
    /// `Reply::Address`.
    LocalIp,
    /// Count the stored forwards to a target address. Answered by `Reply::Count`.
    CountIp(String),
    /// Count the stored forwards from a local port. Answered by `Reply::Count`.
    CountLocalPort(String),
    /// Store a forward. Answered by `Reply::Stored`.
    Insert(Info),
    /// Remove the stored forwards to a target address. Answered by `Reply::Removed`.
    Remove(String),
    /// Read every stored forward. Answered by `Reply::Hosts`.
    ListHosts,
    /// Print a line for the user. Answered by `Reply::Printed`.
    Print(String),
}

/// The answer to a [`Request`].
#[derive(Debug)]
pub enum Reply {
    /// The lines a command printed, or the message it failed with.
    Output(Result<Vec<String>, String>),
    /// The host's own address, if it could be found.
    Address(Option<String>),
    /// A count of stored rows, or the message the query failed with.
    Count(Result<usize, String>),
    /// The row was stored.
    Stored,
    /// Whether the removal went through.
    Removed(bool),
    /// Every stored row.
    Hosts(Host),
    /// The line was printed.
    Printed,
}

/// One step of an operation.
#[derive(Debug)]
pub enum Step<T> {
    /// Perform this request and resume the operation with its reply.
    Request(Request),
    /// The operation is over, with this result.
    Done(T),
}

/// The content of a request.
#[verifier::ext_equal]
pub enum RequestView {
    Command(Seq<char>),
    LocalIp,
    CountIp(Seq<char>),
    CountLocalPort(Seq<char>),
    Insert(InfoView),
    Remove(Seq<char>),
    ListHosts,
    Print(Seq<char>),
}

/// The content of a reply.
#[verifier::ext_equal]
pub enum ReplyView {
    Output(Result<Seq<Seq<char>>, Seq<char>>),
    Address(Option<Seq<char>>),
    Count(Result<usize, Seq<char>>),
    Stored,
    Removed(bool),
    Hosts(Seq<InfoView>),
    Printed,
}

/// The content of a step, with the result seen through `V`.
#[verifier::ext_equal]
pub enum StepView<V> {
    Request(RequestView),
    Done(V),
}

impl View for Request {
    type V = RequestView;

    open spec fn view(&self) -> RequestView {
        match self {
            Request::Command(c) => RequestView::Command(c@),
            Request::LocalIp => RequestView::LocalIp,
            Request::CountIp(ip) => RequestView::CountIp(ip@),
            Request::CountLocalPort(p) => RequestView::CountLocalPort(p@),
            Request::Insert(info) => RequestView::Insert(info@),
            Request::Remove(ip) => RequestView::Remove(ip@),
            Request::ListHosts => RequestView::ListHosts,
            Request::Print(line) => RequestView::Print(line@),
        }
    }
}

impl View for Reply {
    type V = ReplyView;

    open spec fn view(&self) -> ReplyView {
        match self {
            Reply::Output(Ok(lines)) => ReplyView::Output(Ok(views(lines@))),
            Reply::Output(Err(e)) => ReplyView::Output(Err(e@)),
            Reply::Address(Some(a)) => ReplyView::Address(Some(a@)),
            Reply::Address(None) => ReplyView::Address(None),
            Reply::Count(Ok(n)) => ReplyView::Count(Ok(*n)),
            Reply::Count(Err(e)) => ReplyView::Count(Err(e@)),
            Reply::Stored => ReplyView::Stored,
            Reply::Removed(b) => ReplyView::Removed(*b),
            Reply::Hosts(h) => ReplyView::Hosts(h@),
            Reply::Printed => ReplyView::Printed,
        }
    }
}

/// The view of the result of an operation that succeeds with nothing or fails
/// with a message.
pub open spec fn unit_result(r: Result<(), String>) -> Result<(), Seq<char>> {
    match r {
        Ok(()) => Ok(()),
        Err(e) => Err(e@),
    }
}

/// The view of a step of an operation that succeeds with nothing or fails with
/// a message.
pub open spec fn unit_step(s: Step<Result<(), String>>) -> StepView<Result<(), Seq<char>>> {
    match s {
        Step::Request(r) => StepView::Request(r@),
        Step::Done(r) => StepView::Done(unit_result(r)),
    }
}


/// Requests that run each of the command lines, in order.
pub open spec fn as_commands(lines: Seq<Seq<char>>) -> Seq<RequestView> {
    lines.map_values(|c: Seq<char>| RequestView::Command(c))
}


/// The positions of an operation, stepping on replies.
pub trait Machine: Sized {
    /// The view of the operation's result.
    type Out;

    /// The next position and step after `reply`.
    spec fn next_of(self, reply: ReplyView) -> (Self, StepView<Self::Out>);
}

/// An operation resumed with `replies` one after the other: where it ends,
/// the requests it makes on the way, and its result if it gives one (replies
/// after the result are not used).
pub open spec fn drive<M: Machine>(m: M, replies: Seq<ReplyView>) -> (M, Seq<RequestView>, Option<M::Out>)
    decreases replies.len(),
{
    if replies.len() == 0 {
        (m, Seq::empty(), None)
    } else {
        let (v, st) = m.next_of(replies[0]);
        match st {
            StepView::Request(r) => {
                let (w, rs, res) = drive(v, replies.drop_first());
                (w, seq![r] + rs, res)
            },
            StepView::Done(x) => (v, Seq::empty(), Some(x)),
        }
    }
}


/// Driving an operation with two runs of replies is driving it with the
/// first, then, if it has not ended, with the second from where it stands.
pub proof fn lemma_drive_concat<M: Machine>(m: M, x: Seq<ReplyView>, y: Seq<ReplyView>)
    ensures
        drive(m, x + y) == (if drive(m, x).2 is Some {
            drive(m, x)
        } else {
            let (m1, r1, _) = drive(m, x);
            let (m2, r2, res2) = drive(m1, y);
            (m2, r1 + r2, res2)
        }),
    decreases x.len(),
{
    if x.len() == 0 {
        assert(x + y =~= y);
        let (m2, r2, res2) = drive(m, y);
        assert(Seq::<RequestView>::empty() + r2 =~= r2);
    } else {
        let (v, st) = m.next_of(x[0]);
        assert((x + y)[0] == x[0]);
        assert((x + y).drop_first() =~= x.drop_first() + y);
        match st {
            StepView::Request(r) => {
                lemma_drive_concat(v, x.drop_first(), y);
                let (w, rs, res) = drive(v, x.drop_first());
                if res is None {
                    let (m2, r2, res2) = drive(w, y);
                    assert(seq![r] + (rs + r2) =~= (seq![r] + rs) + r2);
                }
            },
            StepView::Done(_) => {},
        }
    }
}

/// An operation `wrap(x)` runs the operation `x` inside it: while `x` goes on
/// after `r`, so does `wrap(x)`, standing at `wrap` of where `x` stands, with
/// the same request.
pub open spec fn lifts<A: Machine, M: Machine>(x: A, wrap: spec_fn(A) -> M, r: ReplyView) -> bool {
    x.next_of(r).1 is Request ==> wrap(x).next_of(r) == (
        wrap(x.next_of(r).0),
        StepView::<M::Out>::Request(x.next_of(r).1->Request_0),
    )
}

/// While an inner operation goes on, an operation that runs it inside makes
/// the same requests and stands where `wrap` puts the inner one.
pub proof fn lemma_drive_lift<A: Machine, M: Machine>(a: A, wrap: spec_fn(A) -> M, rs: Seq<ReplyView>)
    requires
        drive(a, rs).2 is None,
        forall|x: A, r: ReplyView| #[trigger] lifts(x, wrap, r),
    ensures
        drive(wrap(a), rs) == (wrap(drive(a, rs).0), drive(a, rs).1, None::<M::Out>),
    decreases rs.len(),
{
    if rs.len() > 0 {
        assert(lifts(a, wrap, rs[0]));
        let (a1, st) = a.next_of(rs[0]);
        match st {
            StepView::Request(_) => {
                lemma_drive_lift(a1, wrap, rs.drop_first());
            },
            StepView::Done(_) => {},
        }
    }
}

/// Where an operation stands when each of `replies` is given to it, from `m`
/// on, up to its result.
pub open spec fn positions<M: Machine>(m: M, replies: Seq<ReplyView>) -> Seq<M>
    decreases replies.len(),
{
    if replies.len() == 0 {
        Seq::empty()
    } else {
        seq![m] + match m.next_of(replies[0]).1 {
            StepView::Request(_) => positions(m.next_of(replies[0]).0, replies.drop_first()),
            StepView::Done(_) => Seq::empty(),
        }
    }
}

} // verus!
