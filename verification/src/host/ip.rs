//! Rows of the forward table and the rules for storing them.

use crate::effect::{drive, unit_step, Machine, Reply, ReplyView, Request, RequestView, Step, StepView};
use vstd::prelude::*;

verus! {

/// One forward: traffic to `local_port` on this host goes to `ip:target_port`.
#[derive(Debug)]
pub struct Info {
    /// Row id in the forward table, if the row has been stored.
    pub id: Option<i32>,
    /// Target address.
    pub ip: String,
    /// Target port.
    pub target_port: String,
    /// Port on this host that is forwarded.
    pub local_port: String,
}

/// The contents of a forward row.
#[verifier::ext_equal]
pub struct InfoView {
    pub id: Option<i32>,
    pub ip: Seq<char>,
    pub target_port: Seq<char>,
    pub local_port: Seq<char>,
}

impl View for Info {
    type V = InfoView;

    open spec fn view(&self) -> InfoView {
        InfoView {
            id: self.id,
            ip: self.ip@,
            target_port: self.target_port@,
            local_port: self.local_port@,
        }
    }
}

impl Info {
    /// A row for a forward that has not been stored yet.
    pub fn new(ip: &str, target_port: &str, local_port: &str) -> (r: Info)
        ensures
            r@ == (InfoView { id: None, ip: ip@, target_port: target_port@, local_port: local_port@ }),
    {
        Info {
            id: None,
            ip: String::from_str(ip),
            target_port: String::from_str(target_port),
            local_port: String::from_str(local_port),
        }
    }

    /// A copy of the row.
    pub fn duplicate(&self) -> (r: Info)
        ensures
            r@ == self@,
    {
        Info {
            id: self.id,
            ip: self.ip.clone(),
            target_port: self.target_port.clone(),
            local_port: self.local_port.clone(),
        }
    }
}

/// All rows of the forward table.
#[derive(Debug)]
pub struct Host {
    pub list: Vec<Info>,
}

impl View for Host {
    type V = Seq<InfoView>;

    open spec fn view(&self) -> Seq<InfoView> {
        self.list@.map_values(|i: Info| i@)
    }
}


impl Host {
    /// An empty table.
    pub fn new() -> (r: Host)
        ensures
            r@ == Seq::<InfoView>::empty(),
    {
        let r = Host { list: Vec::new() };
        assert(r@ =~= Seq::<InfoView>::empty());
        r
    }
}

/// How a forward is shown: `0.0.0.0:<local port> -> <ip>:<target port>`.
pub open spec fn host_line(i: InfoView) -> Seq<char> {
    "0.0.0.0:"@ + i.local_port + " -> "@ + i.ip + ":"@ + i.target_port + "\n"@
}

/// The lines of all forwards, in table order.
pub open spec fn host_lines(list: Seq<InfoView>) -> Seq<char>
    decreases list.len(),
{
    if list.len() == 0 {
        Seq::empty()
    } else {
        host_lines(list.drop_last()) + host_line(list.last())
    }
}

/// How the table is shown: `No Data` when it is empty, else one line per forward.
pub open spec fn host_text(list: Seq<InfoView>) -> Seq<char> {
    if list.len() == 0 {
        "No Data"@
    } else {
        host_lines(list)
    }
}

impl Host {
    /// The table as text (see `host_text`).
    pub fn to_display_string(&self) -> (r: String)
        ensures
            r@ == host_text(self@),
    {
        let mut out = String::new();
        if self.list.len() == 0 {
            out.append("No Data");
        }
        let ghost prefix = out@;
        let mut i: usize = 0;
        while i < self.list.len()
            invariant
                prefix == (if self@.len() == 0 {
                    "No Data"@
                } else {
                    Seq::<char>::empty()
                }),
                i <= self.list@.len(),
                self@.len() == self.list@.len(),
                out@ == prefix + host_lines(self@.take(i as int)),
            decreases self.list@.len() - i,
        {
            let info = &self.list[i];
            out.append("0.0.0.0:");
            out.append(info.local_port.as_str());
            out.append(" -> ");
            out.append(info.ip.as_str());
            out.append(":");
            out.append(info.target_port.as_str());
            out.append("\n");
            proof {
                assert(self@.take(i + 1).drop_last() =~= self@.take(i as int));
                assert(self@[i as int] == info@);
            }
            i = i + 1;
            assert(out@ =~= prefix + host_lines(self@.take(i as int)));
        }
        assert(self@.take(i as int) =~= self@);
        assert(out@ =~= host_text(self@));
        out
    }
}

/// Where the forward table is kept.
pub fn db_path() -> (r: String)
    ensures
        r@ == "/etc/traffic_forward.db"@,
{
    String::from_str("/etc/traffic_forward.db")
}

/// Whether a count of matching rows means that a match exists; a failed
/// query keeps its message.
pub fn found(count: Result<usize, String>) -> (r: Result<bool, String>)
    ensures
        match count {
            Ok(n) => r == Ok::<bool, String>(n > 0),
            Err(e) => r matches Err(m) && m@ == e@,
        },
{
    match count {
        Ok(n) => Ok(n > 0),
        Err(e) => Err(e),
    }
}


/// The refusal of a forward whose target address is already stored.
pub open spec fn ip_taken_message() -> Seq<char> {
    "IP already exists"@
}

/// The refusal of a forward whose local port is already used.
pub open spec fn port_taken_message() -> Seq<char> {
    "The transit host port has been used(local_port)"@
}

/// Where a run of `save` stands.
#[verifier::ext_equal]
pub struct SavingView {
    pub info: InfoView,
    /// 0: the count of rows for the address is awaited; 1: the count of rows
    /// for the local port; 2: the storing of the row.
    pub phase: int,
    /// The run has given its result.
    pub done: bool,
}

impl SavingView {
    /// A well-formed position of a run.
    pub open spec fn valid(self) -> bool {
        0 <= self.phase <= 2
    }

    /// The request the run waits on.
    pub open spec fn awaiting(self) -> RequestView {
        if self.phase == 0 {
            RequestView::CountIp(self.info.ip)
        } else if self.phase == 1 {
            RequestView::CountLocalPort(self.info.local_port)
        } else {
            RequestView::Insert(self.info)
        }
    }

    /// The replies the run can be resumed with: a count while a count is
    /// awaited, the storing of the row last (a failed insert is not an
    /// answer: the program stops there); none once it is done.
    pub open spec fn accepts(self, reply: ReplyView) -> bool {
        !self.done && if self.phase < 2 {
            reply is Count
        } else {
            reply is Stored
        }
    }

    /// The next position and step after `reply`: a failed count ends the run
    /// with its message; a stored address or a used local port refuses the
    /// row; otherwise the next check, and after both the row is stored.
    pub open spec fn after(self, reply: ReplyView) -> (SavingView, StepView<Result<(), Seq<char>>>) {
        if self.phase == 2 {
            (SavingView { done: true, ..self }, StepView::Done(Ok(())))
        } else {
            match reply {
                ReplyView::Count(Err(e)) => (SavingView { done: true, ..self }, StepView::Done(Err(e))),
                _ => if reply->Count_0->Ok_0 > 0 {
                    (
                        SavingView { done: true, ..self },
                        StepView::Done(
                            Err(
                                if self.phase == 0 {
                                    ip_taken_message()
                                } else {
                                    port_taken_message()
                                },
                            ),
                        ),
                    )
                } else {
                    let v = SavingView { phase: self.phase + 1, ..self };
                    (v, StepView::Request(v.awaiting()))
                },
            }
        }
    }
}

/// A run of `save`: a forward row is stored when neither its address nor its
/// local port is stored already.
pub struct Saving {
    info: Info,
    phase: usize,
    done: bool,
}

impl View for Saving {
    type V = SavingView;

    closed spec fn view(&self) -> SavingView {
        SavingView { info: self.info@, phase: self.phase as int, done: self.done }
    }
}

impl Saving {
    /// The machine is consistent with its view.
    pub closed spec fn wf(&self) -> bool {
        self@.valid()
    }

    fn ask(&self) -> (r: Step<Result<(), String>>)
        requires
            self.wf(),
        ensures
            unit_step(r) == StepView::<Result<(), Seq<char>>>::Request(self@.awaiting()),
    {
        if self.phase == 0 {
            Step::Request(Request::CountIp(self.info.ip.clone()))
        } else if self.phase == 1 {
            Step::Request(Request::CountLocalPort(self.info.local_port.clone()))
        } else {
            Step::Request(Request::Insert(self.info.duplicate()))
        }
    }

    /// Whether the run can be resumed with `reply`.
    pub fn accepts(&self, reply: &Reply) -> (r: bool)
        ensures
            r == self@.accepts(reply@),
    {
        if self.done {
            return false;
        }
        if self.phase < 2 {
            match reply {
                Reply::Count(_) => true,
                _ => false,
            }
        } else {
            match reply {
                Reply::Stored => true,
                _ => false,
            }
        }
    }

    /// Resumes the run with the reply to its request.
    pub fn resume(&mut self, reply: Reply) -> (r: Step<Result<(), String>>)
        requires
            old(self).wf(),
            old(self)@.accepts(reply@),
        ensures
            final(self).wf(),
            (final(self)@, unit_step(r)) == old(self)@.after(reply@),
    {
        if self.phase == 2 {
            self.done = true;
            return Step::Done(Ok(()));
        }
        match reply {
            Reply::Count(Err(e)) => {
                self.done = true;
                Step::Done(Err(e))
            },
            Reply::Count(Ok(n)) => {
                if n > 0 {
                    self.done = true;
                    if self.phase == 0 {
                        Step::Done(Err(String::from_str("IP already exists")))
                    } else {
                        Step::Done(Err(String::from_str("The transit host port has been used(local_port)")))
                    }
                } else {
                    self.phase = self.phase + 1;
                    self.ask()
                }
            },
            _ => {
                self.done = true;
                Step::Done(Ok(()))
            },
        }
    }
}

/// The position a run of `save` starts from.
pub open spec fn saving_start(info: InfoView) -> SavingView {
    SavingView { info, phase: 0, done: false }
}

/// Saves a forward row: refused with `IP already exists` when its address is
/// stored already, refused when its local port is used already, else stored.
pub fn save(info: Info) -> (r: (Saving, Step<Result<(), String>>))
    ensures
        r.0.wf(),
        r.0@ == saving_start(info@),
        unit_step(r.1) == StepView::<Result<(), Seq<char>>>::Request(r.0@.awaiting()),
{
    let run = Saving { info, phase: 0, done: false };
    let step = run.ask();
    (run, step)
}


impl Machine for SavingView {
    type Out = Result<(), Seq<char>>;

    open spec fn next_of(self, reply: ReplyView) -> (SavingView, StepView<Result<(), Seq<char>>>) {
        self.after(reply)
    }
}

/// A row is stored only when neither its address nor its local port is stored
/// already: a stored address refuses it with `IP already exists` before
/// anything else is asked; a used local port refuses it before it is stored;
/// otherwise it is stored as it is.
pub proof fn save_checks_before_storing(info: InfoView, n: usize, m: usize)
    requires
        n > 0,
        m > 0,
    ensures
        drive(saving_start(info), seq![ReplyView::Count(Ok(n))]).1 == Seq::<RequestView>::empty(),
        drive(saving_start(info), seq![ReplyView::Count(Ok(n))]).2 == Some(
            Err::<(), Seq<char>>(ip_taken_message()),
        ),
        drive(saving_start(info), seq![ReplyView::Count(Ok(0)), ReplyView::Count(Ok(m))]).1 == seq![
            RequestView::CountLocalPort(info.local_port),
        ],
        drive(saving_start(info), seq![ReplyView::Count(Ok(0)), ReplyView::Count(Ok(m))]).2 == Some(
            Err::<(), Seq<char>>(port_taken_message()),
        ),
        drive(
            saving_start(info),
            seq![ReplyView::Count(Ok(0)), ReplyView::Count(Ok(0)), ReplyView::Stored],
        ).1 == seq![RequestView::CountLocalPort(info.local_port), RequestView::Insert(info)],
        drive(
            saving_start(info),
            seq![ReplyView::Count(Ok(0)), ReplyView::Count(Ok(0)), ReplyView::Stored],
        ).2 == Some(Ok::<(), Seq<char>>(())),
{
    reveal_with_fuel(drive, 4);
    let a = seq![ReplyView::Count(Ok(0)), ReplyView::Count(Ok(m))];
    assert(a.drop_first() =~= seq![ReplyView::Count(Ok(m))]);
    let b = seq![ReplyView::Count(Ok(0)), ReplyView::Count(Ok(0)), ReplyView::Stored];
    assert(b.drop_first() =~= seq![ReplyView::Count(Ok(0)), ReplyView::Stored]);
    assert(b.drop_first().drop_first() =~= seq![ReplyView::Stored]);
    assert(drive(saving_start(info), a).1 =~= seq![RequestView::CountLocalPort(info.local_port)]);
    assert(drive(saving_start(info), b).1 =~= seq![
        RequestView::CountLocalPort(info.local_port),
        RequestView::Insert(info),
    ]);
}

/// No two rows of a table share an address, and no two share a local port.
pub open spec fn rows_unique(rows: Seq<InfoView>) -> bool {
    forall|i: int, j: int|
        #![trigger rows[i], rows[j]]
        0 <= i < j < rows.len() ==> rows[i].ip != rows[j].ip && rows[i].local_port != rows[j].local_port
}

/// Some row of the table has the address `ip`.
pub open spec fn holds_ip(rows: Seq<InfoView>, ip: Seq<char>) -> bool {
    exists|i: int| 0 <= i < rows.len() && #[trigger] rows[i].ip == ip
}

/// Some row of the table has the local port `port`.
pub open spec fn holds_port(rows: Seq<InfoView>, port: Seq<char>) -> bool {
    exists|i: int| 0 <= i < rows.len() && #[trigger] rows[i].local_port == port
}

/// The table after a run of `save` that made `requests`: the row is added
/// when the run asked to store it.
pub open spec fn saved_rows(rows: Seq<InfoView>, info: InfoView, requests: Seq<RequestView>) -> Seq<InfoView> {
    if requests.contains(RequestView::Insert(info)) {
        rows.push(info)
    } else {
        rows
    }
}

/// The table after the rows of the address `ip` are deleted, the others kept
/// in their order.
pub open spec fn without_ip(rows: Seq<InfoView>, ip: Seq<char>) -> Seq<InfoView>
    decreases rows.len(),
{
    if rows.len() == 0 {
        rows
    } else {
        let rest = without_ip(rows.drop_last(), ip);
        if rows.last().ip == ip {
            rest
        } else {
            rest.push(rows.last())
        }
    }
}

/// The answers to a run of `save`: the count of rows for the address, the
/// count of rows for the local port, then the storing of the row.
pub open spec fn save_replies(n: usize, m: usize) -> Seq<ReplyView> {
    seq![ReplyView::Count(Ok(n)), ReplyView::Count(Ok(m)), ReplyView::Stored]
}

/// A run of `save` answered truthfully for a table whose rows are unique in
/// address and in local port keeps them unique: it asks to store the row only
/// when neither its address nor its local port is in the table, it ends well
/// exactly when it asked to store the row, and the stored row is then in the
/// table.
pub proof fn save_keeps_rows_unique(rows: Seq<InfoView>, info: InfoView, n: usize, m: usize)
    requires
        rows_unique(rows),
        (n > 0) == holds_ip(rows, info.ip),
        (m > 0) == holds_port(rows, info.local_port),
    ensures
        rows_unique(saved_rows(rows, info, drive(saving_start(info), save_replies(n, m)).1)),
        (drive(saving_start(info), save_replies(n, m)).2 == Some(Ok::<(), Seq<char>>(())))
            == drive(saving_start(info), save_replies(n, m)).1.contains(RequestView::Insert(info)),
        drive(saving_start(info), save_replies(n, m)).2 == Some(Ok::<(), Seq<char>>(())) ==> saved_rows(
            rows,
            info,
            drive(saving_start(info), save_replies(n, m)).1,
        ).contains(info),
{
    reveal_with_fuel(drive, 4);
    let a = save_replies(n, m);
    assert(a.drop_first() =~= seq![ReplyView::Count(Ok(m)), ReplyView::Stored]);
    assert(a.drop_first().drop_first() =~= seq![ReplyView::Stored]);
    let d = drive(saving_start(info), a);
    if n > 0 {
        assert(d.1 =~= Seq::<RequestView>::empty());
        assert(!d.1.contains(RequestView::Insert(info)));
    } else if m > 0 {
        assert(d.1 =~= seq![RequestView::CountLocalPort(info.local_port)]);
        assert(d.1[0] != RequestView::Insert(info));
        assert(!d.1.contains(RequestView::Insert(info)));
    } else {
        assert(d.1 =~= seq![RequestView::CountLocalPort(info.local_port), RequestView::Insert(info)]);
        assert(d.1[1] == RequestView::Insert(info));
        let w = rows.push(info);
        assert(w[rows.len() as int] == info);
        assert forall|i: int, j: int| 0 <= i < j < w.len() implies w[i].ip != w[j].ip
            && w[i].local_port != w[j].local_port by {
            assert(w[i] == rows[i]);
            if j < rows.len() {
                assert(w[j] == rows[j]);
            } else {
                assert(w[j] == info);
                if rows[i].ip == info.ip {
                    assert(holds_ip(rows, info.ip));
                }
                if rows[i].local_port == info.local_port {
                    assert(holds_port(rows, info.local_port));
                }
            }
        }
    }
}

proof fn lemma_without_ip_from(rows: Seq<InfoView>, ip: Seq<char>)
    ensures
        forall|k: int|
            #![trigger without_ip(rows, ip)[k]]
            0 <= k < without_ip(rows, ip).len() ==> exists|i: int|
                0 <= i < rows.len() && #[trigger] rows[i] == without_ip(rows, ip)[k],
    decreases rows.len(),
{
    if rows.len() > 0 {
        let d = rows.drop_last();
        lemma_without_ip_from(d, ip);
        let rest = without_ip(d, ip);
        let w = without_ip(rows, ip);
        assert forall|k: int| #![trigger w[k]] 0 <= k < w.len() implies exists|i: int|
            0 <= i < rows.len() && #[trigger] rows[i] == w[k] by {
            if k < rest.len() {
                let i = choose|i: int| 0 <= i < d.len() && #[trigger] d[i] == rest[k];
                assert(rows[i] == d[i]);
                assert(w[k] == rest[k]);
            } else {
                assert(rows[rows.len() - 1] == w[k]);
            }
        }
    }
}

/// Deleting the rows of an address keeps the rows of a table unique in
/// address and in local port.
pub proof fn delete_keeps_rows_unique(rows: Seq<InfoView>, ip: Seq<char>)
    requires
        rows_unique(rows),
    ensures
        rows_unique(without_ip(rows, ip)),
    decreases rows.len(),
{
    if rows.len() > 0 {
        let d = rows.drop_last();
        assert forall|i: int, j: int| 0 <= i < j < d.len() implies d[i].ip != d[j].ip
            && d[i].local_port != d[j].local_port by {
            assert(d[i] == rows[i] && d[j] == rows[j]);
        }
        delete_keeps_rows_unique(d, ip);
        let rest = without_ip(d, ip);
        if rows.last().ip != ip {
            lemma_without_ip_from(d, ip);
            let w = rest.push(rows.last());
            assert forall|i: int, j: int| 0 <= i < j < w.len() implies w[i].ip != w[j].ip
                && w[i].local_port != w[j].local_port by {
                assert(w[i] == rest[i]);
                if j < rest.len() {
                    assert(w[j] == rest[j]);
                } else {
                    assert(w[j] == rows[rows.len() - 1]);
                    let k = choose|k: int| 0 <= k < d.len() && #[trigger] d[k] == rest[i];
                    assert(d[k] == rows[k]);
                }
            }
        }
    }
}

impl Default for Host {
    /// An empty table.
    fn default() -> (r: Host)
        ensures
            r@ == Seq::<InfoView>::empty(),
    {
        Host::new()
    }
}

impl Default for Info {
    /// A row with no id and empty address and ports.
    fn default() -> (r: Info)
        ensures
            r@ == (InfoView {
                id: None,
                ip: Seq::empty(),
                target_port: Seq::empty(),
                local_port: Seq::empty(),
            }),
    {
        Info { id: None, ip: String::new(), target_port: String::new(), local_port: String::new() }
    }
}

/// The table is shown as `No Data` only when it is empty; a non-empty table is
/// shown as exactly one `0.0.0.0:<local port> -> <ip>:<target port>` line per
/// row, in table order: one row gives its line alone, and a row added to a
/// non-empty table adds its line after the others.
pub proof fn display_has_one_line_per_row(list: Seq<InfoView>, x: InfoView)
    ensures
        host_text(Seq::empty()) == "No Data"@,
        host_text(seq![x]) == "0.0.0.0:"@ + x.local_port + " -> "@ + x.ip + ":"@ + x.target_port + "\n"@,
        list.len() > 0 ==> host_text(list.push(x)) == host_text(list) + ("0.0.0.0:"@ + x.local_port + " -> "@
            + x.ip + ":"@ + x.target_port + "\n"@),
{
    assert(seq![x].drop_last() =~= Seq::<InfoView>::empty());
    assert(seq![x].last() == x);
    assert(host_lines(Seq::<InfoView>::empty()) == Seq::<char>::empty());
    assert(host_lines(seq![x]) == host_lines(seq![x].drop_last()) + host_line(x));
    assert(host_lines(seq![x]) =~= host_line(x));
    assert(list.push(x).drop_last() =~= list);
    assert(list.push(x).last() == x);
}

} // verus!
