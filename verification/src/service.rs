//! The operations a user asks for: adding, deleting, listing forwards and
//! querying their traffic. Each keeps the forward table and the firewall in
//! step.

use crate::effect::{as_commands, drive, lemma_drive_concat, lemma_drive_lift, lifts, positions, Machine, unit_step, Reply, ReplyView, Request, RequestView, Step, StepView};
use crate::host::ip::{ip_taken_message, port_taken_message, save, saving_start, Host, Info, InfoView, Saving, SavingView};
use crate::iptables::tools::{list_rules_command, ChainType, forward_rules, listing_readable, traffic_listing, traffic_listing_command, traffic_readable, traffic_totals, Traffic, adding_start, deleting_start, Adding, AddingView, Deleting, DeletingView};
use crate::text::{free_of, split, split_joined, split_on, views};
use vstd::prelude::*;

verus! {

/// The protocols every forward is set up for, in this order.
pub open spec fn service_protocol(k: int) -> Seq<char> {
    if k == 0 {
        "tcp"@
    } else {
        "udp"@
    }
}

fn service_protocol_exec(k: usize) -> (r: &'static str)
    ensures
        r@ == service_protocol(k as int),
{
    if k == 0 {
        "tcp"
    } else {
        "udp"
    }
}

/// The start of the rules of a stored forward for protocol `k`, with no
/// comment and this host's address asked for.
pub open spec fn forward_start(local_port: Seq<char>, ip: Seq<char>, target_port: Seq<char>, k: int) -> AddingView {
    adding_start(local_port, ip, target_port, None, Some(service_protocol(k)), None)
}

/// The stage of a run of `add`.
#[verifier::ext_equal]
pub enum AddStageView {
    /// Storing the forward row.
    Saving(SavingView),
    /// Setting up the rules for protocol `k`.
    Forwarding(int, AddingView),
    /// Removing the row again after a rule failed with this message.
    Undoing(Seq<char>),
}

/// Where a run of `add` stands.
#[verifier::ext_equal]
pub struct ServiceAddView {
    pub target_ip: Seq<char>,
    pub target_port: Seq<char>,
    pub local_port: Seq<char>,
    pub stage: AddStageView,
    pub done: bool,
}

impl ServiceAddView {
    /// The replies the run can be resumed with: those of the step under way;
    /// the removal's outcome while undoing; none once it is done.
    pub open spec fn accepts(self, reply: ReplyView) -> bool {
        !self.done && match self.stage {
            AddStageView::Saving(s) => s.accepts(reply),
            AddStageView::Forwarding(_, a) => a.accepts(reply),
            AddStageView::Undoing(_) => reply is Removed,
        }
    }

    /// The run after the rules for protocol `k` went through: the rules for
    /// the next protocol, or the end.
    pub open spec fn next_protocol(self, k: int) -> (ServiceAddView, StepView<Result<(), Seq<char>>>) {
        if k == 0 {
            let a = forward_start(self.local_port, self.target_ip, self.target_port, 1);
            (ServiceAddView { stage: AddStageView::Forwarding(1, a), ..self }, StepView::Request(a.awaiting()))
        } else {
            (ServiceAddView { done: true, ..self }, StepView::Done(Ok(())))
        }
    }

    /// The next position and step after `reply`. The row is stored first; if
    /// that is refused the run ends with the refusal and no rule is set up.
    /// Then the rules are set up for `tcp`, then `udp`; if a rule fails, the
    /// row is removed and the run ends with the rule's message.
    pub open spec fn after(self, reply: ReplyView) -> (ServiceAddView, StepView<Result<(), Seq<char>>>) {
        match self.stage {
            AddStageView::Saving(s) => {
                let (s2, st) = s.after(reply);
                match st {
                    StepView::Request(r) => (ServiceAddView { stage: AddStageView::Saving(s2), ..self }, StepView::Request(r)),
                    StepView::Done(Err(e)) => (
                        ServiceAddView { stage: AddStageView::Saving(s2), done: true, ..self },
                        StepView::Done(Err(e)),
                    ),
                    StepView::Done(Ok(())) => {
                        let a = forward_start(self.local_port, self.target_ip, self.target_port, 0);
                        (ServiceAddView { stage: AddStageView::Forwarding(0, a), ..self }, StepView::Request(a.awaiting()))
                    },
                }
            },
            AddStageView::Forwarding(k, a) => {
                let (a2, st) = a.after(reply);
                match st {
                    StepView::Request(r) => (ServiceAddView { stage: AddStageView::Forwarding(k, a2), ..self }, StepView::Request(r)),
                    StepView::Done(Err(e)) => (
                        ServiceAddView { stage: AddStageView::Undoing(e), ..self },
                        StepView::Request(RequestView::Remove(self.target_ip)),
                    ),
                    StepView::Done(Ok(())) => ServiceAddView {
                        stage: AddStageView::Forwarding(k, a2),
                        ..self
                    }.next_protocol(k),
                }
            },
            AddStageView::Undoing(e) => (ServiceAddView { done: true, ..self }, StepView::Done(Err(e))),
        }
    }
}

enum AddStage {
    Saving(Saving),
    Forwarding(usize, Adding),
    Undoing(String),
}

/// A run of `add`.
pub struct ServiceAdd {
    target_ip: String,
    target_port: String,
    local_port: String,
    stage: AddStage,
    done: bool,
}

impl View for ServiceAdd {
    type V = ServiceAddView;

    closed spec fn view(&self) -> ServiceAddView {
        ServiceAddView {
            target_ip: self.target_ip@,
            target_port: self.target_port@,
            local_port: self.local_port@,
            stage: match self.stage {
                AddStage::Saving(s) => AddStageView::Saving(s@),
                AddStage::Forwarding(k, a) => AddStageView::Forwarding(k as int, a@),
                AddStage::Undoing(e) => AddStageView::Undoing(e@),
            },
            done: self.done,
        }
    }
}

impl ServiceAdd {
    /// The machine is consistent with its view.
    pub closed spec fn wf(&self) -> bool {
        match self.stage {
            AddStage::Saving(s) => s.wf(),
            AddStage::Forwarding(k, a) => k < 2 && a.wf(),
            AddStage::Undoing(_) => true,
        }
    }

    /// Whether the run can be resumed with `reply`.
    pub fn accepts(&self, reply: &Reply) -> (r: bool)
        ensures
            r == self@.accepts(reply@),
    {
        if self.done {
            return false;
        }
        match &self.stage {
            AddStage::Saving(s) => s.accepts(reply),
            AddStage::Forwarding(_, a) => a.accepts(reply),
            AddStage::Undoing(_) => match reply {
                Reply::Removed(_) => true,
                _ => false,
            },
        }
    }

    fn start_protocol(&mut self, k: usize) -> (r: Step<Result<(), String>>)
        requires
            k < 2,
        ensures
            final(self).wf(),
            final(self)@ == (ServiceAddView {
                stage: AddStageView::Forwarding(
                    k as int,
                    forward_start(old(self)@.local_port, old(self)@.target_ip, old(self)@.target_port, k as int),
                ),
                ..old(self)@
            }),
            unit_step(r) == StepView::<Result<(), Seq<char>>>::Request(
                forward_start(old(self)@.local_port, old(self)@.target_ip, old(self)@.target_port, k as int).awaiting(),
            ),
    {
        let (run, step) = crate::iptables::tools::add(
            self.local_port.as_str(),
            self.target_ip.as_str(),
            self.target_port.as_str(),
            None,
            Some(service_protocol_exec(k)),
            None,
        );
        self.stage = AddStage::Forwarding(k, run);
        step
    }

    /// Resumes the run with the reply to its request.
    pub fn resume(&mut self, reply: Reply) -> (r: Step<Result<(), String>>)
        requires
            old(self).wf(),
            old(self)@.accepts(reply@),
        ensures
            final(self).wf(),
            (final(self)@, unit_step(r)) == old(self)@.after(reply@),
    {
        let mut stage = AddStage::Undoing(String::new());
        std::mem::swap(&mut stage, &mut self.stage);
        match stage {
            AddStage::Saving(mut s) => {
                let st = s.resume(reply);
                match st {
                    Step::Request(r) => {
                        self.stage = AddStage::Saving(s);
                        Step::Request(r)
                    },
                    Step::Done(Err(e)) => {
                        self.stage = AddStage::Saving(s);
                        self.done = true;
                        Step::Done(Err(e))
                    },
                    Step::Done(Ok(())) => self.start_protocol(0),
                }
            },
            AddStage::Forwarding(k, mut a) => {
                let st = a.resume(reply);
                match st {
                    Step::Request(r) => {
                        self.stage = AddStage::Forwarding(k, a);
                        Step::Request(r)
                    },
                    Step::Done(Err(e)) => {
                        let ip = self.target_ip.clone();
                        self.stage = AddStage::Undoing(e);
                        Step::Request(Request::Remove(ip))
                    },
                    Step::Done(Ok(())) => {
                        if k == 0 {
                            self.start_protocol(1)
                        } else {
                            self.stage = AddStage::Forwarding(k, a);
                            self.done = true;
                            Step::Done(Ok(()))
                        }
                    },
                }
            },
            AddStage::Undoing(e) => {
                let e2 = e.clone();
                self.stage = AddStage::Undoing(e);
                self.done = true;
                Step::Done(Err(e2))
            },
        }
    }
}

/// The position a run of `add` starts from: storing the row.
pub open spec fn service_add_start(target_ip: Seq<char>, target_port: Seq<char>, local_port: Seq<char>) -> ServiceAddView {
    ServiceAddView {
        target_ip,
        target_port,
        local_port,
        stage: AddStageView::Saving(
            saving_start(InfoView { id: None, ip: target_ip, target_port, local_port }),
        ),
        done: false,
    }
}

/// Adds a forward from `local_port` on this host to `target_ip:target_port`:
/// the row is stored first, then the rules are set up for `tcp` and `udp`;
/// when a rule fails the row is removed again.
pub fn add(target_ip: &str, target_port: &str, local_port: &str) -> (r: (ServiceAdd, Step<Result<(), String>>))
    ensures
        r.0.wf(),
        r.0@ == service_add_start(target_ip@, target_port@, local_port@),
        unit_step(r.1) == StepView::<Result<(), Seq<char>>>::Request(
            RequestView::CountIp(target_ip@),
        ),
{
    let info = Info::new(target_ip, target_port, local_port);
    let (run, step) = save(info);
    let machine = ServiceAdd {
        target_ip: String::from_str(target_ip),
        target_port: String::from_str(target_port),
        local_port: String::from_str(local_port),
        stage: AddStage::Saving(run),
        done: false,
    };
    (machine, step)
}


/// The stage of a run of `del`.
#[verifier::ext_equal]
pub enum DelStageView {
    /// Counting the stored rows of the address.
    Checking,
    /// Removing the stored rows of the address.
    Removing,
    /// Deleting the address's rules.
    Deleting(DeletingView),
}

/// Where a run of `del` stands.
#[verifier::ext_equal]
pub struct ServiceDelView {
    pub ip: Seq<char>,
    pub stage: DelStageView,
    pub done: bool,
}

impl ServiceDelView {
    /// The replies the run can be resumed with.
    pub open spec fn accepts(self, reply: ReplyView) -> bool {
        !self.done && match self.stage {
            DelStageView::Checking => reply is Count,
            DelStageView::Removing => reply is Removed,
            DelStageView::Deleting(d) => d.accepts(reply),
        }
    }

    /// The run once the rules are being deleted.
    pub open spec fn start_deleting(self) -> (ServiceDelView, StepView<Result<(), Seq<char>>>) {
        let d = deleting_start(self.ip);
        (ServiceDelView { stage: DelStageView::Deleting(d), ..self }, StepView::Request(d.awaiting()))
    }

    /// The next position and step after `reply`: a failed count ends the run
    /// with its message; stored rows of the address are removed; then the
    /// address's rules are deleted, and the run ends as that deletion does.
    pub open spec fn after(self, reply: ReplyView) -> (ServiceDelView, StepView<Result<(), Seq<char>>>) {
        match self.stage {
            DelStageView::Checking => match reply {
                ReplyView::Count(Err(e)) => (ServiceDelView { done: true, ..self }, StepView::Done(Err(e))),
                _ => if reply->Count_0->Ok_0 > 0 {
                    (ServiceDelView { stage: DelStageView::Removing, ..self }, StepView::Request(RequestView::Remove(self.ip)))
                } else {
                    self.start_deleting()
                },
            },
            DelStageView::Removing => self.start_deleting(),
            DelStageView::Deleting(d) => {
                let (d2, st) = d.after(reply);
                match st {
                    StepView::Request(r) => (ServiceDelView { stage: DelStageView::Deleting(d2), ..self }, StepView::Request(r)),
                    StepView::Done(res) => (ServiceDelView { stage: DelStageView::Deleting(d2), done: true, ..self }, StepView::Done(res)),
                }
            },
        }
    }
}

enum DelStage {
    Checking,
    Removing,
    Deleting(Deleting),
}

/// A run of `del`.
pub struct ServiceDel {
    ip: String,
    stage: DelStage,
    done: bool,
}

impl View for ServiceDel {
    type V = ServiceDelView;

    closed spec fn view(&self) -> ServiceDelView {
        ServiceDelView {
            ip: self.ip@,
            stage: match self.stage {
                DelStage::Checking => DelStageView::Checking,
                DelStage::Removing => DelStageView::Removing,
                DelStage::Deleting(d) => DelStageView::Deleting(d@),
            },
            done: self.done,
        }
    }
}

impl ServiceDel {
    /// The machine is consistent with its view.
    pub closed spec fn wf(&self) -> bool {
        match self.stage {
            DelStage::Deleting(d) => d.wf(),
            _ => true,
        }
    }

    /// Whether the run can be resumed with `reply`.
    pub fn accepts(&self, reply: &Reply) -> (r: bool)
        ensures
            r == self@.accepts(reply@),
    {
        if self.done {
            return false;
        }
        match &self.stage {
            DelStage::Checking => match reply {
                Reply::Count(_) => true,
                _ => false,
            },
            DelStage::Removing => match reply {
                Reply::Removed(_) => true,
                _ => false,
            },
            DelStage::Deleting(d) => d.accepts(reply),
        }
    }

    fn start_deleting(&mut self) -> (r: Step<Result<(), String>>)
        ensures
            final(self).wf(),
            (final(self)@, unit_step(r)) == old(self)@.start_deleting(),
    {
        let (d, step) = crate::iptables::tools::delete(self.ip.as_str());
        self.stage = DelStage::Deleting(d);
        step
    }

    /// Resumes the run with the reply to its request.
    pub fn resume(&mut self, reply: Reply) -> (r: Step<Result<(), String>>)
        requires
            old(self).wf(),
            old(self)@.accepts(reply@),
        ensures
            final(self).wf(),
            (final(self)@, unit_step(r)) == old(self)@.after(reply@),
    {
        let mut stage = DelStage::Checking;
        std::mem::swap(&mut stage, &mut self.stage);
        match stage {
            DelStage::Checking => match reply {
                Reply::Count(Ok(n)) => {
                    if n > 0 {
                        self.stage = DelStage::Removing;
                        Step::Request(Request::Remove(self.ip.clone()))
                    } else {
                        self.start_deleting()
                    }
                },
                Reply::Count(Err(e)) => {
                    self.done = true;
                    Step::Done(Err(e))
                },
                _ => {
                    self.done = true;
                    Step::Done(Ok(()))
                },
            },
            DelStage::Removing => self.start_deleting(),
            DelStage::Deleting(mut d) => {
                let st = d.resume(reply);
                self.stage = DelStage::Deleting(d);
                match st {
                    Step::Request(r) => Step::Request(r),
                    Step::Done(res) => {
                        self.done = true;
                        Step::Done(res)
                    },
                }
            },
        }
    }
}

/// The position a run of `del` starts from: counting the address's rows.
pub open spec fn service_del_start(ip: Seq<char>) -> ServiceDelView {
    ServiceDelView { ip, stage: DelStageView::Checking, done: false }
}

/// Deletes the forward to `ip`: a failed count of its stored rows ends the
/// run with the count's message; its stored rows are removed when there are
/// any; then all its rules are deleted (see `tools::delete`).
pub fn del(ip: &str) -> (r: (ServiceDel, Step<Result<(), String>>))
    ensures
        r.0.wf(),
        r.0@ == service_del_start(ip@),
        unit_step(r.1) == StepView::<Result<(), Seq<char>>>::Request(RequestView::CountIp(ip@)),
{
    let machine = ServiceDel { ip: String::from_str(ip), stage: DelStage::Checking, done: false };
    (machine, Step::Request(Request::CountIp(String::from_str(ip))))
}


/// The view of a traffic query's result.
pub open spec fn traffic_result(r: Result<Traffic, String>) -> Result<Traffic, Seq<char>> {
    match r {
        Ok(t) => Ok(t),
        Err(e) => Err(e@),
    }
}

/// The view of a step of a traffic query.
pub open spec fn traffic_step(s: Step<Result<Traffic, String>>) -> StepView<Result<Traffic, Seq<char>>> {
    match s {
        Step::Request(r) => StepView::Request(r@),
        Step::Done(r) => StepView::Done(traffic_result(r)),
    }
}

/// The answer to a traffic query for an address that is not stored.
pub open spec fn no_match_message() -> Seq<char> {
    "No matching IP found"@
}

/// Where a run of `traffic` stands.
#[verifier::ext_equal]
pub struct ServiceTrafficView {
    pub ip: Seq<char>,
    /// The FORWARD listing is awaited (else the count of stored rows).
    pub listing: bool,
    pub done: bool,
}

impl ServiceTrafficView {
    /// The replies the run can be resumed with: a count first, then a
    /// listing that can be read for the address (any other stops the
    /// program).
    pub open spec fn accepts(self, reply: ReplyView) -> bool {
        !self.done && if self.listing {
            reply matches ReplyView::Output(Ok(lines)) && listing_readable(lines, self.ip)
        } else {
            reply is Count
        }
    }

    /// The next position and step after `reply`: a failed count ends the run
    /// with its message, an address with no stored row with `No matching IP
    /// found`; a stored address has the FORWARD chain listed, and the run
    /// ends with the totals read from it.
    pub open spec fn after(self, reply: ReplyView) -> (ServiceTrafficView, StepView<Result<Traffic, Seq<char>>>) {
        if self.listing {
            let lines = reply->Output_0->Ok_0;
            (
                ServiceTrafficView { done: true, ..self },
                StepView::Done(
                    Ok(
                        Traffic {
                            up: traffic_totals(lines, self.ip).0 as u64,
                            down: traffic_totals(lines, self.ip).1 as u64,
                        },
                    ),
                ),
            )
        } else {
            match reply {
                ReplyView::Count(Err(e)) => (ServiceTrafficView { done: true, ..self }, StepView::Done(Err(e))),
                _ => if reply->Count_0->Ok_0 > 0 {
                    (
                        ServiceTrafficView { listing: true, ..self },
                        StepView::Request(RequestView::Command(traffic_listing_command())),
                    )
                } else {
                    (ServiceTrafficView { done: true, ..self }, StepView::Done(Err(no_match_message())))
                },
            }
        }
    }
}

/// A run of `traffic`.
pub struct ServiceTraffic {
    ip: String,
    listing: bool,
    done: bool,
}

impl View for ServiceTraffic {
    type V = ServiceTrafficView;

    closed spec fn view(&self) -> ServiceTrafficView {
        ServiceTrafficView { ip: self.ip@, listing: self.listing, done: self.done }
    }
}

impl ServiceTraffic {
    /// Whether the run can be resumed with `reply`.
    pub fn accepts(&self, reply: &Reply) -> (r: bool)
        ensures
            r == self@.accepts(reply@),
    {
        if self.done {
            return false;
        }
        if self.listing {
            match reply {
                Reply::Output(Ok(lines)) => traffic_readable(lines, self.ip.as_str()),
                _ => false,
            }
        } else {
            match reply {
                Reply::Count(_) => true,
                _ => false,
            }
        }
    }

    /// Resumes the run with the reply to its request.
    pub fn resume(&mut self, reply: Reply) -> (r: Step<Result<Traffic, String>>)
        requires
            old(self)@.accepts(reply@),
        ensures
            (final(self)@, traffic_step(r)) == old(self)@.after(reply@),
    {
        if self.listing {
            self.done = true;
            match reply {
                Reply::Output(Ok(lines)) => Step::Done(crate::iptables::tools::traffic(self.ip.as_str(), &lines)),
                _ => Step::Done(Ok(Traffic { up: 0, down: 0 })),
            }
        } else {
            match reply {
                Reply::Count(Ok(n)) => {
                    if n > 0 {
                        self.listing = true;
                        Step::Request(Request::Command(traffic_listing()))
                    } else {
                        self.done = true;
                        Step::Done(Err(String::from_str("No matching IP found")))
                    }
                },
                Reply::Count(Err(e)) => {
                    self.done = true;
                    Step::Done(Err(e))
                },
                _ => {
                    self.done = true;
                    Step::Done(Ok(Traffic { up: 0, down: 0 }))
                },
            }
        }
    }
}

/// The position a run of `traffic` starts from: counting the address's rows.
pub open spec fn service_traffic_start(ip: Seq<char>) -> ServiceTrafficView {
    ServiceTrafficView { ip, listing: false, done: false }
}

/// Queries the traffic of the forward to `ip`: refused with `No matching IP
/// found` when no row of it is stored, else read from the FORWARD listing
/// (see `tools::traffic`).
pub fn traffic(ip: &str) -> (r: (ServiceTraffic, Step<Result<Traffic, String>>))
    ensures
        r.0@ == service_traffic_start(ip@),
        traffic_step(r.1) == StepView::<Result<Traffic, Seq<char>>>::Request(RequestView::CountIp(ip@)),
{
    let machine = ServiceTraffic { ip: String::from_str(ip), listing: false, done: false };
    (machine, Step::Request(Request::CountIp(String::from_str(ip))))
}

/// The view of a step of the listing of forwards.
pub open spec fn list_step(s: Step<Option<Host>>) -> StepView<Option<Seq<InfoView>>> {
    match s {
        Step::Request(r) => StepView::Request(r@),
        Step::Done(Some(h)) => StepView::Done(Some(h@)),
        Step::Done(None) => StepView::Done(None),
    }
}

/// A run of `list`.
pub struct ServiceList {
    done: bool,
}

impl View for ServiceList {
    type V = bool;

    /// The run has given its result.
    closed spec fn view(&self) -> bool {
        self.done
    }
}

impl ServiceList {
    /// Whether the run can be resumed with `reply`: the stored rows, once.
    pub fn accepts(&self, reply: &Reply) -> (r: bool)
        ensures
            r == (!self@ && reply@ is Hosts),
    {
        !self.done && match reply {
            Reply::Hosts(_) => true,
            _ => false,
        }
    }

    /// Resumes the run with the stored rows: they are the result.
    pub fn resume(&mut self, reply: Reply) -> (r: Step<Option<Host>>)
        requires
            !old(self)@,
            reply@ is Hosts,
        ensures
            final(self)@,
            list_step(r) == StepView::<Option<Seq<InfoView>>>::Done(Some(reply@->Hosts_0)),
    {
        self.done = true;
        match reply {
            Reply::Hosts(h) => Step::Done(Some(h)),
            _ => Step::Done(None),
        }
    }
}

/// Lists the stored forwards: they are read from the forward table.
pub fn list() -> (r: (ServiceList, Step<Option<Host>>))
    ensures
        !r.0@,
        list_step(r.1) == StepView::<Option<Seq<InfoView>>>::Request(RequestView::ListHosts),
{
    (ServiceList { done: false }, Step::Request(Request::ListHosts))
}


/// The stage of a run of `rebuild`.
#[verifier::ext_equal]
pub enum RebuildStageView {
    /// Reading the stored rows.
    Listing,
    /// Setting up the rules of row `i` for protocol `k`.
    Forwarding(int, int, AddingView),
    /// Printing the failure of row `i` for protocol `k`.
    Reporting(int, int),
}

/// Where a run of `rebuild` stands.
#[verifier::ext_equal]
pub struct ServiceRebuildView {
    pub hosts: Seq<InfoView>,
    pub stage: RebuildStageView,
    pub done: bool,
}

/// The line printed when the rules of a row fail.
pub open spec fn failure_line(ip: Seq<char>, e: Seq<char>) -> Seq<char> {
    ip + ": "@ + e
}

impl ServiceRebuildView {
    /// The replies the run can be resumed with.
    pub open spec fn accepts(self, reply: ReplyView) -> bool {
        !self.done && match self.stage {
            RebuildStageView::Listing => reply is Hosts,
            RebuildStageView::Forwarding(_, _, a) => a.accepts(reply),
            RebuildStageView::Reporting(_, _) => reply is Printed,
        }
    }

    /// The run set to the rules of row `i` for protocol `k`.
    pub open spec fn forward(self, i: int, k: int) -> (ServiceRebuildView, StepView<Result<(), Seq<char>>>) {
        let h = self.hosts[i];
        let a = forward_start(h.local_port, h.ip, h.target_port, k);
        (ServiceRebuildView { stage: RebuildStageView::Forwarding(i, k, a), ..self }, StepView::Request(a.awaiting()))
    }

    /// The run after row `i` was handled for protocol `k`: the next protocol,
    /// else the next row, else the end.
    pub open spec fn advance(self, i: int, k: int) -> (ServiceRebuildView, StepView<Result<(), Seq<char>>>) {
        if k == 0 {
            self.forward(i, 1)
        } else if i < self.hosts.len() - 1 {
            self.forward(i + 1, 0)
        } else {
            (ServiceRebuildView { done: true, ..self }, StepView::Done(Ok(())))
        }
    }

    /// The next position and step after `reply`: every stored row has its
    /// rules set up for `tcp` and then `udp`; a failure is printed as
    /// `<ip>: <message>` and the run goes on; it always ends well.
    pub open spec fn after(self, reply: ReplyView) -> (ServiceRebuildView, StepView<Result<(), Seq<char>>>) {
        match self.stage {
            RebuildStageView::Listing => {
                let v = ServiceRebuildView { hosts: reply->Hosts_0, ..self };
                if v.hosts.len() == 0 {
                    (ServiceRebuildView { done: true, ..v }, StepView::Done(Ok(())))
                } else {
                    v.forward(0, 0)
                }
            },
            RebuildStageView::Forwarding(i, k, a) => {
                let (a2, st) = a.after(reply);
                match st {
                    StepView::Request(r) => (
                        ServiceRebuildView { stage: RebuildStageView::Forwarding(i, k, a2), ..self },
                        StepView::Request(r),
                    ),
                    StepView::Done(Err(e)) => (
                        ServiceRebuildView { stage: RebuildStageView::Reporting(i, k), ..self },
                        StepView::Request(RequestView::Print(failure_line(self.hosts[i].ip, e))),
                    ),
                    StepView::Done(Ok(())) => ServiceRebuildView {
                        stage: RebuildStageView::Forwarding(i, k, a2),
                        ..self
                    }.advance(i, k),
                }
            },
            RebuildStageView::Reporting(i, k) => self.advance(i, k),
        }
    }
}

enum RebuildStage {
    Listing,
    Forwarding(usize, usize, Adding),
    Reporting(usize, usize),
}

/// A run of `rebuild`.
pub struct ServiceRebuild {
    hosts: Vec<Info>,
    stage: RebuildStage,
    done: bool,
}

impl View for ServiceRebuild {
    type V = ServiceRebuildView;

    closed spec fn view(&self) -> ServiceRebuildView {
        ServiceRebuildView {
            hosts: self.hosts@.map_values(|i: Info| i@),
            stage: match self.stage {
                RebuildStage::Listing => RebuildStageView::Listing,
                RebuildStage::Forwarding(i, k, a) => RebuildStageView::Forwarding(i as int, k as int, a@),
                RebuildStage::Reporting(i, k) => RebuildStageView::Reporting(i as int, k as int),
            },
            done: self.done,
        }
    }
}

impl ServiceRebuild {
    /// The machine is consistent with its view.
    pub closed spec fn wf(&self) -> bool {
        match self.stage {
            RebuildStage::Listing => true,
            RebuildStage::Forwarding(i, k, a) => i < self.hosts@.len() && k < 2 && a.wf(),
            RebuildStage::Reporting(i, k) => i < self.hosts@.len() && k < 2,
        }
    }

    /// Whether the run can be resumed with `reply`.
    pub fn accepts(&self, reply: &Reply) -> (r: bool)
        ensures
            r == self@.accepts(reply@),
    {
        if self.done {
            return false;
        }
        match &self.stage {
            RebuildStage::Listing => match reply {
                Reply::Hosts(_) => true,
                _ => false,
            },
            RebuildStage::Forwarding(_, _, a) => a.accepts(reply),
            RebuildStage::Reporting(_, _) => match reply {
                Reply::Printed => true,
                _ => false,
            },
        }
    }

    fn forward(&mut self, i: usize, k: usize) -> (r: Step<Result<(), String>>)
        requires
            i < old(self).hosts@.len(),
            k < 2,
        ensures
            final(self).wf(),
            (final(self)@, unit_step(r)) == old(self)@.forward(i as int, k as int),
    {
        let h = &self.hosts[i];
        let (run, step) = crate::iptables::tools::add(
            h.local_port.as_str(),
            h.ip.as_str(),
            h.target_port.as_str(),
            None,
            Some(service_protocol_exec(k)),
            None,
        );
        self.stage = RebuildStage::Forwarding(i, k, run);
        step
    }

    fn advance(&mut self, i: usize, k: usize) -> (r: Step<Result<(), String>>)
        requires
            old(self).wf(),
            i < old(self).hosts@.len(),
            k < 2,
        ensures
            final(self).wf(),
            (final(self)@, unit_step(r)) == old(self)@.advance(i as int, k as int),
    {
        if k == 0 {
            self.forward(i, 1)
        } else if i < self.hosts.len() - 1 {
            self.forward(i + 1, 0)
        } else {
            self.done = true;
            Step::Done(Ok(()))
        }
    }

    /// Resumes the run with the reply to its request.
    pub fn resume(&mut self, reply: Reply) -> (r: Step<Result<(), String>>)
        requires
            old(self).wf(),
            old(self)@.accepts(reply@),
        ensures
            final(self).wf(),
            (final(self)@, unit_step(r)) == old(self)@.after(reply@),
    {
        let mut stage = RebuildStage::Listing;
        std::mem::swap(&mut stage, &mut self.stage);
        match stage {
            RebuildStage::Listing => {
                match reply {
                    Reply::Hosts(h) => {
                        self.hosts = h.list;
                        assert(self@.hosts =~= reply@->Hosts_0);
                    },
                    _ => {},
                }
                assert(self@.hosts.len() == self.hosts@.len());
                if self.hosts.len() == 0 {
                    self.done = true;
                    Step::Done(Ok(()))
                } else {
                    self.forward(0, 0)
                }
            },
            RebuildStage::Forwarding(i, k, mut a) => {
                let st = a.resume(reply);
                match st {
                    Step::Request(r) => {
                        self.stage = RebuildStage::Forwarding(i, k, a);
                        Step::Request(r)
                    },
                    Step::Done(Err(e)) => {
                        let mut line = self.hosts[i].ip.clone();
                        line.append(": ");
                        line.append(e.as_str());
                        self.stage = RebuildStage::Reporting(i, k);
                        Step::Request(Request::Print(line))
                    },
                    Step::Done(Ok(())) => {
                        self.stage = RebuildStage::Forwarding(i, k, a);
                        self.advance(i, k)
                    },
                }
            },
            RebuildStage::Reporting(i, k) => {
                self.stage = RebuildStage::Reporting(i, k);
                self.advance(i, k)
            },
        }
    }
}

/// Sets the rules of every stored forward up again, for `tcp` and `udp`;
/// failures are printed and do not stop it.
pub fn rebuild() -> (r: (ServiceRebuild, Step<Result<(), String>>))
    ensures
        r.0.wf(),
        r.0@ == (ServiceRebuildView { hosts: Seq::empty(), stage: RebuildStageView::Listing, done: false }),
        unit_step(r.1) == StepView::<Result<(), Seq<char>>>::Request(RequestView::ListHosts),
{
    let machine = ServiceRebuild { hosts: Vec::new(), stage: RebuildStage::Listing, done: false };
    assert(machine@.hosts =~= Seq::<InfoView>::empty());
    (machine, Step::Request(Request::ListHosts))
}


/// The `ip:port` form of a target: exactly one `:`.
pub open spec fn target_parts(target: Seq<char>) -> Option<(Seq<char>, Seq<char>)> {
    let pieces = split_on(target, ':');
    if pieces.len() == 2 {
        Some((pieces[0], pieces[1]))
    } else {
        None
    }
}

/// Splits a target written `ip:port` into its address and port; `None` when
/// it does not hold exactly one `:`.
pub fn parse_target(target: &str) -> (r: Option<(String, String)>)
    ensures
        match r {
            Some((ip, port)) => target_parts(target@) == Some((ip@, port@)),
            None => target_parts(target@) is None,
        },
{
    let mut pieces = split(target, ':');
    assert(views(pieces@).len() == pieces@.len());
    if pieces.len() != 2 {
        return None;
    }
    let port = pieces.remove(1);
    let ip = pieces.remove(0);
    Some((ip, port))
}


impl Machine for ServiceAddView {
    type Out = Result<(), Seq<char>>;

    open spec fn next_of(self, reply: ReplyView) -> (ServiceAddView, StepView<Result<(), Seq<char>>>) {
        self.after(reply)
    }
}

/// Replies that let a forward's rules for one protocol all go through: this
/// host's address, then four successful commands.
pub open spec fn rules_replies(host_ip: Seq<char>, outputs: Seq<Seq<Seq<char>>>) -> Seq<ReplyView> {
    seq![
        ReplyView::Address(Some(host_ip)),
        ReplyView::Output(Ok(outputs[0])),
        ReplyView::Output(Ok(outputs[1])),
        ReplyView::Output(Ok(outputs[2])),
        ReplyView::Output(Ok(outputs[3])),
    ]
}

/// A forward's rules for protocol `k`, set up inside another run that runs
/// them (see `lifts`) and answered with `rules_replies`: the four rules are
/// asked for in turn, the last reply ends the rules' run well, and that reply
/// is given to the other run where the rules' run then stands.
proof fn lemma_rules_inside<M: Machine>(
    wrap: spec_fn(AddingView) -> M,
    local_port: Seq<char>,
    target_ip: Seq<char>,
    target_port: Seq<char>,
    k: int,
    host_ip: Seq<char>,
    outputs: Seq<Seq<Seq<char>>>,
)
    requires
        0 <= k < 2,
        outputs.len() == 4,
        forall|x: AddingView, r: ReplyView| #[trigger] lifts(x, wrap, r),
    ensures
        ({
            let a = forward_start(local_port, target_ip, target_port, k);
            let rs = rules_replies(host_ip, outputs);
            let a1 = drive(a, rs.subrange(0, 4)).0;
            let d = drive(wrap(a1), rs.subrange(4, 5));
            let rules = forward_rules(local_port, target_ip, target_port, None, Some(service_protocol(k)), host_ip);
            &&& a1.after(rs[4]).1 == StepView::<Result<(), Seq<char>>>::Done(Ok(()))
            &&& drive(wrap(a), rs) == (d.0, as_commands(rules) + d.1, d.2)
        }),
{
    let a = forward_start(local_port, target_ip, target_port, k);
    let rs = rules_replies(host_ip, outputs);
    let first = rs.subrange(0, 4);
    let last = rs.subrange(4, 5);
    assert(rs =~= first + last);
    reveal_with_fuel(drive, 5);
    assert(first.drop_first().drop_first().drop_first().drop_first().len() == 0);
    assert(drive(a, first).2 is None);
    lemma_drive_lift(a, wrap, first);
    lemma_drive_concat(wrap(a), first, last);
    let rules = forward_rules(local_port, target_ip, target_port, None, Some(service_protocol(k)), host_ip);
    assert(drive(a, first).1 =~= as_commands(rules));
    assert(last[0] == rs[4]);
}

proof fn lemma_rules_pass(sv: ServiceAddView, k: int, host_ip: Seq<char>, outputs: Seq<Seq<Seq<char>>>)
    requires
        0 <= k < 2,
        !sv.done,
        outputs.len() == 4,
        sv.stage == AddStageView::Forwarding(
            k,
            forward_start(sv.local_port, sv.target_ip, sv.target_port, k),
        ),
    ensures
        ({
            let rules = forward_rules(
                sv.local_port,
                sv.target_ip,
                sv.target_port,
                None,
                Some(service_protocol(k)),
                host_ip,
            );
            let d = drive(sv, rules_replies(host_ip, outputs));
            &&& d.1 == as_commands(rules) + (if k == 0 {
                seq![RequestView::LocalIp]
            } else {
                Seq::<RequestView>::empty()
            })
            &&& (k == 0 ==> d.2 is None && d.0 == ServiceAddView {
                stage: AddStageView::Forwarding(1, forward_start(sv.local_port, sv.target_ip, sv.target_port, 1)),
                ..sv
            })
            &&& (k == 1 ==> d.2 == Some(Ok::<(), Seq<char>>(())))
        }),
{
    let wrap = |x: AddingView| ServiceAddView { stage: AddStageView::Forwarding(k, x), ..sv };
    assert forall|x: AddingView, r: ReplyView| #[trigger] lifts(x, wrap, r) by {}
    lemma_rules_inside(wrap, sv.local_port, sv.target_ip, sv.target_port, k, host_ip, outputs);
    let a = forward_start(sv.local_port, sv.target_ip, sv.target_port, k);
    assert(wrap(a) == sv);
    let rs = rules_replies(host_ip, outputs);
    let last = rs.subrange(4, 5);
    let sv1 = wrap(drive(a, rs.subrange(0, 4)).0);
    reveal_with_fuel(drive, 2);
    assert(last.drop_first().len() == 0);
    if k == 0 {
        assert(drive(sv1, last).1 =~= seq![RequestView::LocalIp]);
    } else {
        assert(drive(sv1, last).1 =~= Seq::<RequestView>::empty());
    }
}

/// Adding a forward stores its row first, then sets up its four rules for
/// `tcp`, then for `udp`, asking for this host's address before each set;
/// when all of it goes through, the run ends well.
pub proof fn add_stores_then_sets_up_tcp_and_udp(
    target_ip: Seq<char>,
    target_port: Seq<char>,
    local_port: Seq<char>,
    tcp_host: Seq<char>,
    udp_host: Seq<char>,
    tcp_outputs: Seq<Seq<Seq<char>>>,
    udp_outputs: Seq<Seq<Seq<char>>>,
)
    requires
        tcp_outputs.len() == 4,
        udp_outputs.len() == 4,
    ensures
        ({
            let start = service_add_start(target_ip, target_port, local_port);
            let replies = seq![ReplyView::Count(Ok(0)), ReplyView::Count(Ok(0)), ReplyView::Stored]
                + rules_replies(tcp_host, tcp_outputs) + rules_replies(udp_host, udp_outputs);
            let row = InfoView { id: None, ip: target_ip, target_port, local_port };
            let tcp = forward_rules(local_port, target_ip, target_port, None, Some("tcp"@), tcp_host);
            let udp = forward_rules(local_port, target_ip, target_port, None, Some("udp"@), udp_host);
            &&& drive(start, replies).1 == seq![
                RequestView::CountLocalPort(local_port),
                RequestView::Insert(row),
                RequestView::LocalIp,
            ] + as_commands(tcp) + seq![RequestView::LocalIp] + as_commands(udp)
            &&& drive(start, replies).2 == Some(Ok::<(), Seq<char>>(()))
        }),
{
    let start = service_add_start(target_ip, target_port, local_port);
    let saves = seq![ReplyView::Count(Ok(0)), ReplyView::Count(Ok(0)), ReplyView::Stored];
    let tcp_r = rules_replies(tcp_host, tcp_outputs);
    let udp_r = rules_replies(udp_host, udp_outputs);
    reveal_with_fuel(drive, 4);
    assert(saves.drop_first() =~= seq![ReplyView::Count(Ok(0)), ReplyView::Stored]);
    assert(saves.drop_first().drop_first() =~= seq![ReplyView::Stored]);
    let s1 = drive(start, saves).0;
    assert(s1 == ServiceAddView {
        stage: AddStageView::Forwarding(0, forward_start(local_port, target_ip, target_port, 0)),
        ..start
    });
    lemma_rules_pass(s1, 0, tcp_host, tcp_outputs);
    let s2 = drive(s1, tcp_r).0;
    lemma_rules_pass(s2, 1, udp_host, udp_outputs);
    lemma_drive_concat(start, saves, tcp_r);
    lemma_drive_concat(start, saves + tcp_r, udp_r);
    let row = InfoView { id: None, ip: target_ip, target_port, local_port };
    assert(drive(start, saves).1 =~= seq![
        RequestView::CountLocalPort(local_port),
        RequestView::Insert(row),
        RequestView::LocalIp,
    ]);
    let tcp = forward_rules(local_port, target_ip, target_port, None, Some("tcp"@), tcp_host);
    let udp = forward_rules(local_port, target_ip, target_port, None, Some("udp"@), udp_host);
    assert(drive(start, saves + tcp_r + udp_r).1 =~= seq![
        RequestView::CountLocalPort(local_port),
        RequestView::Insert(row),
        RequestView::LocalIp,
    ] + as_commands(tcp) + seq![RequestView::LocalIp] + as_commands(udp));
}

/// A row that cannot be stored sets up no rule: a stored address ends the
/// run with `IP already exists`, a used local port with its own refusal,
/// before any command is run.
pub proof fn add_refused_sets_up_nothing(
    target_ip: Seq<char>,
    target_port: Seq<char>,
    local_port: Seq<char>,
    n: usize,
    m: usize,
)
    requires
        n > 0,
        m > 0,
    ensures
        ({
            let start = service_add_start(target_ip, target_port, local_port);
            &&& drive(start, seq![ReplyView::Count(Ok(n))]).1 == Seq::<RequestView>::empty()
            &&& drive(start, seq![ReplyView::Count(Ok(n))]).2 == Some(Err::<(), Seq<char>>(ip_taken_message()))
            &&& drive(start, seq![ReplyView::Count(Ok(0)), ReplyView::Count(Ok(m))]).1 == seq![
                RequestView::CountLocalPort(local_port),
            ]
            &&& drive(start, seq![ReplyView::Count(Ok(0)), ReplyView::Count(Ok(m))]).2 == Some(
                Err::<(), Seq<char>>(port_taken_message()),
            )
        }),
{
    let start = service_add_start(target_ip, target_port, local_port);
    reveal_with_fuel(drive, 3);
    let a = seq![ReplyView::Count(Ok(0)), ReplyView::Count(Ok(m))];
    assert(a.drop_first() =~= seq![ReplyView::Count(Ok(m))]);
    assert(drive(start, a).1 =~= seq![RequestView::CountLocalPort(local_port)]);
}

/// Whenever a rule of a stored forward fails, the run removes the forward's
/// row and then ends with the rule's message.
pub proof fn add_failure_removes_row(sv: ServiceAddView, e: Seq<char>, removed: bool)
    requires
        sv.stage is Forwarding,
        !sv.done,
    ensures
        sv.after(ReplyView::Output(Err(e))).1 == StepView::<Result<(), Seq<char>>>::Request(
            RequestView::Remove(sv.target_ip),
        ),
        sv.after(ReplyView::Output(Err(e))).0.after(ReplyView::Removed(removed)).1 == StepView::<
            Result<(), Seq<char>>,
        >::Done(Err(e)),
{
}


impl Machine for ServiceDelView {
    type Out = Result<(), Seq<char>>;

    open spec fn next_of(self, reply: ReplyView) -> (ServiceDelView, StepView<Result<(), Seq<char>>>) {
        self.after(reply)
    }
}

impl Machine for ServiceTrafficView {
    type Out = Result<Traffic, Seq<char>>;

    open spec fn next_of(self, reply: ReplyView) -> (ServiceTrafficView, StepView<Result<Traffic, Seq<char>>>) {
        self.after(reply)
    }
}

impl Machine for ServiceRebuildView {
    type Out = Result<(), Seq<char>>;

    open spec fn next_of(self, reply: ReplyView) -> (ServiceRebuildView, StepView<Result<(), Seq<char>>>) {
        self.after(reply)
    }
}

/// Deleting a forward removes its stored rows when there are any, and then
/// deletes its rules, starting with the FORWARD chain; when there are none,
/// the rules are deleted all the same. A failed count ends the run with the
/// count's message before anything is removed.
pub proof fn del_removes_row_then_rules(ip: Seq<char>, n: usize, removed: bool, e: Seq<char>)
    requires
        n > 0,
    ensures
        drive(service_del_start(ip), seq![ReplyView::Count(Ok(n)), ReplyView::Removed(removed)]).1 == seq![
            RequestView::Remove(ip),
            RequestView::Command(list_rules_command(ChainType::FORWARD)),
        ],
        drive(service_del_start(ip), seq![ReplyView::Count(Ok(0))]).1 == seq![
            RequestView::Command(list_rules_command(ChainType::FORWARD)),
        ],
        drive(service_del_start(ip), seq![ReplyView::Count(Err(e))]).1 == Seq::<RequestView>::empty(),
        drive(service_del_start(ip), seq![ReplyView::Count(Err(e))]).2 == Some(Err::<(), Seq<char>>(e)),
{
    reveal_with_fuel(drive, 3);
    let a = seq![ReplyView::Count(Ok(n)), ReplyView::Removed(removed)];
    assert(a.drop_first() =~= seq![ReplyView::Removed(removed)]);
    assert(drive(service_del_start(ip), a).1 =~= seq![
        RequestView::Remove(ip),
        RequestView::Command(list_rules_command(ChainType::FORWARD)),
    ]);
    assert(drive(service_del_start(ip), seq![ReplyView::Count(Ok(0))]).1 =~= seq![
        RequestView::Command(list_rules_command(ChainType::FORWARD)),
    ]);
}

/// Querying the traffic of an address with no stored row is refused with
/// `No matching IP found` before iptables is asked anything; for a stored
/// address the FORWARD chain is listed and the answer is the totals read
/// from that listing.
pub proof fn traffic_only_for_stored(ip: Seq<char>, n: usize, lines: Seq<Seq<char>>)
    requires
        n > 0,
    ensures
        drive(service_traffic_start(ip), seq![ReplyView::Count(Ok(0))]).1 == Seq::<RequestView>::empty(),
        drive(service_traffic_start(ip), seq![ReplyView::Count(Ok(0))]).2 == Some(
            Err::<Traffic, Seq<char>>(no_match_message()),
        ),
        drive(service_traffic_start(ip), seq![ReplyView::Count(Ok(n)), ReplyView::Output(Ok(lines))]).1
            == seq![RequestView::Command(traffic_listing_command())],
        drive(service_traffic_start(ip), seq![ReplyView::Count(Ok(n)), ReplyView::Output(Ok(lines))]).2
            == Some(
            Ok::<Traffic, Seq<char>>(
                Traffic {
                    up: traffic_totals(lines, ip).0 as u64,
                    down: traffic_totals(lines, ip).1 as u64,
                },
            ),
        ),
{
    reveal_with_fuel(drive, 3);
    let a = seq![ReplyView::Count(Ok(n)), ReplyView::Output(Ok(lines))];
    assert(a.drop_first() =~= seq![ReplyView::Output(Ok(lines))]);
    assert(drive(service_traffic_start(ip), a).1 =~= seq![RequestView::Command(traffic_listing_command())]);
}

/// Rebuilding never ends with an error: failures of single rules are printed
/// and the run goes on.
pub proof fn rebuild_never_fails(v: ServiceRebuildView, reply: ReplyView)
    ensures
        v.after(reply).1 is Done ==> v.after(reply).1 == StepView::<Result<(), Seq<char>>>::Done(Ok(())),
{
}


/// A target written as an address and a port joined by one `:` (neither
/// holding a `:`) is read back as that address and port.
pub proof fn target_round_trip(ip: Seq<char>, port: Seq<char>)
    requires
        free_of(ip, ':'),
        free_of(port, ':'),
    ensures
        target_parts(ip + seq![':'] + port) == Some((ip, port)),
{
    split_joined(ip, port, ':');
}

/// Four command outputs with no lines.
pub open spec fn quiet_outputs() -> Seq<Seq<Seq<char>>> {
    seq![Seq::empty(), Seq::empty(), Seq::empty(), Seq::empty()]
}

/// The replies that let every stored row have its `tcp` and `udp` rules go
/// through, for the first `n` rows, with this host's address `host_ip`.
pub open spec fn rebuild_replies(n: nat, host_ip: Seq<char>) -> Seq<ReplyView>
    decreases n,
{
    if n == 0 {
        Seq::empty()
    } else {
        rebuild_replies((n - 1) as nat, host_ip) + rules_replies(host_ip, quiet_outputs()) + rules_replies(
            host_ip,
            quiet_outputs(),
        )
    }
}

/// The requests that set up one row's rules: the host's address, the `tcp`
/// rules, the host's address again, the `udp` rules.
pub open spec fn row_requests(row: InfoView, host_ip: Seq<char>) -> Seq<RequestView> {
    seq![RequestView::LocalIp] + as_commands(
        forward_rules(row.local_port, row.ip, row.target_port, None, Some(service_protocol(0)), host_ip),
    ) + seq![RequestView::LocalIp] + as_commands(
        forward_rules(row.local_port, row.ip, row.target_port, None, Some(service_protocol(1)), host_ip),
    )
}

/// The requests that set up the rules of all rows, in table order.
pub open spec fn rebuild_requests(rows: Seq<InfoView>, host_ip: Seq<char>) -> Seq<RequestView>
    decreases rows.len(),
{
    if rows.len() == 0 {
        Seq::empty()
    } else {
        rebuild_requests(rows.drop_last(), host_ip) + row_requests(rows.last(), host_ip)
    }
}

/// The run set to the rules of row `i` for protocol `k`, from its start.
pub open spec fn rebuild_at(rows: Seq<InfoView>, i: int, k: int) -> ServiceRebuildView {
    ServiceRebuildView {
        hosts: rows,
        stage: RebuildStageView::Forwarding(
            i,
            k,
            forward_start(rows[i].local_port, rows[i].ip, rows[i].target_port, k),
        ),
        done: false,
    }
}

proof fn lemma_rebuild_protocol(rows: Seq<InfoView>, i: int, k: int, host_ip: Seq<char>)
    requires
        0 <= i < rows.len(),
        0 <= k < 2,
    ensures
        ({
            let row = rows[i];
            let rules = forward_rules(
                row.local_port,
                row.ip,
                row.target_port,
                None,
                Some(service_protocol(k)),
                host_ip,
            );
            let d = drive(rebuild_at(rows, i, k), rules_replies(host_ip, quiet_outputs()));
            &&& k == 0 ==> d == (rebuild_at(rows, i, 1), as_commands(rules) + seq![RequestView::LocalIp], None::<Result<(), Seq<char>>>)
            &&& (k == 1 && i + 1 < rows.len()) ==> d == (
                rebuild_at(rows, i + 1, 0),
                as_commands(rules) + seq![RequestView::LocalIp],
                None::<Result<(), Seq<char>>>,
            )
            &&& (k == 1 && i + 1 == rows.len()) ==> d.1 == as_commands(rules) && d.2 == Some(Ok::<(), Seq<char>>(()))
        }),
{
    let sv = rebuild_at(rows, i, k);
    let row = rows[i];
    let wrap = |x: AddingView| ServiceRebuildView { stage: RebuildStageView::Forwarding(i, k, x), ..sv };
    assert forall|x: AddingView, r: ReplyView| #[trigger] lifts(x, wrap, r) by {}
    lemma_rules_inside(wrap, row.local_port, row.ip, row.target_port, k, host_ip, quiet_outputs());
    let a = forward_start(row.local_port, row.ip, row.target_port, k);
    assert(wrap(a) == sv);
    let rs = rules_replies(host_ip, quiet_outputs());
    let last = rs.subrange(4, 5);
    let sv1 = wrap(drive(a, rs.subrange(0, 4)).0);
    reveal_with_fuel(drive, 2);
    assert(last.drop_first().len() == 0);
    if k == 0 {
        assert(drive(sv1, last).1 =~= seq![RequestView::LocalIp]);
    } else if i + 1 < rows.len() {
        assert(drive(sv1, last).1 =~= seq![RequestView::LocalIp]);
    } else {
        assert(drive(sv1, last).1 =~= Seq::<RequestView>::empty());
    }
}

proof fn lemma_rebuild_rows(rows: Seq<InfoView>, i: int, host_ip: Seq<char>)
    requires
        0 < i <= rows.len(),
    ensures
        ({
            let start = ServiceRebuildView { hosts: Seq::empty(), stage: RebuildStageView::Listing, done: false };
            let d = drive(start, seq![ReplyView::Hosts(rows)] + rebuild_replies(i as nat, host_ip));
            &&& i < rows.len() ==> d == (
                rebuild_at(rows, i, 0),
                rebuild_requests(rows.take(i), host_ip) + seq![RequestView::LocalIp],
                None::<Result<(), Seq<char>>>,
            )
            &&& i == rows.len() ==> d.1 == rebuild_requests(rows, host_ip) && d.2 == Some(Ok::<(), Seq<char>>(()))
        }),
    decreases i,
{
    let start = ServiceRebuildView { hosts: Seq::empty(), stage: RebuildStageView::Listing, done: false };
    let h = seq![ReplyView::Hosts(rows)];
    let rr = rules_replies(host_ip, quiet_outputs());
    let row = rows[i - 1];
    let tcp = as_commands(forward_rules(row.local_port, row.ip, row.target_port, None, Some(service_protocol(0)), host_ip));
    let udp = as_commands(forward_rules(row.local_port, row.ip, row.target_port, None, Some(service_protocol(1)), host_ip));
    let before = if i == 1 {
        seq![RequestView::LocalIp]
    } else {
        rebuild_requests(rows.take(i - 1), host_ip) + seq![RequestView::LocalIp]
    };
    // Where the run stands when row `i - 1` begins.
    assert(drive(start, h + rebuild_replies((i - 1) as nat, host_ip)) == (
        rebuild_at(rows, i - 1, 0),
        before,
        None::<Result<(), Seq<char>>>,
    )) by {
        if i == 1 {
            reveal_with_fuel(drive, 2);
            assert(h + rebuild_replies(0, host_ip) =~= h);
            assert(h.drop_first().len() == 0);
        } else {
            lemma_rebuild_rows(rows, i - 1, host_ip);
        }
    }
    assert(h + rebuild_replies(i as nat, host_ip) =~= (h + rebuild_replies((i - 1) as nat, host_ip)) + rr + rr);
    lemma_rebuild_protocol(rows, i - 1, 0, host_ip);
    lemma_rebuild_protocol(rows, i - 1, 1, host_ip);
    lemma_drive_concat(start, h + rebuild_replies((i - 1) as nat, host_ip), rr);
    lemma_drive_concat(start, h + rebuild_replies((i - 1) as nat, host_ip) + rr, rr);
    assert(rows.take(i).drop_last() =~= rows.take(i - 1));
    assert(rows.take(i).last() == row);
    assert(rebuild_requests(rows.take(i), host_ip) == rebuild_requests(rows.take(i - 1), host_ip) + row_requests(row, host_ip));
    if i == 1 {
        assert(rows.take(0).len() == 0);
        assert(rebuild_requests(rows.take(0), host_ip) == Seq::<RequestView>::empty());
    }
    assert(row_requests(row, host_ip) == seq![RequestView::LocalIp] + tcp + seq![RequestView::LocalIp] + udp);
    if i < rows.len() {
        assert(before + (tcp + seq![RequestView::LocalIp]) + (udp + seq![RequestView::LocalIp]) =~= rebuild_requests(
            rows.take(i),
            host_ip,
        ) + seq![RequestView::LocalIp]);
    } else {
        assert(rows.take(i) =~= rows);
        assert(before + (tcp + seq![RequestView::LocalIp]) + udp =~= rebuild_requests(rows, host_ip));
    }
}

/// When every rule goes through, rebuilding sets up the rules of every
/// stored row in table order — for each row, this host's address is asked
/// for and the `tcp` rules run, then again for `udp` — and ends well.
pub proof fn rebuild_sets_up_every_row(rows: Seq<InfoView>, host_ip: Seq<char>)
    ensures
        ({
            let start = ServiceRebuildView { hosts: Seq::empty(), stage: RebuildStageView::Listing, done: false };
            let d = drive(start, seq![ReplyView::Hosts(rows)] + rebuild_replies(rows.len(), host_ip));
            &&& d.1 == rebuild_requests(rows, host_ip)
            &&& d.2 == Some(Ok::<(), Seq<char>>(()))
        }),
{
    if rows.len() == 0 {
        reveal_with_fuel(drive, 2);
        let start = ServiceRebuildView { hosts: Seq::empty(), stage: RebuildStageView::Listing, done: false };
        let h = seq![ReplyView::Hosts(rows)];
        assert(h + rebuild_replies(0, host_ip) =~= h);
        assert(drive(start, h).1 =~= Seq::<RequestView>::empty());
    } else {
        lemma_rebuild_rows(rows, rows.len() as int, host_ip);
    }
}

/// How far a run of `rebuild` has come: `2 * i + k` while it handles row `i`
/// for protocol `k` (0 for `tcp`, 1 for `udp`), and -1 while it reads the rows.
pub open spec fn stage_pair(s: RebuildStageView) -> int {
    match s {
        RebuildStageView::Listing => -1,
        RebuildStageView::Forwarding(i, k, _) => 2 * i + k,
        RebuildStageView::Reporting(i, k) => 2 * i + k,
    }
}

/// The start of the rules of row `i` of `rows` for protocol `k`.
pub open spec fn row_rules_start(rows: Seq<InfoView>, i: int, k: int) -> AddingView {
    forward_start(rows[i].local_port, rows[i].ip, rows[i].target_port, k)
}

/// In a run of `rebuild` that stood at `ps` and made `requests`, the rules of
/// row `i` for protocol `k` were started: the run came to them and asked for
/// their first request.
pub open spec fn rules_entered(
    ps: Seq<ServiceRebuildView>,
    requests: Seq<RequestView>,
    rows: Seq<InfoView>,
    i: int,
    k: int,
) -> bool {
    exists|j: int|
        0 < j < ps.len() && #[trigger] ps[j].stage == RebuildStageView::Forwarding(i, k, row_rules_start(rows, i, k))
            && requests[j - 1] == row_rules_start(rows, i, k).awaiting()
}

/// A position of a run of `rebuild` at one of its rows and protocols.
pub open spec fn among_rows(v: ServiceRebuildView) -> bool {
    !v.done && match v.stage {
        RebuildStageView::Listing => false,
        RebuildStageView::Forwarding(i, k, _) => 0 <= i < v.hosts.len() && 0 <= k < 2,
        RebuildStageView::Reporting(i, k) => 0 <= i < v.hosts.len() && 0 <= k < 2,
    }
}

proof fn lemma_rebuild_run(v: ServiceRebuildView, replies: Seq<ReplyView>)
    requires
        among_rows(v),
        drive(v, replies).2 is Some,
    ensures
        ({
            let ps = positions(v, replies);
            let d = drive(v, replies);
            &&& ps.len() >= 1
            &&& ps[0] == v
            &&& d.1.len() == ps.len() - 1
            &&& d.2 == Some(Ok::<(), Seq<char>>(()))
            &&& forall|j: int|
                0 <= j < ps.len() ==> (#[trigger] ps[j]).hosts == v.hosts && stage_pair(ps[j].stage) >= stage_pair(
                    v.stage,
                )
            &&& forall|j1: int, j2: int|
                #![trigger ps[j1], ps[j2]]
                0 <= j1 <= j2 < ps.len() ==> stage_pair(ps[j1].stage) <= stage_pair(ps[j2].stage)
            &&& forall|i: int, k: int|
                #![trigger row_rules_start(v.hosts, i, k)]
                0 <= i < v.hosts.len() && 0 <= k < 2 && 2 * i + k > stage_pair(v.stage) ==> rules_entered(
                    ps,
                    d.1,
                    v.hosts,
                    i,
                    k,
                )
        }),
    decreases replies.len(),
{
    let ps = positions(v, replies);
    let d = drive(v, replies);
    let rows = v.hosts;
    let (w, st) = v.after(replies[0]);
    match st {
        StepView::Request(req) => {
            let rest = replies.drop_first();
            assert(w.hosts == rows);
            assert(among_rows(w));
            assert(stage_pair(w.stage) == stage_pair(v.stage) || stage_pair(w.stage) == stage_pair(v.stage) + 1);
            assert(stage_pair(w.stage) == stage_pair(v.stage) + 1 ==> (w.stage matches RebuildStageView::Forwarding(
                i,
                k,
                a,
            ) && a == row_rules_start(rows, i, k) && req == a.awaiting()));
            lemma_rebuild_run(w, rest);
            let qs = positions(w, rest);
            let e = drive(w, rest);
            assert(ps =~= seq![v] + qs);
            assert(d.1 =~= seq![req] + e.1);
            assert forall|j: int| 0 <= j < ps.len() implies (#[trigger] ps[j]).hosts == v.hosts && stage_pair(
                ps[j].stage,
            ) >= stage_pair(v.stage) by {
                if j > 0 {
                    assert(ps[j] == qs[j - 1]);
                }
            }
            assert forall|j1: int, j2: int|
                #![trigger ps[j1], ps[j2]]
                0 <= j1 <= j2 < ps.len() implies stage_pair(ps[j1].stage) <= stage_pair(ps[j2].stage) by {
                if j1 > 0 {
                    assert(ps[j1] == qs[j1 - 1] && ps[j2] == qs[j2 - 1]);
                } else if j2 > 0 {
                    assert(ps[j2] == qs[j2 - 1]);
                }
            }
            assert forall|i: int, k: int|
                #![trigger row_rules_start(v.hosts, i, k)]
                0 <= i < v.hosts.len() && 0 <= k < 2 && 2 * i + k > stage_pair(v.stage) implies rules_entered(
                ps,
                d.1,
                v.hosts,
                i,
                k,
            ) by {
                if 2 * i + k > stage_pair(w.stage) {
                    assert(rules_entered(qs, e.1, rows, i, k));
                    let j = choose|j: int|
                        0 < j < qs.len() && #[trigger] qs[j].stage == RebuildStageView::Forwarding(
                            i,
                            k,
                            row_rules_start(rows, i, k),
                        ) && e.1[j - 1] == row_rules_start(rows, i, k).awaiting();
                    assert(ps[j + 1] == qs[j]);
                    assert(d.1[j] == e.1[j - 1]);
                    assert(ps[j + 1].stage == RebuildStageView::Forwarding(i, k, row_rules_start(rows, i, k)));
                } else {
                    assert(ps[1] == w);
                    assert(d.1[0] == req);
                    assert(ps[1].stage == RebuildStageView::Forwarding(i, k, row_rules_start(rows, i, k)));
                }
            }
        },
        StepView::Done(_) => {
            assert(ps =~= seq![v]);
            assert(stage_pair(v.stage) == 2 * rows.len() - 1);
            assert(ps[0] == v);
        },
    }
}

/// The start of a run of `rebuild`: the stored rows are read first.
pub open spec fn rebuild_start() -> ServiceRebuildView {
    ServiceRebuildView { hosts: Seq::empty(), stage: RebuildStageView::Listing, done: false }
}

/// Rebuilding goes on after failures: whatever the commands answer, a run of
/// `rebuild` that has ended started the rules of every stored row, for `tcp`
/// (protocol 0) and then `udp` (protocol 1), each asked for by its first
/// request, in table order, and it ended well.
pub proof fn rebuild_goes_on_after_failures(rows: Seq<InfoView>, replies: Seq<ReplyView>)
    requires
        replies.len() > 0,
        replies[0] == ReplyView::Hosts(rows),
        drive(rebuild_start(), replies).2 is Some,
    ensures
        ({
            let ps = positions(rebuild_start(), replies);
            let d = drive(rebuild_start(), replies);
            &&& d.2 == Some(Ok::<(), Seq<char>>(()))
            &&& forall|i: int, k: int|
                #![trigger row_rules_start(rows, i, k)]
                0 <= i < rows.len() && 0 <= k < 2 ==> rules_entered(ps, d.1, rows, i, k)
            &&& forall|j1: int, j2: int|
                #![trigger ps[j1], ps[j2]]
                0 <= j1 <= j2 < ps.len() ==> stage_pair(ps[j1].stage) <= stage_pair(ps[j2].stage)
        }),
{
    let v = rebuild_start();
    let ps = positions(v, replies);
    let d = drive(v, replies);
    let (w, st) = v.after(replies[0]);
    if rows.len() == 0 {
        assert(ps =~= seq![v]);
    } else {
        let rest = replies.drop_first();
        assert(w.hosts == rows);
        assert(w.stage == RebuildStageView::Forwarding(0, 0, row_rules_start(rows, 0, 0)));
        assert(st == StepView::<Result<(), Seq<char>>>::Request(row_rules_start(rows, 0, 0).awaiting()));
        lemma_rebuild_run(w, rest);
        let qs = positions(w, rest);
        let e = drive(w, rest);
        assert(ps =~= seq![v] + qs);
        assert(d.1 =~= seq![row_rules_start(rows, 0, 0).awaiting()] + e.1);
        assert forall|i: int, k: int|
            #![trigger row_rules_start(rows, i, k)]
            0 <= i < rows.len() && 0 <= k < 2 implies rules_entered(ps, d.1, rows, i, k) by {
            if 2 * i + k > 0 {
                assert(rules_entered(qs, e.1, rows, i, k));
                let j = choose|j: int|
                    0 < j < qs.len() && #[trigger] qs[j].stage == RebuildStageView::Forwarding(
                        i,
                        k,
                        row_rules_start(rows, i, k),
                    ) && e.1[j - 1] == row_rules_start(rows, i, k).awaiting();
                assert(ps[j + 1] == qs[j]);
                assert(d.1[j] == e.1[j - 1]);
                assert(ps[j + 1].stage == RebuildStageView::Forwarding(i, k, row_rules_start(rows, i, k)));
            } else {
                assert(ps[1] == w);
                assert(ps[1].stage == RebuildStageView::Forwarding(i, k, row_rules_start(rows, i, k)));
            }
        }
        assert forall|j1: int, j2: int|
            #![trigger ps[j1], ps[j2]]
            0 <= j1 <= j2 < ps.len() implies stage_pair(ps[j1].stage) <= stage_pair(ps[j2].stage) by {
            if j1 > 0 {
                assert(ps[j1] == qs[j1 - 1] && ps[j2] == qs[j2 - 1]);
            } else if j2 > 0 {
                assert(ps[j2] == qs[j2 - 1]);
                assert(stage_pair(qs[j2 - 1].stage) >= 0);
            }
        }
    }
}

} // verus!
