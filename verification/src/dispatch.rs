//! Decisions shared by the runtime's front ends (the management server, the
//! HTTP client and server processes, the executor and the process manager):
//! resolving targets, reading a call's outcome, building syscalls, receipts
//! and proposals, and the HTTP server's route table.
use vstd::prelude::*;
use crate::scheduler::{
    Promise, PromiseModel, Proposal, ProposalModel, Receipt, ReceiptModel, RuntimeStatus, Syscall,
    SyscallModel,
};
use crate::text::{bytes_eq, chars_of, copy_bytes, push_all, str_eq, string_of};
use crate::types::{
    AppId, EventId, EventIdModel, HandlerId, HandlerIdModel, ParseError, ProcessId, ProcessIdModel,
    parse_process_id,
};

verus! {

/// A management target: a process identifier, or failing that the same text
/// followed by `/entrypoint`.
pub open spec fn management_target(t: Seq<char>) -> Result<ProcessIdModel, Seq<char>> {
    match parse_process_id(t) {
        Ok(p) => Ok(p),
        Err(_) => parse_process_id(t + "/entrypoint"@),
    }
}

/// Resolves a management target (see [`management_target`]); the error is that
/// of the second attempt.
pub fn resolve_target(target: &str) -> (r: Result<ProcessId, ParseError>)
    ensures
        match management_target(target@) {
            Ok(m) => r matches Ok(p) && p@ == m,
            Err(reason) => r matches Err(e) && e.input@ == target@ + "/entrypoint"@ && e.reason@ == reason,
        },
{
    match ProcessId::try_from(target) {
        Ok(p) => Ok(p),
        Err(_) => {
            let mut with_entry = String::from_str(target);
            with_entry.append("/entrypoint");
            ProcessId::try_from(with_entry.as_str())
        },
    }
}

/// Where a call stands, judged by the last receipt of its event.
pub enum CallOutcome {
    Pending,
    Done(Vec<u8>),
    Failed(Vec<u8>),
}

/// The model of a [`CallOutcome`].
pub enum CallOutcomeModel {
    Pending,
    Done(Seq<u8>),
    Failed(Seq<u8>),
}

impl View for CallOutcome {
    type V = CallOutcomeModel;

    open spec fn view(&self) -> CallOutcomeModel {
        match self {
            CallOutcome::Pending => CallOutcomeModel::Pending,
            CallOutcome::Done(b) => CallOutcomeModel::Done(b@),
            CallOutcome::Failed(b) => CallOutcomeModel::Failed(b@),
        }
    }
}

/// A call is done when its event's last receipt ended it, failed when that
/// receipt records an error, and pending otherwise.
pub open spec fn call_outcome_of(chunks: Option<Seq<ReceiptModel>>) -> CallOutcomeModel {
    match chunks {
        Some(v) => if v.len() == 0 {
            CallOutcomeModel::Pending
        } else {
            match v.last().status {
                RuntimeStatus::End => CallOutcomeModel::Done(v.last().returns),
                RuntimeStatus::Error => CallOutcomeModel::Failed(v.last().returns),
                RuntimeStatus::Normal => CallOutcomeModel::Pending,
            }
        },
        None => CallOutcomeModel::Pending,
    }
}

/// Where a call stands (see [`call_outcome_of`]).
pub fn call_outcome(chunks: Option<&Vec<Receipt>>) -> (r: CallOutcome)
    ensures
        r@ == call_outcome_of(match chunks {
            Some(v) => Some(v.deep_view()),
            None => None,
        }),
{
    match chunks {
        Some(v) => {
            if v.len() == 0 {
                CallOutcome::Pending
            } else {
                let last = &v[v.len() - 1];
                match last.status {
                    RuntimeStatus::End => CallOutcome::Done(copy_bytes(&last.returns)),
                    RuntimeStatus::Error => CallOutcome::Failed(copy_bytes(&last.returns)),
                    RuntimeStatus::Normal => CallOutcome::Pending,
                }
            }
        },
        None => CallOutcome::Pending,
    }
}

/// The HTTP methods the HTTP client process accepts.
#[derive(Debug, Clone, Copy, PartialEq, Eq, Structural)]
pub enum HttpMethod {
    Get,
    Post,
    Put,
    Patch,
    Delete,
    Head,
    Options,
}

/// The method named by an (already upper-cased) method string.
pub open spec fn method_named(s: Seq<char>) -> Option<HttpMethod> {
    if s == "GET"@ {
        Some(HttpMethod::Get)
    } else if s == "POST"@ {
        Some(HttpMethod::Post)
    } else if s == "PUT"@ {
        Some(HttpMethod::Put)
    } else if s == "PATCH"@ {
        Some(HttpMethod::Patch)
    } else if s == "DELETE"@ {
        Some(HttpMethod::Delete)
    } else if s == "HEAD"@ {
        Some(HttpMethod::Head)
    } else if s == "OPTIONS"@ {
        Some(HttpMethod::Options)
    } else {
        None
    }
}

/// Reads an HTTP method; an unknown one gives `invalid HTTP method: <s>`.
pub fn parse_method(s: &str) -> (r: Result<HttpMethod, String>)
    ensures
        match method_named(s@) {
            Some(m) => r == Ok::<HttpMethod, String>(m),
            None => r matches Err(e) && e@ == "invalid HTTP method: "@ + s@,
        },
{
    if str_eq(s, "GET") {
        Ok(HttpMethod::Get)
    } else if str_eq(s, "POST") {
        Ok(HttpMethod::Post)
    } else if str_eq(s, "PUT") {
        Ok(HttpMethod::Put)
    } else if str_eq(s, "PATCH") {
        Ok(HttpMethod::Patch)
    } else if str_eq(s, "DELETE") {
        Ok(HttpMethod::Delete)
    } else if str_eq(s, "HEAD") {
        Ok(HttpMethod::Head)
    } else if str_eq(s, "OPTIONS") {
        Ok(HttpMethod::Options)
    } else {
        let mut m = String::from_str("invalid HTTP method: ");
        m.append(s);
        Err(m)
    }
}


/// The first route for `host`, if any.
pub open spec fn first_route(s: Seq<(Seq<char>, ProcessIdModel)>, host: Seq<char>) -> Option<ProcessIdModel>
    decreases s.len(),
{
    if s.len() == 0 {
        None
    } else if s[0].0 == host {
        Some(s[0].1)
    } else {
        first_route(s.drop_first(), host)
    }
}

/// The hosts routed to `pid`, in order.
pub open spec fn hosts_of(s: Seq<(Seq<char>, ProcessIdModel)>, pid: ProcessIdModel) -> Seq<Seq<char>>
    decreases s.len(),
{
    if s.len() == 0 {
        Seq::empty()
    } else if s.last().1 == pid {
        hosts_of(s.drop_last(), pid).push(s.last().0)
    } else {
        hosts_of(s.drop_last(), pid)
    }
}

/// The routes other than `host` to `pid`, in order.
pub open spec fn without_route(s: Seq<(Seq<char>, ProcessIdModel)>, host: Seq<char>, pid: ProcessIdModel) -> Seq<(Seq<char>, ProcessIdModel)>
    decreases s.len(),
{
    if s.len() == 0 {
        s
    } else if s.last().0 == host && s.last().1 == pid {
        without_route(s.drop_last(), host, pid)
    } else {
        without_route(s.drop_last(), host, pid).push(s.last())
    }
}

/// The HTTP server's table of host names and the processes they are routed to.
pub struct RouteTable {
    routes: Vec<(String, ProcessId)>,
}

impl View for RouteTable {
    type V = Seq<(Seq<char>, ProcessIdModel)>;

    closed spec fn view(&self) -> Seq<(Seq<char>, ProcessIdModel)> {
        self.routes.deep_view()
    }
}

proof fn lemma_without_route_len(s: Seq<(Seq<char>, ProcessIdModel)>, host: Seq<char>, pid: ProcessIdModel)
    ensures
        without_route(s, host, pid).len() <= s.len(),
    decreases s.len(),
{
    if s.len() > 0 {
        lemma_without_route_len(s.drop_last(), host, pid);
    }
}

impl RouteTable {
    /// An empty table.
    pub fn new() -> (r: RouteTable)
        ensures
            r@ == Seq::<(Seq<char>, ProcessIdModel)>::empty(),
    {
        let r = RouteTable { routes: Vec::new() };
        assert(r@ =~= Seq::<(Seq<char>, ProcessIdModel)>::empty());
        r
    }

    /// Routes `host` to `pid` (after any existing routes).
    pub fn add(&mut self, host: String, pid: ProcessId)
        ensures
            final(self)@ == old(self)@.push((host@, pid@)),
    {
        let ghost r0 = self@;
        let e = (host, pid);
        self.routes.push(e);
        assert(self@ =~= r0.push(e.deep_view()));
    }

    /// The process the first route for `host` goes to.
    pub fn find(&self, host: &str) -> (r: Option<ProcessId>)
        ensures
            match first_route(self@, host@) {
                Some(p) => r matches Some(x) && x@ == p,
                None => r is None,
            },
    {
        let ghost s = self@;
        let mut i: usize = 0;
        assert(s.skip(0) =~= s);
        while i < self.routes.len()
            invariant
                s == self@,
                i <= self.routes.len(),
                first_route(s, host@) == first_route(s.skip(i as int), host@),
            decreases self.routes.len() - i,
        {
            assert(s.skip(i as int).drop_first() =~= s.skip(i + 1));
            assert(s.skip(i as int)[0] == s[i as int]);
            if str_eq(self.routes[i].0.as_str(), host) {
                return Some(self.routes[i].1.duplicate());
            }
            i = i + 1;
        }
        None
    }

    /// The hosts routed to `pid`, in order.
    pub fn hosts_for(&self, pid: &ProcessId) -> (r: Vec<String>)
        ensures
            r@.map_values(|h: String| h@) == hosts_of(self@, pid@),
    {
        let ghost s = self@;
        let mut out: Vec<String> = Vec::new();
        let mut i: usize = 0;
        while i < self.routes.len()
            invariant
                s == self@,
                i <= self.routes.len(),
                out@.map_values(|h: String| h@) == hosts_of(s.take(i as int), pid@),
            decreases self.routes.len() - i,
        {
            let ghost o0 = out@.map_values(|h: String| h@);
            assert(s.take(i + 1).drop_last() =~= s.take(i as int));
            assert(s.take(i + 1).last() == s[i as int]);
            if self.routes[i].1.same(pid) {
                out.push(self.routes[i].0.clone());
                assert(out@.map_values(|h: String| h@) =~= o0.push(s[i as int].0));
            }
            i = i + 1;
        }
        assert(s.take(self.routes.len() as int) =~= s);
        out
    }

    /// Removes every route of `host` to `pid`; returns how many were removed.
    pub fn remove(&mut self, host: &str, pid: &ProcessId) -> (r: usize)
        ensures
            final(self)@ == without_route(old(self)@, host@, pid@),
            r == old(self)@.len() - final(self)@.len(),
    {
        let ghost s = self@;
        let mut kept: Vec<(String, ProcessId)> = Vec::new();
        let mut i: usize = 0;
        while i < self.routes.len()
            invariant
                s == self@,
                i <= self.routes.len(),
                kept.deep_view() == without_route(s.take(i as int), host@, pid@),
            decreases self.routes.len() - i,
        {
            let ghost k0 = kept.deep_view();
            assert(s.take(i + 1).drop_last() =~= s.take(i as int));
            assert(s.take(i + 1).last() == s[i as int]);
            if !(str_eq(self.routes[i].0.as_str(), host) && self.routes[i].1.same(pid)) {
                let e = (self.routes[i].0.clone(), self.routes[i].1.duplicate());
                kept.push(e);
                assert(kept.deep_view() =~= k0.push(e.deep_view()));
            }
            i = i + 1;
        }
        assert(s.take(self.routes.len() as int) =~= s);
        proof {
            lemma_without_route_len(s, host@, pid@);
        }
        let before = self.routes.len();
        self.routes = kept;
        before - self.routes.len()
    }
}

/// The HTTP server process's answer to a request about its routes.
pub enum RouteReply {
    /// The route was added.
    Added,
    /// The named process does not parse: `invalid process: <app>`.
    InvalidProcess(String),
    /// The hosts routed to the named process.
    Uris(Vec<String>),
    /// How many routes were removed.
    Removed(usize),
    /// The action is not known: `unknown action: <action>`.
    UnknownAction(String),
}

/// The model of a [`RouteReply`].
pub enum RouteReplyModel {
    Added,
    InvalidProcess(Seq<char>),
    Uris(Seq<Seq<char>>),
    Removed(nat),
    UnknownAction(Seq<char>),
}

impl View for RouteReply {
    type V = RouteReplyModel;

    open spec fn view(&self) -> RouteReplyModel {
        match self {
            RouteReply::Added => RouteReplyModel::Added,
            RouteReply::InvalidProcess(m) => RouteReplyModel::InvalidProcess(m@),
            RouteReply::Uris(v) => RouteReplyModel::Uris(v@.map_values(|h: String| h@)),
            RouteReply::Removed(n) => RouteReplyModel::Removed(*n as nat),
            RouteReply::UnknownAction(m) => RouteReplyModel::UnknownAction(m@),
        }
    }
}

/// The routes after a request and the answer to it: `add` routes `host` to
/// the process `app` names; `list-uris` lists the hosts routed to it;
/// `remove` removes the routes of `host` to it (none when `app` does not
/// parse); any other action is refused.
pub open spec fn route_request(s: Seq<(Seq<char>, ProcessIdModel)>, action: Seq<char>, app: Seq<char>, host: Seq<char>) -> (Seq<(Seq<char>, ProcessIdModel)>, RouteReplyModel) {
    if action == "add"@ {
        match parse_process_id(app) {
            Ok(p) => (s.push((host, p)), RouteReplyModel::Added),
            Err(_) => (s, RouteReplyModel::InvalidProcess("invalid process: "@ + app)),
        }
    } else if action == "list-uris"@ {
        match parse_process_id(app) {
            Ok(p) => (s, RouteReplyModel::Uris(hosts_of(s, p))),
            Err(_) => (s, RouteReplyModel::Uris(Seq::empty())),
        }
    } else if action == "remove"@ {
        match parse_process_id(app) {
            Ok(p) => (without_route(s, host, p), RouteReplyModel::Removed((s.len() - without_route(s, host, p).len()) as nat)),
            Err(_) => (s, RouteReplyModel::Removed(0)),
        }
    } else {
        (s, RouteReplyModel::UnknownAction("unknown action: "@ + action))
    }
}

impl RouteTable {
    /// Answers a request about the routes (see [`route_request`]).
    pub fn handle(&mut self, action: &str, app: &str, host: &str) -> (r: RouteReply)
        ensures
            final(self)@ == route_request(old(self)@, action@, app@, host@).0,
            r@ == route_request(old(self)@, action@, app@, host@).1,
    {
        if str_eq(action, "add") {
            match ProcessId::try_from(app) {
                Ok(p) => {
                    self.add(String::from_str(host), p);
                    RouteReply::Added
                },
                Err(_) => {
                    let mut m = String::from_str("invalid process: ");
                    m.append(app);
                    RouteReply::InvalidProcess(m)
                },
            }
        } else if str_eq(action, "list-uris") {
            match ProcessId::try_from(app) {
                Ok(p) => RouteReply::Uris(self.hosts_for(&p)),
                Err(_) => {
                    let v: Vec<String> = Vec::new();
                    assert(v@.map_values(|h: String| h@) =~= Seq::<Seq<char>>::empty());
                    RouteReply::Uris(v)
                },
            }
        } else if str_eq(action, "remove") {
            match ProcessId::try_from(app) {
                Ok(p) => RouteReply::Removed(self.remove(host, &p)),
                Err(_) => RouteReply::Removed(0),
            }
        } else {
            let mut m = String::from_str("unknown action: ");
            m.append(action);
            RouteReply::UnknownAction(m)
        }
    }
}

/// The process a syscall targets: the parsed target, or the identifier with
/// empty parts when the target does not parse.
pub open spec fn target_of(t: Seq<char>) -> ProcessIdModel {
    match parse_process_id(t) {
        Ok(p) => p,
        Err(_) => ProcessIdModel { namespace: Seq::empty(), app: Seq::empty(), proc: Seq::empty() },
    }
}

fn target_process(target: &str) -> (r: ProcessId)
    ensures
        r@ == target_of(target@),
{
    match ProcessId::try_from(target) {
        Ok(p) => p,
        Err(_) => ProcessId { namespace: String::new(), app: String::new(), proc: String::new() },
    }
}

/// The `Call` syscall a process makes to `target` from event `event`: a
/// proposal for the target carrying a promise (numbered by the caller's log
/// position) that routes the result back to `event`.
pub fn call_syscall(target: &str, input: Vec<u8>, log_seq: u64, event: &EventId, current: &ProcessId) -> (r: Syscall)
    ensures
        r@ == (SyscallModel::Call {
            proposal: ProposalModel {
                process: target_of(target@),
                event: None,
                input: input@,
                promise: Some(PromiseModel { id: log_seq, target: event@ }),
                from: current@,
            },
        }),
{
    Syscall::Call {
        proposal: Proposal {
            process: target_process(target),
            event: None,
            input,
            promise: Some(Promise { id: log_seq, target: event.duplicate() }),
            from: current.duplicate(),
        },
    }
}

/// The `Notify` syscall a process makes to `target`: a proposal without promise.
pub fn notify_syscall(target: &str, input: Vec<u8>, current: &ProcessId) -> (r: Syscall)
    ensures
        r@ == (SyscallModel::Notify {
            proposal: ProposalModel {
                process: target_of(target@),
                event: None,
                input: input@,
                promise: None,
                from: current@,
            },
        }),
{
    Syscall::Notify {
        proposal: Proposal {
            process: target_process(target),
            event: None,
            input,
            promise: None,
            from: current.duplicate(),
        },
    }
}

/// The `Register` syscall: a new process `name` of the current app, run by the
/// current app's handler `template`.
pub fn register_syscall(template: String, name: String, current: &ProcessId) -> (r: Syscall)
    ensures
        r@ == (SyscallModel::Register {
            process: ProcessIdModel { namespace: current.namespace@, app: current.app@, proc: name@ },
            handler: HandlerIdModel { namespace: current.namespace@, app: current.app@, handler: template@ },
        }),
{
    Syscall::Register {
        process: ProcessId { namespace: current.namespace.clone(), app: current.app.clone(), proc: name },
        handler: HandlerId { namespace: current.namespace.clone(), app: current.app.clone(), handler: template },
    }
}

/// The receipt of a chunk that ended in a syscall: it completes its proposal
/// exactly when the syscall is a `Call`.
pub fn syscall_receipt(proposal: &Proposal, in_event_seq: u64, log_seq: u64, syscall: Syscall) -> (r: (Receipt, bool))
    ensures
        r.0@ == (ReceiptModel {
            proposal: proposal@,
            in_event_seq,
            in_log_seq: log_seq,
            syscalls: seq![syscall@],
            returns: Seq::empty(),
            status: RuntimeStatus::Normal,
        }),
        r.1 == (syscall@ is Call),
{
    let completes = syscall.is_call();
    let ghost sv = syscall@;
    let mut syscalls: Vec<Syscall> = Vec::new();
    syscalls.push(syscall);
    assert(syscalls.deep_view() =~= seq![sv]);
    let r = Receipt {
        proposal: proposal.duplicate(),
        in_event_seq,
        in_log_seq: log_seq,
        syscalls,
        returns: Vec::new(),
        status: RuntimeStatus::Normal,
    };
    assert(r@.returns =~= Seq::<u8>::empty());
    (r, completes)
}

/// The receipt of a chunk that ended its event, with a return value or an error.
pub fn final_receipt(proposal: &Proposal, in_event_seq: u64, log_seq: u64, reply: Vec<u8>, status: RuntimeStatus) -> (r: Receipt)
    ensures
        r@ == (ReceiptModel {
            proposal: proposal@,
            in_event_seq,
            in_log_seq: log_seq,
            syscalls: Seq::empty(),
            returns: reply@,
            status,
        }),
{
    let r = Receipt {
        proposal: proposal.duplicate(),
        in_event_seq,
        in_log_seq: log_seq,
        syscalls: Vec::new(),
        returns: reply,
        status,
    };
    assert(r@.syscalls =~= Seq::<SyscallModel>::empty());
    r
}

/// The app a new actor's code is looked up in (the handler's app if the
/// process was registered to a handler, else its own) and the handler it runs
/// (the registered handler's name, else the process's own name).
pub fn spawn_target(process: &ProcessId, handler: &Option<HandlerId>) -> (r: (String, String))
    ensures
        match handler {
            Some(h) => r.0@ == crate::types::AppIdModel { namespace: h.namespace@, app: h.app@ }.display()
                && r.1@ == h.handler@,
            None => r.0@ == process@.app_id().display() && r.1@ == process.proc@,
        },
{
    match handler {
        Some(h) => (AppId::from_handler(h).to_string(), h.handler.clone()),
        None => (AppId::from_process(process).to_string(), process.proc.clone()),
    }
}

/// The blank notification a newly spawned actor receives from `^sys/init/entrypoint`.
pub fn init_proposal(process: &ProcessId) -> (r: Proposal)
    ensures
        r@ == (ProposalModel {
            process: process@,
            event: None,
            input: Seq::empty(),
            promise: None,
            from: ProcessIdModel { namespace: "sys"@, app: "init"@, proc: "entrypoint"@ },
        }),
{
    let r = Proposal {
        process: process.duplicate(),
        event: None,
        input: Vec::new(),
        promise: None,
        from: ProcessId {
            namespace: String::from_str("sys"),
            app: String::from_str("init"),
            proc: String::from_str("entrypoint"),
        },
    };
    assert(r@.input =~= Seq::<u8>::empty());
    r
}

} // verus!
