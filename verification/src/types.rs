//! Identifiers of events, processes, handlers and apps, with their textual
//! forms (`^namespace/app/proc`, `^namespace/app/proc/e<seq>`, ...) and the
//! parsers that read process and app identifiers back.
use vstd::prelude::*;
use crate::assoc::KeyEq;
use crate::text::{chars_of, decimal, push_all, push_decimal, split_once, split_once_from, string_of, strip_caret};

verus! {

/// The model of an [`EventId`].
pub struct EventIdModel {
    pub namespace: Seq<char>,
    pub app: Seq<char>,
    pub proc: Seq<char>,
    pub seq: u64,
}

/// The model of a [`ProcessId`].
pub struct ProcessIdModel {
    pub namespace: Seq<char>,
    pub app: Seq<char>,
    pub proc: Seq<char>,
}

/// The model of a [`HandlerId`].
pub struct HandlerIdModel {
    pub namespace: Seq<char>,
    pub app: Seq<char>,
    pub handler: Seq<char>,
}

/// The model of an [`AppId`].
pub struct AppIdModel {
    pub namespace: Seq<char>,
    pub app: Seq<char>,
}

#[derive(Debug, Clone, PartialEq, Eq, Hash, Ord, PartialOrd)]
pub struct EventId {
    pub namespace: String,
    pub app: String,
    pub proc: String,
    pub seq: u64,
}

#[derive(Debug, Clone, PartialEq, Eq, Hash, Ord, PartialOrd)]
pub struct ProcessId {
    pub namespace: String,
    pub app: String,
    pub proc: String,
}

#[derive(Debug, Clone, PartialEq, Eq, Hash, Ord, PartialOrd)]
pub struct HandlerId {
    pub namespace: String,
    pub app: String,
    pub handler: String,
}

#[derive(Debug, Clone, PartialEq, Eq, Hash, Ord, PartialOrd)]
pub struct AppId {
    pub namespace: String,
    pub app: String,
}

#[derive(Debug, Clone, PartialEq, Eq)]
pub struct ParseError {
    pub input: String,
    pub reason: String,
}

impl View for EventId {
    type V = EventIdModel;

    open spec fn view(&self) -> EventIdModel {
        EventIdModel { namespace: self.namespace@, app: self.app@, proc: self.proc@, seq: self.seq }
    }
}

impl DeepView for EventId {
    type V = EventIdModel;

    open spec fn deep_view(&self) -> EventIdModel {
        self@
    }
}

impl View for ProcessId {
    type V = ProcessIdModel;

    open spec fn view(&self) -> ProcessIdModel {
        ProcessIdModel { namespace: self.namespace@, app: self.app@, proc: self.proc@ }
    }
}

impl DeepView for ProcessId {
    type V = ProcessIdModel;

    open spec fn deep_view(&self) -> ProcessIdModel {
        self@
    }
}

impl View for HandlerId {
    type V = HandlerIdModel;

    open spec fn view(&self) -> HandlerIdModel {
        HandlerIdModel { namespace: self.namespace@, app: self.app@, handler: self.handler@ }
    }
}

impl DeepView for HandlerId {
    type V = HandlerIdModel;

    open spec fn deep_view(&self) -> HandlerIdModel {
        self@
    }
}

impl View for AppId {
    type V = AppIdModel;

    open spec fn view(&self) -> AppIdModel {
        AppIdModel { namespace: self.namespace@, app: self.app@ }
    }
}

impl DeepView for AppId {
    type V = AppIdModel;

    open spec fn deep_view(&self) -> AppIdModel {
        self@
    }
}

impl ProcessIdModel {
    /// `^namespace/app/proc`
    pub open spec fn display(self) -> Seq<char> {
        seq!['^'] + self.namespace + seq!['/'] + self.app + seq!['/'] + self.proc
    }

    /// The event of this process with the given sequence number.
    pub open spec fn event(self, seq: u64) -> EventIdModel {
        EventIdModel { namespace: self.namespace, app: self.app, proc: self.proc, seq }
    }

    /// The app this process belongs to.
    pub open spec fn app_id(self) -> AppIdModel {
        AppIdModel { namespace: self.namespace, app: self.app }
    }
}

impl EventIdModel {
    /// `^namespace/app/proc/e<seq>`
    pub open spec fn display(self) -> Seq<char> {
        seq!['^'] + self.namespace + seq!['/'] + self.app + seq!['/'] + self.proc + seq!['/', 'e']
            + decimal(self.seq as nat)
    }

    /// The process this event runs in.
    pub open spec fn process(self) -> ProcessIdModel {
        ProcessIdModel { namespace: self.namespace, app: self.app, proc: self.proc }
    }
}

impl HandlerIdModel {
    /// `^namespace/app/handler`
    pub open spec fn display(self) -> Seq<char> {
        seq!['^'] + self.namespace + seq!['/'] + self.app + seq!['/'] + self.handler
    }
}

impl AppIdModel {
    /// `^namespace/app`
    pub open spec fn display(self) -> Seq<char> {
        seq!['^'] + self.namespace + seq!['/'] + self.app
    }
}

/// Reason given when a process identifier has an empty part.
pub open spec fn reason_empty_parts() -> Seq<char> {
    "ProcessId parts must not be empty"@
}

/// Reason given when a process identifier has too few parts.
pub open spec fn reason_process_parts() -> Seq<char> {
    "ProcessId requires two or three parts (namespace/app or namespace/app/process)"@
}

/// Reason given when an app identifier is malformed.
pub open spec fn reason_app_parts() -> Seq<char> {
    "AppId requires exactly one slash (namespace/app)"@
}

/// The name of the process an app is addressed by.
pub open spec fn entrypoint_name() -> Seq<char> {
    "entrypoint"@
}

/// Parses `[^]namespace/app[/proc]`. The input (less one leading `^`) is split
/// at its first two slashes; a third part may itself hold slashes. With two
/// parts the process is `entrypoint`. No part may be empty.
pub open spec fn parse_process_id(s: Seq<char>) -> Result<ProcessIdModel, Seq<char>> {
    match split_once(strip_caret(s), '/') {
        None => Err(reason_process_parts()),
        Some(p1) => match split_once(p1.1, '/') {
            None => if p1.0.len() == 0 || p1.1.len() == 0 {
                Err(reason_empty_parts())
            } else {
                Ok(ProcessIdModel { namespace: p1.0, app: p1.1, proc: entrypoint_name() })
            },
            Some(p2) => if p1.0.len() == 0 || p2.0.len() == 0 || p2.1.len() == 0 {
                Err(reason_empty_parts())
            } else {
                Ok(ProcessIdModel { namespace: p1.0, app: p2.0, proc: p2.1 })
            },
        },
    }
}

/// Parses `[^]namespace/app`: the input (less one leading `^`) is split at its
/// first slash and neither side may be empty; the app part may hold slashes.
pub open spec fn parse_app_id(s: Seq<char>) -> Result<AppIdModel, Seq<char>> {
    match split_once(strip_caret(s), '/') {
        None => Err(reason_app_parts()),
        Some(p) => if p.0.len() == 0 || p.1.len() == 0 {
            Err(reason_app_parts())
        } else {
            Ok(AppIdModel { namespace: p.0, app: p.1 })
        },
    }
}

fn strip_caret_start(cs: &Vec<char>) -> (r: usize)
    ensures
        r <= cs.len(),
        cs@.skip(r as int) == strip_caret(cs@),
{
    if cs.len() > 0 && cs[0] == '^' {
        assert(cs@.skip(1) =~= cs@.drop_first());
        1
    } else {
        assert(cs@.skip(0) =~= cs@);
        0
    }
}

fn parse_error(input: &str, reason: &str) -> (e: ParseError)
    ensures
        e.input@ == input@,
        e.reason@ == reason@,
{
    ParseError { input: String::from_str(input), reason: String::from_str(reason) }
}

impl ProcessId {
    /// Parses `[^]namespace/app[/proc]` (see [`parse_process_id`]).
    pub fn try_from(s: &str) -> (r: Result<ProcessId, ParseError>)
        ensures
            match parse_process_id(s@) {
                Ok(m) => r matches Ok(p) && p@ == m,
                Err(reason) => r matches Err(e) && e.input@ == s@ && e.reason@ == reason,
            },
    {
        let cs = chars_of(s);
        let start = strip_caret_start(&cs);
        match split_once_from(&cs, start, '/') {
            None => Err(parse_error(
                s,
                "ProcessId requires two or three parts (namespace/app or namespace/app/process)",
            )),
            Some((first, rest)) => {
                let rest_len = rest.len();
                assert(rest@.skip(0) =~= rest@);
                match split_once_from(&rest, 0, '/') {
                    None => {
                        if first.len() == 0 || rest_len == 0 {
                            Err(parse_error(s, "ProcessId parts must not be empty"))
                        } else {
                            Ok(ProcessId {
                                namespace: string_of(&first),
                                app: string_of(&rest),
                                proc: String::from_str("entrypoint"),
                            })
                        }
                    },
                    Some((second, third)) => {
                        if first.len() == 0 || second.len() == 0 || third.len() == 0 {
                            Err(parse_error(s, "ProcessId parts must not be empty"))
                        } else {
                            Ok(ProcessId {
                                namespace: string_of(&first),
                                app: string_of(&second),
                                proc: string_of(&third),
                            })
                        }
                    },
                }
            },
        }
    }

    /// A copy of this identifier.
    pub fn duplicate(&self) -> (r: ProcessId)
        ensures
            r@ == self@,
    {
        ProcessId { namespace: self.namespace.clone(), app: self.app.clone(), proc: self.proc.clone() }
    }

    /// Whether two identifiers are equal.
    pub fn same(&self, other: &ProcessId) -> (r: bool)
        ensures
            r == (self@ == other@),
    {
        self.namespace == other.namespace && self.app == other.app && self.proc == other.proc
    }

    /// `^namespace/app/proc`
    pub fn to_string(&self) -> (r: String)
        ensures
            r@ == self@.display(),
    {
        let mut out: Vec<char> = Vec::new();
        out.push('^');
        push_all(&mut out, &chars_of(self.namespace.as_str()));
        out.push('/');
        push_all(&mut out, &chars_of(self.app.as_str()));
        out.push('/');
        push_all(&mut out, &chars_of(self.proc.as_str()));
        assert(out@ =~= self@.display());
        string_of(&out)
    }

    /// The event of this process with the given sequence number.
    pub fn event(&self, seq: u64) -> (r: EventId)
        ensures
            r@ == self@.event(seq),
    {
        EventId {
            namespace: self.namespace.clone(),
            app: self.app.clone(),
            proc: self.proc.clone(),
            seq,
        }
    }
}

impl EventId {
    /// A copy of this identifier.
    pub fn duplicate(&self) -> (r: EventId)
        ensures
            r@ == self@,
    {
        EventId {
            namespace: self.namespace.clone(),
            app: self.app.clone(),
            proc: self.proc.clone(),
            seq: self.seq,
        }
    }

    /// Whether two identifiers are equal.
    pub fn same(&self, other: &EventId) -> (r: bool)
        ensures
            r == (self@ == other@),
    {
        self.seq == other.seq && self.namespace == other.namespace && self.app == other.app
            && self.proc == other.proc
    }

    /// The process this event runs in.
    pub fn process(&self) -> (r: ProcessId)
        ensures
            r@ == self@.process(),
    {
        ProcessId { namespace: self.namespace.clone(), app: self.app.clone(), proc: self.proc.clone() }
    }

    /// `^namespace/app/proc/e<seq>`
    pub fn to_string(&self) -> (r: String)
        ensures
            r@ == self@.display(),
    {
        let mut out: Vec<char> = Vec::new();
        out.push('^');
        push_all(&mut out, &chars_of(self.namespace.as_str()));
        out.push('/');
        push_all(&mut out, &chars_of(self.app.as_str()));
        out.push('/');
        push_all(&mut out, &chars_of(self.proc.as_str()));
        out.push('/');
        out.push('e');
        push_decimal(&mut out, self.seq);
        assert(out@ =~= self@.display());
        string_of(&out)
    }
}

impl HandlerId {
    /// A copy of this identifier.
    pub fn duplicate(&self) -> (r: HandlerId)
        ensures
            r@ == self@,
    {
        HandlerId {
            namespace: self.namespace.clone(),
            app: self.app.clone(),
            handler: self.handler.clone(),
        }
    }

    /// Whether two identifiers are equal.
    pub fn same(&self, other: &HandlerId) -> (r: bool)
        ensures
            r == (self@ == other@),
    {
        self.namespace == other.namespace && self.app == other.app && self.handler == other.handler
    }

    /// `^namespace/app/handler`
    pub fn to_string(&self) -> (r: String)
        ensures
            r@ == self@.display(),
    {
        let mut out: Vec<char> = Vec::new();
        out.push('^');
        push_all(&mut out, &chars_of(self.namespace.as_str()));
        out.push('/');
        push_all(&mut out, &chars_of(self.app.as_str()));
        out.push('/');
        push_all(&mut out, &chars_of(self.handler.as_str()));
        assert(out@ =~= self@.display());
        string_of(&out)
    }
}

impl AppId {
    /// Parses `[^]namespace/app` (see [`parse_app_id`]).
    pub fn try_from(s: &str) -> (r: Result<AppId, ParseError>)
        ensures
            match parse_app_id(s@) {
                Ok(m) => r matches Ok(a) && a@ == m,
                Err(reason) => r matches Err(e) && e.input@ == s@ && e.reason@ == reason,
            },
    {
        let cs = chars_of(s);
        let start = strip_caret_start(&cs);
        match split_once_from(&cs, start, '/') {
            None => Err(parse_error(s, "AppId requires exactly one slash (namespace/app)")),
            Some((first, rest)) => {
                if first.len() == 0 || rest.len() == 0 {
                    Err(parse_error(s, "AppId requires exactly one slash (namespace/app)"))
                } else {
                    Ok(AppId { namespace: string_of(&first), app: string_of(&rest) })
                }
            },
        }
    }

    /// The process of this app with the given name.
    pub fn with_process(&self, proc: String) -> (r: ProcessId)
        ensures
            r@ == (ProcessIdModel { namespace: self.namespace@, app: self.app@, proc: proc@ }),
    {
        ProcessId { namespace: self.namespace.clone(), app: self.app.clone(), proc }
    }

    /// The app a process belongs to.
    pub fn from_process(p: &ProcessId) -> (r: AppId)
        ensures
            r@ == p@.app_id(),
    {
        AppId { namespace: p.namespace.clone(), app: p.app.clone() }
    }

    /// The app a handler belongs to.
    pub fn from_handler(h: &HandlerId) -> (r: AppId)
        ensures
            r@ == (AppIdModel { namespace: h.namespace@, app: h.app@ }),
    {
        AppId { namespace: h.namespace.clone(), app: h.app.clone() }
    }

    /// `^namespace/app`
    pub fn to_string(&self) -> (r: String)
        ensures
            r@ == self@.display(),
    {
        let mut out: Vec<char> = Vec::new();
        out.push('^');
        push_all(&mut out, &chars_of(self.namespace.as_str()));
        out.push('/');
        push_all(&mut out, &chars_of(self.app.as_str()));
        assert(out@ =~= self@.display());
        string_of(&out)
    }
}

impl ParseError {
    /// `failed to parse '<input>': <reason>`
    pub fn to_string(&self) -> (r: String)
        ensures
            r@ == "failed to parse '"@ + self.input@ + "': "@ + self.reason@,
    {
        let mut out = String::from_str("failed to parse '");
        out.append(self.input.as_str());
        out.append("': ");
        out.append(self.reason.as_str());
        out
    }
}

impl KeyEq for ProcessId {
    fn key_eq(&self, other: &Self) -> (r: bool) {
        self.same(other)
    }

    fn key_clone(&self) -> (r: Self) {
        self.duplicate()
    }
}

impl KeyEq for EventId {
    fn key_eq(&self, other: &Self) -> (r: bool) {
        self.same(other)
    }

    fn key_clone(&self) -> (r: Self) {
        self.duplicate()
    }
}

} // verus!
