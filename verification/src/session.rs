//! The per-line scoring state machine.
//!
//! A session processes lines strictly in order, with at most one backend
//! request in flight. For each non-blank line it assembles a request from
//! the system prompt, the context window and the line, then reacts to the
//! events the backend produces: a reply is parsed and either accepted
//! (scored output, exchange remembered), retried (malformed, within a
//! bounded budget), or given up on (unscored output, context untouched); a
//! timeout is retried within its own bounded budget; a connection or
//! protocol failure aborts the whole run. Blank lines short-circuit: no
//! request is made and the context window is untouched.

use vstd::prelude::*;

use crate::context::{ContextWindow, Exchange, push_spec};
use crate::message::{Message, Role, is_assistant_role, msg_view, role_bytes};
use crate::parser::{parse_reply, parse_reply_spec, reply_valid_spec};
use crate::score::Score;
use crate::text::{clone_bytes, is_ws};

verus! {

/// The failure kinds the session branches on — never on backend-internal
/// detail.
#[derive(Clone, Copy, Debug, PartialEq, Eq, Structural)]
pub enum BackendErrorKind {
    /// One attempt took longer than the caller-supplied budget, in
    /// milliseconds. Recoverable: retried within a bounded budget.
    Timeout { millis: u64 },
    /// The backend is unreachable. Fatal: the run aborts.
    ConnectionError,
    /// The backend broke the protocol, e.g. replied under a role other than
    /// `assistant`. Fatal: the run aborts.
    ProtocolError,
    /// The configured model cannot be used. Fatal: the run aborts.
    ModelUnavailable,
}

/// One event the backend produced for the request in flight.
#[derive(Clone, Debug)]
pub enum ChatEvent {
    /// A reply arrived: the responding role and the raw reply text.
    Reply { role: Vec<u8>, content: Vec<u8> },
    /// The attempt failed.
    Failed { error: BackendErrorKind },
}

/// The bounds a session runs under.
#[derive(Clone, Copy, Debug, PartialEq, Eq, Structural)]
pub struct SessionConfig {
    /// How many exchanges the context window retains.
    pub context_capacity: usize,
    /// How many times a malformed reply is retried before the line is given
    /// up on.
    pub malformed_limit: u32,
    /// How many times a timeout is retried before the line is given up on.
    pub timeout_limit: u32,
}

/// The default bounds: a window of three exchanges, five malformed retries,
/// one timeout retry.
pub open spec fn default_config() -> SessionConfig {
    SessionConfig { context_capacity: 3, malformed_limit: 5, timeout_limit: 1 }
}

impl Default for SessionConfig {
    /// The default bounds, as [`default_config`] states them.
    fn default() -> (c: Self)
        ensures
            c == default_config(),
    {
        SessionConfig { context_capacity: 3, malformed_limit: 5, timeout_limit: 1 }
    }
}

/// The line being scored right now, with its per-line retry counters.
#[derive(Debug)]
pub struct PendingLine {
    pub line: Vec<u8>,
    pub timeouts: u32,
    pub malformed: u32,
}

/// What starting a line yields.
#[derive(Debug)]
pub enum LineStart {
    /// The line is blank: emit a blank output line, ask the backend nothing.
    Blank,
    /// Submit exactly these messages to the backend.
    Request(Vec<Message>),
}

/// What one backend event leads to.
#[derive(Debug)]
pub enum StepOutcome {
    /// The reply was accepted: render the line colored by `score`, with
    /// `reason` available for explain mode. The exchange was remembered.
    Scored { reason: Vec<u8>, score: Score },
    /// The line's retry budget is spent: render the line uncolored and move
    /// on. Nothing was remembered.
    Unscored,
    /// Resubmit the identical request.
    Retry,
    /// The backend is unusable: abort the whole run.
    Fatal { error: BackendErrorKind },
}

/// How the machine classifies one event: the tag of the [`StepOutcome`] it
/// must produce.
#[derive(Clone, Copy, Debug, PartialEq, Eq, Structural)]
pub enum StepClass {
    Scored,
    Unscored,
    Retry,
    Fatal,
}

/// A line is blank when it holds nothing but whitespace.
pub open spec fn line_blank(l: Seq<u8>) -> bool {
    forall|i: int| 0 <= i < l.len() ==> is_ws(l[i])
}

/// The shape every request has: one system message first, then the stored
/// exchanges replayed as alternating user/assistant turns oldest-first, then
/// the current line as the final user message.
pub open spec fn request_shape(
    msgs: Seq<Message>,
    sys: Seq<u8>,
    ctx: Seq<(Seq<u8>, Seq<u8>)>,
    line: Seq<u8>,
) -> bool {
    &&& msgs.len() == 2 * ctx.len() + 2
    &&& msg_view(msgs[0]) == (Role::System, sys)
    &&& forall|i: int|
        #![trigger ctx[i]]
        0 <= i < ctx.len() ==> msg_view(msgs[2 * i + 1]) == (Role::User, ctx[i].0) && msg_view(
            msgs[2 * i + 2],
        ) == (Role::Assistant, ctx[i].1)
    &&& msg_view(msgs[msgs.len() - 1]) == (Role::User, line)
}

/// Whether the event ends the whole run: any reply under a role other than
/// `assistant`, or any failure other than a timeout.
pub open spec fn event_fatal(ev: ChatEvent) -> bool {
    match ev {
        ChatEvent::Reply { role, .. } => role@ != role_bytes(Role::Assistant),
        ChatEvent::Failed { error } => !(error is Timeout),
    }
}

/// The error a fatal event aborts with: a wrong responder role is a
/// protocol violation, a failure aborts with its own kind.
pub open spec fn fatal_error_of(ev: ChatEvent) -> BackendErrorKind {
    match ev {
        ChatEvent::Reply { .. } => BackendErrorKind::ProtocolError,
        ChatEvent::Failed { error } => error,
    }
}

/// How the machine, holding timeout count `t` and malformed count `m`,
/// classifies the event: fatal events abort; an acceptable reply (parsed,
/// and single-line except on the final attempt) scores the line; a
/// malformed reply or a timeout is retried while its counter is below the
/// limit, else the line is given up on.
pub open spec fn step_class(cfg: SessionConfig, t: int, m: int, ev: ChatEvent) -> StepClass {
    if event_fatal(ev) {
        StepClass::Fatal
    } else {
        match ev {
            ChatEvent::Reply { content, .. } => {
                if reply_valid_spec(content@, m == cfg.malformed_limit) {
                    StepClass::Scored
                } else if m < cfg.malformed_limit {
                    StepClass::Retry
                } else {
                    StepClass::Unscored
                }
            },
            ChatEvent::Failed { .. } => {
                if t < cfg.timeout_limit {
                    StepClass::Retry
                } else {
                    StepClass::Unscored
                }
            },
        }
    }
}

/// The timeout counter after the event: a retried timeout increments it.
pub open spec fn step_timeouts(cfg: SessionConfig, t: int, m: int, ev: ChatEvent) -> int {
    if step_class(cfg, t, m, ev) is Retry && ev is Failed {
        t + 1
    } else {
        t
    }
}

/// The malformed counter after the event: a retried malformed reply
/// increments it.
pub open spec fn step_malformed(cfg: SessionConfig, t: int, m: int, ev: ChatEvent) -> int {
    if step_class(cfg, t, m, ev) is Retry && ev is Reply {
        m + 1
    } else {
        m
    }
}

/// The per-line scoring pipeline: bounded context, bounded retries, one
/// request in flight at a time.
#[derive(Debug)]
pub struct ScoringSession {
    pub config: SessionConfig,
    pub system_prompt: Vec<u8>,
    pub context: ContextWindow,
    pub pending: Option<PendingLine>,
}

impl ScoringSession {
    /// The session invariant: the window is well-formed and sized by the
    /// configuration, and the per-line counters never pass their limits.
    pub open spec fn wf(self) -> bool {
        &&& self.context.wf()
        &&& self.context.capacity == self.config.context_capacity
        &&& (self.pending matches Some(p) ==> p.timeouts <= self.config.timeout_limit
            && p.malformed <= self.config.malformed_limit)
    }

    /// Whether a request is outstanding for some line.
    pub open spec fn in_flight(self) -> bool {
        self.pending is Some
    }

    /// A fresh session: empty context, no line in flight.
    pub fn new(config: SessionConfig, system_prompt: Vec<u8>) -> (s: ScoringSession)
        ensures
            s.wf(),
            !s.in_flight(),
            s.config == config,
            s.system_prompt@ == system_prompt@,
            s.context@ == Seq::<(Seq<u8>, Seq<u8>)>::empty(),
    {
        ScoringSession {
            config,
            system_prompt,
            context: ContextWindow::new(config.context_capacity),
            pending: None,
        }
    }

    /// The request for `line` against the current context: system prompt
    /// first, stored exchanges replayed oldest-first, the line last.
    fn build_request(&self, line: &Vec<u8>) -> (msgs: Vec<Message>)
        ensures
            request_shape(msgs@, self.system_prompt@, self.context@, line@),
    {
        let mut msgs: Vec<Message> = Vec::new();
        msgs.push(Message { role: Role::System, content: clone_bytes(&self.system_prompt) });
        let mut hist = self.context.to_messages();
        let ghost hist_snap = hist@;
        msgs.append(&mut hist);
        msgs.push(Message { role: Role::User, content: clone_bytes(line) });
        proof {
            assert(msgs@ =~= seq![msgs@[0]] + hist_snap + seq![msgs@[msgs@.len() - 1]]);
            assert forall|i: int| 0 <= i < self.context@.len() implies msg_view(
                #[trigger] msgs@[2 * i + 1],
            ) == (Role::User, self.context@[i].0) && msg_view(msgs@[2 * i + 2]) == (
                Role::Assistant,
                self.context@[i].1,
            ) by {
                assert(self.context@[i] == self.context@[i]);
                assert(msgs@[2 * i + 1] == hist_snap[2 * i]);
                assert(msgs@[2 * i + 2] == hist_snap[2 * i + 1]);
            }
        }
        msgs
    }

    /// Start a line. A blank line short-circuits: blank output, no request,
    /// context untouched. A non-blank line becomes a request with the
    /// request shape, and the line goes in flight with fresh counters.
    pub fn begin_line(&mut self, line: Vec<u8>) -> (r: LineStart)
        requires
            old(self).wf(),
            !old(self).in_flight(),
        ensures
            final(self).wf(),
            final(self).config == old(self).config,
            final(self).system_prompt@ == old(self).system_prompt@,
            final(self).context@ == old(self).context@,
            line_blank(line@) ==> r is Blank && !final(self).in_flight(),
            !line_blank(line@) ==> {
                &&& r matches LineStart::Request(msgs) && request_shape(
                    msgs@,
                    old(self).system_prompt@,
                    old(self).context@,
                    line@,
                )
                &&& final(self).pending matches Some(p) && p.line@ == line@ && p.timeouts == 0
                    && p.malformed == 0
            },
    {
        if is_blank_line(&line) {
            return LineStart::Blank;
        }
        let msgs = self.build_request(&line);
        self.pending = Some(PendingLine { line, timeouts: 0, malformed: 0 });
        LineStart::Request(msgs)
    }

    /// The request for the line in flight. Retries resubmit this identical
    /// request: the context cannot have changed while the line is pending.
    pub fn current_request(&self) -> (msgs: Vec<Message>)
        requires
            self.wf(),
            self.in_flight(),
        ensures
            self.pending matches Some(p) ==> request_shape(
                msgs@,
                self.system_prompt@,
                self.context@,
                p.line@,
            ),
    {
        match &self.pending {
            Some(p) => self.build_request(&p.line),
            None => {
                proof {
                    // a request is in flight, so this arm cannot be reached
                    assert(false);
                }
                self.build_request(&Vec::new())
            },
        }
    }

    /// React to one backend event for the line in flight, as
    /// [`step_class`] classifies it. Only a scored line touches the context
    /// window: the accepted exchange is pushed, evicting the oldest at
    /// capacity. A malformed reply never reaches the window, whatever the
    /// retry outcome. After anything but a retry the line is no longer in
    /// flight.
    pub fn on_chat_event(&mut self, ev: ChatEvent) -> (r: StepOutcome)
        requires
            old(self).wf(),
            old(self).in_flight(),
        ensures
            final(self).wf(),
            final(self).config == old(self).config,
            final(self).system_prompt@ == old(self).system_prompt@,
            old(self).pending matches Some(p) ==> ({
                let cfg = old(self).config;
                let t = p.timeouts as int;
                let m = p.malformed as int;
                let cls = step_class(cfg, t, m, ev);
                match r {
                    StepOutcome::Scored { reason, score } => {
                        &&& cls == StepClass::Scored
                        &&& ev matches ChatEvent::Reply { role, content } && parse_reply_spec(
                            content@,
                        ) matches Some(pr) && reason@ == pr.0 && score.milli == pr.1 && score.wf()
                            && final(self).context@ == push_spec(
                            old(self).context@,
                            cfg.context_capacity as nat,
                            (p.line@, content@),
                        )
                        &&& !final(self).in_flight()
                    },
                    StepOutcome::Unscored => {
                        &&& cls == StepClass::Unscored
                        &&& final(self).context@ == old(self).context@
                        &&& !final(self).in_flight()
                    },
                    StepOutcome::Retry => {
                        &&& cls == StepClass::Retry
                        &&& final(self).context@ == old(self).context@
                        &&& final(self).pending matches Some(q) && q.line@ == p.line@
                            && q.timeouts as int == step_timeouts(cfg, t, m, ev) && q.malformed
                            as int == step_malformed(cfg, t, m, ev)
                    },
                    StepOutcome::Fatal { error } => {
                        &&& cls == StepClass::Fatal
                        &&& error == fatal_error_of(ev)
                        &&& final(self).context@ == old(self).context@
                        &&& !final(self).in_flight()
                    },
                }
            }),
    {
        let p = match self.pending.take() {
            Some(p) => p,
            None => {
                proof {
                    // a request is in flight, so this arm cannot be reached
                    assert(false);
                }
                PendingLine { line: Vec::new(), timeouts: 0, malformed: 0 }
            },
        };
        match ev {
            ChatEvent::Failed { error } => {
                match error {
                    BackendErrorKind::Timeout { .. } => {
                        if p.timeouts < self.config.timeout_limit {
                            self.pending = Some(
                                PendingLine {
                                    line: p.line,
                                    timeouts: p.timeouts + 1,
                                    malformed: p.malformed,
                                },
                            );
                            StepOutcome::Retry
                        } else {
                            StepOutcome::Unscored
                        }
                    },
                    _ => StepOutcome::Fatal { error },
                }
            },
            ChatEvent::Reply { role, content } => {
                if !is_assistant_role(&role) {
                    return StepOutcome::Fatal { error: BackendErrorKind::ProtocolError };
                }
                let final_attempt = p.malformed == self.config.malformed_limit;
                match parse_reply(&content) {
                    Some(parsed) => {
                        if parsed.multi_line && !final_attempt {
                            // A multi-line reason is malformed before the
                            // final attempt: retry or give up, and never
                            // remember the reply.
                            if p.malformed < self.config.malformed_limit {
                                self.pending = Some(
                                    PendingLine {
                                        line: p.line,
                                        timeouts: p.timeouts,
                                        malformed: p.malformed + 1,
                                    },
                                );
                                StepOutcome::Retry
                            } else {
                                StepOutcome::Unscored
                            }
                        } else {
                            self.context.push(Exchange { request: p.line, reply: content });
                            StepOutcome::Scored { reason: parsed.reason, score: parsed.score }
                        }
                    },
                    None => {
                        if p.malformed < self.config.malformed_limit {
                            self.pending = Some(
                                PendingLine {
                                    line: p.line,
                                    timeouts: p.timeouts,
                                    malformed: p.malformed + 1,
                                },
                            );
                            StepOutcome::Retry
                        } else {
                            StepOutcome::Unscored
                        }
                    },
                }
            },
        }
    }
}

/// How a line in flight, with counters `t` and `m`, ends under a stream of
/// backend events: the class of the first event that is not retried, or
/// `None` if every event in the stream is retried.
pub open spec fn run_steps(cfg: SessionConfig, t: int, m: int, evs: Seq<ChatEvent>) -> Option<
    StepClass,
>
    decreases evs.len(),
{
    if evs.len() == 0 {
        Option::None
    } else {
        let c = step_class(cfg, t, m, evs[0]);
        if c is Retry {
            run_steps(
                cfg,
                step_timeouts(cfg, t, m, evs[0]),
                step_malformed(cfg, t, m, evs[0]),
                evs.drop_first(),
            )
        } else {
            Option::Some(c)
        }
    }
}

/// Retries are bounded, so every line produces exactly one output: however
/// the backend behaves, once a line has seen more events than the two retry
/// budgets allow together, the machine has reached a terminal outcome —
/// scored, unscored or fatal — and each such outcome emits exactly one
/// output instruction for the line. Output order follows input order because
/// a session keeps at most one line in flight at a time.
pub proof fn lemma_line_terminates(cfg: SessionConfig, t: int, m: int, evs: Seq<ChatEvent>)
    requires
        0 <= t <= cfg.timeout_limit,
        0 <= m <= cfg.malformed_limit,
        evs.len() > (cfg.timeout_limit - t) + (cfg.malformed_limit - m),
    ensures
        run_steps(cfg, t, m, evs) is Some,
    decreases evs.len(),
{
    let c = step_class(cfg, t, m, evs[0]);
    if c is Retry {
        let t1 = step_timeouts(cfg, t, m, evs[0]);
        let m1 = step_malformed(cfg, t, m, evs[0]);
        assert(t1 + m1 == t + m + 1);
        lemma_line_terminates(cfg, t1, m1, evs.drop_first());
    }
}

/// A blank line holds nothing but whitespace.
pub fn is_blank_line(l: &Vec<u8>) -> (r: bool)
    ensures
        r == line_blank(l@),
{
    let mut i: usize = 0;
    while i < l.len()
        invariant
            i <= l.len(),
            forall|j: int| 0 <= j < i ==> is_ws(l@[j]),
        decreases l.len() - i,
    {
        if !crate::text::is_ws_byte(l[i]) {
            return false;
        }
        i = i + 1;
    }
    true
}

} // verus!
