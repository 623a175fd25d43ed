//! The attempts of a request: what comes of each, and what is kept of it.
use crate::attempts;
use crate::attempts::{Attempt, AttemptView};
use crate::channel;
use crate::channel::{Channel, ChannelView};
use crate::clock;
use crate::gateway;
use crate::numeral;
use crate::protocol;
use crate::protocol::ApiProtocol;
use crate::stats;
use crate::stats::UsageStats;
use crate::text;
use crate::usage;
use crate::usage::{RequestLog, TokenUsage};
use vstd::prelude::*;
use vstd::string::*;

verus! {

/// How long a channel stays out of use after failing, in seconds.
pub const CHANNEL_COOLDOWN_SECS: u64 = 120;

/// What came of a step of an attempt.
pub enum AttemptEvent {
    /// The channel serves one request at a time, and could not be had.
    Busy(String),
    /// The request could not be sent.
    SendFailed(String),
    /// A response began that is to be streamed.
    StreamOpened(u16),
    /// A streamed response was watched until its first output.
    StreamProbed {
        status: u16,
        error: Option<String>,
        timed_out: bool,
        first_chunk_ms: Option<u64>,
        first_text_ms: Option<u64>,
    },
    /// The body of the response could not be read.
    BodyFailed(String),
    /// The response came in full.
    Answered { status: u16, usage: TokenUsage },
}

/// What an event of an attempt holds.
pub enum AttemptEventView {
    Busy(Seq<char>),
    SendFailed(Seq<char>),
    StreamOpened(u16),
    StreamProbed {
        status: u16,
        error: Option<Seq<char>>,
        timed_out: bool,
        first_chunk_ms: Option<u64>,
        first_text_ms: Option<u64>,
    },
    BodyFailed(Seq<char>),
    Answered { status: u16, usage: TokenUsage },
}

impl View for AttemptEvent {
    type V = AttemptEventView;

    open spec fn view(&self) -> AttemptEventView {
        match self {
            AttemptEvent::Busy(error) => AttemptEventView::Busy(error@),
            AttemptEvent::SendFailed(error) => AttemptEventView::SendFailed(error@),
            AttemptEvent::StreamOpened(status) => AttemptEventView::StreamOpened(*status),
            AttemptEvent::StreamProbed {
                status,
                error,
                timed_out,
                first_chunk_ms,
                first_text_ms,
            } => AttemptEventView::StreamProbed {
                status: *status,
                error: channel::maybe_text(*error),
                timed_out: *timed_out,
                first_chunk_ms: *first_chunk_ms,
                first_text_ms: *first_text_ms,
            },
            AttemptEvent::BodyFailed(error) => AttemptEventView::BodyFailed(error@),
            AttemptEvent::Answered { status, usage } => AttemptEventView::Answered {
                status: *status,
                usage: *usage,
            },
        }
    }
}

/// What is to be done next.
#[derive(Clone, Copy, Debug, PartialEq, Eq, Structural)]
pub enum NextStep {
    /// Watch the stream until its first output.
    Probe,
    /// Go on to the next attempt.
    TryNext,
    /// Keep the reply, in case no later attempt gives one, and go on.
    KeepAndTryNext,
    /// Give the reply to the client.
    Reply,
}

/// What the ledger is told of an attempt.
pub struct TrialEntry {
    pub reason: String,
    pub status: u16,
    pub usage: TokenUsage,
    pub first_chunk_ms: Option<u64>,
    pub first_text_ms: Option<u64>,
}

/// What an entry holds.
#[verifier::ext_equal]
pub struct TrialEntryView {
    pub reason: Seq<char>,
    pub status: u16,
    pub usage: TokenUsage,
    pub first_chunk_ms: Option<u64>,
    pub first_text_ms: Option<u64>,
}

impl View for TrialEntry {
    type V = TrialEntryView;

    open spec fn view(&self) -> TrialEntryView {
        TrialEntryView {
            reason: self.reason@,
            status: self.status,
            usage: self.usage,
            first_chunk_ms: self.first_chunk_ms,
            first_text_ms: self.first_text_ms,
        }
    }
}

/// What an entry that may be there holds.
pub open spec fn maybe_entry(entry: Option<TrialEntry>) -> Option<TrialEntryView> {
    match entry {
        Some(entry) => Some(entry@),
        None => None,
    }
}

/// An entry for an attempt of which no usage is known.
pub open spec fn bare_entry(reason: Seq<char>, status: u16) -> TrialEntryView {
    TrialEntryView {
        reason,
        status,
        usage: usage::no_tokens(),
        first_chunk_ms: None,
        first_text_ms: None,
    }
}

/// An entry for an attempt of which no usage is known.
fn bare(reason: String, status: u16) -> (r: TrialEntry)
    ensures
        r@ == bare_entry(reason@, status),
{
    TrialEntry {
        reason,
        status,
        usage: TokenUsage::default(),
        first_chunk_ms: None,
        first_text_ms: None,
    }
}

/// What is told to the ledger, and what is done next, after `event`. The attempt
/// was made for `reason`, and the channel was waited for where `waited_ms` says
/// so; `more` says whether there is an attempt after it.
pub open spec fn outcome(
    event: AttemptEventView,
    reason: Seq<char>,
    waited_ms: Option<u64>,
    more: bool,
    retry_statuses: Seq<u16>,
) -> (Option<TrialEntryView>, NextStep) {
    match event {
        AttemptEventView::Busy(error) => (
            Some(bare_entry(reason + "; "@ + error, 504)),
            NextStep::TryNext,
        ),
        AttemptEventView::SendFailed(error) => (
            Some(bare_entry(reason + "; upstream error: "@ + error, 502)),
            NextStep::TryNext,
        ),
        AttemptEventView::StreamOpened(status) => if retry_statuses.contains(status) && more {
            (
                Some(
                    bare_entry(
                        reason + "; retryable status "@ + numeral::decimal(status as int),
                        status,
                    ),
                ),
                NextStep::TryNext,
            )
        } else {
            (None, NextStep::Probe)
        },
        AttemptEventView::StreamProbed {
            status,
            error,
            timed_out,
            first_chunk_ms,
            first_text_ms,
        } => {
            let (said, told, step) = if error is Some {
                (reason + "; stream probe error: "@ + error->0, 502u16, NextStep::TryNext)
            } else if timed_out && more {
                (
                    reason + "; first output timed out before client flush"@,
                    504u16,
                    NextStep::TryNext,
                )
            } else {
                (gateway::waited_reason(reason, waited_ms), status, NextStep::Reply)
            };
            (
                Some(
                    TrialEntryView {
                        reason: said,
                        status: told,
                        usage: usage::no_tokens(),
                        first_chunk_ms,
                        first_text_ms,
                    },
                ),
                step,
            )
        },
        AttemptEventView::BodyFailed(error) => (
            Some(bare_entry(reason + "; body error: "@ + error, 502)),
            NextStep::TryNext,
        ),
        AttemptEventView::Answered { status, usage } => (
            Some(
                TrialEntryView {
                    reason: gateway::waited_reason(reason, waited_ms),
                    status,
                    usage,
                    first_chunk_ms: None,
                    first_text_ms: None,
                },
            ),
            if retry_statuses.contains(status) && more {
                NextStep::KeepAndTryNext
            } else {
                NextStep::Reply
            },
        ),
    }
}

/// Is `status` one upon which the next attempt is made?
pub fn is_retryable(retry_statuses: &Vec<u16>, status: u16) -> (r: bool)
    ensures
        r == retry_statuses@.contains(status),
{
    let mut i: usize = 0;
    while i < retry_statuses.len()
        invariant
            i <= retry_statuses@.len(),
            forall|j: int| 0 <= j < i ==> retry_statuses@[j] != status,
        decreases retry_statuses@.len() - i,
    {
        if retry_statuses[i] == status {
            return true;
        }
        i += 1;
    }
    false
}

/// What is told to the ledger, and what is done next, after `event`.
pub fn judge(
    event: &AttemptEvent,
    reason: &str,
    waited_ms: Option<u64>,
    more: bool,
    retry_statuses: &Vec<u16>,
) -> (r: (Option<TrialEntry>, NextStep))
    ensures
        (maybe_entry(r.0), r.1) == outcome(event@, reason@, waited_ms, more, retry_statuses@),
{
    match event {
        AttemptEvent::Busy(error) => (
            Some(bare(text::concat3(reason, "; ", error.as_str()), 504)),
            NextStep::TryNext,
        ),
        AttemptEvent::SendFailed(error) => (
            Some(bare(text::concat3(reason, "; upstream error: ", error.as_str()), 502)),
            NextStep::TryNext,
        ),
        AttemptEvent::StreamOpened(status) => if is_retryable(retry_statuses, *status) && more {
            let said: String = text::concat3(
                reason,
                "; retryable status ",
                numeral::to_decimal(*status as u128).as_str(),
            );
            (Some(bare(said, *status)), NextStep::TryNext)
        } else {
            (None, NextStep::Probe)
        },
        AttemptEvent::StreamProbed {
            status,
            error,
            timed_out,
            first_chunk_ms,
            first_text_ms,
        } => {
            let (said, told, step): (String, u16, NextStep) = match error {
                Some(error) => (
                    text::concat3(reason, "; stream probe error: ", error.as_str()),
                    502,
                    NextStep::TryNext,
                ),
                None => if *timed_out && more {
                    (
                        text::concat2(reason, "; first output timed out before client flush"),
                        504,
                        NextStep::TryNext,
                    )
                } else {
                    (gateway::append_serial_wait(reason, waited_ms), *status, NextStep::Reply)
                },
            };
            (
                Some(
                    TrialEntry {
                        reason: said,
                        status: told,
                        usage: TokenUsage::default(),
                        first_chunk_ms: *first_chunk_ms,
                        first_text_ms: *first_text_ms,
                    },
                ),
                step,
            )
        },
        AttemptEvent::BodyFailed(error) => (
            Some(bare(text::concat3(reason, "; body error: ", error.as_str()), 502)),
            NextStep::TryNext,
        ),
        AttemptEvent::Answered { status, usage } => (
            Some(
                TrialEntry {
                    reason: gateway::append_serial_wait(reason, waited_ms),
                    status: *status,
                    usage: *usage,
                    first_chunk_ms: None,
                    first_text_ms: None,
                },
            ),
            if is_retryable(retry_statuses, *status) && more {
                NextStep::KeepAndTryNext
            } else {
                NextStep::Reply
            },
        ),
    }
}

/// The attempt can be made: its channel speaks a known format, and that of the
/// client where the response is to be streamed.
pub open spec fn usable(attempt: AttemptView, stream: bool, client: ApiProtocol) -> bool {
    match protocol::protocol_of(attempt.channel) {
        Some(upstream) => !stream || upstream == client,
        None => false,
    }
}

/// The place of the first attempt from `from` on that can be made; the number of
/// attempts where there is none.
pub open spec fn usable_from(
    attempts: Seq<AttemptView>,
    from: int,
    stream: bool,
    client: ApiProtocol,
) -> int
    decreases attempts.len() - from,
{
    if from >= attempts.len() {
        attempts.len() as int
    } else if usable(attempts[from], stream, client) {
        from
    } else {
        usable_from(attempts, from + 1, stream, client)
    }
}

/// Can the attempt be made, and in which format?
pub fn upstream_format(attempt: &Attempt, stream: bool, client: ApiProtocol) -> (r: Option<
    ApiProtocol,
>)
    ensures
        r == (if usable(attempt@, stream, client) {
            protocol::protocol_of(attempt@.channel)
        } else {
            None
        }),
{
    match ApiProtocol::from_channel(&attempt.channel) {
        Some(upstream) => if stream && upstream != client {
            None
        } else {
            Some(upstream)
        },
        None => None,
    }
}

/// The way through the attempts of a request. `R` is a reply for the client.
pub struct TrialLoop<R> {
    /// The first attempt that was not looked at yet.
    pub next: usize,
    /// The last reply that was put aside.
    pub kept: Option<R>,
}

/// Where the way through the attempts leads.
pub enum LoopStep<R> {
    /// The attempt to make.
    Try(usize),
    /// The reply for the client.
    Answer(R),
    /// No attempt gave a reply.
    AllFailed,
}

impl<R> TrialLoop<R> {
    /// Where the way leads next, and what is left of it: the next attempt that can
    /// be made; where there is none, the reply that was put aside last.
    pub open spec fn advanced(
        self,
        attempts: Seq<AttemptView>,
        stream: bool,
        client: ApiProtocol,
    ) -> (LoopStep<R>, TrialLoop<R>) {
        let at = usable_from(attempts, self.next as int, stream, client);
        if at < attempts.len() {
            (
                LoopStep::Try(at as usize),
                TrialLoop { next: (at + 1) as usize, kept: self.kept },
            )
        } else {
            (
                match self.kept {
                    Some(reply) => LoopStep::Answer(reply),
                    None => LoopStep::AllFailed,
                },
                TrialLoop { next: attempts.len() as usize, kept: None },
            )
        }
    }

    /// The reply for the client, and the way that is left, after an attempt that is
    /// followed by `step` and gave `reply`.
    pub open spec fn settled(self, step: NextStep, reply: R) -> (Option<R>, TrialLoop<R>) {
        match step {
            NextStep::Reply => (Some(reply), self),
            NextStep::KeepAndTryNext => (
                None,
                TrialLoop { next: self.next, kept: Some(reply) },
            ),
            _ => (None, self),
        }
    }

    /// The start of the way.
    pub fn start() -> (r: Self)
        ensures
            r.next == 0,
            r.kept is None,
    {
        TrialLoop { next: 0, kept: None }
    }

    /// Goes on to the next attempt that can be made; where there is none, to the
    /// reply that was put aside last.
    pub fn advance(&mut self, attempts: &Vec<Attempt>, stream: bool, client: ApiProtocol) -> (r:
        LoopStep<R>)
        requires
            old(self).next <= attempts@.len(),
        ensures
            (r, *final(self)) == old(self).advanced(
                attempts::attempt_views(attempts@),
                stream,
                client,
            ),
            final(self).next <= attempts@.len(),
    {
        let ghost views = attempts::attempt_views(attempts@);
        let ghost from = self.next as int;
        while self.next < attempts.len()
            invariant
                views == attempts::attempt_views(attempts@),
                from <= self.next <= attempts@.len(),
                from == old(self).next,
                self.kept == old(self).kept,
                usable_from(views, from, stream, client) == usable_from(
                    views,
                    self.next as int,
                    stream,
                    client,
                ),
            decreases attempts@.len() - self.next,
        {
            let at: usize = self.next;
            assert(views[at as int] == attempts@[at as int]@);
            self.next = at + 1;
            if upstream_format(&attempts[at], stream, client).is_some() {
                return LoopStep::Try(at);
            }
        }
        match self.kept.take() {
            Some(reply) => LoopStep::Answer(reply),
            None => LoopStep::AllFailed,
        }
    }

    /// Is there an attempt that was not looked at yet?
    pub fn has_more(&self, attempts: &Vec<Attempt>) -> (r: bool)
        ensures
            r == (self.next < attempts@.len()),
    {
        self.next < attempts.len()
    }

    /// Takes in the reply of an attempt: it goes to the client, is put aside or is
    /// dropped, as `step` says.
    pub fn settle(&mut self, step: NextStep, reply: R) -> (r: Option<R>)
        ensures
            (r, *final(self)) == old(self).settled(step, reply),
    {
        match step {
            NextStep::Reply => Some(reply),
            NextStep::KeepAndTryNext => {
                self.kept = Some(reply);
                None
            },
            _ => None,
        }
    }
}

/// The attempt that is made next can be made, and no earlier one that was not
/// looked at yet can.
pub proof fn law_next_attempt(
    attempts: Seq<AttemptView>,
    from: int,
    stream: bool,
    client: ApiProtocol,
)
    requires
        0 <= from <= attempts.len(),
    ensures
        from <= usable_from(attempts, from, stream, client) <= attempts.len(),
        forall|i: int|
            from <= i < usable_from(attempts, from, stream, client) ==> !usable(
                #[trigger] attempts[i],
                stream,
                client,
            ),
        usable_from(attempts, from, stream, client) < attempts.len() ==> usable(
            attempts[usable_from(attempts, from, stream, client)],
            stream,
            client,
        ),
    decreases attempts.len() - from,
{
    if from < attempts.len() && !usable(attempts[from], stream, client) {
        law_next_attempt(attempts, from + 1, stream, client);
    }
}

/// Where the way `way` through `attempts` ends, where `steps[i]` follows the
/// attempt `i` and `replies[i]` is its reply.
pub open spec fn way_end<R>(
    way: TrialLoop<R>,
    attempts: Seq<AttemptView>,
    stream: bool,
    client: ApiProtocol,
    steps: Seq<NextStep>,
    replies: Seq<R>,
) -> LoopStep<R>
    decreases attempts.len() - way.next,
    when way.next <= attempts.len() <= usize::MAX
{
    proof {
        law_next_attempt(attempts, way.next as int, stream, client);
    }
    let (place, ahead) = way.advanced(attempts, stream, client);
    match place {
        LoopStep::Try(i) => {
            let (reply, rest) = ahead.settled(steps[i as int], replies[i as int]);
            match reply {
                Some(reply) => LoopStep::Answer(reply),
                None => way_end(rest, attempts, stream, client, steps, replies),
            }
        },
        _ => place,
    }
}

/// `end` is the first of the replies that are told; where there is none, the last
/// of those that are kept; where there is none either, `before`, and that all
/// attempts failed where there was no such reply.
pub open spec fn ends_with<R>(
    end: LoopStep<R>,
    told: spec_fn(int) -> bool,
    kept: spec_fn(int) -> bool,
    replies: Seq<R>,
    before: Option<R>,
) -> bool {
    &&& forall|i: int| #[trigger]
        told(i) && (forall|j: int| #[trigger] told(j) ==> i <= j) ==> end == LoopStep::Answer(
            replies[i],
        )
    &&& (forall|j: int| !#[trigger] told(j)) ==> {
        &&& forall|i: int| #[trigger]
            kept(i) && (forall|j: int| #[trigger] kept(j) ==> j <= i) ==> end == LoopStep::Answer(
                replies[i],
            )
        &&& (forall|j: int| !#[trigger] kept(j)) ==> end == (match before {
            Some(reply) => LoopStep::Answer(reply),
            None => LoopStep::AllFailed,
        })
    }
}

/// The attempts from `from` on that can be made and are followed by `step`.
pub open spec fn followed_by(
    attempts: Seq<AttemptView>,
    stream: bool,
    client: ApiProtocol,
    steps: Seq<NextStep>,
    from: int,
    step: NextStep,
) -> spec_fn(int) -> bool {
    |i: int|
        from <= i < attempts.len() && usable(attempts[i], stream, client) && steps[i] == step
}

#[verifier::spinoff_prover]
proof fn lemma_way_end<R>(
    way: TrialLoop<R>,
    attempts: Seq<AttemptView>,
    stream: bool,
    client: ApiProtocol,
    steps: Seq<NextStep>,
    replies: Seq<R>,
)
    requires
        way.next <= attempts.len() <= usize::MAX,
    ensures
        ({
            let from = way.next as int;
            let told = followed_by(attempts, stream, client, steps, from, NextStep::Reply);
            let kept = followed_by(
                attempts,
                stream,
                client,
                steps,
                from,
                NextStep::KeepAndTryNext,
            );
            ends_with(
                way_end(way, attempts, stream, client, steps, replies),
                told,
                kept,
                replies,
                way.kept,
            )
        }),
    decreases attempts.len() - way.next,
{
    law_next_attempt(attempts, way.next as int, stream, client);
    let at = usable_from(attempts, way.next as int, stream, client);
    let from = way.next as int;
    let keep = NextStep::KeepAndTryNext;
    let told = followed_by(attempts, stream, client, steps, from, NextStep::Reply);
    let kept = followed_by(attempts, stream, client, steps, from, keep);
    let end = way_end(way, attempts, stream, client, steps, replies);
    if at < attempts.len() {
        let (place, ahead) = way.advanced(attempts, stream, client);
        let (reply, rest) = ahead.settled(steps[at], replies[at]);
        if steps[at] == NextStep::Reply {
            assert(told(at));
            assert forall|i: int| #[trigger]
                told(i) && (forall|j: int| #[trigger] told(j) ==> i <= j) implies end
                == LoopStep::Answer(replies[i]) by {
                assert(i <= at);
                assert(i == at);
            }
        } else {
            lemma_way_end(rest, attempts, stream, client, steps, replies);
            let later = rest.next as int;
            let told_later = followed_by(
                attempts,
                stream,
                client,
                steps,
                later,
                NextStep::Reply,
            );
            let kept_later = followed_by(attempts, stream, client, steps, later, keep);
            assert(rest.next == at + 1);
            assert(end == way_end(rest, attempts, stream, client, steps, replies));
            assert forall|i: int| #[trigger] told(i) == told_later(i) by {}
            assert forall|i: int| #[trigger] kept(i) == (kept_later(i) || (i == at && steps[at]
                == NextStep::KeepAndTryNext)) by {}
            assert forall|i: int| #[trigger]
                told(i) && (forall|j: int| #[trigger] told(j) ==> i <= j) implies end
                == LoopStep::Answer(replies[i]) by {
                assert(told_later(i));
                assert forall|j: int| #[trigger] told_later(j) implies i <= j by {
                    assert(told(j));
                }
            }
            if forall|j: int| !#[trigger] told(j) {
                assert forall|j: int| !#[trigger] told_later(j) by {
                    assert(!told(j));
                }
                assert forall|i: int| #[trigger]
                    kept(i) && (forall|j: int| #[trigger] kept(j) ==> j <= i) implies end
                    == LoopStep::Answer(replies[i]) by {
                    if i == at {
                        assert forall|j: int| !#[trigger] kept_later(j) by {
                            if kept_later(j) {
                                assert(kept(j));
                            }
                        }
                        assert(rest.kept == Some(replies[at]));
                    } else {
                        assert(kept_later(i));
                        assert forall|j: int| #[trigger] kept_later(j) implies j <= i by {
                            assert(kept(j));
                        }
                    }
                }
                if forall|j: int| !#[trigger] kept(j) {
                    assert(!kept(at));
                    assert forall|j: int| !#[trigger] kept_later(j) by {
                        assert(!kept(j));
                    }
                }
            }
        }
    }
}

/// The attempt `i` was ended by `events[i]` with a reply that is final: an answer
/// that is not to be tried again, or a stream that spoke in time. Of the last
/// attempt any answer is, and any stream that did not break.
pub open spec fn final_reply(
    attempts: Seq<AttemptView>,
    stream: bool,
    client: ApiProtocol,
    events: Seq<AttemptEventView>,
    retry_statuses: Seq<u16>,
    i: int,
) -> bool {
    let last = i + 1 == attempts.len();
    &&& 0 <= i < attempts.len()
    &&& usable(attempts[i], stream, client)
    &&& match events[i] {
        AttemptEventView::Answered { status, .. } => last || !retry_statuses.contains(status),
        AttemptEventView::StreamProbed { error, timed_out, .. } => error is None && (last
            || !timed_out),
        _ => false,
    }
}

/// The attempt `i`, which is not the last, was ended by `events[i]` with an answer
/// that is to be tried again.
pub open spec fn kept_reply(
    attempts: Seq<AttemptView>,
    stream: bool,
    client: ApiProtocol,
    events: Seq<AttemptEventView>,
    retry_statuses: Seq<u16>,
    i: int,
) -> bool {
    &&& 0 <= i < attempts.len() - 1
    &&& usable(attempts[i], stream, client)
    &&& events[i] matches AttemptEventView::Answered { status, .. }
    &&& retry_statuses.contains(status)
}

/// The steps that follow the attempts, each of which was ended by its event.
pub open spec fn steps_after(
    attempts: Seq<AttemptView>,
    events: Seq<AttemptEventView>,
    waits: Seq<Option<u64>>,
    retry_statuses: Seq<u16>,
) -> Seq<NextStep> {
    Seq::new(
        attempts.len(),
        |i: int|
            outcome(
                events[i],
                attempts[i].reason,
                waits[i],
                i + 1 < attempts.len(),
                retry_statuses,
            ).1,
    )
}

/// The attempts with a final reply.
pub open spec fn final_replies(
    attempts: Seq<AttemptView>,
    stream: bool,
    client: ApiProtocol,
    events: Seq<AttemptEventView>,
    retry_statuses: Seq<u16>,
) -> spec_fn(int) -> bool {
    |i: int| final_reply(attempts, stream, client, events, retry_statuses, i)
}

/// The attempts with a reply that was kept.
pub open spec fn kept_replies(
    attempts: Seq<AttemptView>,
    stream: bool,
    client: ApiProtocol,
    events: Seq<AttemptEventView>,
    retry_statuses: Seq<u16>,
) -> spec_fn(int) -> bool {
    |i: int| kept_reply(attempts, stream, client, events, retry_statuses, i)
}

#[verifier::spinoff_prover]
proof fn lemma_replies_by_step(
    attempts: Seq<AttemptView>,
    stream: bool,
    client: ApiProtocol,
    events: Seq<AttemptEventView>,
    waits: Seq<Option<u64>>,
    retry_statuses: Seq<u16>,
)
    ensures
        ({
            let steps = steps_after(attempts, events, waits, retry_statuses);
            &&& followed_by(attempts, stream, client, steps, 0, NextStep::Reply) == final_replies(
                attempts,
                stream,
                client,
                events,
                retry_statuses,
            )
            &&& followed_by(attempts, stream, client, steps, 0, NextStep::KeepAndTryNext)
                == kept_replies(attempts, stream, client, events, retry_statuses)
        }),
{
    let steps = steps_after(attempts, events, waits, retry_statuses);
    assert(followed_by(attempts, stream, client, steps, 0, NextStep::Reply) =~= final_replies(
        attempts,
        stream,
        client,
        events,
        retry_statuses,
    ));
    assert(followed_by(attempts, stream, client, steps, 0, NextStep::KeepAndTryNext)
        =~= kept_replies(attempts, stream, client, events, retry_statuses));
}

/// The client gets the first reply that is final; where there is none, the last
/// answer that was kept; where there is none either, it is told that all attempts
/// failed. `events[i]` is what ended the attempt `i`.
#[verifier::spinoff_prover]
pub proof fn law_client_gets<R>(
    attempts: Seq<AttemptView>,
    stream: bool,
    client: ApiProtocol,
    events: Seq<AttemptEventView>,
    waits: Seq<Option<u64>>,
    retry_statuses: Seq<u16>,
    replies: Seq<R>,
)
    requires
        attempts.len() <= usize::MAX,
    ensures
        ends_with(
            way_end(
                TrialLoop { next: 0, kept: None },
                attempts,
                stream,
                client,
                steps_after(attempts, events, waits, retry_statuses),
                replies,
            ),
            final_replies(attempts, stream, client, events, retry_statuses),
            kept_replies(attempts, stream, client, events, retry_statuses),
            replies,
            None,
        ),
{
    let way = TrialLoop::<R> { next: 0, kept: None };
    let steps = steps_after(attempts, events, waits, retry_statuses);
    lemma_way_end(way, attempts, stream, client, steps, replies);
    lemma_replies_by_step(attempts, stream, client, events, waits, retry_statuses);
}

/// The last attempt is never followed by another: an answer to it, whatever its
/// status, is what the client gets.
pub proof fn law_last_answer_is_final(
    status: u16,
    usage: TokenUsage,
    reason: Seq<char>,
    waited_ms: Option<u64>,
    retry_statuses: Seq<u16>,
)
    ensures
        outcome(
            AttemptEventView::Answered { status, usage },
            reason,
            waited_ms,
            false,
            retry_statuses,
        ).1 == NextStep::Reply,
{
}

/// An answer with a status that is not to be tried again goes to the client at
/// once; one with a status that is goes on, and is kept, while there are
/// attempts left.
pub proof fn law_retry_statuses(
    status: u16,
    usage: TokenUsage,
    reason: Seq<char>,
    waited_ms: Option<u64>,
    more: bool,
    retry_statuses: Seq<u16>,
)
    ensures
        ({
            let step = outcome(
                AttemptEventView::Answered { status, usage },
                reason,
                waited_ms,
                more,
                retry_statuses,
            ).1;
            &&& !retry_statuses.contains(status) ==> step == NextStep::Reply
            &&& retry_statuses.contains(status) && more ==> step == NextStep::KeepAndTryNext
        }),
{
}

/// Nothing is given to the client of an attempt that failed; and of every
/// attempt that ended the ledger is told.
pub proof fn law_failures_go_on(
    event: AttemptEventView,
    reason: Seq<char>,
    waited_ms: Option<u64>,
    more: bool,
    retry_statuses: Seq<u16>,
)
    ensures
        ({
            let (entry, step) = outcome(event, reason, waited_ms, more, retry_statuses);
            &&& event is Busy || event is SendFailed || event is BodyFailed ==> step
                == NextStep::TryNext
            &&& entry is None <==> step == NextStep::Probe
        }),
{
}

/// The channel after a request that ended with `status` at the time `now`. A
/// success makes it whole; the third failure in a row takes it out of use for a
/// while.
pub open spec fn after_request(channel: ChannelView, status: u16, now: u64) -> ChannelView {
    let requests = channel.requests.saturating_add(1);
    let fail_count = channel.fail_count.saturating_add(1);
    if stats::succeeded(status) {
        ChannelView {
            requests,
            fail_count: 0,
            status: "active"@,
            disabled_until: None,
            ..channel
        }
    } else if fail_count >= 3 {
        ChannelView {
            requests,
            fail_count,
            status: "cooldown"@,
            disabled_until: Some(now.saturating_add(CHANNEL_COOLDOWN_SECS)),
            ..channel
        }
    } else {
        ChannelView { requests, fail_count, ..channel }
    }
}

/// The place of the first of `channels` with the given id and name; their number
/// where there is none.
pub open spec fn channel_place(channels: Seq<ChannelView>, id: Option<u64>, name: Seq<char>) -> int
    decreases channels.len(),
{
    if channels.len() == 0 || (channels[0].id == id && channels[0].name == name) {
        0
    } else {
        1 + channel_place(channels.skip(1), id, name)
    }
}

/// `channels` after a request to the one with the given id and name ended with
/// `status` at the time `now`.
pub open spec fn after_result(
    channels: Seq<ChannelView>,
    id: Option<u64>,
    name: Seq<char>,
    status: u16,
    now: u64,
) -> Seq<ChannelView> {
    let at = channel_place(channels, id, name);
    if at < channels.len() {
        channels.update(at, after_request(channels[at], status, now))
    } else {
        channels
    }
}

/// Are `a` and `b` the same id?
fn same_id(a: Option<u64>, b: Option<u64>) -> (r: bool)
    ensures
        r == (a == b),
{
    match (a, b) {
        (Some(a), Some(b)) => a == b,
        (None, None) => true,
        _ => false,
    }
}

/// Enters the end of a request into the channel with the given id and name.
pub fn record_channel_result(
    channels: &mut Vec<Channel>,
    id: Option<u64>,
    name: &str,
    status: u16,
    now: u64,
)
    ensures
        channel::channel_views(final(channels)@) == after_result(
            channel::channel_views(old(channels)@),
            id,
            name@,
            status,
            now,
        ),
{
    let ghost before = channels@;
    let ghost all = channel::channel_views(channels@);
    let mut i: usize = 0;
    assert(all.skip(0) =~= all);
    while i < channels.len() && !(same_id(channels[i].id, id) && text::same_text(
        channels[i].name.as_str(),
        name,
    ))
        invariant
            i <= channels@.len(),
            channels@ == before,
            all == channel::channel_views(before),
            channel_place(all, id, name@) == i + channel_place(all.skip(i as int), id, name@),
        decreases channels@.len() - i,
    {
        assert(all.skip(i as int).skip(1) =~= all.skip(i + 1));
        i += 1;
    }
    if i >= channels.len() {
        return ;
    }
    assert(channel_place(all, id, name@) == i);
    let mut current: Channel = channels[i].clone();
    current.requests = current.requests.saturating_add(1);
    if stats::is_success(status) {
        current.fail_count = 0;
        current.status = "active".to_owned();
        current.disabled_until = None;
    } else {
        current.fail_count = current.fail_count.saturating_add(1);
        if current.fail_count >= 3 {
            current.status = "cooldown".to_owned();
            current.disabled_until = Some(now.saturating_add(CHANNEL_COOLDOWN_SECS));
        }
    }
    assert(current@ =~= after_request(all[i as int], status, now));
    channels.set(i, current);
    assert(channel::channel_views(channels@) =~= all.update(i as int, current@));
}

/// Where a request went, for the ledger.
pub struct TrialRecord<'a> {
    pub request_id: &'a str,
    pub source: &'a str,
    pub requested_model: &'a str,
    pub actual_model: &'a str,
    pub route: &'a str,
}

/// The log of an attempt that ended at the time `ts`.
pub open spec fn trial_log(
    ts: i64,
    channel: ChannelView,
    request_id: Seq<char>,
    source: Seq<char>,
    requested_model: Seq<char>,
    actual_model: Seq<char>,
    route: Seq<char>,
    entry: TrialEntryView,
    latency_ms: u64,
) -> usage::RequestLogView {
    usage::logged(
        ts,
        request_id,
        source,
        channel.id,
        channel.name,
        requested_model,
        actual_model,
        route,
        entry.reason,
        entry.status,
        latency_ms,
        entry.usage,
        entry.first_chunk_ms,
        entry.first_text_ms,
    )
}

/// Enters an attempt that ended at the time `ts`, in seconds `now`, into the
/// channel it was made on and into the ledger, and gives the log of it.
pub fn record_result_at(
    channels: &mut Vec<Channel>,
    stats: &mut UsageStats,
    channel: &Channel,
    record: &TrialRecord<'_>,
    entry: &TrialEntry,
    latency_ms: u64,
    ts: i64,
    now: u64,
) -> (r: RequestLog)
    requires
        old(stats).wf(),
        ts <= clock::LATEST_SECS,
    ensures
        final(stats).wf(),
        r@ == trial_log(
            ts,
            channel@,
            record.request_id@,
            record.source@,
            record.requested_model@,
            record.actual_model@,
            record.route@,
            entry@,
            latency_ms,
        ),
        final(stats)@ == old(stats)@.with_log(r@),
        channel::channel_views(final(channels)@) == after_result(
            channel::channel_views(old(channels)@),
            channel@.id,
            channel@.name,
            entry@.status,
            now,
        ),
{
    let log: RequestLog = RequestLog::new_at(
        ts,
        record.request_id.to_owned(),
        record.source.to_owned(),
        channel.id,
        channel.name.clone(),
        record.requested_model.to_owned(),
        record.actual_model.to_owned(),
        record.route.to_owned(),
        entry.reason.clone(),
        entry.status,
        latency_ms,
        entry.usage,
        entry.first_chunk_ms,
        entry.first_text_ms,
    );
    record_channel_result(channels, channel.id, channel.name.as_str(), entry.status, now);
    stats.record(log.clone());
    log
}

/// Enters an attempt that ends now into the channel it was made on and into the
/// ledger, and gives the log of it.
pub fn record_result(
    channels: &mut Vec<Channel>,
    stats: &mut UsageStats,
    channel: &Channel,
    record: &TrialRecord<'_>,
    entry: &TrialEntry,
    latency_ms: u64,
) -> (r: RequestLog)
    requires
        old(stats).wf(),
    ensures
        final(stats).wf(),
        exists|ts: i64|
            0 <= ts <= clock::LATEST_SECS && r@ == #[trigger] trial_log(
                ts,
                channel@,
                record.request_id@,
                record.source@,
                record.requested_model@,
                record.actual_model@,
                record.route@,
                entry@,
                latency_ms,
            ),
        final(stats)@ == old(stats)@.with_log(r@),
        exists|now: u64|
            channel::channel_views(final(channels)@) == #[trigger] after_result(
                channel::channel_views(old(channels)@),
                channel@.id,
                channel@.name,
                entry@.status,
                now,
            ),
{
    let ts: i64 = clock::now_unix_secs();
    let now: u64 = clock::unix_now_secs();
    record_result_at(channels, stats, channel, record, entry, latency_ms, ts, now)
}

/// The group of a channel as the log gives it; a hyphen where there is none.
pub fn log_group(channel: &Channel) -> (r: String)
    ensures
        r@ == (if text::blank(channel@.group) {
            "-"@
        } else {
            text::trimmed(channel@.group)
        }),
{
    let group: &str = text::trim(channel.group.as_str());
    if group.is_empty() {
        "-".to_owned()
    } else {
        group.to_owned()
    }
}

proof fn lemma_state_words()
    ensures
        text::trimmed("active"@) == "active"@,
        text::trimmed("cooldown"@) == "cooldown"@,
        "active"@.len() == 6,
        "cooldown"@.len() == 8,
        !channel::same_word("cooldown"@, "active"@),
{
    reveal_strlit("active");
    reveal_strlit("cooldown");
    assert(text::ascii_lowered("cooldown"@).len() == 8);
    assert(text::ascii_lowered("active"@).len() == 6);
}

/// A success puts a channel back into use, whatever state it was in.
pub proof fn law_success_restores(channel: ChannelView, status: u16, now: u64, later: int)
    requires
        stats::succeeded(status),
    ensures
        after_request(channel, status, now).active_at(later),
        after_request(channel, status, now).fail_count == 0,
{
    lemma_state_words();
}

/// The third failure in a row takes a channel out of use until the cooldown has
/// passed, and no longer.
pub proof fn law_third_failure_cools(channel: ChannelView, status: u16, now: u64, later: int)
    requires
        !stats::succeeded(status),
        channel.fail_count >= 2,
        now <= u64::MAX - CHANNEL_COOLDOWN_SECS,
    ensures
        after_request(channel, status, now).active_at(later) <==> later >= now
            + CHANNEL_COOLDOWN_SECS,
{
    lemma_state_words();
}

/// The first and the second failure in a row leave a channel in the state in
/// which it was.
pub proof fn law_early_failures_pass(channel: ChannelView, status: u16, now: u64, later: int)
    requires
        !stats::succeeded(status),
        channel.fail_count < 2,
    ensures
        after_request(channel, status, now).active_at(later) == channel.active_at(later),
        after_request(channel, status, now).fail_count == channel.fail_count + 1,
{
}

/// The end of a request changes one channel at most, and none but the counters
/// and the state of that one.
pub proof fn law_results_change_one_channel(
    channels: Seq<ChannelView>,
    id: Option<u64>,
    name: Seq<char>,
    status: u16,
    now: u64,
    i: int,
)
    requires
        0 <= i < channels.len(),
    ensures
        ({
            let after = after_result(channels, id, name, status, now);
            &&& after.len() == channels.len()
            &&& i != channel_place(channels, id, name) ==> after[i] == channels[i]
            &&& after[i].id == channels[i].id && after[i].name == channels[i].name
            &&& after[i].key == channels[i].key && after[i].base == channels[i].base
            &&& after[i].models == channels[i].models && after[i].role == channels[i].role
            &&& after[i].group == channels[i].group && after[i].priority == channels[i].priority
        }),
{
    lemma_channel_place(channels, id, name);
}

proof fn lemma_channel_place(channels: Seq<ChannelView>, id: Option<u64>, name: Seq<char>)
    ensures
        0 <= channel_place(channels, id, name) <= channels.len(),
    decreases channels.len(),
{
    if channels.len() > 0 {
        lemma_channel_place(channels.skip(1), id, name);
    }
}

/// What the ledger is told of an attempt that failed: why, behind the reason of the attempt,
/// with the status 504 where the channel was busy or the output late, and 502 where the
/// request could not be sent or the reply not be read. No tokens are counted.
pub proof fn law_failures_are_told(
    reason: Seq<char>,
    error: Seq<char>,
    waited_ms: Option<u64>,
    more: bool,
    retry_statuses: Seq<u16>,
)
    ensures
        ({
            let busy = outcome(AttemptEventView::Busy(error), reason, waited_ms, more, retry_statuses);
            let unsent = outcome(
                AttemptEventView::SendFailed(error),
                reason,
                waited_ms,
                more,
                retry_statuses,
            );
            let unread = outcome(
                AttemptEventView::BodyFailed(error),
                reason,
                waited_ms,
                more,
                retry_statuses,
            );
            &&& busy.0 is Some && busy.0->0.status == 504 && busy.0->0.reason == reason + "; "@
                + error
            &&& unsent.0 is Some && unsent.0->0.status == 502 && unsent.0->0.reason == reason
                + "; upstream error: "@ + error
            &&& unread.0 is Some && unread.0->0.status == 502 && unread.0->0.reason == reason
                + "; body error: "@ + error
            &&& busy.1 == NextStep::TryNext && unsent.1 == NextStep::TryNext && unread.1
                == NextStep::TryNext
            &&& busy.0->0.usage.prompt_tokens == 0 && busy.0->0.usage.completion_tokens == 0
                && busy.0->0.usage.total_tokens == 0 && busy.0->0.usage.cached_tokens == 0
            &&& unsent.0->0.usage == busy.0->0.usage && unread.0->0.usage == busy.0->0.usage
            &&& busy.0->0.first_chunk_ms is None && busy.0->0.first_text_ms is None
            &&& unsent.0->0.first_chunk_ms is None && unread.0->0.first_chunk_ms is None
        }),
{
}

/// A stream is watched, unless its status is to be tried again and there is another attempt;
/// then the ledger is told of that status.
pub proof fn law_streams_open(
    status: u16,
    reason: Seq<char>,
    waited_ms: Option<u64>,
    more: bool,
    retry_statuses: Seq<u16>,
)
    ensures
        ({
            let (entry, step) = outcome(
                AttemptEventView::StreamOpened(status),
                reason,
                waited_ms,
                more,
                retry_statuses,
            );
            let again = retry_statuses.contains(status) && more;
            &&& again ==> step == NextStep::TryNext && entry is Some && entry->0.status == status
                && entry->0.reason == reason + "; retryable status "@ + numeral::decimal(
                status as int,
            )
            &&& !again ==> step == NextStep::Probe && entry is None
        }),
{
}

/// What comes of a stream that was watched: one that broke is left, with the status 502; one
/// that said nothing in time is left, with the status 504, while there is another attempt; and
/// any other goes to the client, with its own status. The times that were seen are told in
/// each case.
pub proof fn law_streams_probed(
    status: u16,
    error: Option<Seq<char>>,
    timed_out: bool,
    first_chunk_ms: Option<u64>,
    first_text_ms: Option<u64>,
    reason: Seq<char>,
    waited_ms: Option<u64>,
    more: bool,
    retry_statuses: Seq<u16>,
)
    ensures
        ({
            let (entry, step) = outcome(
                AttemptEventView::StreamProbed {
                    status,
                    error,
                    timed_out,
                    first_chunk_ms,
                    first_text_ms,
                },
                reason,
                waited_ms,
                more,
                retry_statuses,
            );
            &&& entry is Some
            &&& entry->0.first_chunk_ms == first_chunk_ms && entry->0.first_text_ms
                == first_text_ms
            &&& error is Some ==> step == NextStep::TryNext && entry->0.status == 502
                && entry->0.reason == reason + "; stream probe error: "@ + error->0
            &&& error is None && timed_out && more ==> step == NextStep::TryNext && entry->0.status
                == 504 && entry->0.reason == reason
                + "; first output timed out before client flush"@
            &&& error is None && (!timed_out || !more) ==> step == NextStep::Reply
                && entry->0.status == status
            &&& error is None && (!timed_out || !more) && waited_ms is None ==> entry->0.reason
                == reason
        }),
{
}

/// Of an answer the ledger is told its status and its tokens.
pub proof fn law_answers_are_told(
    status: u16,
    usage: TokenUsage,
    reason: Seq<char>,
    waited_ms: Option<u64>,
    more: bool,
    retry_statuses: Seq<u16>,
)
    ensures
        ({
            let entry = outcome(
                AttemptEventView::Answered { status, usage },
                reason,
                waited_ms,
                more,
                retry_statuses,
            ).0;
            &&& entry is Some && entry->0.status == status && entry->0.usage == usage
            &&& waited_ms is None ==> entry->0.reason == reason
            &&& waited_ms is Some ==> text::begins_with(entry->0.reason, reason)
            &&& entry->0.first_chunk_ms is None && entry->0.first_text_ms is None
        }),
{
    let said = gateway::waited_reason(reason, waited_ms);
    assert(said.subrange(0, reason.len() as int) =~= reason);
}

/// An attempt can be made where the channel speaks a known format, and for a stream only in
/// the format of the client.
pub proof fn law_usable(attempt: AttemptView, client: ApiProtocol)
    ensures
        usable(attempt, false, client) <==> protocol::protocol_of(attempt.channel) is Some,
        usable(attempt, true, client) <==> protocol::protocol_of(attempt.channel) == Some(client),
{
}

/// What the end of a request does to a channel: it has served one more; from the status 200 up
/// to 399 it is active again, without failures; otherwise it has failed once more, and from
/// the third time on it is out of use for two minutes. Nothing else of it changes.
pub proof fn law_after_request(channel: ChannelView, status: u16, now: u64)
    ensures
        ({
            let after = after_request(channel, status, now);
            let good = 200 <= status <= 399;
            let cools = !good && channel.fail_count >= 2;
            &&& channel.requests < u64::MAX ==> after.requests == channel.requests + 1
            &&& channel.requests == u64::MAX ==> after.requests == u64::MAX
            &&& good ==> after.fail_count == 0 && after.status == "active"@
                && after.disabled_until is None
            &&& !good && channel.fail_count < u32::MAX ==> after.fail_count == channel.fail_count
                + 1
            &&& !good && channel.fail_count == u32::MAX ==> after.fail_count == u32::MAX
            &&& cools ==> after.status == "cooldown"@
            &&& cools && now <= u64::MAX - 120 ==> after.disabled_until == Some((now + 120) as u64)
            &&& cools && now > u64::MAX - 120 ==> after.disabled_until == Some(u64::MAX)
            &&& !good && channel.fail_count < 2 ==> after.status == channel.status
                && after.disabled_until == channel.disabled_until
            &&& after.id == channel.id && after.name == channel.name && after.kind == channel.kind
            &&& after.key == channel.key && after.base == channel.base && after.models
                == channel.models
            &&& after.model_mapping == channel.model_mapping && after.last_test
                == channel.last_test
            &&& after.role == channel.role && after.group == channel.group && after.priority
                == channel.priority && after.cost_model == channel.cost_model
        }),
{
}

proof fn lemma_first_place(channels: Seq<ChannelView>, id: Option<u64>, name: Seq<char>, i: int)
    requires
        0 <= i <= channels.len(),
        forall|j: int|
            0 <= j < i ==> !((#[trigger] channels[j]).id == id && channels[j].name == name),
        i < channels.len() ==> channels[i].id == id && channels[i].name == name,
    ensures
        channel_place(channels, id, name) == i,
    decreases channels.len(),
{
    if i > 0 {
        assert(!(channels[0].id == id && channels[0].name == name));
        let rest = channels.skip(1);
        assert forall|j: int| 0 <= j < i - 1 implies !((#[trigger] rest[j]).id == id
            && rest[j].name == name) by {
            assert(rest[j] == channels[j + 1]);
        }
        lemma_first_place(rest, id, name, i - 1);
    }
}

/// The end of a request is entered into the first channel with both the id and the name, and
/// nowhere where there is none.
pub proof fn law_result_goes_to(
    channels: Seq<ChannelView>,
    id: Option<u64>,
    name: Seq<char>,
    status: u16,
    now: u64,
    i: int,
)
    requires
        0 <= i <= channels.len(),
        forall|j: int|
            0 <= j < i ==> !((#[trigger] channels[j]).id == id && channels[j].name == name),
        i < channels.len() ==> channels[i].id == id && channels[i].name == name,
    ensures
        ({
            let after = after_result(channels, id, name, status, now);
            &&& after.len() == channels.len()
            &&& i < channels.len() ==> after[i] == after_request(channels[i], status, now)
            &&& forall|j: int|
                0 <= j < channels.len() && j != i ==> #[trigger] after[j] == channels[j]
        }),
{
    lemma_first_place(channels, id, name, i);
}

/// The log of an attempt says which channel it was made on, what was asked for and what was
/// answered, and what the entry of the attempt says.
pub proof fn law_trial_log(
    ts: i64,
    channel: ChannelView,
    request_id: Seq<char>,
    source: Seq<char>,
    requested_model: Seq<char>,
    actual_model: Seq<char>,
    route: Seq<char>,
    entry: TrialEntryView,
    latency_ms: u64,
)
    ensures
        ({
            let log = trial_log(
                ts,
                channel,
                request_id,
                source,
                requested_model,
                actual_model,
                route,
                entry,
                latency_ms,
            );
            &&& log.ts == ts && log.channel == channel.name && log.channel_id == channel.id
            &&& log.status == entry.status && log.route_reason == entry.reason
            &&& log.latency_ms == latency_ms
            &&& log.first_chunk_ms == entry.first_chunk_ms && log.first_text_ms
                == entry.first_text_ms
            &&& log.prompt_tokens == entry.usage.prompt_tokens && log.completion_tokens
                == entry.usage.completion_tokens
            &&& log.cached_tokens == entry.usage.cached_tokens && log.total_tokens
                == entry.usage.total_tokens
            &&& !text::blank(request_id) ==> log.request_id == text::trimmed(request_id)
            &&& !text::blank(source) ==> log.source == text::trimmed(source)
            &&& !text::blank(requested_model) ==> log.requested_model == text::trimmed(
                requested_model,
            )
            &&& !text::blank(actual_model) ==> log.model == text::trimmed(actual_model)
            &&& !text::blank(route) ==> log.route == text::trimmed(route)
            &&& log.cost_nano_cny == usage::cost_of(actual_model, entry.usage) as u128
        }),
{
}

/// The way through the attempts goes on to each attempt once, and no further than to the last.
pub proof fn law_way_goes_on<R>(
    way: TrialLoop<R>,
    attempts: Seq<AttemptView>,
    stream: bool,
    client: ApiProtocol,
)
    requires
        way.next <= attempts.len() <= usize::MAX,
    ensures
        ({
            let (place, ahead) = way.advanced(attempts, stream, client);
            &&& place matches LoopStep::Try(i) ==> way.next <= i < attempts.len() && ahead.next == i
                + 1 && ahead.kept == way.kept && usable(attempts[i as int], stream, client)
            &&& !(place is Try) && way.kept is Some ==> place == LoopStep::Answer(way.kept->0)
            &&& !(place is Try) && way.kept is None ==> place == LoopStep::<R>::AllFailed
            &&& !(place is Try) ==> forall|i: int|
                way.next <= i < attempts.len() ==> !usable(#[trigger] attempts[i], stream, client)
        }),
{
    law_next_attempt(attempts, way.next as int, stream, client);
}

/// A reply goes to the client, is put aside in the place of an earlier one, or is dropped, by
/// what follows the attempt.
pub proof fn law_settled<R>(way: TrialLoop<R>, reply: R)
    ensures
        way.settled(NextStep::Reply, reply).0 == Some(reply),
        way.settled(NextStep::KeepAndTryNext, reply).0 is None,
        way.settled(NextStep::KeepAndTryNext, reply).1.kept == Some(reply),
        way.settled(NextStep::KeepAndTryNext, reply).1.next == way.next,
        way.settled(NextStep::TryNext, reply).0 is None,
        way.settled(NextStep::TryNext, reply).1 == way,
{
}

} // verus!
