//! The authentication handshake.
//!
//! The transport delivers events one at a time. A [`Handshake`] takes each
//! event and says what to do next; a challenge turns it into a
//! [`PendingAnswer`], which is used up by reporting whether the one answer
//! reached the transport. The caller owns the channel and performs the steps.

use vstd::prelude::*;

verus! {

/// One question of an authentication challenge.
#[derive(Debug, Clone, PartialEq, Eq)]
pub struct Prompt {
    pub prompt: String,
    pub echo: bool,
}

/// A prompt as plain values.
pub struct PromptView {
    pub prompt: Seq<char>,
    pub echo: bool,
}

impl View for Prompt {
    type V = PromptView;

    open spec fn view(&self) -> PromptView {
        PromptView { prompt: self.prompt@, echo: self.echo }
    }
}

/// What the server asks for when it wants credentials.
#[derive(Debug, Clone, PartialEq, Eq)]
pub struct Challenge {
    pub username: String,
    pub instructions: String,
    pub prompts: Vec<Prompt>,
}

/// A challenge as plain values.
pub struct ChallengeView {
    pub username: Seq<char>,
    pub instructions: Seq<char>,
    pub prompts: Seq<PromptView>,
}

impl View for Challenge {
    type V = ChallengeView;

    open spec fn view(&self) -> ChallengeView {
        ChallengeView {
            username: self.username@,
            instructions: self.instructions@,
            prompts: self.prompts@.map_values(|p: Prompt| p@),
        }
    }
}

/// One event of the handshake, in the order of arrival.
#[derive(Debug, Clone, PartialEq, Eq)]
pub enum AuthEvent {
    /// Asks whether to trust the host that identified itself with this text.
    HostVerify(String),
    /// Asks for credentials.
    Authenticate(Challenge),
    /// Text for the user; needs no answer.
    Banner(Option<String>),
    /// Authentication has failed.
    Error(String),
    /// Authentication has succeeded.
    Authenticated,
}

/// An event as plain values.
pub enum AuthEventView {
    HostVerify(Seq<char>),
    Authenticate(ChallengeView),
    Banner(Option<Seq<char>>),
    Error(Seq<char>),
    Authenticated,
}

impl View for AuthEvent {
    type V = AuthEventView;

    open spec fn view(&self) -> AuthEventView {
        match self {
            AuthEvent::HostVerify(message) => AuthEventView::HostVerify(message@),
            AuthEvent::Authenticate(challenge) => AuthEventView::Authenticate(challenge@),
            AuthEvent::Banner(Some(text)) => AuthEventView::Banner(Some(text@)),
            AuthEvent::Banner(None) => AuthEventView::Banner(None),
            AuthEvent::Error(message) => AuthEventView::Error(message@),
            AuthEvent::Authenticated => AuthEventView::Authenticated,
        }
    }
}

/// Why a handshake did not authenticate.
#[derive(Debug, Clone, PartialEq, Eq)]
pub enum AuthError {
    /// An answer could not be handed to the transport.
    TransportFailure,
    /// The server refused, with this message.
    Rejected(String),
    /// The events ran out before the server decided.
    IncompleteHandshake,
}

/// An error as plain values.
pub enum AuthErrorView {
    TransportFailure,
    Rejected(Seq<char>),
    IncompleteHandshake,
}

impl View for AuthError {
    type V = AuthErrorView;

    open spec fn view(&self) -> AuthErrorView {
        match self {
            AuthError::TransportFailure => AuthErrorView::TransportFailure,
            AuthError::Rejected(message) => AuthErrorView::Rejected(message@),
            AuthError::IncompleteHandshake => AuthErrorView::IncompleteHandshake,
        }
    }
}

/// The end of a handshake as plain values.
pub open spec fn verdict_view(verdict: Result<(), AuthError>) -> Result<(), AuthErrorView> {
    match verdict {
        Ok(()) => Ok(()),
        Err(error) => Err(error@),
    }
}

/// Each string of a sequence as its characters.
pub open spec fn texts(strings: Seq<String>) -> Seq<Seq<char>> {
    strings.map_values(|s: String| s@)
}

/// What a handshake is set up with.
#[derive(Debug, Clone, PartialEq, Eq)]
pub struct AuthPolicy {
    /// The answers given to every authentication challenge, in this order.
    pub answers: Vec<String>,
    /// Whether events that run out before the server has decided count as a
    /// failure (`true`) or as success (`false`).
    pub strict: bool,
}

/// A policy as plain values.
pub struct AuthPolicyView {
    pub answers: Seq<Seq<char>>,
    pub strict: bool,
}

impl View for AuthPolicy {
    type V = AuthPolicyView;

    open spec fn view(&self) -> AuthPolicyView {
        AuthPolicyView { answers: texts(self.answers@), strict: self.strict }
    }
}

/// A handshake that waits for the next event.
#[derive(Debug)]
pub struct Handshake {
    policy: AuthPolicy,
}

impl View for Handshake {
    type V = AuthPolicyView;

    closed spec fn view(&self) -> AuthPolicyView {
        self.policy@
    }
}

/// A handshake that has given its answer to a challenge and waits to hear
/// whether the answer reached the transport.
#[derive(Debug)]
pub struct PendingAnswer {
    policy: AuthPolicy,
}

impl View for PendingAnswer {
    type V = AuthPolicyView;

    closed spec fn view(&self) -> AuthPolicyView {
        self.policy@
    }
}

/// What the caller does next.
#[derive(Debug)]
pub enum AuthStep {
    /// Wait for the next event.
    Listen(Handshake),
    /// Show this text, then wait for the next event.
    ShowBanner(Handshake, String),
    /// Answer the host verification with this decision.
    TrustHost(PendingAnswer, bool),
    /// Answer the authentication challenge with these strings.
    Credentials(PendingAnswer, Vec<String>),
    /// Stop: the handshake is over.
    Done(Result<(), AuthError>),
}

/// A step as plain values.
pub enum AuthStepView {
    Listen(AuthPolicyView),
    ShowBanner(AuthPolicyView, Seq<char>),
    TrustHost(AuthPolicyView, bool),
    Credentials(AuthPolicyView, Seq<Seq<char>>),
    Done(Result<(), AuthErrorView>),
}

impl View for AuthStep {
    type V = AuthStepView;

    open spec fn view(&self) -> AuthStepView {
        match self {
            AuthStep::Listen(handshake) => AuthStepView::Listen(handshake@),
            AuthStep::ShowBanner(handshake, text) => AuthStepView::ShowBanner(handshake@, text@),
            AuthStep::TrustHost(pending, trust) => AuthStepView::TrustHost(pending@, *trust),
            AuthStep::Credentials(pending, answers) => AuthStepView::Credentials(
                pending@,
                texts(answers@),
            ),
            AuthStep::Done(verdict) => AuthStepView::Done(verdict_view(*verdict)),
        }
    }
}

/// The step that an event calls for. Every host is trusted; every
/// authentication challenge gets the policy's answers; a banner with text is
/// shown; an error and the completion end the handshake.
pub open spec fn after_event(policy: AuthPolicyView, event: AuthEventView) -> AuthStepView {
    match event {
        AuthEventView::HostVerify(_) => AuthStepView::TrustHost(policy, true),
        AuthEventView::Authenticate(_) => AuthStepView::Credentials(policy, policy.answers),
        AuthEventView::Banner(Some(text)) => AuthStepView::ShowBanner(policy, text),
        AuthEventView::Banner(None) => AuthStepView::Listen(policy),
        AuthEventView::Error(message) => AuthStepView::Done(Err(AuthErrorView::Rejected(message))),
        AuthEventView::Authenticated => AuthStepView::Done(Ok(())),
    }
}

/// The end of a handshake whose events ran out before the server decided.
pub open spec fn after_close(policy: AuthPolicyView) -> Result<(), AuthErrorView> {
    if policy.strict {
        Err(AuthErrorView::IncompleteHandshake)
    } else {
        Ok(())
    }
}

/// The step after an answer was handed to the transport, or could not be.
pub open spec fn after_delivery(policy: AuthPolicyView, delivered: bool) -> AuthStepView {
    if delivered {
        AuthStepView::Listen(policy)
    } else {
        AuthStepView::Done(Err(AuthErrorView::TransportFailure))
    }
}

/// A copy of a list of strings.
fn copy_strings(strings: &Vec<String>) -> (copy: Vec<String>)
    ensures
        copy@ == strings@,
{
    let mut copy: Vec<String> = Vec::new();
    let mut i: usize = 0;
    while i < strings.len()
        invariant
            i <= strings@.len(),
            copy@ == strings@.take(i as int),
        decreases strings@.len() - i,
    {
        copy.push(strings[i].clone());
        i += 1;
    }
    copy
}

impl Handshake {
    /// A handshake at its start.
    pub fn new(policy: AuthPolicy) -> (handshake: Handshake)
        ensures
            handshake@ == policy@,
    {
        Handshake { policy }
    }

    /// Takes the next event.
    pub fn on_event(self, event: AuthEvent) -> (step: AuthStep)
        ensures
            step@ == after_event(self@, event@),
    {
        match event {
            AuthEvent::HostVerify(_) => AuthStep::TrustHost(
                PendingAnswer { policy: self.policy },
                true,
            ),
            AuthEvent::Authenticate(_) => {
                let answers = copy_strings(&self.policy.answers);
                AuthStep::Credentials(PendingAnswer { policy: self.policy }, answers)
            },
            AuthEvent::Banner(Some(text)) => AuthStep::ShowBanner(self, text),
            AuthEvent::Banner(None) => AuthStep::Listen(self),
            AuthEvent::Error(message) => AuthStep::Done(Err(AuthError::Rejected(message))),
            AuthEvent::Authenticated => AuthStep::Done(Ok(())),
        }
    }

    /// Takes the news that the transport has closed and no event will come.
    pub fn on_closed(self) -> (verdict: Result<(), AuthError>)
        ensures
            verdict_view(verdict) == after_close(self@),
    {
        if self.policy.strict {
            Err(AuthError::IncompleteHandshake)
        } else {
            Ok(())
        }
    }
}

impl PendingAnswer {
    /// The answer reached the transport: the handshake listens again.
    pub fn delivered(self) -> (handshake: Handshake)
        ensures
            handshake@ == self@,
    {
        Handshake { policy: self.policy }
    }

    /// The answer did not reach the transport: the handshake has failed.
    pub fn lost(self) -> (error: AuthError)
        ensures
            error@ == AuthErrorView::TransportFailure,
    {
        AuthError::TransportFailure
    }

    /// Takes the news of whether the answer reached the transport.
    pub fn on_delivery(self, delivered: bool) -> (step: AuthStep)
        ensures
            step@ == after_delivery(self@, delivered),
    {
        if delivered {
            AuthStep::Listen(self.delivered())
        } else {
            AuthStep::Done(Err(self.lost()))
        }
    }
}

/// An answer that a handshake gave to a challenge.
#[derive(Debug, Clone, PartialEq, Eq)]
pub enum Reply {
    /// The answer to a host verification.
    TrustHost(bool),
    /// The answer to an authentication challenge.
    Credentials(Vec<String>),
}

/// A reply as plain values.
pub enum ReplyView {
    TrustHost(bool),
    Credentials(Seq<Seq<char>>),
}

impl View for Reply {
    type V = ReplyView;

    open spec fn view(&self) -> ReplyView {
        match self {
            Reply::TrustHost(trust) => ReplyView::TrustHost(*trust),
            Reply::Credentials(answers) => ReplyView::Credentials(texts(answers@)),
        }
    }
}

/// A recorded sequence of events as plain values.
pub open spec fn events_view(events: Seq<AuthEvent>) -> Seq<AuthEventView> {
    events.map_values(|e: AuthEvent| e@)
}

/// A sequence of replies as plain values.
pub open spec fn replies_view(replies: Seq<Reply>) -> Seq<ReplyView> {
    replies.map_values(|r: Reply| r@)
}

/// Whether an event ends the handshake.
pub open spec fn is_terminal(event: AuthEventView) -> bool {
    event is Error || event is Authenticated
}

/// Whether an event is a challenge, which must be answered.
pub open spec fn is_challenge(event: AuthEventView) -> bool {
    event is HostVerify || event is Authenticate
}

/// Whether the transport loses the answer to the event at `index`, given the
/// position of the one answer that it loses, if it loses one.
pub open spec fn loses(lost_answer: Option<usize>, index: int) -> bool {
    lost_answer matches Some(position) && position == index
}

/// How far a handshake has come through a recording.
pub struct AuthProgress {
    pub outcome: Option<Result<(), AuthErrorView>>,
    pub replies: Seq<ReplyView>,
    pub banners: Seq<Seq<char>>,
    pub consumed: nat,
}

/// The progress once an answer was given and reached the transport, or did
/// not.
pub open spec fn answered(
    policy: AuthPolicyView,
    given: AuthProgress,
    delivered: bool,
) -> AuthProgress {
    match after_delivery(policy, delivered) {
        AuthStepView::Done(verdict) => AuthProgress { outcome: Some(verdict), ..given },
        _ => given,
    }
}

/// The progress after one more event, whose answer, if it calls for one, the
/// transport loses or takes.
pub open spec fn advance(
    policy: AuthPolicyView,
    before: AuthProgress,
    event: AuthEventView,
    answer_lost: bool,
) -> AuthProgress {
    match after_event(policy, event) {
        AuthStepView::Listen(_) => AuthProgress { consumed: before.consumed + 1, ..before },
        AuthStepView::ShowBanner(_, text) => AuthProgress {
            banners: before.banners.push(text),
            consumed: before.consumed + 1,
            ..before
        },
        AuthStepView::TrustHost(pending, trust) => answered(
            pending,
            AuthProgress {
                replies: before.replies.push(ReplyView::TrustHost(trust)),
                consumed: before.consumed + 1,
                ..before
            },
            !answer_lost,
        ),
        AuthStepView::Credentials(pending, answers) => answered(
            pending,
            AuthProgress {
                replies: before.replies.push(ReplyView::Credentials(answers)),
                consumed: before.consumed + 1,
                ..before
            },
            !answer_lost,
        ),
        AuthStepView::Done(verdict) => AuthProgress {
            outcome: Some(verdict),
            consumed: before.consumed + 1,
            ..before
        },
    }
}

/// The progress of a handshake that is fed `events` in order; once it is
/// over, no further event is consumed.
pub open spec fn progress(
    policy: AuthPolicyView,
    events: Seq<AuthEventView>,
    lost_answer: Option<usize>,
) -> AuthProgress
    decreases events.len(),
{
    if events.len() == 0 {
        AuthProgress { outcome: None, replies: Seq::empty(), banners: Seq::empty(), consumed: 0 }
    } else {
        let before = progress(policy, events.drop_last(), lost_answer);
        if before.outcome is Some {
            before
        } else {
            advance(policy, before, events.last(), loses(lost_answer, events.len() - 1))
        }
    }
}

/// The record of a handshake over a whole recording.
#[derive(Debug, PartialEq, Eq)]
pub struct Transcript {
    /// How the handshake ended.
    pub outcome: Result<(), AuthError>,
    /// The answers given, in the order of their challenges.
    pub replies: Vec<Reply>,
    /// The banner texts shown, in order.
    pub banners: Vec<String>,
    /// How many events of the recording were consumed.
    pub consumed: usize,
}

/// A transcript as plain values.
pub struct TranscriptView {
    pub outcome: Result<(), AuthErrorView>,
    pub replies: Seq<ReplyView>,
    pub banners: Seq<Seq<char>>,
    pub consumed: nat,
}

impl View for Transcript {
    type V = TranscriptView;

    open spec fn view(&self) -> TranscriptView {
        TranscriptView {
            outcome: verdict_view(self.outcome),
            replies: replies_view(self.replies@),
            banners: texts(self.banners@),
            consumed: self.consumed as nat,
        }
    }
}

/// What a handshake over a recorded sequence of events yields, on a
/// transport that loses the answer to the event at `lost_answer`, if that is
/// a challenge, and takes every other. A recording that runs out before the
/// handshake is over ends as the policy says.
pub open spec fn transcript(
    policy: AuthPolicyView,
    events: Seq<AuthEventView>,
    lost_answer: Option<usize>,
) -> TranscriptView {
    let end = progress(policy, events, lost_answer);
    TranscriptView {
        outcome: match end.outcome {
            Some(verdict) => verdict,
            None => after_close(policy),
        },
        replies: end.replies,
        banners: end.banners,
        consumed: end.consumed,
    }
}

/// A handshake that is over stays over: the events after the one that ended
/// it change nothing.
pub proof fn lemma_progress_settles(
    policy: AuthPolicyView,
    events: Seq<AuthEventView>,
    lost_answer: Option<usize>,
    k: int,
)
    requires
        0 <= k <= events.len(),
        progress(policy, events.take(k), lost_answer).outcome is Some,
    ensures
        progress(policy, events, lost_answer) == progress(policy, events.take(k), lost_answer),
    decreases events.len(),
{
    if k < events.len() {
        assert(events.drop_last().take(k) == events.take(k));
        lemma_progress_settles(policy, events.drop_last(), lost_answer, k);
    } else {
        assert(events.take(k) == events);
    }
}

/// Whether the event at `index` ends the handshake: it is an error or the
/// completion, or a challenge whose answer the transport loses.
pub open spec fn ends_at(
    events: Seq<AuthEventView>,
    lost_answer: Option<usize>,
    index: int,
) -> bool {
    is_terminal(events[index]) || (is_challenge(events[index]) && loses(lost_answer, index))
}

/// Whether no event of a sequence ends the handshake.
pub open spec fn keeps_listening(events: Seq<AuthEventView>, lost_answer: Option<usize>) -> bool {
    forall|i: int| 0 <= i < events.len() ==> !#[trigger] ends_at(events, lost_answer, i)
}

/// The answers that the challenges among `events` call for: one for each
/// challenge, in the order of the challenges.
pub open spec fn replies_to(policy: AuthPolicyView, events: Seq<AuthEventView>) -> Seq<ReplyView>
    decreases events.len(),
{
    if events.len() == 0 {
        Seq::empty()
    } else {
        let front = replies_to(policy, events.drop_last());
        match events.last() {
            AuthEventView::HostVerify(_) => front.push(ReplyView::TrustHost(true)),
            AuthEventView::Authenticate(_) => front.push(ReplyView::Credentials(policy.answers)),
            _ => front,
        }
    }
}

/// The number of challenges among `events`.
pub open spec fn challenges(events: Seq<AuthEventView>) -> nat
    decreases events.len(),
{
    if events.len() == 0 {
        0
    } else {
        challenges(events.drop_last()) + (if is_challenge(events.last()) {
            1nat
        } else {
            0nat
        })
    }
}

/// The texts of the banners among `events`, in order.
pub open spec fn banners_in(events: Seq<AuthEventView>) -> Seq<Seq<char>>
    decreases events.len(),
{
    if events.len() == 0 {
        Seq::empty()
    } else {
        let front = banners_in(events.drop_last());
        match events.last() {
            AuthEventView::Banner(Some(text)) => front.push(text),
            _ => front,
        }
    }
}

/// There is exactly one reply for each challenge.
pub proof fn lemma_one_reply_per_challenge(policy: AuthPolicyView, events: Seq<AuthEventView>)
    ensures
        replies_to(policy, events).len() == challenges(events),
    decreases events.len(),
{
    if events.len() > 0 {
        lemma_one_reply_per_challenge(policy, events.drop_last());
    }
}

/// Events that are no challenges call for no reply.
pub proof fn lemma_replies_skip_others(policy: AuthPolicyView, events: Seq<AuthEventView>, k: int)
    requires
        0 <= k <= events.len(),
        forall|i: int| k <= i < events.len() ==> !is_challenge(#[trigger] events[i]),
    ensures
        replies_to(policy, events) == replies_to(policy, events.take(k)),
    decreases events.len(),
{
    if k < events.len() {
        let front = events.drop_last();
        lemma_replies_skip_others(policy, front, k);
        assert(front.take(k) == events.take(k));
    } else {
        assert(events.take(k) == events);
    }
}

/// Until an event ends it, a handshake consumes every event, answers every
/// challenge once and in order, and shows every banner.
pub proof fn lemma_progress_while_listening(
    policy: AuthPolicyView,
    events: Seq<AuthEventView>,
    lost_answer: Option<usize>,
)
    requires
        keeps_listening(events, lost_answer),
    ensures
        progress(policy, events, lost_answer) == (AuthProgress {
            outcome: None,
            replies: replies_to(policy, events),
            banners: banners_in(events),
            consumed: events.len(),
        }),
    decreases events.len(),
{
    if events.len() > 0 {
        let front = events.drop_last();
        assert forall|i: int| 0 <= i < front.len() implies !#[trigger] ends_at(
            front,
            lost_answer,
            i,
        ) by {
            assert(!ends_at(events, lost_answer, i));
        }
        lemma_progress_while_listening(policy, front, lost_answer);
        assert(!ends_at(events, lost_answer, events.len() - 1));
    }
}

/// The first event that ends the handshake decides the outcome, and the
/// events after it are never consumed: an error rejects with its message, the
/// completion succeeds, a challenge whose answer is lost is a transport
/// failure. The replies and banners are those of the events up to it.
pub proof fn lemma_handshake_ends_at(
    policy: AuthPolicyView,
    events: Seq<AuthEventView>,
    lost_answer: Option<usize>,
    k: int,
)
    requires
        0 <= k < events.len(),
        keeps_listening(events.take(k), lost_answer),
        ends_at(events, lost_answer, k),
    ensures
        transcript(policy, events, lost_answer) == (TranscriptView {
            outcome: match events[k] {
                AuthEventView::Error(message) => Err(AuthErrorView::Rejected(message)),
                AuthEventView::Authenticated => Ok(()),
                _ => Err(AuthErrorView::TransportFailure),
            },
            replies: replies_to(policy, events.take(k + 1)),
            banners: banners_in(events.take(k)),
            consumed: (k + 1) as nat,
        }),
{
    let front = events.take(k);
    let upto = events.take(k + 1);
    lemma_progress_while_listening(policy, front, lost_answer);
    assert(upto.drop_last() == front);
    lemma_progress_settles(policy, events, lost_answer, k + 1);
}

/// Events that run out before any of them ends the handshake are all
/// consumed, and the policy decides the outcome.
pub proof fn lemma_handshake_runs_out(
    policy: AuthPolicyView,
    events: Seq<AuthEventView>,
    lost_answer: Option<usize>,
)
    requires
        keeps_listening(events, lost_answer),
    ensures
        transcript(policy, events, lost_answer) == (TranscriptView {
            outcome: after_close(policy),
            replies: replies_to(policy, events),
            banners: banners_in(events),
            consumed: events.len(),
        }),
{
    lemma_progress_while_listening(policy, events, lost_answer);
}

/// The number of events at the front of a sequence that do not end the
/// handshake.
pub open spec fn listening_prefix(events: Seq<AuthEventView>, lost_answer: Option<usize>) -> nat
    decreases events.len(),
{
    if events.len() == 0 {
        0
    } else {
        let front = listening_prefix(events.drop_last(), lost_answer);
        if front == events.len() - 1 && !ends_at(events, lost_answer, events.len() - 1) {
            events.len()
        } else {
            front
        }
    }
}

/// The listening prefix is a prefix, no event in it ends the handshake, and
/// the event behind it, if there is one, does.
pub proof fn lemma_listening_prefix(events: Seq<AuthEventView>, lost_answer: Option<usize>)
    ensures
        listening_prefix(events, lost_answer) <= events.len(),
        keeps_listening(events.take(listening_prefix(events, lost_answer) as int), lost_answer),
        listening_prefix(events, lost_answer) < events.len() ==> ends_at(
            events,
            lost_answer,
            listening_prefix(events, lost_answer) as int,
        ),
    decreases events.len(),
{
    if events.len() > 0 {
        let front = events.drop_last();
        let n = listening_prefix(front, lost_answer) as int;
        let m = listening_prefix(events, lost_answer) as int;
        lemma_listening_prefix(front, lost_answer);
        assert(front.take(n) == events.take(n));
        assert forall|i: int| 0 <= i < m implies !#[trigger] ends_at(
            events.take(m),
            lost_answer,
            i,
        ) by {
            if i < n {
                assert(!ends_at(events.take(n), lost_answer, i));
            }
        }
    }
}

/// Every handshake is decided once: by the first event that ends it, or by
/// the policy if there is none.
pub proof fn lemma_handshake_is_decided_once(
    policy: AuthPolicyView,
    events: Seq<AuthEventView>,
    lost_answer: Option<usize>,
)
    ensures
        listening_prefix(events, lost_answer) <= events.len(),
        transcript(policy, events, lost_answer) == (if listening_prefix(events, lost_answer)
            == events.len() {
            TranscriptView {
                outcome: after_close(policy),
                replies: replies_to(policy, events),
                banners: banners_in(events),
                consumed: events.len(),
            }
        } else {
            TranscriptView {
                outcome: match events[listening_prefix(events, lost_answer) as int] {
                    AuthEventView::Error(message) => Err(AuthErrorView::Rejected(message)),
                    AuthEventView::Authenticated => Ok(()),
                    _ => Err(AuthErrorView::TransportFailure),
                },
                replies: replies_to(
                    policy,
                    events.take(listening_prefix(events, lost_answer) as int + 1),
                ),
                banners: banners_in(events.take(listening_prefix(events, lost_answer) as int)),
                consumed: listening_prefix(events, lost_answer) + 1,
            }
        }),
{
    lemma_listening_prefix(events, lost_answer);
    if listening_prefix(events, lost_answer) == events.len() {
        assert(events.take(events.len() as int) == events);
        lemma_handshake_runs_out(policy, events, lost_answer);
    } else {
        lemma_handshake_ends_at(
            policy,
            events,
            lost_answer,
            listening_prefix(events, lost_answer) as int,
        );
    }
}

/// A completion that is the first event to end the handshake authenticates
/// it, whatever comes after: no later event is consumed, and the replies and
/// banners are those of the events before it.
pub proof fn lemma_authenticated_succeeds(
    policy: AuthPolicyView,
    before: Seq<AuthEventView>,
    after: Seq<AuthEventView>,
    lost_answer: Option<usize>,
)
    requires
        keeps_listening(before, lost_answer),
    ensures
        transcript(policy, before.push(AuthEventView::Authenticated) + after, lost_answer) == (
        TranscriptView {
            outcome: Ok(()),
            replies: replies_to(policy, before),
            banners: banners_in(before),
            consumed: before.len() + 1,
        }),
{
    let whole = before.push(AuthEventView::Authenticated) + after;
    let k = before.len() as int;
    assert(whole.take(k) == before);
    assert(whole.take(k + 1).drop_last() == before);
    lemma_handshake_ends_at(policy, whole, lost_answer, k);
}

/// A handshake that a completion ends, with no challenge behind the
/// completion, as in a sequence that ends with it, succeeds and has answered
/// every challenge of the sequence exactly once, in order.
pub proof fn lemma_success_answers_every_challenge(
    policy: AuthPolicyView,
    before: Seq<AuthEventView>,
    after: Seq<AuthEventView>,
    lost_answer: Option<usize>,
)
    requires
        keeps_listening(before, lost_answer),
        forall|i: int| 0 <= i < after.len() ==> !is_challenge(#[trigger] after[i]),
    ensures
        transcript(
            policy,
            before.push(AuthEventView::Authenticated) + after,
            lost_answer,
        ).outcome == Ok::<(), AuthErrorView>(()),
        transcript(
            policy,
            before.push(AuthEventView::Authenticated) + after,
            lost_answer,
        ).replies == replies_to(policy, before.push(AuthEventView::Authenticated) + after),
        transcript(
            policy,
            before.push(AuthEventView::Authenticated) + after,
            lost_answer,
        ).replies.len() == challenges(before.push(AuthEventView::Authenticated) + after),
{
    let whole = before.push(AuthEventView::Authenticated) + after;
    let k = before.len() as int;
    lemma_authenticated_succeeds(policy, before, after, lost_answer);
    assert(whole.take(k) == before);
    lemma_replies_skip_others(policy, whole, k);
    lemma_one_reply_per_challenge(policy, whole);
}

/// An error that is the first event to end the handshake rejects it with the
/// error's message, whatever comes after: no later event is consumed, and
/// the transcript is that of the sequence cut off behind the error.
pub proof fn lemma_error_rejects(
    policy: AuthPolicyView,
    before: Seq<AuthEventView>,
    message: Seq<char>,
    after: Seq<AuthEventView>,
    lost_answer: Option<usize>,
)
    requires
        keeps_listening(before, lost_answer),
    ensures
        transcript(policy, before.push(AuthEventView::Error(message)) + after, lost_answer)
            == transcript(policy, before.push(AuthEventView::Error(message)), lost_answer),
        transcript(policy, before.push(AuthEventView::Error(message)) + after, lost_answer) == (
        TranscriptView {
            outcome: Err(AuthErrorView::Rejected(message)),
            replies: replies_to(policy, before),
            banners: banners_in(before),
            consumed: before.len() + 1,
        }),
{
    let cut = before.push(AuthEventView::Error(message));
    let whole = cut + after;
    let k = before.len() as int;
    assert(cut.take(k + 1) == cut);
    assert(cut.drop_last() == before);
    assert(whole.take(k) == before);
    assert(whole.take(k + 1) == cut);
    lemma_handshake_ends_at(policy, cut, lost_answer, k);
    lemma_handshake_ends_at(policy, whole, lost_answer, k);
}

/// A challenge whose answer the transport loses, with nothing before it that
/// ends the handshake, ends it in a transport failure, whatever comes after:
/// the answer was given, and no later event is consumed.
pub proof fn lemma_lost_answer_fails(
    policy: AuthPolicyView,
    before: Seq<AuthEventView>,
    challenge: AuthEventView,
    after: Seq<AuthEventView>,
)
    requires
        forall|i: int| 0 <= i < before.len() ==> !is_terminal(#[trigger] before[i]),
        is_challenge(challenge),
        before.len() <= usize::MAX,
    ensures
        transcript(policy, before.push(challenge) + after, Some(before.len() as usize)) == (
        TranscriptView {
            outcome: Err(AuthErrorView::TransportFailure),
            replies: replies_to(policy, before.push(challenge)),
            banners: banners_in(before),
            consumed: before.len() + 1,
        }),
{
    let whole = before.push(challenge) + after;
    let k = before.len() as int;
    let lost_answer = Some(before.len() as usize);
    assert(whole.take(k) == before);
    assert(whole.take(k + 1) == before.push(challenge));
    lemma_handshake_ends_at(policy, whole, lost_answer, k);
}

/// The transcript depends on the policy, the events and the lost answer
/// alone: two handshakes over the same events, with the same policy and on
/// the same transport, yield the same transcript.
pub proof fn lemma_same_events_same_transcript(
    first_policy: AuthPolicy,
    first_events: Seq<AuthEvent>,
    second_policy: AuthPolicy,
    second_events: Seq<AuthEvent>,
    lost_answer: Option<usize>,
)
    requires
        first_policy@ == second_policy@,
        events_view(first_events) == events_view(second_events),
    ensures
        transcript(first_policy@, events_view(first_events), lost_answer) == transcript(
            second_policy@,
            events_view(second_events),
            lost_answer,
        ),
{
}

/// Runs a handshake over a recorded sequence of events: feeds the events to
/// a fresh handshake, in order, until it is over or the recording runs out.
/// The transport takes every answer but the one to the event at
/// `lost_answer`, if there is such an event and it is a challenge.
pub fn authenticate(
    policy: AuthPolicy,
    events: Vec<AuthEvent>,
    lost_answer: Option<usize>,
) -> (record: Transcript)
    ensures
        record@ == transcript(policy@, events_view(events@), lost_answer),
{
    let ghost plan = policy@;
    let ghost all = events_view(events@);
    let len: usize = events.len();
    let mut handshake = Handshake::new(policy);
    let mut replies: Vec<Reply> = Vec::new();
    let mut banners: Vec<String> = Vec::new();
    let mut consumed: usize = 0;
    assert(replies_view(replies@) =~= Seq::empty());
    assert(texts(banners@) =~= Seq::empty());
    for event in it: events
        invariant
            it.seq().len() == len,
            all == events_view(it.seq()),
            all == events_view(events@),
            plan == policy@,
            handshake@ == plan,
            consumed == it.index(),
            progress(plan, all.take(it.index() as int), lost_answer) == (AuthProgress {
                outcome: None,
                replies: replies_view(replies@),
                banners: texts(banners@),
                consumed: consumed as nat,
            }),
    {
        assert(all.take(it.index() + 1).drop_last() == all.take(it.index() as int));
        let ghost replies_before = replies@;
        let ghost banners_before = banners@;
        let answer_lost = match lost_answer {
            Some(position) => position == consumed,
            None => false,
        };
        let step = handshake.on_event(event);
        consumed += 1;
        match step {
            AuthStep::Listen(next) => {
                handshake = next;
            },
            AuthStep::ShowBanner(next, text) => {
                banners.push(text);
                handshake = next;
                assert(texts(banners@) == texts(banners_before).push(text@));
            },
            AuthStep::TrustHost(pending, trust) => {
                let reply = Reply::TrustHost(trust);
                assert(replies_view(replies_before.push(reply)) == replies_view(
                    replies_before,
                ).push(reply@));
                replies.push(reply);
                if answer_lost {
                    proof {
                        lemma_progress_settles(plan, all, lost_answer, it.index() + 1);
                    }
                    return Transcript { outcome: Err(pending.lost()), replies, banners, consumed };
                }
                handshake = pending.delivered();
            },
            AuthStep::Credentials(pending, answers) => {
                let reply = Reply::Credentials(answers);
                assert(replies_view(replies_before.push(reply)) == replies_view(
                    replies_before,
                ).push(reply@));
                replies.push(reply);
                if answer_lost {
                    proof {
                        lemma_progress_settles(plan, all, lost_answer, it.index() + 1);
                    }
                    return Transcript { outcome: Err(pending.lost()), replies, banners, consumed };
                }
                handshake = pending.delivered();
            },
            AuthStep::Done(outcome) => {
                proof {
                    lemma_progress_settles(plan, all, lost_answer, it.index() + 1);
                }
                return Transcript { outcome, replies, banners, consumed };
            },
        }
    }
    assert(all.take(all.len() as int) == all);
    let outcome = handshake.on_closed();
    Transcript { outcome, replies, banners, consumed }
}

} // verus!
