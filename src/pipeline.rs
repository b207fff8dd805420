//! The verification pipeline: each step's outcome moves one proof artifact
//! through its stages, and a content view is reachable only through a
//! verified session and verified substrings.

use crate::classify::{classification, classify, ClassifiedContent, HttpResponse};
use crate::key::TrustedKey;
use crate::segment::{
    lemma_segments_tile, lemma_withheld_bytes_never_shown, masked, masked_bytes, ranges_valid, segment, segments_view, tiling,
    tiling_from, withheld, Segment, SegmentView,
};
use std::ops::Range;
use vstd::prelude::*;

verus! {

/// The byte drawn in place of each withheld byte before the received side is
/// classified: ASCII `X`.
pub const REDACTED_BYTE: u8 = 88;

/// Why a proof artifact could not be shown.
#[derive(Debug, Clone, PartialEq, Eq)]
pub enum VerifyError {
    /// The artifact is not a well-formed proof document.
    Parse(String),
    /// The session commitment is not signed by the trusted key.
    SignatureInvalid(String),
    /// The server identity is not backed by a trusted certificate chain.
    IdentityInvalid(String),
    /// The substrings do not open against the verified session.
    SubstringMismatch(String),
    /// The withheld ranges handed over are not well formed: a fault of the
    /// verifier that produced them, not of the proof.
    InvalidRanges,
}

/// How the check of a session commitment failed.
#[derive(Debug, Clone, PartialEq, Eq)]
pub enum SessionFailure {
    Signature(String),
    Identity(String),
}

/// What the session check reports when it succeeds.
#[derive(Debug, Clone, PartialEq, Eq)]
pub struct SessionClaim {
    /// The server name, checked against the certificate chain.
    pub server_name: String,
    /// Seconds since the Unix epoch at which the session was notarized.
    pub time: u64,
}

/// One direction of the transcript: the bytes as handed over and the ranges
/// whose bytes were withheld.
#[derive(Debug, Clone, PartialEq, Eq)]
pub struct Transcript {
    pub data: Vec<u8>,
    pub redacted: Vec<Range<usize>>,
}

/// A session whose signature and server identity were checked. Only the
/// pipeline makes one, and only from a successful session check.
#[derive(Debug, Clone, PartialEq, Eq)]
pub struct VerifiedSession {
    server_name: String,
    time: u64,
}

impl VerifiedSession {
    pub closed spec fn server_name_view(&self) -> Seq<char> {
        self.server_name@
    }

    pub closed spec fn time_view(&self) -> u64 {
        self.time
    }

    /// The verified server name.
    pub fn server_name(&self) -> (r: &String)
        ensures
            r@ == self.server_name_view(),
    {
        &self.server_name
    }

    /// The verified notarization time, in seconds since the Unix epoch.
    pub fn time(&self) -> (r: u64)
        ensures
            r == self.time_view(),
    {
        self.time
    }
}

/// Both directions split into segments, and the received side with its
/// withheld bytes masked, waiting for the received side to be parsed.
#[derive(Debug, Clone, PartialEq, Eq)]
pub struct Checked {
    pub session: VerifiedSession,
    pub sent: Vec<Segment>,
    pub received: Vec<Segment>,
    pub masked_received: Vec<u8>,
}

/// Everything a verified artifact shows.
#[derive(Debug, Clone, PartialEq, Eq)]
pub struct Rendered {
    pub session: VerifiedSession,
    pub sent: Vec<Segment>,
    pub received: Vec<Segment>,
    pub received_content: ClassifiedContent,
}

/// The stage that one artifact has reached.
#[derive(Debug, Clone, PartialEq, Eq)]
pub enum Stage {
    Start,
    Parsed,
    SessionVerified(VerifiedSession),
    SubstringsVerified(Checked),
    Rendered(Rendered),
    ParseFailed(VerifyError),
    SessionInvalid(VerifyError),
    SubstringsInvalid(VerifyError),
}

/// The outcome of one piece of outside work.
#[derive(Debug)]
pub enum Event {
    /// The artifact was decoded into a proof, or the decoder's message.
    Parsed(Result<(), String>),
    /// The session commitment was checked against the trusted key.
    SessionChecked(Result<SessionClaim, SessionFailure>),
    /// The substrings were opened against the verified session: the sent and
    /// the received transcript, or the verifier's message.
    SubstringsChecked(Result<(Transcript, Transcript), String>),
    /// The masked received bytes were parsed as an HTTP response.
    ResponseParsed(Result<HttpResponse, String>),
}

/// A stage that no event leaves.
pub open spec fn is_terminal(stage: Stage) -> bool {
    stage is Rendered || stage is ParseFailed || stage is SessionInvalid || stage is SubstringsInvalid
}

/// `r` is the stage that `event` leads to from `stage`. An event that does not
/// belong to the stage leaves it as it is.
pub open spec fn transition(stage: Stage, event: Event, r: Stage) -> bool {
    match stage {
        Stage::Start => match event {
            Event::Parsed(Ok(_)) => r == Stage::Parsed,
            Event::Parsed(Err(m)) => r == Stage::ParseFailed(VerifyError::Parse(m)),
            _ => r == stage,
        },
        Stage::Parsed => match event {
            Event::SessionChecked(Ok(claim)) => r matches Stage::SessionVerified(s)
                && s.server_name_view() == claim.server_name@ && s.time_view() == claim.time,
            Event::SessionChecked(Err(SessionFailure::Signature(m))) => r == Stage::SessionInvalid(
                VerifyError::SignatureInvalid(m),
            ),
            Event::SessionChecked(Err(SessionFailure::Identity(m))) => r == Stage::SessionInvalid(
                VerifyError::IdentityInvalid(m),
            ),
            _ => r == stage,
        },
        Stage::SessionVerified(s) => match event {
            Event::SubstringsChecked(Ok((sent, recv))) => if ranges_valid(
                sent.redacted@,
                sent.data@.len(),
            ) && ranges_valid(recv.redacted@, recv.data@.len()) {
                r matches Stage::SubstringsVerified(c) && c.session == s && segments_view(c.sent@)
                    == tiling(sent.data@, sent.redacted@) && segments_view(c.received@) == tiling(
                    recv.data@,
                    recv.redacted@,
                ) && c.masked_received@ == masked(recv.data@, recv.redacted@, REDACTED_BYTE)
            } else {
                r == Stage::SubstringsInvalid(VerifyError::InvalidRanges)
            },
            Event::SubstringsChecked(Err(m)) => r == Stage::SubstringsInvalid(
                VerifyError::SubstringMismatch(m),
            ),
            _ => r == stage,
        },
        Stage::SubstringsVerified(c) => match event {
            Event::ResponseParsed(p) => r matches Stage::Rendered(x) && x.session == c.session
                && x.sent == c.sent && x.received == c.received && x.received_content@
                == classification(c.masked_received@, p),
            _ => r == stage,
        },
        _ => r == stage,
    }
}

/// Moves an artifact's stage on by the outcome of one piece of outside work.
pub fn step(stage: Stage, event: Event) -> (r: Stage)
    ensures
        transition(stage, event, r),
{
    match stage {
        Stage::Start => match event {
            Event::Parsed(Ok(_)) => Stage::Parsed,
            Event::Parsed(Err(m)) => Stage::ParseFailed(VerifyError::Parse(m)),
            _ => stage,
        },
        Stage::Parsed => match event {
            Event::SessionChecked(Ok(claim)) => Stage::SessionVerified(
                VerifiedSession { server_name: claim.server_name, time: claim.time },
            ),
            Event::SessionChecked(Err(SessionFailure::Signature(m))) => Stage::SessionInvalid(
                VerifyError::SignatureInvalid(m),
            ),
            Event::SessionChecked(Err(SessionFailure::Identity(m))) => Stage::SessionInvalid(
                VerifyError::IdentityInvalid(m),
            ),
            _ => stage,
        },
        Stage::SessionVerified(s) => match event {
            Event::SubstringsChecked(Ok((sent, recv))) => {
                let sent_segments = match segment(sent.data.as_slice(), &sent.redacted) {
                    Ok(v) => v,
                    Err(_) => {
                        return Stage::SubstringsInvalid(VerifyError::InvalidRanges);
                    },
                };
                let received = match segment(recv.data.as_slice(), &recv.redacted) {
                    Ok(v) => v,
                    Err(_) => {
                        return Stage::SubstringsInvalid(VerifyError::InvalidRanges);
                    },
                };
                let n = recv.data.len();
                proof {
                    assert(n == recv.data@.len());
                    lemma_segments_tile(recv.data@, recv.redacted@, REDACTED_BYTE);
                }
                let masked_received = masked_bytes(&received, REDACTED_BYTE);
                Stage::SubstringsVerified(
                    Checked { session: s, sent: sent_segments, received, masked_received },
                )
            },
            Event::SubstringsChecked(Err(m)) => Stage::SubstringsInvalid(
                VerifyError::SubstringMismatch(m),
            ),
            _ => Stage::SessionVerified(s),
        },
        Stage::SubstringsVerified(c) => match event {
            Event::ResponseParsed(p) => {
                let received_content = classify(c.masked_received.as_slice(), &p);
                Stage::Rendered(
                    Rendered {
                        session: c.session,
                        sent: c.sent,
                        received: c.received,
                        received_content,
                    },
                )
            },
            _ => Stage::SubstringsVerified(c),
        },
        _ => stage,
    }
}

/// One verification attempt: the trusted key it captured when it began, which
/// every session check of the attempt uses, and the stage it has reached.
#[derive(Debug, Clone, PartialEq, Eq)]
pub struct Attempt {
    key: TrustedKey,
    stage: Stage,
}

impl Attempt {
    pub closed spec fn key_view(&self) -> TrustedKey {
        self.key
    }

    pub closed spec fn stage_view(&self) -> Stage {
        self.stage
    }

    /// The stage this attempt has reached.
    pub fn stage(&self) -> (r: &Stage)
        ensures
            *r == self.stage_view(),
    {
        &self.stage
    }

    /// Begins an attempt with the key trusted at this moment.
    pub fn begin(key: TrustedKey) -> (r: Attempt)
        ensures
            r.key_view() == key,
            r.stage_view() == Stage::Start,
    {
        Attempt { key, stage: Stage::Start }
    }

    /// The key this attempt checks the session against.
    pub fn key(&self) -> (r: &TrustedKey)
        ensures
            *r == self.key_view(),
    {
        &self.key
    }

    /// Moves the attempt on by the outcome of one piece of outside work; the
    /// captured key stays as it was.
    pub fn advance(self, event: Event) -> (r: Attempt)
        ensures
            r.key_view() == self.key_view(),
            transition(self.stage_view(), event, r.stage_view()),
    {
        Attempt { key: self.key, stage: step(self.stage, event) }
    }
}

/// A terminal stage stays as it is, whatever comes after it: once a check has
/// failed, no later outcome can bring the artifact to a content view.
pub proof fn lemma_terminal_stays(stage: Stage, event: Event, r: Stage)
    requires
        is_terminal(stage),
        transition(stage, event, r),
    ensures
        r == stage,
{
}

/// Content is shown only after a verified session: a step reaches the stage
/// with checked substrings, or the rendered stage, only from a stage that
/// already holds a verified session; and a session is verified only by a
/// successful session check.
pub proof fn lemma_view_needs_verified_session(stage: Stage, event: Event, r: Stage)
    requires
        transition(stage, event, r),
    ensures
        (r is SubstringsVerified || r is Rendered) ==> (stage is SessionVerified
            || stage is SubstringsVerified || stage is Rendered),
        r is SessionVerified ==> (r == stage || (stage is Parsed
            && event matches Event::SessionChecked(Ok(_)))),
{
}

/// What is shown of the received side does not depend on the withheld bytes:
/// two received transcripts with the same ranges that agree outside them give
/// the same received segments and the same masked bytes to classify.
pub proof fn lemma_shown_content_ignores_withheld_bytes(
    s: Stage,
    sent: Transcript,
    recv1: Transcript,
    recv2: Transcript,
    r1: Stage,
    r2: Stage,
)
    requires
        s is SessionVerified,
        transition(s, Event::SubstringsChecked(Ok((sent, recv1))), r1),
        transition(s, Event::SubstringsChecked(Ok((sent, recv2))), r2),
        recv1.redacted@ == recv2.redacted@,
        recv1.data@.len() == recv2.data@.len(),
        forall|i: int|
            0 <= i < recv1.data@.len() && !withheld(recv1.redacted@, i) ==> recv1.data@[i]
                == recv2.data@[i],
    ensures
        r1 matches Stage::SubstringsVerified(c1) ==> (r2 matches Stage::SubstringsVerified(c2)
            && segments_view(c1.received@) == segments_view(c2.received@)
            && c1.masked_received@ == c2.masked_received@),
{
    if r1 is SubstringsVerified {
        lemma_withheld_bytes_never_shown(
            recv1.data@,
            recv2.data@,
            recv1.redacted@,
            REDACTED_BYTE,
        );
    }
}

/// End to end: a decoded artifact whose session checks out and whose
/// substrings open, where the received side withholds one range strictly
/// inside it, is rendered with exactly three received segments: the disclosed
/// bytes before the range, the range's length, and the disclosed bytes after
/// it. The verified session carries the claimed server name and time.
pub proof fn lemma_one_inner_redaction_renders_three_segments(
    claim: SessionClaim,
    sent: Transcript,
    recv: Transcript,
    parsed: Result<HttpResponse, String>,
    s1: Stage,
    s2: Stage,
    s3: Stage,
    s4: Stage,
)
    requires
        transition(Stage::Start, Event::Parsed(Ok(())), s1),
        transition(s1, Event::SessionChecked(Ok(claim)), s2),
        transition(s2, Event::SubstringsChecked(Ok((sent, recv))), s3),
        transition(s3, Event::ResponseParsed(parsed), s4),
        ranges_valid(sent.redacted@, sent.data@.len()),
        recv.redacted@.len() == 1,
        0 < recv.redacted@[0].start < recv.redacted@[0].end < recv.data@.len(),
    ensures
        s4 matches Stage::Rendered(x) && x.session.server_name_view() == claim.server_name@
            && x.session.time_view() == claim.time && segments_view(x.received@) == seq![
            SegmentView::Disclosed(recv.data@.subrange(0, recv.redacted@[0].start as int)),
            SegmentView::Redacted((recv.redacted@[0].end - recv.redacted@[0].start) as nat),
            SegmentView::Disclosed(
                recv.data@.subrange(recv.redacted@[0].end as int, recv.data@.len() as int),
            ),
        ],
{
    let buf = recv.data@;
    let rs = recv.redacted@;
    let start = rs[0].start as int;
    let end = rs[0].end as int;
    assert(ranges_valid(rs, buf.len()));
    assert(tiling_from(buf, rs, 1, end) == seq![
        SegmentView::Disclosed(buf.subrange(end, buf.len() as int)),
    ]);
    assert(tiling(buf, rs) == seq![SegmentView::Disclosed(buf.subrange(0, start))] + seq![
        SegmentView::Redacted((rs[0].end - rs[0].start) as nat),
    ] + tiling_from(buf, rs, 1, end));
}

} // verus!
