//! The publishing role: where the next payload comes from, how it becomes an
//! envelope, and when a run is over.
//!
//! The caller owns the input stream and the channel. It asks for the next
//! step, carries it out, and reports each envelope that went out.

use crate::message::{created, EmptyContentPolicy, Message};
use rand::distr::SampleString;
use rand::Rng;
use vstd::prelude::*;

verus! {

/// The shortest payload that the generator makes, in characters.
pub const SYNTHETIC_MIN_CHARS: usize = 50000;

/// The generator makes payloads shorter than this many characters.
pub const SYNTHETIC_END_CHARS: usize = 100000;

/// The number of envelopes after which a bounded run stops by default.
pub const DEFAULT_MESSAGE_LIMIT: u64 = 1000000000;

/// Whether `c` has the Unicode property `White_Space`.
pub open spec fn is_whitespace(c: char) -> bool {
    let code = c as u32;
    ||| 0x09 <= code <= 0x0d
    ||| code == 0x20
    ||| code == 0x85
    ||| code == 0xa0
    ||| code == 0x1680
    ||| 0x2000 <= code <= 0x200a
    ||| code == 0x2028
    ||| code == 0x2029
    ||| code == 0x202f
    ||| code == 0x205f
    ||| code == 0x3000
}

/// `text` without the whitespace at its end.
pub open spec fn trimmed_end(text: Seq<char>) -> Seq<char>
    decreases text.len(),
{
    if text.len() > 0 && is_whitespace(text.last()) {
        trimmed_end(text.drop_last())
    } else {
        text
    }
}

/// Whether `c` is an ASCII letter or digit.
pub open spec fn is_alphanumeric(c: char) -> bool {
    ('0' <= c && c <= '9') || ('a' <= c && c <= 'z') || ('A' <= c && c <= 'Z')
}

/// Whether `text` is made of ASCII letters and digits only.
pub open spec fn is_alphanumeric_text(text: Seq<char>) -> bool {
    forall|i: int| 0 <= i < text.len() ==> is_alphanumeric(#[trigger] text[i])
}

/// Trusted: `str::trim_end`. The result is the longest prefix of `text` that
/// does not end in a character with the Unicode property `White_Space`,
/// which is what std calls whitespace.
#[verifier::external_body]
fn trim_end(text: &str) -> (trimmed: &str)
    ensures
        trimmed@ == trimmed_end(text@),
{
    text.trim_end()
}

/// Trusted: `rand::Rng::random_range` on the generator of `rand::rng`, with
/// the range `low..high`. The call panics on an empty range, which the
/// precondition leaves out; the number it gives lies in the range. The
/// generator panics if the operating system gives it nothing to seed itself
/// with.
#[verifier::external_body]
fn random_in(low: usize, high: usize) -> (n: usize)
    requires
        low < high,
    ensures
        low <= n < high,
{
    rand::rng().random_range(low..high)
}

/// Trusted: `rand::distr::SampleString::sample_string` of
/// `rand::distr::Alphanumeric` on the generator of `rand::rng`. The text has
/// `len` characters, each drawn from `A`..`Z`, `a`..`z` and `0`..`9`. The
/// generator panics if the operating system gives it nothing to seed itself
/// with.
#[verifier::external_body]
fn random_alphanumeric(len: usize) -> (text: String)
    ensures
        text@.len() == len,
        is_alphanumeric_text(text@),
{
    rand::distr::Alphanumeric.sample_string(&mut rand::rng(), len)
}

/// Trimming takes whitespace off the end and nothing else: the result is a
/// prefix of the text, it does not end in whitespace, and all that was cut
/// is whitespace.
pub proof fn law_trimming_cuts_whitespace_only(text: Seq<char>)
    ensures
        trimmed_end(text).len() <= text.len(),
        trimmed_end(text) == text.take(trimmed_end(text).len() as int),
        trimmed_end(text).len() > 0 ==> !is_whitespace(trimmed_end(text).last()),
        forall|i: int| trimmed_end(text).len() <= i < text.len() ==> is_whitespace(#[trigger] text[i]),
    decreases text.len(),
{
    if text.len() > 0 && is_whitespace(text.last()) {
        let shorter = text.drop_last();
        law_trimming_cuts_whitespace_only(shorter);
        let kept = trimmed_end(shorter).len() as int;
        assert(shorter.take(kept) =~= text.take(kept));
        assert forall|i: int| kept <= i < text.len() implies is_whitespace(#[trigger] text[i]) by {
            if i < shorter.len() {
                assert(text[i] == shorter[i]);
            }
        }
    } else {
        assert(text.take(text.len() as int) =~= text);
    }
}

/// The payload that a line of input stands for: the line without the
/// whitespace at its end, its line ending included.
pub fn content_of_line(line: &str) -> (content: String)
    ensures
        content@ == trimmed_end(line@),
{
    trim_end(line).to_owned()
}

/// Makes a payload of random letters and digits, of a random length within
/// the generator's bounds.
pub fn synthetic_content() -> (content: String)
    ensures
        SYNTHETIC_MIN_CHARS <= content@.len() < SYNTHETIC_END_CHARS,
        is_alphanumeric_text(content@),
{
    let len: usize = random_in(SYNTHETIC_MIN_CHARS, SYNTHETIC_END_CHARS);
    random_alphanumeric(len)
}

/// Where the payloads of a run come from.
#[derive(Debug, Clone, Copy, PartialEq, Eq)]
pub enum ContentSource {
    /// One payload for each line of the input stream.
    Lines,
    /// Random payloads made by the generator.
    Synthetic,
}

/// What the caller does next.
#[derive(Debug, Clone, Copy, PartialEq, Eq)]
pub enum PublishStep {
    /// Read a line of input and publish the envelope made from it.
    ReadLine,
    /// Publish a generated envelope.
    Generate,
    /// The run is over.
    Stop,
}

/// A publisher as plain values.
pub ghost struct PublisherView {
    pub source: ContentSource,
    pub policy: EmptyContentPolicy,
    pub limit: Option<u64>,
    pub sent: u64,
}

impl PublisherView {
    /// A publisher that has sent nothing.
    pub open spec fn fresh(
        source: ContentSource,
        policy: EmptyContentPolicy,
        limit: Option<u64>,
    ) -> PublisherView {
        PublisherView { source, policy, limit, sent: 0 }
    }

    /// Whether the run has reached its limit. A run without a limit never
    /// does.
    pub open spec fn is_done(self) -> bool {
        self.limit matches Some(limit) && self.sent >= limit
    }

    /// The step that comes next.
    pub open spec fn step(self) -> PublishStep {
        if self.is_done() {
            PublishStep::Stop
        } else {
            match self.source {
                ContentSource::Lines => PublishStep::ReadLine,
                ContentSource::Synthetic => PublishStep::Generate,
            }
        }
    }

    /// The publisher after one more envelope went out. The count stays at
    /// the largest value once it is reached.
    pub open spec fn after_send(self) -> PublisherView {
        PublisherView {
            sent: if self.sent < u64::MAX {
                (self.sent + 1) as u64
            } else {
                self.sent
            },
            ..self
        }
    }

    /// The publisher after `count` more envelopes went out.
    pub open spec fn after_sends(self, count: nat) -> PublisherView
        decreases count,
    {
        if count == 0 {
            self
        } else {
            self.after_sends((count - 1) as nat).after_send()
        }
    }
}

/// The state that decides what a publishing run does next.
pub struct Publisher {
    source: ContentSource,
    policy: EmptyContentPolicy,
    limit: Option<u64>,
    sent: u64,
}

impl View for Publisher {
    type V = PublisherView;

    closed spec fn view(&self) -> PublisherView {
        PublisherView {
            source: self.source,
            policy: self.policy,
            limit: self.limit,
            sent: self.sent,
        }
    }
}

impl Publisher {
    /// A publisher that takes its payloads from `source`, creates envelopes
    /// under `policy`, and stops after `limit` envelopes if there is a limit.
    pub fn new(source: ContentSource, policy: EmptyContentPolicy, limit: Option<u64>) -> (publisher:
        Publisher)
        ensures
            publisher@ == PublisherView::fresh(source, policy, limit),
    {
        Publisher { source, policy, limit, sent: 0 }
    }

    /// How many envelopes went out.
    pub fn sent(&self) -> (count: u64)
        ensures
            count == self@.sent,
    {
        self.sent
    }

    /// Says what to do next: stop once the limit is reached, else obtain the
    /// next payload from the source of this run.
    pub fn next_step(&self) -> (step: PublishStep)
        ensures
            step == self@.step(),
    {
        let done = match self.limit {
            Some(limit) => self.sent >= limit,
            None => false,
        };
        if done {
            PublishStep::Stop
        } else {
            match self.source {
                ContentSource::Lines => PublishStep::ReadLine,
                ContentSource::Synthetic => PublishStep::Generate,
            }
        }
    }

    /// Makes the envelope for a line of input, stamped with the current
    /// time: the payload is the line without the whitespace at its end.
    pub fn envelope_for_line(&self, line: &str) -> (message: Message)
        ensures
            message@ == created(trimmed_end(line@), self@.policy, message@.created_at),
    {
        Message::create(content_of_line(line), self.policy)
    }

    /// Makes an envelope with a generated payload, stamped with the current
    /// time.
    pub fn synthetic_envelope(&self) -> (message: Message)
        ensures
            SYNTHETIC_MIN_CHARS <= message@.content.len() < SYNTHETIC_END_CHARS,
            is_alphanumeric_text(message@.content),
            message@ == created(message@.content, self@.policy, message@.created_at),
            message@.is_valid(),
    {
        Message::create(synthetic_content(), self.policy)
    }

    /// Notes that one more envelope went out.
    pub fn record_sent(&mut self)
        ensures
            final(self)@ == old(self)@.after_send(),
    {
        if self.sent < u64::MAX {
            self.sent = self.sent + 1;
        }
    }
}

/// A run with a limit sends exactly that many envelopes: after `count`
/// envelopes the next step is to stop if and only if `count` has reached the
/// limit. A run without a limit never stops.
pub proof fn law_run_length(
    source: ContentSource,
    policy: EmptyContentPolicy,
    limit: Option<u64>,
    count: nat,
)
    requires
        count <= u64::MAX,
    ensures
        PublisherView::fresh(source, policy, limit).after_sends(count) == (PublisherView {
            sent: count as u64,
            ..PublisherView::fresh(source, policy, limit)
        }),
        PublisherView::fresh(source, policy, limit).after_sends(count).step() == PublishStep::Stop
            <==> (limit matches Some(bound) && count >= bound),
    decreases count,
{
    if count > 0 {
        law_run_length(source, policy, limit, (count - 1) as nat);
    }
}

} // verus!
