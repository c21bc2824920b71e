//! The message envelope: a text payload, the checksum of that payload and an
//! advisory creation timestamp.

use crate::digest::{
    checksum_text, content_checksum, hex_lower, lemma_hex_lower_injective, md5_digest, md5_of,
};
use vstd::prelude::*;
use vstd::utf8::encode_utf8;

verus! {

/// The integrity state of an envelope.
#[derive(Debug, Clone, PartialEq, Eq)]
pub enum Checksum {
    /// No digest has been stored yet.
    Unchecksummed,
    /// The stored digest, as hex text.
    Checksummed(String),
}

impl View for Checksum {
    type V = Option<Seq<char>>;

    open spec fn view(&self) -> Option<Seq<char>> {
        match self {
            Checksum::Unchecksummed => None,
            Checksum::Checksummed(text) => Some(text@),
        }
    }
}

/// What creation does with an empty payload.
#[derive(Debug, Clone, Copy, PartialEq, Eq)]
pub enum EmptyContentPolicy {
    /// Store the digest of the empty input, as for any other payload.
    DigestEmpty,
    /// Store no digest: the envelope starts out unchecksummed.
    LeaveUnchecksummed,
}

/// The unit of transport.
#[derive(Debug, Clone, PartialEq, Eq)]
pub struct Message {
    /// The payload; may be empty.
    pub content: String,
    /// The digest of `content` as of the last finalization.
    pub check_sum: Checksum,
    /// When the envelope was created. Advisory only.
    pub created_at: String,
}

/// What an envelope holds, as plain text.
pub ghost struct MessageView {
    pub content: Seq<char>,
    pub check_sum: Option<Seq<char>>,
    pub created_at: Seq<char>,
}

impl MessageView {
    /// The stored digest is the digest of the payload as it is now.
    pub open spec fn is_valid(self) -> bool {
        self.check_sum == Some(content_checksum(self.content))
    }

    /// The same envelope with another payload and the checksum left alone.
    pub open spec fn with_content(self, content: Seq<char>) -> MessageView {
        MessageView { content, ..self }
    }

    /// The same envelope with another stored checksum.
    pub open spec fn with_check_sum(self, check_sum: Option<Seq<char>>) -> MessageView {
        MessageView { check_sum, ..self }
    }

    /// The three fields of the wire record of this envelope.
    pub open spec fn parts(self) -> (Seq<char>, Option<Seq<char>>, Seq<char>) {
        (self.content, self.check_sum, self.created_at)
    }

    /// The envelope that the three fields of a wire record stand for.
    pub open spec fn of_parts(parts: (Seq<char>, Option<Seq<char>>, Seq<char>)) -> MessageView {
        MessageView { content: parts.0, check_sum: parts.1, created_at: parts.2 }
    }

    /// The same envelope after its digest has been recomputed.
    pub open spec fn finalized(self) -> MessageView {
        MessageView { check_sum: Some(content_checksum(self.content)), ..self }
    }
}

impl View for Message {
    type V = MessageView;

    open spec fn view(&self) -> MessageView {
        MessageView {
            content: self.content@,
            check_sum: self.check_sum@,
            created_at: self.created_at@,
        }
    }
}

/// The checksum that a freshly created envelope carries.
pub open spec fn initial_checksum(content: Seq<char>, policy: EmptyContentPolicy) -> Option<
    Seq<char>,
> {
    if content.len() == 0 && policy == EmptyContentPolicy::LeaveUnchecksummed {
        None
    } else {
        Some(content_checksum(content))
    }
}

/// The envelope that creation yields for a payload, a policy and a timestamp.
pub open spec fn created(
    content: Seq<char>,
    policy: EmptyContentPolicy,
    created_at: Seq<char>,
) -> MessageView {
    MessageView { content, check_sum: initial_checksum(content, policy), created_at }
}

/// Trusted: `chrono::Utc::now` followed by `to_string` on the `DateTime` it
/// returns. The text depends on the clock, so nothing is claimed of it. The
/// call panics if the system clock reads a time before 1970.
#[verifier::external_body]
fn utc_now_text() -> (stamp: String) {
    chrono::Utc::now().to_string()
}

impl Message {
    /// Creates an envelope for `content`, stamped with the current time. The
    /// digest is computed at once, for an empty payload too.
    pub fn new(content: String) -> (message: Message)
        ensures
            message@.content == content@,
            message@.check_sum == Some(content_checksum(content@)),
            message@.is_valid(),
    {
        let created_at = utc_now_text();
        Message::stamped(content, EmptyContentPolicy::DigestEmpty, created_at)
    }

    /// Creates an envelope for `content` under `policy`, stamped with the
    /// current time.
    pub fn create(content: String, policy: EmptyContentPolicy) -> (message: Message)
        ensures
            message@.content == content@,
            message@.check_sum == initial_checksum(content@, policy),
    {
        let created_at = utc_now_text();
        Message::stamped(content, policy, created_at)
    }

    /// Creates an envelope for `content` under `policy` with a given timestamp.
    pub fn stamped(content: String, policy: EmptyContentPolicy, created_at: String) -> (message:
        Message)
        ensures
            message@ == created(content@, policy, created_at@),
    {
        let unchecked = match policy {
            EmptyContentPolicy::DigestEmpty => false,
            EmptyContentPolicy::LeaveUnchecksummed => content.as_str().is_empty(),
        };
        if unchecked {
            Message { content, check_sum: Checksum::Unchecksummed, created_at }
        } else {
            let digest = md5_of(content.as_str().as_bytes());
            Message::with_digest(content, digest.as_slice(), created_at)
        }
    }

    /// Creates an envelope whose checksum is the text form of `digest`.
    pub fn with_digest(content: String, digest: &[u8], created_at: String) -> (message: Message)
        ensures
            message@ == (MessageView {
                content: content@,
                check_sum: Some(hex_lower(digest@)),
                created_at: created_at@,
            }),
    {
        Message { content, check_sum: Checksum::Checksummed(checksum_text(digest)), created_at }
    }

    /// Creates an envelope that has not been checksummed yet.
    pub fn draft(content: String, created_at: String) -> (message: Message)
        ensures
            message@ == (MessageView {
                content: content@,
                check_sum: None,
                created_at: created_at@,
            }),
            !message@.is_valid(),
    {
        Message { content, check_sum: Checksum::Unchecksummed, created_at }
    }

    /// Recomputes the digest of the current payload and stores it.
    pub fn finalize(&mut self)
        ensures
            final(self)@ == old(self)@.finalized(),
            final(self)@.is_valid(),
    {
        let digest = md5_of(self.content.as_str().as_bytes());
        self.check_sum = Checksum::Checksummed(checksum_text(digest.as_slice()));
    }

    /// Whether the stored digest is the digest of the payload. An envelope
    /// without a digest is never valid. The envelope is left as it was.
    pub fn validate(&mut self) -> (ok: bool)
        ensures
            ok == old(self)@.is_valid(),
            *final(self) == *old(self),
    {
        let digest = md5_of(self.content.as_str().as_bytes());
        self.matches_digest(digest.as_slice())
    }

    /// Whether the stored checksum is the text form of `digest`.
    pub fn matches_digest(&self, digest: &[u8]) -> (ok: bool)
        ensures
            ok == (self@.check_sum == Some(hex_lower(digest@))),
    {
        match &self.check_sum {
            Checksum::Unchecksummed => false,
            Checksum::Checksummed(stored) => {
                let expected = checksum_text(digest);
                *stored == expected
            },
        }
    }

    /// Takes the envelope apart into the three fields of its wire record; an
    /// absent digest becomes `None`.
    pub fn into_parts(self) -> (parts: (String, Option<String>, String))
        ensures
            (parts.0@, parts.1.deep_view(), parts.2@) == self@.parts(),
    {
        let check_sum = match self.check_sum {
            Checksum::Unchecksummed => None,
            Checksum::Checksummed(text) => Some(text),
        };
        (self.content, check_sum, self.created_at)
    }

    /// Builds an envelope from the three fields of a wire record, as they
    /// stand: nothing is recomputed.
    pub fn from_parts(content: String, check_sum: Option<String>, created_at: String) -> (message:
        Message)
        ensures
            message@ == MessageView::of_parts((content@, check_sum.deep_view(), created_at@)),
    {
        let check_sum = match check_sum {
            None => Checksum::Unchecksummed,
            Some(text) => Checksum::Checksummed(text),
        };
        Message { content, check_sum, created_at }
    }
}

/// A freshly created envelope validates, unless it was created without a
/// digest, which happens for an empty payload under `LeaveUnchecksummed` only.
pub proof fn law_created_validates(
    content: Seq<char>,
    policy: EmptyContentPolicy,
    created_at: Seq<char>,
)
    ensures
        created(content, policy, created_at).is_valid() <==> !(content.len() == 0 && policy
            == EmptyContentPolicy::LeaveUnchecksummed),
{
}

/// Replacing the payload of a created envelope without finalizing it again
/// makes the envelope invalid, whenever the digest tells the new payload
/// from the old one. Payloads of one digest, and so a payload replaced by
/// itself, cannot be told apart.
pub proof fn law_mutation_detected(
    content: Seq<char>,
    policy: EmptyContentPolicy,
    created_at: Seq<char>,
    changed: Seq<char>,
)
    requires
        md5_digest(encode_utf8(changed)) != md5_digest(encode_utf8(content)),
    ensures
        !created(content, policy, created_at).with_content(changed).is_valid(),
{
    let message = created(content, policy, created_at);
    if message.is_valid() {
        law_content_change_detected(message, changed);
    }
}

/// After the payload of a valid envelope is replaced, the envelope still
/// validates exactly if the new payload has the digest of the old one; any
/// change that the digest sees is detected.
pub proof fn law_content_change_detected(message: MessageView, content: Seq<char>)
    requires
        message.is_valid(),
    ensures
        message.with_content(content).is_valid() <==> md5_digest(encode_utf8(content))
            == md5_digest(encode_utf8(message.content)),
{
    if message.with_content(content).is_valid() {
        lemma_hex_lower_injective(
            md5_digest(encode_utf8(content)),
            md5_digest(encode_utf8(message.content)),
        );
    }
}

/// Finalizing makes any envelope valid, whatever was done to it before.
pub proof fn law_finalize_restores(message: MessageView)
    ensures
        message.finalized().is_valid(),
        message.finalized().content == message.content,
        message.finalized().created_at == message.created_at,
{
}

/// A valid envelope whose stored checksum is replaced by anything else no
/// longer validates.
pub proof fn law_checksum_change_detected(message: MessageView, check_sum: Option<Seq<char>>)
    requires
        message.is_valid(),
        check_sum != message.check_sum,
    ensures
        !message.with_check_sum(check_sum).is_valid(),
{
}

/// Taking an envelope apart into its wire fields and building it again
/// gives back the same payload, checksum and timestamp, and the validity of
/// the envelope with them.
pub proof fn law_parts_round_trip(message: MessageView)
    ensures
        MessageView::of_parts(message.parts()) == message,
        MessageView::of_parts(message.parts()).is_valid() == message.is_valid(),
{
}

} // verus!
