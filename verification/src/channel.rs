//! Provisioning of the named channel, and the settings that both roles share.

use crate::message::EmptyContentPolicy;
use crate::publisher::{ContentSource, Publisher, PublisherView, DEFAULT_MESSAGE_LIMIT};
use crate::subscriber::{Subscriber, SubscriberView, DEFAULT_POLL_INTERVAL_MS};
use vstd::prelude::*;

verus! {

/// Where the channel from publisher to subscriber lives by default.
pub const INPUT_PIPE_PATH: &'static str = "/tmp/pub-in-fifo";

/// Where the subscriber writes what it accepted by default.
pub const OUTPUT_FILE_PATH: &'static str = "/tmp/pub-out-file";

/// Permission bits of a new channel: its owner may read, write and execute.
pub const CHANNEL_MODE: u32 = 0o700;

/// What the attempt to create the channel at its path gave.
#[derive(Debug, Clone, Copy, PartialEq, Eq)]
pub enum CreateOutcome {
    /// Nothing was at the path; the channel was created.
    Created,
    /// Something is at the path already. `is_fifo` tells whether it is a
    /// channel.
    AlreadyExists { is_fifo: bool },
    /// The channel could not be created for any other reason.
    Failed,
}

/// Why the channel cannot be used.
#[derive(Debug, Clone, Copy, PartialEq, Eq)]
pub enum ProvisionError {
    /// The path is taken by something that is not a channel.
    PathCollision,
    /// Creating the channel failed.
    CreateFailed,
}

/// Whether the channel is there to be used after an attempt to create it.
pub open spec fn provisioned(outcome: CreateOutcome) -> Result<(), ProvisionError> {
    match outcome {
        CreateOutcome::Created => Ok(()),
        CreateOutcome::AlreadyExists { is_fifo } => if is_fifo {
            Ok(())
        } else {
            Err(ProvisionError::PathCollision)
        },
        CreateOutcome::Failed => Err(ProvisionError::CreateFailed),
    }
}

/// Decides whether the channel is there to be used. A channel that exists
/// already is as good as a new one; anything else in its place, and any other
/// failure, is fatal to the caller.
pub fn ensure_channel(outcome: CreateOutcome) -> (result: Result<(), ProvisionError>)
    ensures
        result == provisioned(outcome),
{
    match outcome {
        CreateOutcome::Created => Ok(()),
        CreateOutcome::AlreadyExists { is_fifo } => {
            if is_fifo {
                Ok(())
            } else {
                Err(ProvisionError::PathCollision)
            }
        },
        CreateOutcome::Failed => Err(ProvisionError::CreateFailed),
    }
}

/// The settings of a bus.
#[derive(Debug, Clone, PartialEq, Eq)]
pub struct BusConfig {
    /// Path of the channel from publisher to subscriber.
    pub input_path: String,
    /// Path of the sink.
    pub output_path: String,
    /// Sleep between two reads that gave nothing, in milliseconds.
    pub poll_interval_ms: u64,
    /// Whether the publisher generates its payloads.
    pub generate_synthetic: bool,
    /// What creation does with an empty payload.
    pub empty_content: EmptyContentPolicy,
    /// After how many envelopes a publishing run stops, if at all.
    pub message_limit: Option<u64>,
}

impl BusConfig {
    /// Where the publisher takes its payloads from.
    pub open spec fn source(&self) -> ContentSource {
        if self.generate_synthetic {
            ContentSource::Synthetic
        } else {
            ContentSource::Lines
        }
    }

    /// The usual settings: the well-known paths, a poll every 300
    /// milliseconds, payloads from the input stream, a digest for every
    /// payload, and a run of a thousand million envelopes.
    pub fn standard() -> (config: BusConfig)
        ensures
            config.input_path@ == INPUT_PIPE_PATH@,
            config.output_path@ == OUTPUT_FILE_PATH@,
            config.poll_interval_ms == DEFAULT_POLL_INTERVAL_MS,
            !config.generate_synthetic,
            config.empty_content == EmptyContentPolicy::DigestEmpty,
            config.message_limit == Some(DEFAULT_MESSAGE_LIMIT),
    {
        BusConfig {
            input_path: INPUT_PIPE_PATH.to_owned(),
            output_path: OUTPUT_FILE_PATH.to_owned(),
            poll_interval_ms: DEFAULT_POLL_INTERVAL_MS,
            generate_synthetic: false,
            empty_content: EmptyContentPolicy::DigestEmpty,
            message_limit: Some(DEFAULT_MESSAGE_LIMIT),
        }
    }

    /// A publisher with these settings.
    pub fn publisher(&self) -> (publisher: Publisher)
        ensures
            publisher@ == PublisherView::fresh(
                self.source(),
                self.empty_content,
                self.message_limit,
            ),
    {
        let source = if self.generate_synthetic {
            ContentSource::Synthetic
        } else {
            ContentSource::Lines
        };
        Publisher::new(source, self.empty_content, self.message_limit)
    }

    /// A subscriber with these settings.
    pub fn subscriber(&self) -> (subscriber: Subscriber)
        ensures
            subscriber@ == SubscriberView::fresh(self.poll_interval_ms),
            subscriber@.is_consistent(),
    {
        Subscriber::new(self.poll_interval_ms)
    }
}

} // verus!
