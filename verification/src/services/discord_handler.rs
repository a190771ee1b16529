//! The boundary to the chat gateway: which messages enter the pipeline.

use crate::text::{parse_decimal, parse_u64};
use std::collections::HashSet;
use vstd::prelude::*;

verus! {

/// A chat message as the pipeline sees it.
#[derive(Debug, PartialEq, Eq)]
pub struct MessageEvent {
    pub channel_id: u64,
    pub author_name: String,
    pub text: String,
    pub timestamp: String,
}

/// What the gateway's handler hands to the message batcher.
#[derive(Debug, PartialEq, Eq)]
pub enum DiscordMessage {
    Received(MessageEvent),
}

/// The channel that a configured identifier names: the identifier read as an
/// unsigned decimal number that fits in 64 bits.
pub open spec fn channel_of(text: Seq<char>) -> Option<u64> {
    match parse_decimal(text) {
        Some(n) => if n <= u64::MAX {
            Some(n as u64)
        } else {
            None
        },
        None => None,
    }
}

/// The channels that the configured identifiers `channel_ids` name.
pub open spec fn channels_of(channel_ids: Seq<String>) -> Set<u64> {
    Set::new(
        |channel: u64|
            exists|i: int|
                0 <= i < channel_ids.len() && channel_of(#[trigger] channel_ids[i]@) == Some(channel),
    )
}

/// Makes the allow-list of the configured channel identifiers. One that is
/// no number names no channel.
pub fn allowed_channels(channel_ids: &Vec<String>) -> (allowed: HashSet<u64>)
    ensures
        allowed@ == channels_of(channel_ids@),
{
    broadcast use vstd::std_specs::hash::group_hash_axioms;

    let mut allowed: HashSet<u64> = HashSet::new();
    let mut i: usize = 0;
    while i < channel_ids.len()
        invariant
            i <= channel_ids.len(),
            allowed@ == channels_of(channel_ids@.take(i as int)),
        decreases channel_ids.len() - i,
    {
        let ghost before = channel_ids@.take(i as int);
        let ghost after = channel_ids@.take(i + 1);
        let found = parse_u64(channel_ids[i].as_str());
        match found {
            Some(channel) => {
                allowed.insert(channel);
            },
            None => {},
        }
        proof {
            assert forall|channel: u64| allowed@.contains(channel) <==> channels_of(after).contains(
                channel,
            ) by {
                if channels_of(after).contains(channel) {
                    let k = choose|k: int|
                        0 <= k < after.len() && channel_of(#[trigger] after[k]@) == Some(channel);
                    if k < i {
                        assert(before[k] == after[k]);
                    }
                }
                if channels_of(before).contains(channel) {
                    let k = choose|k: int|
                        0 <= k < before.len() && channel_of(#[trigger] before[k]@) == Some(channel);
                    assert(after[k] == before[k]);
                }
                if found == Some(channel) {
                    assert(channel_of(after[i as int]@) == Some(channel));
                }
            }
        }
        i += 1;
    }
    assert(channel_ids@.take(channel_ids.len() as int) == channel_ids@);
    allowed
}

/// The gateway's handler: it lets through the messages of the allowed channels.
pub struct Handler {
    allowed_channels: HashSet<u64>,
}

impl Handler {
    /// The channels whose messages are let through.
    pub closed spec fn allowed(&self) -> Set<u64> {
        self.allowed_channels@
    }

    /// A handler that lets through the messages of `allowed_channels`.
    pub fn new(allowed_channels: HashSet<u64>) -> (handler: Handler)
        ensures
            handler.allowed() == allowed_channels@,
    {
        Handler { allowed_channels }
    }

    /// Decides what becomes of a message: one of an allowed channel is handed
    /// on, any other is dropped.
    pub fn message(&self, msg: MessageEvent) -> (forwarded: Option<DiscordMessage>)
        ensures
            forwarded == if self.allowed().contains(msg.channel_id) {
                Some(DiscordMessage::Received(msg))
            } else {
                None
            },
    {
        broadcast use vstd::std_specs::hash::group_hash_axioms;

        if self.allowed_channels.contains(&msg.channel_id) {
            Some(DiscordMessage::Received(msg))
        } else {
            None
        }
    }
}

} // verus!
