//! The decisions taken on inbound events: which messages are commands, and
//! how long to wait before an invitation is accepted again.
use crate::framework::commands::{bound, ErasedCommand};
use crate::framework::groups::Group;
use crate::framework::parameters::{value_views, Value};
use crate::framework::text::{strip_prefix, without_prefix};
use vstd::prelude::*;
use vstd::string::*;

verus! {

/// A message as it reaches the dispatcher.
#[derive(Clone, Copy, Debug)]
pub struct Inbound<'a> {
    /// Whether the service is a member of the room the message came from.
    pub joined: bool,
    /// The identity of the sender.
    pub sender: &'a str,
    /// The text of the message; nothing where the message is not text.
    pub body: Option<&'a str>,
}

/// The command that an inbound message invokes, with the input that is left
/// for its arguments.
///
/// A message from a room that the service has not joined, a message of the
/// service's own, a message that is not text and a text that does not start
/// with the prefix invoke nothing. Any other invokes what the tree resolves
/// the text after the prefix to, if anything.
pub open spec fn routed<H>(
    commands: Group<H>,
    prefix: Seq<char>,
    own_id: Seq<char>,
    message: Inbound<'_>,
) -> Option<(ErasedCommand<H>, Seq<char>)> {
    if !message.joined || message.sender@ == own_id {
        None
    } else {
        match message.body {
            None => None,
            Some(body) => match without_prefix(body@, prefix) {
                None => None,
                Some(rest) => commands.resolved(rest),
            },
        }
    }
}

/// Finds the command that an inbound message invokes.
pub fn route<'a, 'b, H>(
    commands: &'a Group<H>,
    prefix: &str,
    own_id: &str,
    message: Inbound<'b>,
) -> (r: Option<(&'a ErasedCommand<H>, &'b str)>)
    ensures
        match routed(*commands, prefix@, own_id@, message) {
            Some((command, rest)) => r matches Some((c, t)) && *c == command && t@ == rest,
            None => r is None,
        },
{
    if !message.joined {
        return None;
    }
    if String::from_str(message.sender) == String::from_str(own_id) {
        return None;
    }
    match message.body {
        None => None,
        Some(body) => match strip_prefix(body, prefix) {
            None => None,
            Some(rest) => commands.find_command_parsing(rest),
        },
    }
}

/// What is to be done about an inbound message.
#[derive(Debug)]
pub enum Dispatch<'a, H> {
    /// The message is not a command for the service.
    Ignore,
    /// The message invokes `command`, with `values` as its arguments.
    Invoke { command: &'a ErasedCommand<H>, values: Vec<Value> },
    /// The message names a command, but its arguments cannot be read: the
    /// sender is told `reply`, and the command does not run.
    Report { reply: String },
}

/// Decides what is to be done about an inbound message: finds the command
/// that it invokes, if any, and binds the command's parameters to what
/// follows the command's name. What the last parameter leaves of the input
/// is not looked at.
pub fn dispatch<'a, H>(
    commands: &'a Group<H>,
    prefix: &str,
    own_id: &str,
    message: Inbound<'_>,
) -> (r: Dispatch<'a, H>)
    ensures
        match routed(*commands, prefix@, own_id@, message) {
            None => r is Ignore,
            Some((found, rest)) => match bound(found.params@, rest) {
                Ok((_, arguments)) => r matches Dispatch::Invoke { command, values } && *command
                    == found && value_views(values@) == arguments,
                Err(failure) => r matches Dispatch::Report { reply } && reply@
                    == failure.sentence(),
            },
        },
{
    match route(commands, prefix, own_id, message) {
        None => Dispatch::Ignore,
        Some((command, rest)) => match command.bind(rest) {
            Ok((_, values)) => Dispatch::Invoke { command, values },
            Err(e) => Dispatch::Report { reply: e.message() },
        },
    }
}

/// The seconds to wait after the first failed attempt to accept an
/// invitation.
pub const FIRST_DELAY: u64 = 2;

/// The longest wait, in seconds, that is followed by another attempt.
pub const LONGEST_DELAY: u64 = 3600;

/// The wait after the next failure, given the wait after this one: twice as
/// long. Nothing where that would be longer than an hour: the invitation is
/// then given up.
pub fn next_delay(delay: u64) -> (next: Option<u64>)
    ensures
        next == if 2 * delay <= LONGEST_DELAY {
            Some((2 * delay) as u64)
        } else {
            None
        },
{
    if delay <= LONGEST_DELAY / 2 {
        Some(2 * delay)
    } else {
        None
    }
}

} // verus!
