//! What the watcher of the mod folders reports: each file-system event
//! becomes a message, and the messages gathered between two polls come to
//! one outcome.
use vstd::prelude::*;

verus! {

/// A message from the folder watcher.
#[derive(Debug, Clone, PartialEq, Eq)]
pub enum ModWatcherMessage {
    Changed,
    Error(String),
}

/// What one poll of the watcher finds.
#[derive(Debug, Clone, PartialEq, Eq)]
pub enum ModWatcherPoll {
    Idle,
    Changed,
    Error(String),
}

/// The message for one watcher notification: `Ok` with whether the event
/// only read metadata, or `Err` with the watcher's error text. Reading
/// metadata must not cause another reload, so it gives no message.
pub fn watch_message(event: Result<bool, String>) -> (r: Option<ModWatcherMessage>)
    ensures
        match event {
            Ok(true) => r is None,
            Ok(false) => r matches Some(ModWatcherMessage::Changed),
            Err(e) => r matches Some(ModWatcherMessage::Error(m)) && m == e,
        },
{
    match event {
        Ok(is_access) => if is_access {
            None
        } else {
            Some(ModWatcherMessage::Changed)
        },
        Err(error) => Some(ModWatcherMessage::Error(error)),
    }
}

/// The text of the last error among `messages`, if any.
pub open spec fn last_error(messages: Seq<ModWatcherMessage>) -> Option<Seq<char>>
    decreases messages.len(),
{
    if messages.len() == 0 {
        None
    } else {
        match messages.last() {
            ModWatcherMessage::Error(e) => Some(e@),
            ModWatcherMessage::Changed => last_error(messages.drop_last()),
        }
    }
}

/// Whether some message reports a change.
pub open spec fn any_change(messages: Seq<ModWatcherMessage>) -> bool {
    exists|i: int| 0 <= i < messages.len() && #[trigger] messages[i] is Changed
}

/// The outcome of a poll: the last error if there was one, else a change
/// if one was reported, else nothing.
pub fn poll_outcome(messages: Vec<ModWatcherMessage>) -> (r: ModWatcherPoll)
    ensures
        match last_error(messages@) {
            Some(e) => r matches ModWatcherPoll::Error(m) && m@ == e,
            None => if any_change(messages@) {
                r is Changed
            } else {
                r is Idle
            },
        },
{
    let ghost all = messages@;
    let mut changed = false;
    let mut error: Option<String> = None;
    let mut rest = messages;
    let ghost mut consumed: Seq<ModWatcherMessage> = Seq::empty();
    while rest.len() > 0
        invariant
            all == consumed + rest@,
            changed == any_change(consumed),
            match error {
                Some(m) => last_error(consumed) == Some(m@),
                None => last_error(consumed) is None,
            },
        decreases rest@.len(),
    {
        let message = rest.remove(0);
        let ghost before = consumed;
        proof {
            consumed = consumed.push(message);
        }
        assert(all == consumed + rest@);
        assert(consumed.drop_last() == before);
        match message {
            ModWatcherMessage::Changed => {
                changed = true;
                assert(consumed[consumed.len() - 1] is Changed);
            },
            ModWatcherMessage::Error(m) => {
                error = Some(m);
            },
        }
        assert(changed == any_change(consumed)) by {
            if any_change(consumed) && !any_change(before) {
                let i = choose|i: int| 0 <= i < consumed.len() && #[trigger] consumed[i] is Changed;
                if i < before.len() {
                    assert(before[i] == consumed[i]);
                }
            }
            if any_change(before) {
                let i = choose|i: int| 0 <= i < before.len() && #[trigger] before[i] is Changed;
                assert(consumed[i] == before[i]);
            }
        }
    }
    assert(consumed == all);
    match error {
        Some(m) => ModWatcherPoll::Error(m),
        None => if changed {
            ModWatcherPoll::Changed
        } else {
            ModWatcherPoll::Idle
        },
    }
}

} // verus!
