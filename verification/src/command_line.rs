//! Decisions of the interactive command loop: which action each line of
//! input triggers, and which notification a number toggles.

use vstd::prelude::*;

use crate::decimal::{parse_i64, parse_i64_spec};
use crate::models::{
    Event, Notification, NotificationUpdate, NotificationUpdateView,
};

verus! {

/// States of the interactive command loop.
#[derive(Clone, Copy, Debug, PartialEq, Eq, Structural)]
pub enum CommandLineState {
    /// Awaiting a command.
    Top,
    /// A notification list was just shown; the next line picks an entry.
    UpdateEnable,
    /// The loop is over.
    End,
}

/// The action one line of input asks for.
#[derive(Clone, Copy, Debug, PartialEq, Eq, Structural)]
pub enum CommandAction {
    /// Print the current credential.
    ShowToken,
    /// Refresh the current credential.
    Refresh,
    /// Run one synchronization pass.
    Sync,
    /// List the notification settings of the coming days.
    ListNotifications,
    /// Toggle the notification the line's number picks.
    ToggleByNumber,
    /// Not a command: show the prompt again.
    Ignore,
    /// Leave the loop.
    Quit,
}

/// Whether `c` is a blank character of a terminal line.
pub open spec fn is_space(c: char) -> bool {
    c == ' ' || c == '\t' || c == '\r' || c == '\n'
}

/// Whether the line holds nothing but blanks.
pub open spec fn blank(s: Seq<char>) -> bool {
    forall|i: int| 0 <= i < s.len() ==> is_space(#[trigger] s[i])
}

/// Is the line blank?
#[verifier::loop_isolation(false)]
pub fn is_blank(s: &str) -> (r: bool)
    ensures
        r == blank(s@),
{
    let n = s.unicode_len();
    let mut i: usize = 0;
    while i < n
        invariant
            i <= n,
            n == s@.len(),
            forall|k: int| 0 <= k < i ==> is_space(#[trigger] s@[k]),
        decreases n - i,
    {
        let c = s.get_char(i);
        if !(c == ' ' || c == '\t' || c == '\r' || c == '\n') {
            return false;
        }
        i = i + 1;
    }
    true
}

/// Relies on `str`'s `PartialEq`: two string slices are equal exactly when
/// their characters are.
#[verifier::external_body]
fn str_eq(a: &str, b: &str) -> (r: bool)
    ensures
        r == (a@ == b@),
{
    a == b
}

/// One step of the command loop: a blank line ends it; after a notification
/// list, the next line picks an entry to toggle; otherwise the line names a
/// command, and an unknown one is ignored.
pub fn command_line_step(state: CommandLineState, input: &str) -> (r: (
    CommandAction,
    CommandLineState,
))
    ensures
        blank(input@) ==> r == (CommandAction::Quit, CommandLineState::End),
        !blank(input@) && state is UpdateEnable ==> r == (
            CommandAction::ToggleByNumber,
            CommandLineState::Top,
        ),
        !blank(input@) && !(state is UpdateEnable) ==> r == ({
            if input@ == "token"@ {
                (CommandAction::ShowToken, CommandLineState::Top)
            } else if input@ == "refresh"@ {
                (CommandAction::Refresh, CommandLineState::Top)
            } else if input@ == "sync"@ {
                (CommandAction::Sync, CommandLineState::Top)
            } else if input@ == "list"@ {
                (CommandAction::ListNotifications, CommandLineState::UpdateEnable)
            } else {
                (CommandAction::Ignore, CommandLineState::Top)
            }
        }),
{
    if is_blank(input) {
        (CommandAction::Quit, CommandLineState::End)
    } else if state == CommandLineState::UpdateEnable {
        (CommandAction::ToggleByNumber, CommandLineState::Top)
    } else if str_eq(input, "token") {
        (CommandAction::ShowToken, CommandLineState::Top)
    } else if str_eq(input, "refresh") {
        (CommandAction::Refresh, CommandLineState::Top)
    } else if str_eq(input, "sync") {
        (CommandAction::Sync, CommandLineState::Top)
    } else if str_eq(input, "list") {
        (CommandAction::ListNotifications, CommandLineState::UpdateEnable)
    } else {
        (CommandAction::Ignore, CommandLineState::Top)
    }
}

/// Why a toggle line did nothing.
#[derive(Clone, Copy, Debug, PartialEq, Eq, Structural)]
pub enum ToggleError {
    /// The line is not a number.
    NotANumber,
    /// The number names no listed entry.
    OutOfRange,
}

/// Reads a one-based entry number off the line and flips that entry's
/// notification: the write enables it when it was disabled and disables it
/// when it was enabled, leaving the lead time untouched.
pub fn handle_update_enabled(events: &Vec<(Event, Notification)>, input: &str) -> (r: Result<
    (String, NotificationUpdate),
    ToggleError,
>)
    ensures
        parse_i64_spec(input@) is None ==> r == Result::<(String, NotificationUpdate), ToggleError>::Err(
            ToggleError::NotANumber,
        ),
        (parse_i64_spec(input@) matches Some(num) && !(1 <= num && num - 1
            < events.deep_view().len())) ==> r == Result::<
            (String, NotificationUpdate),
            ToggleError,
        >::Err(ToggleError::OutOfRange),
        (parse_i64_spec(input@) matches Some(num) && 1 <= num && num - 1
            < events.deep_view().len()) ==> (r matches Ok((id, u)) && id@ == events.deep_view()[(
        parse_i64_spec(input@)->0 - 1) as int].1.event_id && u@ == (NotificationUpdateView {
            enabled: Some(!events.deep_view()[(parse_i64_spec(input@)->0 - 1) as int].1.enabled),
            notification_sec_from_start: None,
        })),
{
    let num = match parse_i64(input) {
        Some(num) => num,
        None => {
            return Err(ToggleError::NotANumber);
        },
    };
    if num < 1 || (num - 1) as u128 >= events.len() as u128 {
        return Err(ToggleError::OutOfRange);
    }
    let idx = (num - 1) as usize;
    let n = &events[idx].1;
    Ok(
        (
            n.event_id.clone(),
            NotificationUpdate { enabled: Some(!n.enabled), notification_sec_from_start: None },
        ),
    )
}

} // verus!
