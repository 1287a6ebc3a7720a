//! What the window asks of the user agent.
use vstd::prelude::*;
use crate::text::copy_string;

verus! {

/// A request from the window to the user agent.
#[derive(Debug, Clone)]
pub enum UiCommand {
    Register,
    Invite(String),
    Hangup(String),
}

pub open spec fn strings_of(v: Seq<String>) -> Seq<Seq<char>> {
    v.map_values(|s: String| s@)
}

/// The dialler's Call button: a non-empty destination goes to the call history
/// and becomes an `Invite`; an empty one does nothing.
pub fn dial(dialer_input: &String, call_history: &mut Vec<String>) -> (r: Option<UiCommand>)
    ensures
        dialer_input@.len() == 0 ==> r is None && strings_of(final(call_history)@) == strings_of(
            old(call_history)@,
        ),
        dialer_input@.len() > 0 ==> (r matches Some(UiCommand::Invite(d)) && d@ == dialer_input@),
        dialer_input@.len() > 0 ==> strings_of(final(call_history)@) == strings_of(
            old(call_history)@,
        ).push(dialer_input@),
{
    if dialer_input.as_str().is_empty() {
        return None;
    }
    let destination = copy_string(dialer_input);
    call_history.push(copy_string(&destination));
    assert(strings_of(call_history@) == strings_of(old(call_history)@).push(dialer_input@));
    Some(UiCommand::Invite(destination))
}

} // verus!
