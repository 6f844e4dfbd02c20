//! The audible cues the surrounding program can play, and the mapping
//! from their textual command names.  Decoding and playing the sounds is
//! the surrounding program's business.

use vstd::prelude::*;
use vstd::string::*;

verus! {

/// The audible cues of the backup session.
#[derive(Clone, Copy, Debug, PartialEq, Eq, Structural)]
pub enum SoundList {
    Start,
    Correct,
    Completed,
    Stop,
}

/// Which sound a textual command names; unknown commands name none.
pub open spec fn command_spec(s: Seq<char>) -> Option<SoundList> {
    if s == "start"@ {
        Some(SoundList::Start)
    } else if s == "stop"@ {
        Some(SoundList::Stop)
    } else if s == "correct"@ {
        Some(SoundList::Correct)
    } else if s == "completed"@ {
        Some(SoundList::Completed)
    } else {
        None
    }
}

/// Map a textual command to the sound it names.
pub fn string_to_command(command: &str) -> (r: Option<SoundList>)
    ensures
        r == command_spec(command@),
{
    let c = command.to_owned();
    if c == String::from_str("start") {
        Some(SoundList::Start)
    } else if c == String::from_str("stop") {
        Some(SoundList::Stop)
    } else if c == String::from_str("correct") {
        Some(SoundList::Correct)
    } else if c == String::from_str("completed") {
        Some(SoundList::Completed)
    } else {
        None
    }
}

} // verus!
