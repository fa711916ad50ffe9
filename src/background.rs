//! What a ray that meets no sphere shows, and how it is chosen by name.

use vstd::prelude::*;
use crate::text::{ascii_lower_seq, equals_folded, strip_white_space, trim};

verus! {

/// The shading of rays that leave the scene: a vertical gradient from white
/// towards pale blue, or plain black.
#[derive(Clone, Copy, Debug, PartialEq, Eq, Structural)]
pub enum Background {
    BlueGradient,
    Black,
}

/// The background that `name` selects once its ASCII capitals are lowered.
pub open spec fn background_named(name: Seq<char>) -> Option<Background> {
    let l = ascii_lower_seq(name);
    if l == "bluegradient"@ || l == "blue_gradient"@ || l == "blue gradient"@ {
        Some(Background::BlueGradient)
    } else if l == "black"@ {
        Some(Background::Black)
    } else {
        None
    }
}

/// The message given for a name that selects no background.
pub open spec fn unknown_background_message() -> Seq<char> {
    "invalid value for background function"@
}

impl Background {
    /// The background that `name` selects, letters compared without case.
    pub fn from_name(name: &str) -> (r: Option<Background>)
        ensures
            r == background_named(name@),
    {
        if equals_folded(name, "bluegradient") || equals_folded(name, "blue_gradient")
            || equals_folded(name, "blue gradient") {
            Some(Background::BlueGradient)
        } else if equals_folded(name, "black") {
            Some(Background::Black)
        } else {
            None
        }
    }

    /// Reads a command-line value: the name, with surrounding white space
    /// ignored, or an error message.
    pub fn from_arg_value(value: &str) -> (r: Result<Background, String>)
        ensures
            match background_named(strip_white_space(value@)) {
                Some(b) => r == Ok::<Background, String>(b),
                None => r is Err && r->Err_0@ == unknown_background_message(),
            },
    {
        match Background::from_name(trim(value)) {
            Some(b) => Ok(b),
            None => Err(String::from_str("invalid value for background function")),
        }
    }
}

} // verus!
