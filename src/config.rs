//! Render settings read from the command line: their defaults, the three
//! fields of a coordinate triple and the file names.

use vstd::prelude::*;
use crate::text::{
    ends_with, has_suffix, replace, replace_all, split_commas, split_on_commas, strip_parens,
    trim_parens,
};

verus! {

/// Image width in pixels when none is given.
pub const DEFAULT_WIDTH: usize = 1920;

/// Image height in pixels when none is given.
pub const DEFAULT_HEIGHT: usize = 1080;

/// Rays cast through each pixel when no count is given.
pub const DEFAULT_MULTISAMPLING: u8 = 100;

/// How often a fresh camera ray may bounce off spheres before it is dead.
pub const MAX_BOUNCES: u8 = 10;

/// The comma-separated pieces of a coordinate triple such as `(1,2.5,-3)`:
/// round brackets at both ends are dropped first.
pub open spec fn coordinate_pieces(value: Seq<char>) -> Seq<Seq<char>> {
    split_commas(strip_parens(value))
}

/// The x, y and z fields of a coordinate triple, still as text; `None` where
/// the value has fewer than three fields. Fields after the third are ignored.
pub fn coordinate_fields<'a>(value: &'a str) -> (r: Option<(&'a str, &'a str, &'a str)>)
    ensures
        match r {
            Some(t) => {
                let p = coordinate_pieces(value@);
                &&& p.len() >= 3
                &&& t.0@ == p[0]
                &&& t.1@ == p[1]
                &&& t.2@ == p[2]
            },
            None => coordinate_pieces(value@).len() < 3,
        },
{
    let pieces = split_on_commas(trim_parens(value));
    if pieces.len() < 3 {
        return None;
    }
    Some((pieces[0], pieces[1], pieces[2]))
}

/// Why a file name was refused.
#[derive(Clone, Copy, Debug, PartialEq, Eq, Structural)]
pub enum PathError {
    /// The scene file's name does not end with `.json`.
    SceneNotJson,
    /// The image file's name does not end with `.png`.
    OutputNotPng,
}

/// The file that the image goes to: `output` where it is given and ends with
/// `.png`; otherwise the scene file's name with each `.json` turned into
/// `.png`. A scene file whose name does not end with `.json` is refused first.
pub fn output_path(scene: &str, output: Option<&str>) -> (r: Result<String, PathError>)
    ensures
        !has_suffix(scene@, ".json"@) ==> r == Err::<String, PathError>(PathError::SceneNotJson),
        has_suffix(scene@, ".json"@) ==> match output {
            Some(o) => if has_suffix(o@, ".png"@) {
                r is Ok && r->Ok_0@ == o@
            } else {
                r == Err::<String, PathError>(PathError::OutputNotPng)
            },
            None => r is Ok && r->Ok_0@ == replace_all(scene@, ".json"@, ".png"@),
        },
{
    if !ends_with(scene, ".json") {
        return Err(PathError::SceneNotJson);
    }
    match output {
        Some(o) => {
            if ends_with(o, ".png") {
                Ok(String::from_str(o))
            } else {
                Err(PathError::OutputNotPng)
            }
        },
        None => {
            proof {
                reveal_strlit(".json");
            }
            Ok(replace(scene, ".json", ".png"))
        },
    }
}

} // verus!
