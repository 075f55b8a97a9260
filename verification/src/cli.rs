//! The two paths a run is started with.

use vstd::prelude::*;

verus! {

/// Where the report goes when no output path is given.
pub open spec fn default_output_path() -> Seq<char> {
    "./output.toml"@
}

/// Settles the pair (profile path, output path) from what the command line
/// held: the profile path as given, and the output path as given or, where
/// none was given, the default `./output.toml`.
pub fn get_args(profile_path: String, output_path: Option<String>) -> (paths: (String, String))
    ensures
        paths.0@ == profile_path@,
        paths.1@ == match output_path {
            Some(p) => p@,
            None => default_output_path(),
        },
{
    let output_path = match output_path {
        Some(p) => p,
        None => "./output.toml".to_owned(),
    };
    (profile_path, output_path)
}

} // verus!
