//! Names of the external encoder binaries.

use vstd::prelude::*;

verus! {

/// The encoder binary the server launches for transcodes.
#[allow(non_snake_case)]
pub fn FFMPEG_BINARY() -> (r: &'static str)
    ensures
        r@ == "ffmpeg"@,
{
    "ffmpeg"
}

/// The probe binary the server launches to detect a source format.
#[allow(non_snake_case)]
pub fn FFPROBE_BINARY() -> (r: &'static str)
    ensures
        r@ == "ffprobe"@,
{
    "ffprobe"
}

} // verus!
