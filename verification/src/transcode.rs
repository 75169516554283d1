//! Transcoding decisions: which codecs the viewer plays natively, and the
//! temporary-name discipline that keeps a half-written rendition invisible.
//!
//! The conversion itself runs outside the library; writers put the output
//! under the temporary name and move it to its final path only on success,
//! so no reader ever sees a partial file at the final path.

use vstd::prelude::*;
use vstd::string::*;

use crate::paths;

verus! {

/// True when `c` (already lower-cased) names a codec the viewer plays
/// without a rendition.
pub open spec fn codec_supported(c: Seq<char>) -> bool {
    ||| c == "h264"@
    ||| c == "avc"@
    ||| c == "av1"@
    ||| c == "vp8"@
    ||| c == "vp9"@
    ||| c == "theora"@
}

/// Decides whether a probed codec needs a rendition; the codec name is
/// read case-insensitively.
pub fn is_transcode_required(codec: &str) -> (r: bool)
    ensures
        r == !codec_supported(paths::lower(codec@)),
{
    let supported = paths::eq_lower(codec, "h264") || paths::eq_lower(codec, "avc")
        || paths::eq_lower(codec, "av1") || paths::eq_lower(codec, "vp8") || paths::eq_lower(
        codec,
        "vp9",
    ) || paths::eq_lower(codec, "theora");
    !supported
}

/// The name a rendition is written under until it is complete: the final
/// path with a partial-file suffix, never the final path itself.
pub fn transcode_temp_path(dest: &str) -> (r: String)
    ensures
        r@ == dest@ + ".part"@,
        r@ != dest@,
{
    proof {
        reveal_strlit(".part");
    }
    let mut out = dest.to_owned();
    out.append(".part");
    proof {
        assert(out@.len() == dest@.len() + 5);
    }
    out
}

} // verus!
