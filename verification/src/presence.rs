//! Building presence payloads from service updates.

use vstd::prelude::*;
use vstd::string::StringExecFns;

use crate::services::MusicServiceInfo;

verus! {

/// What the presence provider is asked to display: the text fields and the
/// art keys of one activity. The provider itself stamps the start time when
/// the payload is submitted.
pub struct ActivityPayload {
    /// Primary line: the track.
    pub details: String,
    /// Secondary line: the artist.
    pub state: String,
    /// Key of the large art asset.
    pub large_image: String,
    /// Caption of the large art asset.
    pub large_text: String,
    /// Key of the small overlay asset, present only while paused.
    pub small_image: Option<String>,
    /// Caption of the small overlay asset, present only while paused.
    pub small_text: Option<String>,
}

/// Builds the payload for a music update: the track as `details`, the
/// artist as `state`, the service's art with an "artist - song" caption,
/// and the paused overlay if and only if playback is paused.
pub fn build_activity(info: &MusicServiceInfo) -> (p: ActivityPayload)
    ensures
        p.details@ == info.song@,
        p.state@ == info.artist@,
        p.large_image@ == "youtubemusic"@,
        p.large_text@ == info.artist@ + " - "@ + info.song@,
        info.paused ==> {
            &&& p.small_image matches Some(si) && si@ == "paused"@
            &&& p.small_text matches Some(st) && st@ == "Paused"@
        },
        !info.paused ==> p.small_image is None && p.small_text is None,
{
    let details = info.song.clone();
    let state = info.artist.clone();
    let large_image = "youtubemusic".to_owned();
    let mut large_text = info.artist.clone();
    large_text.append(" - ");
    large_text.append(info.song.as_str());
    if info.paused {
        ActivityPayload {
            details,
            state,
            large_image,
            large_text,
            small_image: Some("paused".to_owned()),
            small_text: Some("Paused".to_owned()),
        }
    } else {
        ActivityPayload {
            details,
            state,
            large_image,
            large_text,
            small_image: None,
            small_text: None,
        }
    }
}

} // verus!
