//! The upstream data sources that supply presence content.

use vstd::prelude::*;

verus! {

/// What one music service reports: the current track, who performs it, and
/// whether playback is paused.
#[derive(Debug, Clone, PartialEq, Eq)]
pub struct MusicServiceInfo {
    pub song: String,
    pub artist: String,
    pub paused: bool,
}

/// Mathematical model of [`MusicServiceInfo`]: the text fields as character
/// sequences.
pub struct MusicServiceInfoModel {
    pub song: Seq<char>,
    pub artist: Seq<char>,
    pub paused: bool,
}

impl View for MusicServiceInfo {
    type V = MusicServiceInfoModel;

    open spec fn view(&self) -> MusicServiceInfoModel {
        MusicServiceInfoModel { song: self.song@, artist: self.artist@, paused: self.paused }
    }
}

/// A presence source. Currently the only supported source is YouTube Music.
#[derive(Debug, Clone, PartialEq, Eq)]
pub enum Service {
    YouTubeMusic(MusicServiceInfo),
}

/// Mathematical model of [`Service`].
pub enum ServiceModel {
    YouTubeMusic(MusicServiceInfoModel),
}

impl View for Service {
    type V = ServiceModel;

    open spec fn view(&self) -> ServiceModel {
        match self {
            Service::YouTubeMusic(info) => ServiceModel::YouTubeMusic(info@),
        }
    }
}

} // verus!
