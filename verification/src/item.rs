//! What the collection holds, as far as ordering it needs to know.

use vstd::prelude::*;

verus! {

/// A playable track with the metadata that its sort key is made of.
#[derive(Clone, Debug, PartialEq, Eq)]
pub struct Track {
    /// The track's title.
    pub name: String,
    /// The names of the artists, the primary one first.
    pub artists: Vec<String>,
    /// The title of the album.
    pub album: String,
    /// The album's release date: `YYYY`, `YYYY-MM` or `YYYY-MM-DD`.
    pub release_date: Option<String>,
    /// How much of the release date is known: `year`, `month` or `day`.
    pub release_date_precision: Option<String>,
    /// The number of the disc within the album.
    pub disc_number: i32,
    /// The number of the track on its disc.
    pub track_number: u32,
    /// The track is a file from the listener's own storage.
    pub is_local: bool,
}

/// An entry that is no track, such as a podcast episode.
#[derive(Clone, Debug, PartialEq, Eq)]
pub struct Episode {
    /// The identifier under which the remote store knows the episode.
    pub id: String,
    /// The episode's title.
    pub name: String,
}

/// One entry of the collection.
#[derive(Clone, Debug, PartialEq, Eq)]
pub enum Item {
    /// A track.
    Track(Track),
    /// An entry of another kind.
    Episode(Episode),
    /// An entry with nothing behind it.
    Nothing,
}

/// A track as contracts see it.
pub struct TrackView {
    pub name: Seq<char>,
    pub artists: Seq<Seq<char>>,
    pub album: Seq<char>,
    pub release_date: Option<Seq<char>>,
    pub release_date_precision: Option<Seq<char>>,
    pub disc_number: int,
    pub track_number: int,
    pub is_local: bool,
}

/// An episode as contracts see it.
pub struct EpisodeView {
    pub id: Seq<char>,
    pub name: Seq<char>,
}

/// An entry as contracts see it.
pub enum ItemView {
    Track(TrackView),
    Episode(EpisodeView),
    Nothing,
}

/// The characters of a string that may be absent.
pub open spec fn text_of(s: Option<String>) -> Option<Seq<char>> {
    match s {
        Some(s) => Some(s@),
        None => None,
    }
}

impl View for Track {
    type V = TrackView;

    open spec fn view(&self) -> TrackView {
        TrackView {
            name: self.name@,
            artists: self.artists.deep_view(),
            album: self.album@,
            release_date: text_of(self.release_date),
            release_date_precision: text_of(self.release_date_precision),
            disc_number: self.disc_number as int,
            track_number: self.track_number as int,
            is_local: self.is_local,
        }
    }
}

impl View for Episode {
    type V = EpisodeView;

    open spec fn view(&self) -> EpisodeView {
        EpisodeView { id: self.id@, name: self.name@ }
    }
}

impl View for Item {
    type V = ItemView;

    open spec fn view(&self) -> ItemView {
        match self {
            Item::Track(t) => ItemView::Track(t@),
            Item::Episode(e) => ItemView::Episode(e@),
            Item::Nothing => ItemView::Nothing,
        }
    }
}

} // verus!
