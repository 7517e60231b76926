//! The playlists a listener may have sorted: those that are the listener's
//! own.

use vstd::prelude::*;

verus! {

/// A playlist as the remote store lists it.
#[derive(Clone, Debug, PartialEq, Eq)]
pub struct Playlist {
    /// The identifier under which the remote store knows the playlist.
    pub id: String,
    /// The playlist's title.
    pub name: String,
    /// The identifier of the user who owns the playlist.
    pub owner: String,
}

/// A playlist as contracts see it.
pub struct PlaylistView {
    pub id: Seq<char>,
    pub name: Seq<char>,
    pub owner: Seq<char>,
}

impl View for Playlist {
    type V = PlaylistView;

    open spec fn view(&self) -> PlaylistView {
        PlaylistView { id: self.id@, name: self.name@, owner: self.owner@ }
    }
}

/// The playlists as contracts see them.
pub open spec fn playlist_views(playlists: Seq<Playlist>) -> Seq<PlaylistView> {
    playlists.map_values(|p: Playlist| p@)
}

/// The playlists that `user` owns, in the order in which they were listed.
pub open spec fn owned_by(playlists: Seq<PlaylistView>, user: Seq<char>) -> Seq<PlaylistView> {
    playlists.filter(|p: PlaylistView| p.owner == user)
}

/// Keeps the playlists that `user` owns.
pub fn owned_playlists(playlists: Vec<Playlist>, user: &str) -> (owned: Vec<Playlist>)
    ensures
        playlist_views(owned@) == owned_by(playlist_views(playlists@), user@),
{
    let ghost mine = |p: PlaylistView| p.owner == user@;
    let wanted = String::from_str(user);
    let mut owned: Vec<Playlist> = Vec::new();
    assert(playlist_views(owned@) =~= Seq::<PlaylistView>::empty().filter(mine)) by {
        reveal(Seq::filter);
    }
    for playlist in it: playlists
        invariant
            wanted@ == user@,
            mine == |p: PlaylistView| p.owner == user@,
            playlist_views(owned@) == playlist_views(it.seq().take(it.index() as int)).filter(mine),
    {
        proof {
            let seen = playlist_views(it.seq().take(it.index() as int));
            let next = playlist_views(it.seq().take(it.index() + 1));
            assert(next.drop_last() =~= seen);
            assert(next.last() == playlist@);
            reveal(Seq::filter);
        }
        if playlist.owner == wanted {
            owned.push(playlist);
            assert(playlist_views(owned@) =~= playlist_views(it.seq().take(it.index() + 1)).filter(mine));
        }
    }
    assert(playlists@.take(playlists@.len() as int) =~= playlists@);
    owned
}

/// The playlist that a listener picks by its number in the list, counting
/// from one. A number that stands for no playlist picks none.
pub fn pick(playlists: &Vec<Playlist>, number: usize) -> (picked: Option<&Playlist>)
    ensures
        picked is Some <==> 1 <= number <= playlists@.len(),
        picked is Some ==> *picked->Some_0 == playlists@[number - 1],
{
    if number < 1 || number > playlists.len() {
        None
    } else {
        Some(&playlists[number - 1])
    }
}

} // verus!
