use playlist_sort::{owned_playlists, pick, DelayPolicy, Playlist};

fn playlist(id: &str, name: &str, owner: &str) -> Playlist {
    Playlist { id: id.to_string(), name: name.to_string(), owner: owner.to_string() }
}

#[test]
fn only_own_playlists_are_kept_in_their_order() {
    let listed = vec![
        playlist("1", "Road", "me"),
        playlist("2", "Followed", "someone"),
        playlist("3", "Gym", "me"),
        playlist("4", "Shared", "Me"),
        playlist("5", "Sleep", "me"),
    ];
    assert_eq!(
        owned_playlists(listed, "me"),
        vec![playlist("1", "Road", "me"), playlist("3", "Gym", "me"), playlist("5", "Sleep", "me")]
    );
}

#[test]
fn stranger_owns_nothing() {
    let listed = vec![playlist("1", "Road", "me"), playlist("2", "Gym", "me")];
    assert!(owned_playlists(listed, "you").is_empty());
    assert!(owned_playlists(Vec::new(), "me").is_empty());
}

#[test]
fn pick_counts_from_one() {
    let listed = vec![playlist("1", "Road", "me"), playlist("2", "Gym", "me")];
    assert_eq!(pick(&listed, 0), None);
    assert_eq!(pick(&listed, 1), Some(&listed[0]));
    assert_eq!(pick(&listed, 2), Some(&listed[1]));
    assert_eq!(pick(&listed, 3), None);
    assert_eq!(pick(&listed, usize::MAX), None);
    assert_eq!(pick(&Vec::new(), 1), None);
}

#[test]
fn default_wait_is_two_milliseconds_an_item() {
    assert_eq!(DelayPolicy::default().millis_per_item, 2);
    assert_eq!(DelayPolicy::default().pause_millis(0), 0);
    assert_eq!(DelayPolicy::default().pause_millis(150), 300);
}

#[test]
fn wait_grows_with_the_collection() {
    assert_eq!(DelayPolicy::per_item(7).pause_millis(13), 91);
    assert_eq!(DelayPolicy::none().pause_millis(1000), 0);
}

#[test]
fn wait_stops_growing_at_the_largest_there_is() {
    assert_eq!(DelayPolicy::per_item(u64::MAX).pause_millis(2), u64::MAX);
    assert_eq!(DelayPolicy::per_item(u64::MAX).pause_millis(1), u64::MAX);
    assert_eq!(DelayPolicy::per_item(1 << 63).pause_millis(2), u64::MAX);
    assert_eq!(DelayPolicy::per_item((1 << 63) - 1).pause_millis(2), u64::MAX - 1);
}
