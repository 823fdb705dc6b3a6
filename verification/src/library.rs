//! The song library and the indexes that the player browses it by:
//! artists in order, each artist's albums in order, and each album's songs.

use vstd::prelude::*;
use vstd::pervasive::VecAdditionalExecFns;
use vstd::string::StringExecFns;
use crate::text::{
    lex_lt, lemma_lex_irreflexive, lemma_insert_sorted, lemma_sorted_distinct,
    sorted_listing, find_name, copy_names, lemma_listing_unique, format_time, time_text,
};

verus! {

/// Where the player finds the music to index.
#[derive(Debug)]
pub struct Settings {
    pub library_path: String,
}

/// One track of the library.
#[derive(Clone)]
pub struct Song {
    pub title: String,
    pub artist: String,
    pub album: String,
    /// Length of the track in milliseconds, when known.
    pub duration_ms: Option<u64>,
    pub path: String,
}

impl Song {
    /// The song a scanned file makes, from the tags read from it: a missing
    /// title or artist is replaced by a placeholder, a missing length by a
    /// tenth of a second.
    pub fn from_tags(
        title: Option<String>,
        artist: Option<String>,
        album: String,
        duration_ms: Option<u64>,
        path: String,
    ) -> (song: Song)
        ensures
            song.title@ == (match title {
                Some(t) => t@,
                None => "Could not read title"@,
            }),
            song.artist@ == (match artist {
                Some(a) => a@,
                None => "Could not read artist"@,
            }),
            song.album@ == album@,
            song.duration_ms == (match duration_ms {
                Some(d) => Some(d),
                None => Some(100u64),
            }),
            song.path@ == path@,
    {
        let title = match title {
            Some(t) => t,
            None => String::from_str("Could not read title"),
        };
        let artist = match artist {
            Some(a) => a,
            None => String::from_str("Could not read artist"),
        };
        let duration_ms = match duration_ms {
            Some(d) => Some(d),
            None => Some(100),
        };
        Song { title, artist, album, duration_ms, path }
    }

    /// The entry of this song in the song list: its title and its length.
    pub fn song_label(&self) -> (s: String)
        requires
            self.duration_ms is Some,
        ensures
            s@ == self.title@ + " ("@ + time_text((self.duration_ms->0 / 1000) as nat) + ")"@,
    {
        let mut s = self.title.clone();
        s.append(" (");
        let time = format_time(self.duration_ms.unwrap() / 1000);
        s.append(time.as_str());
        s.append(")");
        s
    }

    /// The entry of this song in the queue: its title and its length. Unlike
    /// the song list's entry it ends in two closing parentheses, as the
    /// queue pane shows it.
    pub fn queue_label(&self) -> (s: String)
        requires
            self.duration_ms is Some,
        ensures
            s@ == self.title@ + " ("@ + time_text((self.duration_ms->0 / 1000) as nat) + "))"@,
    {
        let mut s = self.title.clone();
        s.append(" (");
        let time = format_time(self.duration_ms.unwrap() / 1000);
        s.append(time.as_str());
        s.append("))");
        s
    }

    /// The length in whole seconds, or one second when it is unknown.
    pub fn duration_secs_or_one(&self) -> (secs: i64)
        ensures
            secs == (match self.duration_ms {
                Some(ms) => (ms / 1000) as int,
                None => 1,
            }),
    {
        match self.duration_ms {
            Some(ms) => (ms / 1000) as i64,
            None => 1,
        }
    }
}

/// The artists of the first `n` songs.
pub open spec fn artist_set(songs: Seq<Song>, n: int) -> Set<Seq<char>> {
    Set::new(|a: Seq<char>| exists|j: int| 0 <= j < n && #[trigger] songs[j].artist@ == a)
}

/// The albums that `artist` has among the first `n` songs.
pub open spec fn album_set(songs: Seq<Song>, n: int, artist: Seq<char>) -> Set<Seq<char>> {
    Set::new(
        |b: Seq<char>|
            exists|j: int| 0 <= j < n && #[trigger] songs[j].artist@ == artist && songs[j].album@ == b,
    )
}

/// Whether song `j` is by `artist` and on `album`.
pub open spec fn on_album(songs: Seq<Song>, j: int, artist: Seq<char>, album: Seq<char>) -> bool {
    songs[j].artist@ == artist && songs[j].album@ == album
}

/// The positions, in increasing order, of the songs among the first `n`
/// that are by `artist` and on `album`.
pub open spec fn song_indices(songs: Seq<Song>, n: int, artist: Seq<char>, album: Seq<char>) -> Seq<usize>
    decreases n,
{
    if n <= 0 {
        Seq::empty()
    } else if on_album(songs, n - 1, artist, album) {
        song_indices(songs, n - 1, artist, album).push((n - 1) as usize)
    } else {
        song_indices(songs, n - 1, artist, album)
    }
}

/// The index entry of one artist is right for the first `n` songs: its albums
/// are listed in order, and each album's list holds exactly its songs.
pub open spec fn artist_entry_valid(
    songs: Seq<Song>,
    n: int,
    artist: Seq<char>,
    albums: Seq<String>,
    lists: Seq<Vec<usize>>,
) -> bool {
    &&& sorted_listing(albums, album_set(songs, n, artist))
    &&& lists.len() == albums.len()
    &&& forall|q: int| 0 <= q < albums.len() ==> #[trigger] lists[q]@ == song_indices(songs, n, artist, albums[q]@)
}

/// The entries of all listed artists are right for the first `n` songs.
pub open spec fn entries_valid(
    songs: Seq<Song>,
    n: int,
    artists: Seq<String>,
    albums: Seq<Vec<String>>,
    lists: Seq<Vec<Vec<usize>>>,
) -> bool {
    &&& albums.len() == artists.len()
    &&& lists.len() == artists.len()
    &&& forall|i: int| 0 <= i < artists.len() ==> artist_entry_valid(songs, n, artists[i]@, #[trigger] albums[i]@, lists[i]@)
}

/// The whole index is right for the first `n` songs.
pub open spec fn index_valid(
    songs: Seq<Song>,
    n: int,
    artists: Seq<String>,
    albums: Seq<Vec<String>>,
    lists: Seq<Vec<Vec<usize>>>,
) -> bool {
    &&& sorted_listing(artists, artist_set(songs, n))
    &&& entries_valid(songs, n, artists, albums, lists)
}

/// The songs and, built from them, the indexes the player browses by.
/// `artist_albums[i]` belongs to `artists[i]`, and `album_songs[i][j]`
/// to album `artist_albums[i][j]` of that artist.
#[derive(Clone)]
pub struct Library {
    pub songs: Vec<Song>,
    pub artists: Vec<String>,
    pub artist_albums: Vec<Vec<String>>,
    pub album_songs: Vec<Vec<Vec<usize>>>,
}

/// No song before position `n` is on that album: the list is empty.
proof fn lemma_no_indices(songs: Seq<Song>, n: int, artist: Seq<char>, album: Seq<char>)
    requires
        forall|j: int| 0 <= j < n ==> !on_album(songs, j, artist, album),
    ensures
        song_indices(songs, n, artist, album) == Seq::<usize>::empty(),
    decreases n,
{
    if n > 0 {
        lemma_no_indices(songs, n - 1, artist, album);
    }
}

/// Song `k` is by someone else: the entry of `artist` stays right.
proof fn lemma_entry_other_song(
    songs: Seq<Song>,
    k: int,
    artist: Seq<char>,
    albums: Seq<String>,
    lists: Seq<Vec<usize>>,
)
    requires
        0 <= k < songs.len(),
        songs[k].artist@ != artist,
        artist_entry_valid(songs, k, artist, albums, lists),
    ensures
        artist_entry_valid(songs, k + 1, artist, albums, lists),
{
    assert(album_set(songs, k + 1, artist) =~= album_set(songs, k, artist));
}

/// An album's list holds exactly the positions of the album's songs, each
/// once, in increasing order.
pub proof fn lemma_song_indices_exact(songs: Seq<Song>, n: int, artist: Seq<char>, album: Seq<char>)
    requires
        n <= songs.len(),
        n <= usize::MAX,
    ensures
        forall|i: int| 0 <= i < song_indices(songs, n, artist, album).len() ==> {
            let x = #[trigger] song_indices(songs, n, artist, album)[i] as int;
            0 <= x < n && on_album(songs, x, artist, album)
        },
        forall|i: int, j: int| 0 <= i < j < song_indices(songs, n, artist, album).len() ==>
            #[trigger] song_indices(songs, n, artist, album)[i] < #[trigger] song_indices(songs, n, artist, album)[j],
        forall|x: int| 0 <= x < n && on_album(songs, x, artist, album) ==>
            #[trigger] song_indices(songs, n, artist, album).contains(x as usize),
    decreases n,
{
    if n > 0 {
        lemma_song_indices_exact(songs, n - 1, artist, album);
        let prev = song_indices(songs, n - 1, artist, album);
        let cur = song_indices(songs, n, artist, album);
        if on_album(songs, n - 1, artist, album) {
            assert(cur == prev.push((n - 1) as usize));
            assert forall|x: int| 0 <= x < n && on_album(songs, x, artist, album) implies #[trigger] cur.contains(x as usize) by {
                if x < n - 1 {
                    assert(prev.contains(x as usize));
                    let i = choose|i: int| 0 <= i < prev.len() && prev[i] == x as usize;
                    assert(cur[i] == x as usize);
                } else {
                    assert(cur[prev.len() as int] == x as usize);
                }
            }
        } else {
            assert forall|x: int| 0 <= x < n && on_album(songs, x, artist, album) implies #[trigger] cur.contains(x as usize) by {
                assert(prev.contains(x as usize));
            }
        }
    }
}

/// The indexes are a function of the songs alone: two libraries whose
/// indexes agree with the same songs have the same indexes.
pub proof fn lemma_index_determined(a: Library, b: Library)
    requires
        a.wf(),
        b.wf(),
        a.songs@ == b.songs@,
    ensures
        a.artists@.len() == b.artists@.len(),
        forall|i: int| 0 <= i < a.artists@.len() ==> #[trigger] a.artists@[i]@ == b.artists@[i]@,
        forall|i: int| 0 <= i < a.artists@.len() ==> #[trigger] a.artist_albums@[i]@.len() == b.artist_albums@[i]@.len(),
        forall|i: int, q: int| 0 <= i < a.artists@.len() && 0 <= q < a.artist_albums@[i]@.len() ==>
            #[trigger] a.artist_albums@[i]@[q]@ == b.artist_albums@[i]@[q]@,
        forall|i: int, q: int| 0 <= i < a.artists@.len() && 0 <= q < a.artist_albums@[i]@.len() ==>
            #[trigger] a.album_songs@[i]@[q]@ == b.album_songs@[i]@[q]@,
{
    let s = a.songs@;
    let n = s.len() as int;
    lemma_listing_unique(a.artists@, b.artists@, artist_set(s, n));
    assert forall|i: int| 0 <= i < a.artists@.len() implies #[trigger] a.artist_albums@[i]@.len() == b.artist_albums@[i]@.len()
        && (forall|q: int| 0 <= q < a.artist_albums@[i]@.len() ==> #[trigger] a.artist_albums@[i]@[q]@ == b.artist_albums@[i]@[q]@) by {
        assert(artist_entry_valid(s, n, a.artists@[i]@, a.artist_albums@[i]@, a.album_songs@[i]@));
        assert(artist_entry_valid(s, n, b.artists@[i]@, b.artist_albums@[i]@, b.album_songs@[i]@));
        lemma_listing_unique(a.artist_albums@[i]@, b.artist_albums@[i]@, album_set(s, n, a.artists@[i]@));
    }
    assert forall|i: int, q: int| 0 <= i < a.artists@.len() && 0 <= q < a.artist_albums@[i]@.len() implies
        #[trigger] a.album_songs@[i]@[q]@ == b.album_songs@[i]@[q]@ by {
        assert(artist_entry_valid(s, n, a.artists@[i]@, a.artist_albums@[i]@, a.album_songs@[i]@));
        assert(artist_entry_valid(s, n, b.artists@[i]@, b.artist_albums@[i]@, b.album_songs@[i]@));
        assert(a.artist_albums@[i]@[q]@ == b.artist_albums@[i]@[q]@);
    }
}

/// Every song of a library is listed under its own artist and album.
pub proof fn lemma_every_song_listed(lib: Library, k: int)
    requires
        lib.wf(),
        0 <= k < lib.songs@.len(),
    ensures
        exists|i: int, q: int|
            0 <= i < lib.artists@.len() && 0 <= q < lib.artist_albums@[i]@.len()
            && #[trigger] lib.artists@[i]@ == lib.songs@[k].artist@
            && #[trigger] lib.artist_albums@[i]@[q]@ == lib.songs@[k].album@
            && lib.album_songs@[i]@[q]@.contains(k as usize),
{
    let s = lib.songs@;
    let n = s.len() as int;
    let a = s[k].artist@;
    let b = s[k].album@;
    assert(lib.songs.len() == n);
    assert(artist_set(s, n).contains(a));
    let i = choose|i: int| 0 <= i < lib.artists@.len() && #[trigger] lib.artists@[i]@ == a;
    assert(artist_entry_valid(s, n, lib.artists@[i]@, lib.artist_albums@[i]@, lib.album_songs@[i]@));
    assert(album_set(s, n, a).contains(b));
    let q = choose|q: int| 0 <= q < lib.artist_albums@[i]@.len() && #[trigger] lib.artist_albums@[i]@[q]@ == b;
    lemma_song_indices_exact(s, n, a, b);
    assert(lib.album_songs@[i]@[q]@.contains(k as usize));
}

impl Library {
    /// The indexes agree with the songs.
    pub open spec fn wf(&self) -> bool {
        index_valid(self.songs@, self.songs@.len() as int, self.artists@, self.artist_albums@, self.album_songs@)
    }

    /// Adds song `k` to the entry of its artist.
    fn add_to_entry(songs: &Vec<Song>, k: usize, albums: &mut Vec<String>, lists: &mut Vec<Vec<usize>>)
        requires
            k < songs@.len(),
            artist_entry_valid(songs@, k as int, songs@[k as int].artist@, old(albums)@, old(lists)@),
        ensures
            artist_entry_valid(songs@, k + 1, songs@[k as int].artist@, final(albums)@, final(lists)@),
    {
        let ghost s = songs@;
        let ghost a = s[k as int].artist@;
        let ghost b = s[k as int].album@;
        let album = &songs[k].album;
        let (q, found) = find_name(albums, album);
        if !found {
            proof {
                lemma_insert_sorted(albums@, q as int, *album);
                assert forall|j: int| 0 <= j < k implies !on_album(s, j, a, b) by {
                    if on_album(s, j, a, b) {
                        assert(album_set(s, k as int, a).contains(b));
                        let i = choose|i: int| 0 <= i < albums@.len() && #[trigger] albums@[i]@ == b;
                        if i < q {
                            assert(lex_lt(albums@[i]@, b));
                        } else {
                            assert(lex_lt(b, albums@[i]@));
                        }
                        lemma_lex_irreflexive(b);
                    }
                }
                lemma_no_indices(s, k as int, a, b);
            }
            albums.insert(q, album.clone());
            lists.insert(q, Vec::new());
        }
        let ghost mid_albums = albums@;
        let ghost mid_lists = lists@;
        assert(mid_albums[q as int]@ == b);
        assert(mid_lists[q as int]@ == song_indices(s, k as int, a, b));
        let mut list: Vec<usize> = Vec::new();
        lists.set_and_swap(q, &mut list);
        list.push(k);
        lists.set_and_swap(q, &mut list);
        proof {
            assert(album_set(s, k + 1, a) =~= album_set(s, k as int, a).insert(b));
            assert forall|x: int| 0 <= x < albums@.len() implies #[trigger] lists@[x]@ == song_indices(s, k + 1, a, albums@[x]@) by {
                if x != q {
                    lemma_sorted_distinct(albums@, x, q as int);
                }
            }
            assert forall|y: Seq<char>| #[trigger] album_set(s, k + 1, a).contains(y) implies exists|i: int| 0 <= i < albums@.len() && #[trigger] albums@[i]@ == y by {
                if y == b {
                    assert(albums@[q as int]@ == y);
                } else {
                    assert(album_set(s, k as int, a).contains(y));
                    let i = choose|i: int| 0 <= i < old(albums)@.len() && #[trigger] old(albums)@[i]@ == y;
                    if found || i < q {
                        assert(albums@[i]@ == y);
                    } else {
                        assert(albums@[i + 1]@ == y);
                    }
                }
            }
        }
    }

    /// Rebuilds the artist, album and song indexes from the songs.
    pub fn rebuild_indexes(&mut self)
        ensures
            final(self).songs@ == old(self).songs@,
            final(self).wf(),
    {
        let mut artists: Vec<String> = Vec::new();
        let mut albums: Vec<Vec<String>> = Vec::new();
        let mut lists: Vec<Vec<Vec<usize>>> = Vec::new();
        let n = self.songs.len();
        proof {
            assert(artist_set(self.songs@, 0) =~= Set::empty());
        }
        for k in 0..n
            invariant
                n == self.songs@.len(),
                index_valid(self.songs@, k as int, artists@, albums@, lists@),
        {
            let ghost s = self.songs@;
            let ghost a = s[k as int].artist@;
            let ghost old_artists = artists@;
            let ghost old_albums = albums@;
            let ghost old_lists = lists@;
            let artist = &self.songs[k].artist;
            let (p, found) = find_name(&artists, artist);
            if !found {
                proof {
                    lemma_insert_sorted(artists@, p as int, *artist);
                    assert forall|y: Seq<char>| !#[trigger] album_set(s, k as int, a).contains(y) by {
                        if album_set(s, k as int, a).contains(y) {
                            let j = choose|j: int| 0 <= j < k && #[trigger] s[j].artist@ == a && s[j].album@ == y;
                            assert(artist_set(s, k as int).contains(a));
                            let i = choose|i: int| 0 <= i < old_artists.len() && #[trigger] old_artists[i]@ == a;
                            if i < p {
                                assert(lex_lt(old_artists[i]@, a));
                            } else {
                                assert(lex_lt(a, old_artists[i]@));
                            }
                            lemma_lex_irreflexive(a);
                        }
                    }
                    assert(album_set(s, k as int, a) =~= Set::empty());
                }
                artists.insert(p, artist.clone());
                albums.insert(p, Vec::new());
                lists.insert(p, Vec::new());
                proof {
                    assert(albums@[p as int]@ =~= Seq::<String>::empty());
                    assert(lists@[p as int]@ =~= Seq::<Vec<usize>>::empty());
                    assert forall|i: int| 0 <= i < artists@.len() implies artist_entry_valid(s, k as int, artists@[i]@, #[trigger] albums@[i]@, lists@[i]@) by {
                        if i < p {
                            assert(artists@[i] == old_artists[i] && albums@[i] == old_albums[i] && lists@[i] == old_lists[i]);
                        } else if i > p {
                            assert(artists@[i] == old_artists[i - 1] && albums@[i] == old_albums[i - 1] && lists@[i] == old_lists[i - 1]);
                        }
                    }
                    assert forall|i: int| 0 <= i < artists@.len() implies artist_set(s, k + 1).contains(#[trigger] artists@[i]@) by {
                        if i < p {
                            assert(artists@[i] == old_artists[i]);
                        } else if i > p {
                            assert(artists@[i] == old_artists[i - 1]);
                        }
                    }
                    assert forall|x: Seq<char>| #[trigger] artist_set(s, k + 1).contains(x) implies exists|i: int| 0 <= i < artists@.len() && #[trigger] artists@[i]@ == x by {
                        if x == a {
                            assert(artists@[p as int]@ == x);
                        } else {
                            assert(artist_set(s, k as int).contains(x));
                            let i = choose|i: int| 0 <= i < old_artists.len() && #[trigger] old_artists[i]@ == x;
                            if i < p {
                                assert(artists@[i]@ == x);
                            } else {
                                assert(artists@[i + 1]@ == x);
                            }
                        }
                    }
                }
            } else {
                proof {
                    assert(artist_set(s, k + 1) =~= artist_set(s, k as int));
                }
            }
            assert(artists@[p as int]@ == a);
            let ghost mid_artists = artists@;
            let ghost mid_albums = albums@;
            let ghost mid_lists = lists@;
            assert(artist_entry_valid(s, k as int, a, mid_albums[p as int]@, mid_lists[p as int]@));
            let mut entry_albums: Vec<String> = Vec::new();
            let mut entry_lists: Vec<Vec<usize>> = Vec::new();
            albums.set_and_swap(p, &mut entry_albums);
            lists.set_and_swap(p, &mut entry_lists);
            Self::add_to_entry(&self.songs, k, &mut entry_albums, &mut entry_lists);
            albums.set_and_swap(p, &mut entry_albums);
            lists.set_and_swap(p, &mut entry_lists);
            proof {
                assert forall|i: int| 0 <= i < artists@.len() implies artist_entry_valid(s, k + 1, artists@[i]@, #[trigger] albums@[i]@, lists@[i]@) by {
                    if i != p {
                        lemma_sorted_distinct(artists@, i, p as int);
                        assert(albums@[i] == mid_albums[i] && lists@[i] == mid_lists[i]);
                        lemma_entry_other_song(s, k as int, artists@[i]@, albums@[i]@, lists@[i]@);
                    }
                }
            }
        }
        self.artists = artists;
        self.artist_albums = albums;
        self.album_songs = lists;
    }

    /// The albums of `artist`, in order.
    pub fn albums_for_artist(&self, artist: &String) -> (res: Vec<String>)
        requires
            self.wf(),
            artist_set(self.songs@, self.songs@.len() as int).contains(artist@),
        ensures
            sorted_listing(res@, album_set(self.songs@, self.songs@.len() as int, artist@)),
    {
        let (p, found) = find_name(&self.artists, artist);
        proof {
            let x = choose|i: int| 0 <= i < self.artists@.len() && #[trigger] self.artists@[i]@ == artist@;
            if !found {
                if x < p {
                    assert(lex_lt(self.artists@[x]@, artist@));
                } else {
                    assert(lex_lt(artist@, self.artists@[x]@));
                }
                lemma_lex_irreflexive(artist@);
            }
            assert(artist_entry_valid(self.songs@, self.songs@.len() as int, self.artists@[p as int]@, self.artist_albums@[p as int]@, self.album_songs@[p as int]@));
        }
        copy_names(&self.artist_albums[p])
    }

    /// The positions of the songs of `album` by `artist`, in library order.
    pub fn songs_for_album(&self, artist: &String, album: &String) -> (res: &Vec<usize>)
        requires
            self.wf(),
            album_set(self.songs@, self.songs@.len() as int, artist@).contains(album@),
        ensures
            res@ == song_indices(self.songs@, self.songs@.len() as int, artist@, album@),
    {
        let ghost s = self.songs@;
        let ghost n = s.len() as int;
        proof {
            let j = choose|j: int| 0 <= j < n && #[trigger] s[j].artist@ == artist@ && s[j].album@ == album@;
            assert(artist_set(s, n).contains(artist@));
        }
        let (p, found) = find_name(&self.artists, artist);
        proof {
            let x = choose|i: int| 0 <= i < self.artists@.len() && #[trigger] self.artists@[i]@ == artist@;
            if !found {
                if x < p {
                    assert(lex_lt(self.artists@[x]@, artist@));
                } else {
                    assert(lex_lt(artist@, self.artists@[x]@));
                }
                lemma_lex_irreflexive(artist@);
            }
            assert(artist_entry_valid(s, n, self.artists@[p as int]@, self.artist_albums@[p as int]@, self.album_songs@[p as int]@));
        }
        let albums = &self.artist_albums[p];
        let (q, found_album) = find_name(albums, album);
        proof {
            let x = choose|i: int| 0 <= i < albums@.len() && #[trigger] albums@[i]@ == album@;
            if !found_album {
                if x < q {
                    assert(lex_lt(albums@[x]@, album@));
                } else {
                    assert(lex_lt(album@, albums@[x]@));
                }
                lemma_lex_irreflexive(album@);
            }
        }
        &self.album_songs[p][q]
    }

    /// A library of `songs`, with its indexes built.
    pub fn from_songs(songs: Vec<Song>) -> (lib: Library)
        ensures
            lib.songs@ == songs@,
            lib.wf(),
    {
        let mut lib = Library { songs, artists: Vec::new(), artist_albums: Vec::new(), album_songs: Vec::new() };
        lib.rebuild_indexes();
        lib
    }
}

} // verus!
