# ncmprs

A terminal music player: it indexes a folder of tagged FLAC files by artist
and album, lets you browse and queue songs with the keyboard, plays them, and
shows the playing song as Discord presence.

- `src/` is the verified library:
  - `text.rs`: code-point order on strings, sorted name lists, time formatting;
  - `library.rs`: songs and the artist/album/song indexes built from them;
  - `selection.rs`: the selection state of a browsable list;
  - `app.rs`: the player's state, its key bindings and its event handling.
  - `paths.rs`: picking FLAC files out of a folder listing, in path order.
- `app/` is the program around it: terminal drawing and input, audio output,
  the Discord client, the configuration, the library cache and the folder scan.
- `tests/` runs the library on concrete values.

## Design notes

- The library indexes are sorted `Vec`s kept beside `artists`
  (`artist_albums[i]`, `album_songs[i][j]`) rather than `String`-keyed hash
  maps and B-tree sets. Verus's library specifies `HashMap` and `BTreeSet`,
  but for `String` keys it gives no usable statement of what a lookup or an
  insertion does (a `String` key has no equality and ordering specification
  that the map specifications can rest on), so the index could not be proved
  through them. Those forms were not built and tried; the sorted vectors
  carry, as a proved invariant, what the maps gave: sorted, no duplicates,
  exact membership, and song lists in library order.
- Path order and the `flac` extension rule follow `std::path::Path` for Unix
  paths; `tests/paths.rs` compares them with std on many paths.
