//! The player's state and its decisions: what a key press or an event does
//! to the queue, the selections and the focus, and what the caller has to
//! do with the audio output and the presence display as a result.

use std::collections::VecDeque;
use vstd::prelude::*;
use vstd::string::StringExecFns;
use crate::library::{Library, Song, album_set, song_indices, artist_entry_valid, lemma_song_indices_exact};
use crate::selection::{ListSelection, next_index, previous_index};
use crate::text::lemma_listing_unique;

verus! {

/// The pane that keyboard navigation acts on.
#[derive(Debug, Clone, Copy, PartialEq, Eq, Structural)]
pub enum Focus {
    Artists,
    Albums,
    Songs,
    Queue,
}

impl Default for Focus {
    fn default() -> (f: Self)
        ensures
            f == Focus::Artists,
    {
        Focus::Artists
    }
}

/// The pane to the right of `f`, wrapping around.
pub open spec fn focus_right(f: Focus) -> Focus {
    match f {
        Focus::Artists => Focus::Albums,
        Focus::Albums => Focus::Songs,
        Focus::Songs => Focus::Queue,
        Focus::Queue => Focus::Artists,
    }
}

/// The pane to the left of `f`, wrapping around.
pub open spec fn focus_left(f: Focus) -> Focus {
    match f {
        Focus::Artists => Focus::Queue,
        Focus::Albums => Focus::Artists,
        Focus::Songs => Focus::Albums,
        Focus::Queue => Focus::Songs,
    }
}

/// Requests that the key handling hands to the event loop.
#[derive(Debug, Clone, Copy, PartialEq, Eq, Structural)]
pub enum AppEvent {
    Play,
    Skip,
    PlayPause,
    IncVolume,
    DecVolume,
    MoveRight,
    MoveLeft,
    RemoveFromQueue,
    Quit,
}

/// The keys the player tells apart.
#[derive(Debug, Clone, Copy, PartialEq, Eq, Structural)]
pub enum Key {
    Char(char),
    Esc,
    Left,
    Right,
    Up,
    Down,
    Tab,
    Enter,
    Delete,
    MediaPlayPause,
    Other,
}

/// A key press; `ctrl_only` tells whether Control, and no other modifier, was held.
#[derive(Debug, Clone, Copy, PartialEq, Eq, Structural)]
pub struct KeyPress {
    pub code: Key,
    pub ctrl_only: bool,
}

/// What a key press asks for.
#[derive(Debug, Clone, Copy, PartialEq, Eq, Structural)]
pub enum KeyAction {
    Send(AppEvent),
    Rescan,
    Next,
    Previous,
    First,
    Last,
    Stop,
    Ignore,
}

/// The key bindings.
pub open spec fn key_action(key: KeyPress) -> KeyAction {
    match key.code {
        Key::Esc => KeyAction::Send(AppEvent::Quit),
        Key::Char(c) => {
            if c == 'q' {
                KeyAction::Send(AppEvent::Quit)
            } else if (c == 'c' || c == 'C') && key.ctrl_only {
                KeyAction::Send(AppEvent::Quit)
            } else if c == 'R' {
                KeyAction::Rescan
            } else if c == 'l' {
                KeyAction::Send(AppEvent::MoveRight)
            } else if c == 'h' {
                KeyAction::Send(AppEvent::MoveLeft)
            } else if c == 'j' {
                KeyAction::Next
            } else if c == 'k' {
                KeyAction::Previous
            } else if c == 'g' {
                KeyAction::First
            } else if c == 'G' {
                KeyAction::Last
            } else if c == 'x' {
                KeyAction::Stop
            } else if c == ' ' {
                KeyAction::Send(AppEvent::PlayPause)
            } else if c == '+' || c == '=' {
                KeyAction::Send(AppEvent::IncVolume)
            } else if c == '-' || c == '_' {
                KeyAction::Send(AppEvent::DecVolume)
            } else if c == '>' {
                KeyAction::Send(AppEvent::Skip)
            } else {
                KeyAction::Ignore
            }
        },
        Key::Right | Key::Tab => KeyAction::Send(AppEvent::MoveRight),
        Key::Left => KeyAction::Send(AppEvent::MoveLeft),
        Key::Down => KeyAction::Next,
        Key::Up => KeyAction::Previous,
        Key::Enter => KeyAction::Send(AppEvent::Play),
        Key::MediaPlayPause => KeyAction::Send(AppEvent::PlayPause),
        Key::Delete => KeyAction::Send(AppEvent::RemoveFromQueue),
        Key::Other => KeyAction::Ignore,
    }
}

/// The action bound to `key`.
pub fn classify_key(key: KeyPress) -> (action: KeyAction)
    ensures
        action == key_action(key),
{
    match key.code {
        Key::Esc => KeyAction::Send(AppEvent::Quit),
        Key::Char(c) => {
            if c == 'q' {
                KeyAction::Send(AppEvent::Quit)
            } else if (c == 'c' || c == 'C') && key.ctrl_only {
                KeyAction::Send(AppEvent::Quit)
            } else if c == 'R' {
                KeyAction::Rescan
            } else if c == 'l' {
                KeyAction::Send(AppEvent::MoveRight)
            } else if c == 'h' {
                KeyAction::Send(AppEvent::MoveLeft)
            } else if c == 'j' {
                KeyAction::Next
            } else if c == 'k' {
                KeyAction::Previous
            } else if c == 'g' {
                KeyAction::First
            } else if c == 'G' {
                KeyAction::Last
            } else if c == 'x' {
                KeyAction::Stop
            } else if c == ' ' {
                KeyAction::Send(AppEvent::PlayPause)
            } else if c == '+' || c == '=' {
                KeyAction::Send(AppEvent::IncVolume)
            } else if c == '-' || c == '_' {
                KeyAction::Send(AppEvent::DecVolume)
            } else if c == '>' {
                KeyAction::Send(AppEvent::Skip)
            } else {
                KeyAction::Ignore
            }
        },
        Key::Right | Key::Tab => KeyAction::Send(AppEvent::MoveRight),
        Key::Left => KeyAction::Send(AppEvent::MoveLeft),
        Key::Down => KeyAction::Next,
        Key::Up => KeyAction::Previous,
        Key::Enter => KeyAction::Send(AppEvent::Play),
        Key::MediaPlayPause => KeyAction::Send(AppEvent::PlayPause),
        Key::Delete => KeyAction::Send(AppEvent::RemoveFromQueue),
        Key::Other => KeyAction::Ignore,
    }
}

/// The selection after moving it by `action`.
fn move_selection(sel: &mut ListSelection, action: KeyAction)
    ensures
        *final(sel) == moved(action, *old(sel), true),
        final(sel).offset == old(sel).offset,
        action == KeyAction::Previous ==> final(sel).selected == (match old(sel).selected {
            Some(i) => Some(if i == 0 { 0 } else { (i - 1) as usize }),
            None => Some(usize::MAX),
        }),
        action == KeyAction::Next ==> final(sel).selected == (match old(sel).selected {
            Some(i) => Some(if i == usize::MAX { i } else { (i + 1) as usize }),
            None => Some(0usize),
        }),
        action == KeyAction::First ==> final(sel).selected == Some(0usize),
        action == KeyAction::Last ==> final(sel).selected == Some(usize::MAX),
{
    match action {
        KeyAction::Next => sel.select_next(),
        KeyAction::Previous => sel.select_previous(),
        KeyAction::First => sel.select_first(),
        KeyAction::Last => sel.select_last(),
        _ => {},
    }
}

/// What the event loop has left to do after a key press.
#[derive(Debug, Clone, Copy, PartialEq, Eq, Structural)]
pub enum KeyOutcome {
    /// Nothing more.
    Nothing,
    /// Hand this event to the event loop.
    Send(AppEvent),
    /// Scan the music folder again, save the result and use it.
    Rescan,
    /// The queue was emptied: stop the audio output and clear the presence.
    PlaybackStopped,
}

/// What the event loop has left to do after an event.
#[derive(Debug, Clone, Copy, PartialEq, Eq, Structural)]
pub enum Effect {
    /// Nothing more.
    Nothing,
    /// Skip the playing track; clear the presence if `clear_activity`.
    SkipTrack { clear_activity: bool },
    /// Pause or resume the audio output.
    TogglePause,
    /// Turn the volume up.
    RaiseVolume,
    /// Turn the volume down.
    LowerVolume,
}

/// What pausing or resuming does.
#[derive(Debug, Clone, Copy, PartialEq, Eq, Structural)]
pub enum PauseAction {
    /// Nothing: no song is current, or no presence client is connected.
    Nothing,
    /// Pause the output and show the song at this position as paused.
    Pause(usize),
    /// Resume the output and show the song at this position as playing.
    Resume(usize),
}

/// What starting playback hands to the audio output.
pub enum PlayOrder {
    /// Append these songs, in this order.
    Queued(Vec<usize>),
    /// Play this song now, in place of what is playing.
    Single(usize),
}

/// What the presence display shows about a song.
pub struct Presence {
    /// The song's title.
    pub details: String,
    /// The artist while playing, `Paused` while paused.
    pub state: String,
    /// Start and end of the song in seconds since the epoch, while playing.
    pub timestamps: Option<(i64, i64)>,
}

/// The selection after moving it by `action`, when its list has the focus.
pub open spec fn moved(action: KeyAction, sel: ListSelection, focused: bool) -> ListSelection {
    if !focused {
        sel
    } else {
        match action {
            KeyAction::Next => ListSelection { offset: sel.offset, selected: Some(next_index(sel.selected)) },
            KeyAction::Previous => ListSelection { offset: sel.offset, selected: Some(previous_index(sel.selected)) },
            KeyAction::First => ListSelection { offset: sel.offset, selected: Some(0usize) },
            KeyAction::Last => ListSelection { offset: sel.offset, selected: Some(usize::MAX) },
            _ => sel,
        }
    }
}

/// The player's state.
pub struct App {
    /// Is the player running?
    pub running: bool,
    pub library: Library,
    /// Positions in `library.songs` of the songs waiting to be played.
    pub queue: VecDeque<usize>,
    pub artist_state: ListSelection,
    pub album_state: ListSelection,
    pub song_state: ListSelection,
    pub queue_state: ListSelection,
    pub focus: Focus,
    /// Position in `library.songs` of the song handed to the output last.
    pub current_song: Option<usize>,
    /// Play position, in seconds, at the last pause.
    pub paused_at: i64,
}

/// Copies a list of song positions.
fn copy_indices(v: &Vec<usize>) -> (r: Vec<usize>)
    ensures
        r@ == v@,
{
    let mut r: Vec<usize> = Vec::new();
    for i in 0..v.len()
        invariant
            r@ == v@.take(i as int),
    {
        r.push(v[i]);
        assert(r@ =~= v@.take(i + 1));
    }
    assert(v@.take(v@.len() as int) =~= v@);
    r
}

impl App {
    /// The library's indexes agree with its songs, and every song position
    /// held in the queue or as current song is a song of the library.
    pub open spec fn wf(&self) -> bool {
        &&& self.library.wf()
        &&& forall|i: int| 0 <= i < self.queue@.len() ==> (#[trigger] self.queue@[i] as int) < self.library.songs@.len()
        &&& (self.current_song matches Some(c) ==> (c as int) < self.library.songs@.len())
    }

    /// Everything but the queue, the current song, the focus and the running flag is as in `other`.
    pub open spec fn same_view(&self, other: &App) -> bool {
        &&& self.library == other.library
        &&& self.artist_state == other.artist_state
        &&& self.album_state == other.album_state
        &&& self.song_state == other.song_state
        &&& self.queue_state == other.queue_state
        &&& self.paused_at == other.paused_at
    }

    /// An artist is selected, and an album of that artist.
    pub open spec fn selection_ready(&self) -> bool {
        match (self.artist_state.selected, self.album_state.selected) {
            (Some(a), Some(b)) => (a as int) < self.library.artists@.len()
                && (b as int) < self.library.artist_albums@[a as int]@.len(),
            _ => false,
        }
    }

    /// The songs of the selected album, in library order.
    pub open spec fn selected_album_songs(&self) -> Seq<usize> {
        let a = self.artist_state.selected->0 as int;
        let b = self.album_state.selected->0 as int;
        song_indices(
            self.library.songs@,
            self.library.songs@.len() as int,
            self.library.artists@[a]@,
            self.library.artist_albums@[a]@[b]@,
        )
    }

    /// What `event` needs of the state to be handled without failing.
    pub open spec fn event_ready(&self, event: AppEvent) -> bool {
        event == AppEvent::Play ==> match self.focus {
            Focus::Albums => self.selection_ready(),
            Focus::Songs => self.selection_ready() && (self.song_state.selected matches Some(s)
                && (s as int) < self.selected_album_songs().len()),
            _ => true,
        }
    }

    /// The player's state at start: running, nothing queued, the first entry
    /// of every list selected, the artists pane focused.
    pub fn new(library: Library) -> (app: App)
        requires
            library.wf(),
        ensures
            app.wf(),
            app.running,
            app.library == library,
            app.queue@ == Seq::<usize>::empty(),
            app.artist_state == (ListSelection { offset: 0, selected: Some(0usize) }),
            app.album_state == (ListSelection { offset: 0, selected: Some(0usize) }),
            app.song_state == (ListSelection { offset: 0, selected: Some(0usize) }),
            app.queue_state == (ListSelection { offset: 0, selected: Some(0usize) }),
            app.focus == Focus::Artists,
            app.current_song == None::<usize>,
            app.paused_at == 1,
    {
        App {
            running: true,
            library,
            queue: VecDeque::new(),
            artist_state: ListSelection::default().with_selected(Some(0)),
            album_state: ListSelection::default().with_selected(Some(0)),
            song_state: ListSelection::default().with_selected(Some(0)),
            queue_state: ListSelection::default().with_selected(Some(0)),
            focus: Focus::default(),
            current_song: None,
            paused_at: 1,
        }
    }

    /// The songs of the selected album, in library order.
    fn selected_songs(&self) -> (songs: Vec<usize>)
        requires
            self.wf(),
            self.selection_ready(),
        ensures
            songs@ == self.selected_album_songs(),
            forall|i: int| 0 <= i < songs@.len() ==> (#[trigger] songs@[i] as int) < self.library.songs@.len(),
    {
        let ghost s = self.library.songs@;
        let ghost n = s.len() as int;
        let a = self.artist_state.selected().unwrap();
        let selected_artist = &self.library.artists[a];
        proof {
            assert(self.library.artists@[a as int]@ == selected_artist@);
            assert(artist_entry_valid(s, n, selected_artist@, self.library.artist_albums@[a as int]@, self.library.album_songs@[a as int]@));
        }
        let albums = self.library.albums_for_artist(selected_artist);
        proof {
            lemma_listing_unique(albums@, self.library.artist_albums@[a as int]@, album_set(s, n, selected_artist@));
        }
        let b = self.album_state.selected().unwrap();
        let selected_album = &albums[b];
        proof {
            assert(albums@[b as int]@ == self.library.artist_albums@[a as int]@[b as int]@);
        }
        let song_indexes = self.library.songs_for_album(selected_artist, selected_album);
        proof {
            assert(self.library.songs.len() == n);
            lemma_song_indices_exact(s, n, selected_artist@, selected_album@);
        }
        copy_indices(song_indexes)
    }

    /// The songs of the selected album, in library order.
    pub fn current_selected_song(&mut self) -> (songs: Vec<usize>)
        requires
            old(self).wf(),
            old(self).selection_ready(),
        ensures
            *final(self) == *old(self),
            songs@ == old(self).selected_album_songs(),
            forall|i: int| 0 <= i < songs@.len() ==> (#[trigger] songs@[i] as int) < old(self).library.songs@.len(),
    {
        self.selected_songs()
    }

    /// Whether the selected artist is one of the library's artists.
    pub fn artist_selected(&self) -> (ok: bool)
        ensures
            ok == (self.artist_state.selected matches Some(a) && (a as int) < self.library.artists@.len()),
    {
        match self.artist_state.selected() {
            Some(a) => a < self.library.artists.len(),
            None => false,
        }
    }

    /// Whether an artist and one of that artist's albums are selected.
    pub fn album_selected(&self) -> (ok: bool)
        requires
            self.wf(),
        ensures
            ok == self.selection_ready(),
    {
        match (self.artist_state.selected(), self.album_state.selected()) {
            (Some(a), Some(b)) => a < self.library.artists.len() && b < self.library.artist_albums[a].len(),
            _ => false,
        }
    }

    /// Whether `event` can be handled in this state.
    pub fn can_handle(&self, event: AppEvent) -> (ok: bool)
        requires
            self.wf(),
        ensures
            ok == self.event_ready(event),
    {
        if event != AppEvent::Play {
            return true;
        }
        match self.focus {
            Focus::Albums => self.album_selected(),
            Focus::Songs => {
                if !self.album_selected() {
                    return false;
                }
                match self.song_state.selected() {
                    Some(s) => s < self.selected_songs().len(),
                    None => false,
                }
            },
            _ => true,
        }
    }

    /// Whether every song position held in the queue or as current song is
    /// below `count`.
    pub fn positions_below(&self, count: usize) -> (ok: bool)
        ensures
            ok == ((forall|i: int| 0 <= i < self.queue@.len() ==> (#[trigger] self.queue@[i] as int) < count)
                && (self.current_song matches Some(c) ==> c < count)),
    {
        let mut i: usize = 0;
        while i < self.queue.len()
            invariant
                i <= self.queue@.len(),
                forall|j: int| 0 <= j < i ==> (#[trigger] self.queue@[j] as int) < count,
            decreases self.queue@.len() - i,
        {
            if self.queue[i] >= count {
                return false;
            }
            i = i + 1;
        }
        match self.current_song {
            Some(c) => c < count,
            None => true,
        }
    }

    /// Queues the song at `index` in the selected album.
    pub fn play_song(&mut self, index: usize)
        requires
            old(self).wf(),
            old(self).selection_ready(),
            (index as int) < old(self).selected_album_songs().len(),
        ensures
            final(self).wf(),
            final(self).queue@ == old(self).queue@.push(old(self).selected_album_songs()[index as int]),
            final(self).same_view(old(self)),
            final(self).focus == old(self).focus,
            final(self).running == old(self).running,
            final(self).current_song == old(self).current_song,
    {
        let song_indexes = self.current_selected_song();
        let song_index = song_indexes[index];
        self.queue.push_back(song_index);
    }

    /// Queues every song of the selected album, in library order.
    pub fn enqueue_album(&mut self)
        requires
            old(self).wf(),
            old(self).selection_ready(),
        ensures
            final(self).wf(),
            final(self).queue@ == old(self).queue@ + old(self).selected_album_songs(),
            final(self).same_view(old(self)),
            final(self).focus == old(self).focus,
            final(self).running == old(self).running,
            final(self).current_song == old(self).current_song,
    {
        let song_indexes = self.current_selected_song();
        let ghost start = self.queue@;
        for i in 0..song_indexes.len()
            invariant
                self.wf(),
                self.queue@ == start + song_indexes@.take(i as int),
                forall|j: int| 0 <= j < song_indexes@.len() ==> (#[trigger] song_indexes@[j] as int) < self.library.songs@.len(),
                self.same_view(old(self)),
                self.focus == old(self).focus,
                self.running == old(self).running,
                self.current_song == old(self).current_song,
        {
            self.queue.push_back(song_indexes[i]);
            assert(song_indexes@.take(i + 1) =~= song_indexes@.take(i as int).push(song_indexes@[i as int]));
        }
        assert(song_indexes@.take(song_indexes@.len() as int) =~= song_indexes@);
    }

    /// Starts playback: with songs queued, hands all of them to the output
    /// and empties the queue; else plays the song whose position in the
    /// library equals the position of the selected artist in the artist
    /// list (the artist's index is used as a song index).
    pub fn play(&mut self) -> (order: PlayOrder)
        requires
            old(self).wf(),
            old(self).queue@.len() == 0 ==> (old(self).artist_state.selected matches Some(a)
                && (a as int) < old(self).library.songs@.len()),
        ensures
            final(self).wf(),
            final(self).same_view(old(self)),
            final(self).focus == old(self).focus,
            final(self).running == old(self).running,
            final(self).current_song == old(self).current_song,
            old(self).queue@.len() > 0 ==> final(self).queue@ == Seq::<usize>::empty()
                && (order matches PlayOrder::Queued(v) && v@ == old(self).queue@),
            old(self).queue@.len() == 0 ==> final(self).queue@ == old(self).queue@
                && order == PlayOrder::Single(old(self).artist_state.selected->0),
    {
        if self.queue.len() > 0 {
            let ghost start = self.queue@;
            let mut songs: Vec<usize> = Vec::new();
            while self.queue.len() > 0
                invariant
                    self.wf(),
                    songs@ + self.queue@ == start,
                    self.same_view(old(self)),
                    self.focus == old(self).focus,
                    self.running == old(self).running,
                    self.current_song == old(self).current_song,
                decreases self.queue@.len(),
            {
                let ghost before = self.queue@;
                let front = self.queue.pop_front().unwrap();
                songs.push(front);
                assert(songs@ + self.queue@ =~= start) by {
                    assert(before =~= seq![front] + self.queue@);
                }
            }
            assert(songs@ =~= start);
            PlayOrder::Queued(songs)
        } else {
            PlayOrder::Single(self.artist_state.selected().unwrap())
        }
    }

    /// Decides what pausing or resuming does, given whether a presence client
    /// is connected and whether the output is paused.
    pub fn play_pause(&self, connected: bool, player_paused: bool) -> (action: PauseAction)
        requires
            self.wf(),
        ensures
            action == (match self.current_song {
                Some(c) => if !connected {
                    PauseAction::Nothing
                } else if !player_paused {
                    PauseAction::Pause(c)
                } else {
                    PauseAction::Resume(c)
                },
                None => PauseAction::Nothing,
            }),
    {
        match self.current_song {
            Some(c) => {
                if !connected {
                    PauseAction::Nothing
                } else if !player_paused {
                    PauseAction::Pause(c)
                } else {
                    PauseAction::Resume(c)
                }
            },
            None => PauseAction::Nothing,
        }
    }

    /// After skipping the playing track: with nothing queued, no song is
    /// current any more; returns whether that happened.
    pub fn skip(&mut self) -> (cleared: bool)
        requires
            old(self).wf(),
        ensures
            final(self).wf(),
            cleared == (old(self).queue@.len() == 0),
            final(self).current_song == (if cleared { None } else { old(self).current_song }),
            final(self).queue@ == old(self).queue@,
            final(self).same_view(old(self)),
            final(self).focus == old(self).focus,
            final(self).running == old(self).running,
    {
        if self.queue.len() == 0 {
            self.current_song = None;
            true
        } else {
            false
        }
    }

    /// Removes the selected entry of the queue, if there is one.
    pub fn remove_from_queue(&mut self)
        requires
            old(self).wf(),
        ensures
            final(self).wf(),
            final(self).queue@ == (match old(self).queue_state.selected {
                Some(i) => if (i as int) < old(self).queue@.len() {
                    old(self).queue@.remove(i as int)
                } else {
                    old(self).queue@
                },
                None => old(self).queue@,
            }),
            final(self).current_song == old(self).current_song,
            final(self).same_view(old(self)),
            final(self).focus == old(self).focus,
            final(self).running == old(self).running,
    {
        if self.queue_state.selected().is_some() {
            let i = self.queue_state.selected().unwrap();
            let ghost before = self.queue@;
            let _ = self.queue.remove(i);
            proof {
                assert forall|j: int| 0 <= j < self.queue@.len() implies (#[trigger] self.queue@[j] as int) < self.library.songs@.len() by {
                    if (i as int) < before.len() {
                        if j < i {
                            assert(self.queue@[j] == before[j]);
                        } else {
                            assert(self.queue@[j] == before[j + 1]);
                        }
                    }
                }
            }
        }
    }

    /// Empties the queue; no song is current any more.
    pub fn stop_playback(&mut self)
        requires
            old(self).wf(),
        ensures
            final(self).wf(),
            final(self).queue@ == Seq::<usize>::empty(),
            final(self).current_song == None::<usize>,
            final(self).same_view(old(self)),
            final(self).focus == old(self).focus,
            final(self).running == old(self).running,
    {
        self.queue.clear();
        self.current_song = None;
    }

    /// Moves the focus one pane to the right, wrapping around.
    pub fn move_right(&mut self)
        requires
            old(self).wf(),
        ensures
            final(self).wf(),
            final(self).focus == focus_right(old(self).focus),
            final(self).queue@ == old(self).queue@,
            final(self).current_song == old(self).current_song,
            final(self).same_view(old(self)),
            final(self).running == old(self).running,
    {
        match self.focus {
            Focus::Artists => self.focus = Focus::Albums,
            Focus::Albums => self.focus = Focus::Songs,
            Focus::Songs => self.focus = Focus::Queue,
            Focus::Queue => self.focus = Focus::Artists,
        }
    }

    /// Moves the focus one pane to the left, wrapping around.
    pub fn move_left(&mut self)
        requires
            old(self).wf(),
        ensures
            final(self).wf(),
            final(self).focus == focus_left(old(self).focus),
            final(self).queue@ == old(self).queue@,
            final(self).current_song == old(self).current_song,
            final(self).same_view(old(self)),
            final(self).running == old(self).running,
    {
        match self.focus {
            Focus::Artists => self.focus = Focus::Queue,
            Focus::Albums => self.focus = Focus::Artists,
            Focus::Songs => self.focus = Focus::Albums,
            Focus::Queue => self.focus = Focus::Songs,
        }
    }

    /// The current song, if any.
    pub fn current_song(&self) -> (song: Option<&Song>)
        requires
            self.wf(),
        ensures
            match self.current_song {
                Some(c) => song matches Some(x) && *x == self.library.songs@[c as int],
                None => song is None,
            },
    {
        match self.current_song {
            Some(i) => Some(&self.library.songs[i]),
            None => None,
        }
    }

    /// The title of the current song, or the empty string.
    pub fn current_song_title(&self) -> (title: &str)
        requires
            self.wf(),
        ensures
            title@ == (match self.current_song {
                Some(c) => self.library.songs@[c as int].title@,
                None => ""@,
            }),
    {
        match self.current_song() {
            Some(s) => s.title.as_str(),
            None => "",
        }
    }

    /// On each tick: once the output has run dry and a song is queued, takes
    /// the first queued song, makes it the current song and returns it for
    /// the output to play.
    pub fn tick(&mut self, player_empty: bool) -> (next: Option<usize>)
        requires
            old(self).wf(),
        ensures
            final(self).wf(),
            final(self).same_view(old(self)),
            final(self).focus == old(self).focus,
            final(self).running == old(self).running,
            (final(self).queue@, final(self).current_song, next)
                == tick_step(old(self).queue@, old(self).current_song, player_empty),
            !player_empty ==> next is None && final(self).queue@ == old(self).queue@
                && final(self).current_song == old(self).current_song,
            player_empty && old(self).queue@.len() == 0 ==> next is None && final(self).queue@ == old(self).queue@
                && final(self).current_song == old(self).current_song,
            player_empty && old(self).queue@.len() > 0 ==> next == Some(old(self).queue@[0])
                && final(self).current_song == next && final(self).queue@ == old(self).queue@.drop_first(),
    {
        if player_empty && self.queue.len() > 0 {
            let front = self.queue.pop_front().unwrap();
            self.current_song = Some(front);
            assert(self.queue@ =~= old(self).queue@.drop_first());
            Some(front)
        } else {
            None
        }
    }

    /// Stops the player's main loop.
    pub fn quit(&mut self)
        requires
            old(self).wf(),
        ensures
            final(self).wf(),
            !final(self).running,
            final(self).focus == old(self).focus,
            final(self).queue@ == old(self).queue@,
            final(self).current_song == old(self).current_song,
            final(self).same_view(old(self)),
    {
        self.running = false;
    }

    /// Handles a key press: moves the selection of the focused list, stops
    /// playback, or says which event to send or that the library is to be
    /// scanned again.
    pub fn handle_key_events(&mut self, key: KeyPress) -> (outcome: KeyOutcome)
        requires
            old(self).wf(),
        ensures
            final(self).wf(),
            outcome == (match key_action(key) {
                KeyAction::Send(e) => KeyOutcome::Send(e),
                KeyAction::Rescan => KeyOutcome::Rescan,
                KeyAction::Stop => KeyOutcome::PlaybackStopped,
                _ => KeyOutcome::Nothing,
            }),
            final(self).artist_state == moved(key_action(key), old(self).artist_state, old(self).focus == Focus::Artists),
            final(self).album_state == moved(key_action(key), old(self).album_state, old(self).focus == Focus::Albums),
            final(self).song_state == moved(key_action(key), old(self).song_state, old(self).focus == Focus::Songs),
            final(self).queue_state == moved(key_action(key), old(self).queue_state, old(self).focus == Focus::Queue),
            key_action(key) == KeyAction::Stop ==> final(self).queue@ == Seq::<usize>::empty()
                && final(self).current_song == None::<usize>,
            key_action(key) != KeyAction::Stop ==> final(self).queue@ == old(self).queue@
                && final(self).current_song == old(self).current_song,
            final(self).library == old(self).library,
            final(self).paused_at == old(self).paused_at,
            final(self).focus == old(self).focus,
            final(self).running == old(self).running,
    {
        let action = classify_key(key);
        match action {
            KeyAction::Send(e) => KeyOutcome::Send(e),
            KeyAction::Rescan => KeyOutcome::Rescan,
            KeyAction::Stop => {
                self.stop_playback();
                KeyOutcome::PlaybackStopped
            },
            KeyAction::Ignore => KeyOutcome::Nothing,
            _ => {
                match self.focus {
                    Focus::Artists => move_selection(&mut self.artist_state, action),
                    Focus::Albums => move_selection(&mut self.album_state, action),
                    Focus::Songs => move_selection(&mut self.song_state, action),
                    Focus::Queue => move_selection(&mut self.queue_state, action),
                }
                KeyOutcome::Nothing
            },
        }
    }

    /// Handles an event of the main loop and says what is left to do with
    /// the audio output.
    pub fn handle_app_event(&mut self, event: AppEvent) -> (effect: Effect)
        requires
            old(self).wf(),
            old(self).event_ready(event),
        ensures
            final(self).wf(),
            final(self).same_view(old(self)),
            effect == (match event {
                AppEvent::Skip => Effect::SkipTrack { clear_activity: old(self).queue@.len() == 0 },
                AppEvent::PlayPause => Effect::TogglePause,
                AppEvent::IncVolume => Effect::RaiseVolume,
                AppEvent::DecVolume => Effect::LowerVolume,
                _ => Effect::Nothing,
            }),
            final(self).focus == (match event {
                AppEvent::MoveRight => focus_right(old(self).focus),
                AppEvent::MoveLeft => focus_left(old(self).focus),
                _ => old(self).focus,
            }),
            final(self).running == (event != AppEvent::Quit && old(self).running),
            final(self).queue@ == (match event {
                AppEvent::Play => match old(self).focus {
                    Focus::Albums => old(self).queue@ + old(self).selected_album_songs(),
                    Focus::Songs => old(self).queue@.push(
                        old(self).selected_album_songs()[old(self).song_state.selected->0 as int],
                    ),
                    _ => old(self).queue@,
                },
                AppEvent::RemoveFromQueue => match old(self).queue_state.selected {
                    Some(i) => if (i as int) < old(self).queue@.len() {
                        old(self).queue@.remove(i as int)
                    } else {
                        old(self).queue@
                    },
                    None => old(self).queue@,
                },
                _ => old(self).queue@,
            }),
            final(self).current_song == (if event == AppEvent::Skip && old(self).queue@.len() == 0 {
                None
            } else {
                old(self).current_song
            }),
    {
        match event {
            AppEvent::Play => {
                match self.focus {
                    Focus::Artists => {},
                    Focus::Albums => self.enqueue_album(),
                    Focus::Songs => {
                        let index = self.song_state.selected().unwrap();
                        self.play_song(index);
                    },
                    Focus::Queue => {},
                }
                Effect::Nothing
            },
            AppEvent::Skip => {
                let cleared = self.skip();
                Effect::SkipTrack { clear_activity: cleared }
            },
            AppEvent::PlayPause => Effect::TogglePause,
            AppEvent::IncVolume => Effect::RaiseVolume,
            AppEvent::DecVolume => Effect::LowerVolume,
            AppEvent::MoveRight => {
                self.move_right();
                Effect::Nothing
            },
            AppEvent::MoveLeft => {
                self.move_left();
                Effect::Nothing
            },
            AppEvent::RemoveFromQueue => {
                self.remove_from_queue();
                Effect::Nothing
            },
            AppEvent::Quit => {
                self.quit();
                Effect::Nothing
            },
        }
    }

    /// The presence of song `index` while paused.
    pub fn paused_presence(&self, index: usize) -> (p: Presence)
        requires
            self.wf(),
            (index as int) < self.library.songs@.len(),
        ensures
            p.details@ == self.library.songs@[index as int].title@,
            p.state@ == "Paused"@,
            p.timestamps is None,
    {
        let song = &self.library.songs[index];
        Presence { details: song.title.clone(), state: String::from_str("Paused"), timestamps: None }
    }

    /// The presence of song `index` playing at `now`, `elapsed` seconds into
    /// it; `None` where its start or end does not fit in an `i64`.
    pub fn playing_presence(&self, index: usize, now: i64, elapsed: i64) -> (p: Option<Presence>)
        requires
            self.wf(),
            (index as int) < self.library.songs@.len(),
        ensures
            ({
                let song = self.library.songs@[index as int];
                let duration = match song.duration_ms {
                    Some(ms) => (ms / 1000) as int,
                    None => 1,
                };
                match p {
                    Some(p) => p.details@ == song.title@ && p.state@ == song.artist@
                        && (p.timestamps matches Some((start, end)) && start == now - elapsed
                        && end == now - elapsed + duration),
                    None => !(i64::MIN <= now - elapsed <= i64::MAX && i64::MIN <= now - elapsed + duration <= i64::MAX),
                }
            }),
    {
        let song = &self.library.songs[index];
        match activity_span(now, elapsed, song.duration_secs_or_one()) {
            Some((start, end)) => Some(Presence {
                details: song.title.clone(),
                state: song.artist.clone(),
                timestamps: Some((start, end)),
            }),
            None => None,
        }
    }
}

/// One tick: with the output dry and a song queued, the first queued song
/// leaves the queue, becomes current and goes to the output; otherwise
/// nothing changes. Gives the queue, the current song and what goes out.
pub open spec fn tick_step(queue: Seq<usize>, current: Option<usize>, player_empty: bool) -> (
    Seq<usize>,
    Option<usize>,
    Option<usize>,
) {
    if player_empty && queue.len() > 0 {
        (queue.drop_first(), Some(queue[0]), Some(queue[0]))
    } else {
        (queue, current, None)
    }
}

/// `n` ticks, each with the output dry: the queue, the current song and
/// the songs handed to the output, in order.
pub open spec fn dry_ticks(queue: Seq<usize>, current: Option<usize>, n: nat) -> (
    Seq<usize>,
    Option<usize>,
    Seq<usize>,
)
    decreases n,
{
    if n == 0 {
        (queue, current, Seq::empty())
    } else {
        let (q, c, out) = dry_ticks(queue, current, (n - 1) as nat);
        let (q2, c2, next) = tick_step(q, c, true);
        (q2, c2, match next {
            Some(x) => out.push(x),
            None => out,
        })
    }
}

/// Ticking with the output dry as often as songs are queued hands the
/// queued songs to the output one per tick, in queue order, leaves the queue
/// empty and the last of them current.
pub proof fn lemma_dry_ticks_drain(queue: Seq<usize>, current: Option<usize>)
    requires
        queue.len() > 0,
    ensures
        dry_ticks(queue, current, queue.len()) == (Seq::<usize>::empty(), Some(queue.last()), queue),
{
    lemma_dry_ticks_prefix(queue, current, queue.len());
    assert(queue.skip(queue.len() as int) =~= Seq::<usize>::empty());
    assert(queue.take(queue.len() as int) =~= queue);
}

/// After `n` dry ticks, with at least `n` songs queued, the first `n` have
/// gone to the output in order and the `n`-th is current.
proof fn lemma_dry_ticks_prefix(queue: Seq<usize>, current: Option<usize>, n: nat)
    requires
        n <= queue.len(),
    ensures
        dry_ticks(queue, current, n).0 == queue.skip(n as int),
        dry_ticks(queue, current, n).2 == queue.take(n as int),
        dry_ticks(queue, current, n).1 == (if n == 0 { current } else { Some(queue[n - 1]) }),
    decreases n,
{
    if n > 0 {
        lemma_dry_ticks_prefix(queue, current, (n - 1) as nat);
        let q = queue.skip(n - 1);
        assert(q[0] == queue[n - 1]);
        assert(q.drop_first() =~= queue.skip(n as int));
        assert(queue.take(n - 1).push(queue[n - 1]) =~= queue.take(n as int));
    } else {
        assert(queue.skip(0) =~= queue);
        assert(queue.take(0) =~= Seq::<usize>::empty());
    }
}

/// While the output is still playing, a tick changes nothing and hands
/// nothing to the output, whatever is queued and whatever is current.
pub proof fn lemma_tick_waits_for_output(queue: Seq<usize>, current: Option<usize>)
    ensures
        tick_step(queue, current, false) == (queue, current, None::<usize>),
{
}

/// Once the output has run dry, a tick starts the first queued song: it
/// leaves the queue, becomes current and is the one handed to the output;
/// with nothing queued nothing changes.
pub proof fn lemma_tick_starts_front(queue: Seq<usize>, current: Option<usize>)
    ensures
        queue.len() > 0 ==> tick_step(queue, current, true) == (queue.subrange(1, queue.len() as int), Some(queue[0]), Some(queue[0])),
        queue.len() == 0 ==> tick_step(queue, current, true) == (queue, current, None::<usize>),
{
}

/// Up or `k` moves the focused list's selection one entry up, stopping at
/// the first entry, and selects the last entry when nothing was selected;
/// lists without the focus keep their selection.
pub proof fn lemma_previous_moves_up(sel: ListSelection, i: usize)
    ensures
        moved(KeyAction::Previous, sel, true).offset == sel.offset,
        sel.selected == Some(i) && i > 0 ==> moved(KeyAction::Previous, sel, true).selected == Some((i - 1) as usize),
        sel.selected == Some(0usize) ==> moved(KeyAction::Previous, sel, true).selected == Some(0usize),
        sel.selected is None ==> moved(KeyAction::Previous, sel, true).selected == Some(usize::MAX),
        moved(KeyAction::Previous, sel, false) == sel,
{
}

/// Down or `j` moves the focused list's selection one entry down, and
/// selects the first entry when nothing was selected.
pub proof fn lemma_next_moves_down(sel: ListSelection, i: usize)
    ensures
        moved(KeyAction::Next, sel, true).offset == sel.offset,
        sel.selected == Some(i) && i < usize::MAX ==> moved(KeyAction::Next, sel, true).selected == Some((i + 1) as usize),
        sel.selected == Some(usize::MAX) ==> moved(KeyAction::Next, sel, true).selected == Some(usize::MAX),
        sel.selected is None ==> moved(KeyAction::Next, sel, true).selected == Some(0usize),
        moved(KeyAction::Next, sel, false) == sel,
{
}

/// `g` selects the first entry and `G` the last of the focused list; other
/// actions leave every selection alone.
pub proof fn lemma_first_last_and_others(sel: ListSelection, action: KeyAction, focused: bool)
    ensures
        moved(KeyAction::First, sel, true) == (ListSelection { offset: sel.offset, selected: Some(0usize) }),
        moved(KeyAction::Last, sel, true) == (ListSelection { offset: sel.offset, selected: Some(usize::MAX) }),
        action != KeyAction::Next && action != KeyAction::Previous && action != KeyAction::First
            && action != KeyAction::Last ==> moved(action, sel, focused) == sel,
{
}

/// Whether an event can be handled depends on the selections and the focus
/// only: what is queued, what is current and whether the player runs do not
/// matter.
pub proof fn lemma_event_ready_ignores_queue(a: App, b: App, event: AppEvent)
    requires
        a.library == b.library,
        a.artist_state == b.artist_state,
        a.album_state == b.album_state,
        a.song_state == b.song_state,
        a.focus == b.focus,
    ensures
        a.event_ready(event) == b.event_ready(event),
{
}

/// Every event but Play can always be handled; Play can be handled with the
/// albums pane focused once an artist and one of its albums are selected,
/// and always with the artists or queue pane focused.
pub proof fn lemma_event_ready_cases(app: App, event: AppEvent)
    ensures
        event != AppEvent::Play ==> app.event_ready(event),
        app.focus == Focus::Albums ==> (app.event_ready(AppEvent::Play) == app.selection_ready()),
        app.focus == Focus::Artists || app.focus == Focus::Queue ==> app.event_ready(AppEvent::Play),
        app.focus == Focus::Songs ==> (app.event_ready(AppEvent::Play) == (app.selection_ready()
            && app.song_state.selected is Some
            && (app.song_state.selected->0 as int) < app.selected_album_songs().len())),
{
}

/// The keys that quit: Esc and `q`, whatever modifiers are held, and `c` or
/// `C` with Control alone. No other key quits.
pub proof fn lemma_quit_keys(key: KeyPress)
    ensures
        (key_action(key) == KeyAction::Send(AppEvent::Quit)) == (key.code == Key::Esc || key.code == Key::Char('q')
            || ((key.code == Key::Char('c') || key.code == Key::Char('C')) && key.ctrl_only)),
{
}

/// Holding Control alone changes nothing but for `c` and `C`.
pub proof fn lemma_control_only_matters_for_c(c: char)
    requires
        c != 'c',
        c != 'C',
    ensures
        key_action(KeyPress { code: Key::Char(c), ctrl_only: true }) == key_action(KeyPress { code: Key::Char(c), ctrl_only: false }),
{
}

/// Which keys ask for which action: each action is bound to exactly these keys.
pub proof fn lemma_key_bindings(key: KeyPress)
    ensures
        (key_action(key) == KeyAction::Next) == (key.code == Key::Char('j') || key.code == Key::Down),
        (key_action(key) == KeyAction::Previous) == (key.code == Key::Char('k') || key.code == Key::Up),
        (key_action(key) == KeyAction::First) == (key.code == Key::Char('g')),
        (key_action(key) == KeyAction::Last) == (key.code == Key::Char('G')),
        (key_action(key) == KeyAction::Stop) == (key.code == Key::Char('x')),
        (key_action(key) == KeyAction::Rescan) == (key.code == Key::Char('R')),
        (key_action(key) == KeyAction::Send(AppEvent::MoveRight)) == (key.code == Key::Char('l')
            || key.code == Key::Right || key.code == Key::Tab),
        (key_action(key) == KeyAction::Send(AppEvent::MoveLeft)) == (key.code == Key::Char('h') || key.code == Key::Left),
        (key_action(key) == KeyAction::Send(AppEvent::Play)) == (key.code == Key::Enter),
        (key_action(key) == KeyAction::Send(AppEvent::PlayPause)) == (key.code == Key::Char(' ')
            || key.code == Key::MediaPlayPause),
        (key_action(key) == KeyAction::Send(AppEvent::IncVolume)) == (key.code == Key::Char('+') || key.code == Key::Char('=')),
        (key_action(key) == KeyAction::Send(AppEvent::DecVolume)) == (key.code == Key::Char('-') || key.code == Key::Char('_')),
        (key_action(key) == KeyAction::Send(AppEvent::RemoveFromQueue)) == (key.code == Key::Delete),
        (key_action(key) == KeyAction::Send(AppEvent::Skip)) == (key.code == Key::Char('>')),
        key_action(key) != KeyAction::Send(AppEvent::Quit) && key_action(key) != KeyAction::Ignore
            ==> key_action(KeyPress { code: key.code, ctrl_only: !key.ctrl_only }) == key_action(key),
{
}

/// The songs of the selected album are exactly the library's songs by the
/// selected artist on the selected album, each once, in library order.
pub proof fn lemma_selected_album_songs(app: App)
    requires
        app.wf(),
        app.selection_ready(),
    ensures
        ({
            let songs = app.library.songs@;
            let artist = app.library.artists@[app.artist_state.selected->0 as int]@;
            let album = app.library.artist_albums@[app.artist_state.selected->0 as int]@[app.album_state.selected->0 as int]@;
            let list = app.selected_album_songs();
            &&& forall|i: int| 0 <= i < list.len() ==> {
                let x = #[trigger] list[i] as int;
                0 <= x < songs.len() && songs[x].artist@ == artist && songs[x].album@ == album
            }
            &&& forall|i: int, j: int| 0 <= i < j < list.len() ==> #[trigger] list[i] < #[trigger] list[j]
            &&& forall|x: int| 0 <= x < songs.len() && songs[x].artist@ == artist && songs[x].album@ == album
                ==> #[trigger] list.contains(x as usize)
        }),
{
    let songs = app.library.songs@;
    let a = app.artist_state.selected->0 as int;
    let b = app.album_state.selected->0 as int;
    assert(app.library.songs.len() == songs.len());
    lemma_song_indices_exact(songs, songs.len() as int, app.library.artists@[a]@, app.library.artist_albums@[a]@[b]@);
}

/// The panes' places on screen, from left to right.
pub open spec fn pane_place(f: Focus) -> int {
    match f {
        Focus::Artists => 0,
        Focus::Albums => 1,
        Focus::Songs => 2,
        Focus::Queue => 3,
    }
}

/// Moving right takes the focus to the next pane on screen, from the last
/// back to the first; moving left to the previous one.
pub proof fn lemma_focus_follows_screen(f: Focus)
    ensures
        pane_place(focus_right(f)) == (pane_place(f) + 1) % 4,
        pane_place(focus_left(f)) == (pane_place(f) + 3) % 4,
{
}

/// Start and end, in seconds since the epoch, of a track shown as playing
/// at `now` after `elapsed` seconds of it have played; `None` where that
/// does not fit in an `i64`.
pub fn activity_span(now: i64, elapsed: i64, duration: i64) -> (span: Option<(i64, i64)>)
    ensures
        match span {
            Some((start, end)) => start == now - elapsed && end == now - elapsed + duration,
            None => !(i64::MIN <= now - elapsed <= i64::MAX && i64::MIN <= now - elapsed + duration <= i64::MAX),
        },
{
    match now.checked_sub(elapsed) {
        Some(start) => match start.checked_add(duration) {
            Some(end) => Some((start, end)),
            None => None,
        },
        None => None,
    }
}

/// Moving the focus right and then left, or left and then right, comes
/// back to the pane one started from.
pub proof fn lemma_focus_round_trip(f: Focus)
    ensures
        focus_left(focus_right(f)) == f,
        focus_right(focus_left(f)) == f,
{
}

/// Four moves to the right visit every pane once and come back.
pub proof fn lemma_focus_cycle(f: Focus)
    ensures
        focus_right(focus_right(focus_right(focus_right(f)))) == f,
        f != focus_right(f),
        f != focus_right(focus_right(f)),
        f != focus_right(focus_right(focus_right(f))),
{
}

} // verus!
