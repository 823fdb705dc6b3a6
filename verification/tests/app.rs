use ncmprs::app::{
    activity_span, classify_key, App, AppEvent, Effect, Focus, Key, KeyAction, KeyOutcome, KeyPress,
    PauseAction, PlayOrder,
};
use ncmprs::library::{Library, Song};

fn song(title: &str, artist: &str, album: &str) -> Song {
    Song {
        title: title.to_string(),
        artist: artist.to_string(),
        album: album.to_string(),
        duration_ms: Some(200_000),
        path: format!("/music/{}.flac", title),
    }
}

// Artists: "Air" (album "Moon Safari": songs 1, 3), "Björk" (album "Debut": song 0; "Post": song 2).
fn sample() -> App {
    App::new(Library::from_songs(vec![
        song("Human Behaviour", "Björk", "Debut"),
        song("La femme d'argent", "Air", "Moon Safari"),
        song("Army of Me", "Björk", "Post"),
        song("Sexy Boy", "Air", "Moon Safari"),
    ]))
}

fn key(code: Key) -> KeyPress {
    KeyPress { code, ctrl_only: false }
}

fn queue(app: &App) -> Vec<usize> {
    app.queue.iter().copied().collect()
}

#[test]
fn new_app_starts_at_first_entries() {
    let app = sample();
    assert!(app.running);
    assert_eq!(app.focus, Focus::Artists);
    assert_eq!(app.artist_state.selected(), Some(0));
    assert_eq!(app.album_state.selected(), Some(0));
    assert_eq!(app.song_state.selected(), Some(0));
    assert_eq!(app.queue_state.selected(), Some(0));
    assert!(app.queue.is_empty());
    assert_eq!(app.current_song, None);
    assert_eq!(app.paused_at, 1);
}

#[test]
fn focus_default_is_artists() {
    assert_eq!(Focus::default(), Focus::Artists);
}

#[test]
fn selected_album_songs() {
    let mut app = sample();
    assert_eq!(app.current_selected_song(), vec![1, 3]);
    app.artist_state.select(Some(1));
    app.album_state.select(Some(1));
    assert_eq!(app.current_selected_song(), vec![2]);
}

#[test]
fn enqueue_album_appends_in_order() {
    let mut app = sample();
    app.enqueue_album();
    assert_eq!(queue(&app), vec![1, 3]);
    app.artist_state.select(Some(1));
    app.enqueue_album();
    assert_eq!(queue(&app), vec![1, 3, 0]);
}

#[test]
fn play_song_queues_one() {
    let mut app = sample();
    app.play_song(1);
    assert_eq!(queue(&app), vec![3]);
}

#[test]
fn tick_takes_queue_front_when_output_is_empty() {
    let mut app = sample();
    app.enqueue_album();
    assert_eq!(app.tick(false), None);
    assert_eq!(app.current_song, None);
    assert_eq!(app.tick(true), Some(1));
    assert_eq!(app.current_song, Some(1));
    assert_eq!(queue(&app), vec![3]);
    assert_eq!(app.tick(true), Some(3));
    assert_eq!(app.tick(true), None);
    assert_eq!(app.current_song, Some(3));
}

#[test]
fn current_song_title() {
    let mut app = sample();
    assert_eq!(app.current_song_title(), "");
    assert!(app.current_song().is_none());
    app.enqueue_album();
    app.tick(true);
    assert_eq!(app.current_song_title(), "La femme d'argent");
    assert_eq!(app.current_song().unwrap().artist, "Air");
}

#[test]
fn skip_with_empty_queue_clears_current() {
    let mut app = sample();
    app.enqueue_album();
    app.tick(true);
    assert!(!app.skip());
    assert_eq!(app.current_song, Some(1));
    app.tick(true);
    assert!(app.skip());
    assert_eq!(app.current_song, None);
}

#[test]
fn stop_playback_empties_queue() {
    let mut app = sample();
    app.enqueue_album();
    app.tick(true);
    app.stop_playback();
    assert!(app.queue.is_empty());
    assert_eq!(app.current_song, None);
}

#[test]
fn remove_from_queue_removes_selected() {
    let mut app = sample();
    app.enqueue_album();
    app.artist_state.select(Some(1));
    app.enqueue_album();
    app.queue_state.select(Some(1));
    app.remove_from_queue();
    assert_eq!(queue(&app), vec![1, 0]);
    app.queue_state.select(Some(5));
    app.remove_from_queue();
    assert_eq!(queue(&app), vec![1, 0]);
    app.queue_state.select(None);
    app.remove_from_queue();
    assert_eq!(queue(&app), vec![1, 0]);
}

#[test]
fn focus_moves_and_wraps() {
    let mut app = sample();
    app.move_right();
    assert_eq!(app.focus, Focus::Albums);
    app.move_right();
    assert_eq!(app.focus, Focus::Songs);
    app.move_right();
    assert_eq!(app.focus, Focus::Queue);
    app.move_right();
    assert_eq!(app.focus, Focus::Artists);
    app.move_left();
    assert_eq!(app.focus, Focus::Queue);
    app.move_right();
    assert_eq!(app.focus, Focus::Artists);
}

#[test]
fn quit_stops_running() {
    let mut app = sample();
    app.quit();
    assert!(!app.running);
}

#[test]
fn play_drains_queue_in_order() {
    let mut app = sample();
    app.enqueue_album();
    match app.play() {
        PlayOrder::Queued(v) => assert_eq!(v, vec![1, 3]),
        PlayOrder::Single(_) => panic!("expected the queue"),
    }
    assert!(app.queue.is_empty());
}

#[test]
fn play_with_empty_queue_uses_artist_position() {
    let mut app = sample();
    app.artist_state.select(Some(2));
    match app.play() {
        PlayOrder::Single(i) => assert_eq!(i, 2),
        PlayOrder::Queued(_) => panic!("expected one song"),
    }
}

#[test]
fn play_pause_decisions() {
    let mut app = sample();
    assert_eq!(app.play_pause(true, false), PauseAction::Nothing);
    app.enqueue_album();
    app.tick(true);
    assert_eq!(app.play_pause(false, false), PauseAction::Nothing);
    assert_eq!(app.play_pause(true, false), PauseAction::Pause(1));
    assert_eq!(app.play_pause(true, true), PauseAction::Resume(1));
}

#[test]
fn key_bindings() {
    assert_eq!(classify_key(key(Key::Esc)), KeyAction::Send(AppEvent::Quit));
    assert_eq!(classify_key(key(Key::Char('q'))), KeyAction::Send(AppEvent::Quit));
    assert_eq!(classify_key(KeyPress { code: Key::Char('c'), ctrl_only: true }), KeyAction::Send(AppEvent::Quit));
    assert_eq!(classify_key(KeyPress { code: Key::Char('C'), ctrl_only: true }), KeyAction::Send(AppEvent::Quit));
    assert_eq!(classify_key(key(Key::Char('c'))), KeyAction::Ignore);
    assert_eq!(classify_key(key(Key::Char('R'))), KeyAction::Rescan);
    assert_eq!(classify_key(key(Key::Char('l'))), KeyAction::Send(AppEvent::MoveRight));
    assert_eq!(classify_key(key(Key::Right)), KeyAction::Send(AppEvent::MoveRight));
    assert_eq!(classify_key(key(Key::Tab)), KeyAction::Send(AppEvent::MoveRight));
    assert_eq!(classify_key(key(Key::Char('h'))), KeyAction::Send(AppEvent::MoveLeft));
    assert_eq!(classify_key(key(Key::Left)), KeyAction::Send(AppEvent::MoveLeft));
    assert_eq!(classify_key(key(Key::Char('j'))), KeyAction::Next);
    assert_eq!(classify_key(key(Key::Down)), KeyAction::Next);
    assert_eq!(classify_key(key(Key::Char('k'))), KeyAction::Previous);
    assert_eq!(classify_key(key(Key::Up)), KeyAction::Previous);
    assert_eq!(classify_key(key(Key::Char('g'))), KeyAction::First);
    assert_eq!(classify_key(key(Key::Char('G'))), KeyAction::Last);
    assert_eq!(classify_key(key(Key::Enter)), KeyAction::Send(AppEvent::Play));
    assert_eq!(classify_key(key(Key::Char('x'))), KeyAction::Stop);
    assert_eq!(classify_key(key(Key::Char(' '))), KeyAction::Send(AppEvent::PlayPause));
    assert_eq!(classify_key(key(Key::MediaPlayPause)), KeyAction::Send(AppEvent::PlayPause));
    assert_eq!(classify_key(key(Key::Char('+'))), KeyAction::Send(AppEvent::IncVolume));
    assert_eq!(classify_key(key(Key::Char('='))), KeyAction::Send(AppEvent::IncVolume));
    assert_eq!(classify_key(key(Key::Char('-'))), KeyAction::Send(AppEvent::DecVolume));
    assert_eq!(classify_key(key(Key::Char('_'))), KeyAction::Send(AppEvent::DecVolume));
    assert_eq!(classify_key(key(Key::Delete)), KeyAction::Send(AppEvent::RemoveFromQueue));
    assert_eq!(classify_key(key(Key::Char('>'))), KeyAction::Send(AppEvent::Skip));
    assert_eq!(classify_key(key(Key::Char('z'))), KeyAction::Ignore);
    assert_eq!(classify_key(key(Key::Other)), KeyAction::Ignore);
    assert_eq!(classify_key(KeyPress { code: Key::Char('q'), ctrl_only: true }), KeyAction::Send(AppEvent::Quit));
    assert_eq!(classify_key(KeyPress { code: Key::Char('j'), ctrl_only: true }), KeyAction::Next);
}

#[test]
fn keys_move_the_focused_selection() {
    let mut app = sample();
    assert_eq!(app.handle_key_events(key(Key::Down)), KeyOutcome::Nothing);
    assert_eq!(app.artist_state.selected(), Some(1));
    assert_eq!(app.album_state.selected(), Some(0));
    app.focus = Focus::Albums;
    app.handle_key_events(key(Key::Char('G')));
    assert_eq!(app.album_state.selected(), Some(usize::MAX));
    app.handle_key_events(key(Key::Char('g')));
    assert_eq!(app.album_state.selected(), Some(0));
    app.focus = Focus::Queue;
    app.handle_key_events(key(Key::Up));
    assert_eq!(app.queue_state.selected(), Some(0));
    assert_eq!(app.artist_state.selected(), Some(1));
}

#[test]
fn keys_that_send_events() {
    let mut app = sample();
    assert_eq!(app.handle_key_events(key(Key::Enter)), KeyOutcome::Send(AppEvent::Play));
    assert_eq!(app.handle_key_events(key(Key::Char('R'))), KeyOutcome::Rescan);
    assert_eq!(app.handle_key_events(key(Key::Char('?'))), KeyOutcome::Nothing);
    assert!(app.running);
}

#[test]
fn stop_key_empties_queue() {
    let mut app = sample();
    app.enqueue_album();
    app.tick(true);
    assert_eq!(app.handle_key_events(key(Key::Char('x'))), KeyOutcome::PlaybackStopped);
    assert!(app.queue.is_empty());
    assert_eq!(app.current_song, None);
}

#[test]
fn play_event_depends_on_focus() {
    let mut app = sample();
    assert_eq!(app.handle_app_event(AppEvent::Play), Effect::Nothing);
    assert!(app.queue.is_empty());
    app.focus = Focus::Albums;
    app.handle_app_event(AppEvent::Play);
    assert_eq!(queue(&app), vec![1, 3]);
    app.focus = Focus::Songs;
    app.song_state.select(Some(1));
    app.handle_app_event(AppEvent::Play);
    assert_eq!(queue(&app), vec![1, 3, 3]);
}

#[test]
fn other_events() {
    let mut app = sample();
    assert_eq!(app.handle_app_event(AppEvent::PlayPause), Effect::TogglePause);
    assert_eq!(app.handle_app_event(AppEvent::IncVolume), Effect::RaiseVolume);
    assert_eq!(app.handle_app_event(AppEvent::DecVolume), Effect::LowerVolume);
    assert_eq!(app.handle_app_event(AppEvent::MoveRight), Effect::Nothing);
    assert_eq!(app.focus, Focus::Albums);
    assert_eq!(app.handle_app_event(AppEvent::MoveLeft), Effect::Nothing);
    assert_eq!(app.focus, Focus::Artists);
    assert_eq!(app.handle_app_event(AppEvent::Skip), Effect::SkipTrack { clear_activity: true });
    app.enqueue_album();
    assert_eq!(app.handle_app_event(AppEvent::Skip), Effect::SkipTrack { clear_activity: false });
    app.queue_state.select(Some(0));
    app.handle_app_event(AppEvent::RemoveFromQueue);
    assert_eq!(queue(&app), vec![3]);
    app.handle_app_event(AppEvent::Quit);
    assert!(!app.running);
}

#[test]
fn readiness_checks() {
    let mut app = sample();
    assert!(app.artist_selected());
    assert!(app.album_selected());
    assert!(app.can_handle(AppEvent::Play));
    app.focus = Focus::Songs;
    app.song_state.select(Some(2));
    assert!(!app.can_handle(AppEvent::Play));
    app.song_state.select(Some(1));
    assert!(app.can_handle(AppEvent::Play));
    app.album_state.select(Some(3));
    assert!(!app.album_selected());
    assert!(!app.can_handle(AppEvent::Play));
    assert!(app.can_handle(AppEvent::Skip));
    app.artist_state.select(None);
    assert!(!app.artist_selected());
}

#[test]
fn positions_below_count() {
    let mut app = sample();
    app.enqueue_album();
    assert!(app.positions_below(4));
    assert!(!app.positions_below(3));
    app.tick(true);
    app.tick(true);
    assert!(app.positions_below(4));
    assert!(!app.positions_below(3));
}

#[test]
fn activity_span_values() {
    assert_eq!(activity_span(1000, 30, 200), Some((970, 1170)));
    assert_eq!(activity_span(1000, 0, 1), Some((1000, 1001)));
    assert_eq!(activity_span(i64::MIN, 1, 0), None);
    assert_eq!(activity_span(i64::MAX, 0, 1), None);
}

#[test]
fn paused_presence_shows_title() {
    let app = sample();
    let p = app.paused_presence(2);
    assert_eq!(p.details, "Army of Me");
    assert_eq!(p.state, "Paused");
    assert_eq!(p.timestamps, None);
}

#[test]
fn playing_presence_shows_artist_and_span() {
    let mut app = sample();
    let p = app.playing_presence(1, 10_000, 0).unwrap();
    assert_eq!(p.details, "La femme d'argent");
    assert_eq!(p.state, "Air");
    assert_eq!(p.timestamps, Some((10_000, 10_200)));
    app.library.songs[1].duration_ms = None;
    let p = app.playing_presence(1, 10_000, 40).unwrap();
    assert_eq!(p.timestamps, Some((9_960, 9_961)));
    assert!(app.playing_presence(1, i64::MAX, -1).is_none());
}
