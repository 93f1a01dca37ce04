use vincenzo::daemon::{
    inbound, Command, Daemon, DaemonConfig, DaemonError, Effect, Inbound, DEFAULT_LISTENER,
};
use vincenzo::state::{Magnet, Stats, TorrentState, TorrentStatus};
use vincenzo::wire::{decode, encode, Message};

fn magnet(byte: u8, name: &str) -> Magnet {
    Magnet { info_hash: [byte; 20], display_name: name.to_string(), trackers: vec![] }
}

fn published(byte: u8, name: &str, status: TorrentStatus, size: u64, downloaded: u64) -> TorrentState {
    TorrentState {
        info_hash: [byte; 20],
        name: name.to_string(),
        status,
        size,
        downloaded,
        uploaded: 0,
        download_rate: 0,
        upload_rate: 0,
        stats: Stats { seeders: 0, leechers: 0 },
    }
}

fn auto_quit_daemon() -> Daemon {
    Daemon::with_config(DaemonConfig {
        listen: DEFAULT_LISTENER.to_string(),
        download_dir: "/tmp".to_string(),
        quit_after_complete: true,
    })
}

#[test]
fn new_uses_defaults() {
    let d = Daemon::new("/downloads".to_string());
    assert_eq!(d.config.listen, "127.0.0.1:3030");
    assert_eq!(d.config.download_dir, "/downloads");
    assert!(!d.config.quit_after_complete);
    assert!(d.states().is_empty());
}

#[test]
fn admit_and_observe() {
    let mut d = Daemon::new("/tmp".to_string());
    assert!(matches!(d.step(Command::AddTorrent(magnet(0xAA, "X"), 1)), Effect::Admitted));
    let initial = d.request_state(&[0xAA; 20]).unwrap();
    assert_eq!(initial.name, "X");
    assert_eq!(initial.status, TorrentStatus::Idle);
    d.step(Command::TorrentState(published(0xAA, "X", TorrentStatus::Downloading, 100, 10)));
    let frames = d.draw();
    assert_eq!(frames.len(), 1);
    let bytes = encode(&frames[0]).unwrap();
    match decode(&bytes).unwrap().unwrap().0 {
        Message::TorrentState(Some(s)) => {
            assert_eq!(s.info_hash, [0xAA; 20]);
            assert_eq!(s.name, "X");
            assert_eq!(s.status, TorrentStatus::Downloading);
            assert_eq!(s.size, 100);
            assert_eq!(s.downloaded, 10);
        }
        other => panic!("unexpected frame {:?}", other),
    }
}

#[test]
fn duplicate_rejection() {
    let mut d = Daemon::new("/tmp".to_string());
    assert_eq!(d.add_torrent(&magnet(1, "a"), 1), Ok(()));
    assert_eq!(d.add_torrent(&magnet(1, "a"), 2), Err(DaemonError::NoDuplicateTorrent));
    assert!(matches!(
        d.step(Command::AddTorrent(magnet(1, "a"), 3)),
        Effect::Rejected(DaemonError::NoDuplicateTorrent)
    ));
    assert_eq!(d.states().len(), 1);
    // the first worker keeps its handle
    assert_eq!(d.toggle_pause(&[1; 20]), Ok(1));
}

#[test]
fn pause_dispatch() {
    let mut d = Daemon::new("/tmp".to_string());
    d.step(Command::AddTorrent(magnet(3, "c"), 42));
    assert!(matches!(d.step(Command::TogglePause([3; 20])), Effect::TogglePause(42)));
    assert!(matches!(
        d.step(Command::TogglePause([4; 20])),
        Effect::Rejected(DaemonError::TorrentDoesNotExist)
    ));
}

#[test]
fn request_response() {
    let mut d = Daemon::new("/tmp".to_string());
    d.step(Command::AddTorrent(magnet(5, "e"), 1));
    match d.step(Command::RequestTorrentState([5; 20])) {
        Effect::Reply(Some(s)) => assert_eq!(s.name, "e"),
        _ => panic!("known torrent not reported"),
    }
    assert!(matches!(d.step(Command::RequestTorrentState([6; 20])), Effect::Reply(None)));
}

#[test]
fn mutate_replaces_known_handle_only() {
    let mut d = Daemon::new("/tmp".to_string());
    d.step(Command::AddTorrent(magnet(7, "g"), 1));
    d.step(Command::MutateTorrent([7; 20], 9));
    assert_eq!(d.toggle_pause(&[7; 20]), Ok(9));
    d.step(Command::MutateTorrent([8; 20], 10));
    assert_eq!(d.toggle_pause(&[8; 20]), Err(DaemonError::TorrentDoesNotExist));
}

#[test]
fn auto_quit_fires_once() {
    let mut d = auto_quit_daemon();
    d.step(Command::AddTorrent(magnet(1, "a"), 1));
    d.step(Command::AddTorrent(magnet(2, "b"), 2));
    assert!(matches!(
        d.step(Command::TorrentState(published(1, "a", TorrentStatus::Seeding, 5, 5))),
        Effect::Nothing
    ));
    assert!(matches!(
        d.step(Command::TorrentState(published(2, "b", TorrentStatus::Seeding, 5, 5))),
        Effect::EnqueueQuit
    ));
    assert!(matches!(
        d.step(Command::TorrentState(published(2, "b", TorrentStatus::Seeding, 5, 5))),
        Effect::Nothing
    ));
    match d.step(Command::Quit) {
        Effect::Shutdown(workers) => {
            let mut ids: Vec<u64> = workers.iter().map(|w| w.1).collect();
            ids.sort();
            assert_eq!(ids, vec![1, 2]);
        }
        _ => panic!("quit did not shut down"),
    }
}

#[test]
fn auto_quit_waits_for_an_admission() {
    let mut d = auto_quit_daemon();
    assert!(matches!(
        d.step(Command::TorrentState(published(1, "a", TorrentStatus::Seeding, 5, 5))),
        Effect::Nothing
    ));
}

#[test]
fn auto_quit_off_never_fires() {
    let mut d = Daemon::new("/tmp".to_string());
    d.step(Command::AddTorrent(magnet(1, "a"), 1));
    assert!(matches!(
        d.step(Command::TorrentState(published(1, "a", TorrentStatus::Seeding, 5, 5))),
        Effect::Nothing
    ));
}

#[test]
fn print_lists_every_state() {
    let mut d = Daemon::new("/tmp".to_string());
    d.step(Command::AddTorrent(magnet(1, "a"), 1));
    d.step(Command::AddTorrent(magnet(2, "b"), 2));
    match d.step(Command::PrintTorrentStatus) {
        Effect::PrintStatus(states) => {
            let mut names: Vec<String> = states.iter().map(|s| s.name.clone()).collect();
            names.sort();
            assert_eq!(names, vec!["a".to_string(), "b".to_string()]);
        }
        _ => panic!("no status"),
    }
}

#[test]
fn one_frame_per_state() {
    let mut d = Daemon::new("/tmp".to_string());
    assert!(d.draw().is_empty());
    d.step(Command::AddTorrent(magnet(1, "a"), 1));
    assert_eq!(d.draw().len(), 1);
    d.step(Command::AddTorrent(magnet(2, "b"), 2));
    d.step(Command::TorrentState(published(2, "b", TorrentStatus::Paused, 9, 1)));
    assert_eq!(d.draw().len(), 2);
    assert_eq!(d.states().len(), 2);
    match d.step(Command::Quit) {
        Effect::Shutdown(workers) => assert_eq!(workers.len(), 2),
        _ => panic!("quit did not shut down"),
    }
}

#[test]
fn inbound_frames_map_to_commands() {
    assert!(matches!(
        inbound(Message::NewTorrent("magnet:?x".to_string())),
        Inbound::NewTorrent(l) if l == "magnet:?x"
    ));
    assert!(matches!(inbound(Message::RequestTorrentState([3; 20])), Inbound::Request(h) if h == [3; 20]));
    assert!(matches!(
        inbound(Message::TogglePause([4; 20])),
        Inbound::Post(Command::TogglePause(h)) if h == [4; 20]
    ));
    assert!(matches!(inbound(Message::Quit), Inbound::Post(Command::Quit)));
    assert!(matches!(
        inbound(Message::PrintTorrentStatus),
        Inbound::Post(Command::PrintTorrentStatus)
    ));
    assert!(matches!(inbound(Message::TorrentState(None)), Inbound::Ignore));
}
