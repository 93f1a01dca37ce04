use vstd::prelude::*;

verus! {

/// A torrent's 20-byte content identifier.
pub type InfoHash = [u8; 20];

#[derive(Clone, Copy, Debug, PartialEq, Eq, Structural)]
pub enum TorrentStatus {
    Idle,
    ConnectingToTracker,
    Downloading,
    Seeding,
    Paused,
    Error,
}

#[derive(Clone, Copy, Debug, PartialEq, Eq, Structural)]
pub struct Stats {
    pub seeders: u32,
    pub leechers: u32,
}

/// A snapshot that a torrent worker publishes of itself.
#[derive(Clone, Debug)]
pub struct TorrentState {
    pub info_hash: InfoHash,
    pub name: String,
    pub status: TorrentStatus,
    pub size: u64,
    pub downloaded: u64,
    pub uploaded: u64,
    pub download_rate: u64,
    pub upload_rate: u64,
    pub stats: Stats,
}

pub ghost struct TorrentStateView {
    pub info_hash: Seq<u8>,
    pub name: Seq<char>,
    pub status: TorrentStatus,
    pub size: u64,
    pub downloaded: u64,
    pub uploaded: u64,
    pub download_rate: u64,
    pub upload_rate: u64,
    pub seeders: u32,
    pub leechers: u32,
}

impl View for TorrentState {
    type V = TorrentStateView;

    open spec fn view(&self) -> TorrentStateView {
        TorrentStateView {
            info_hash: self.info_hash@,
            name: self.name@,
            status: self.status,
            size: self.size,
            downloaded: self.downloaded,
            uploaded: self.uploaded,
            download_rate: self.download_rate,
            upload_rate: self.upload_rate,
            seeders: self.stats.seeders,
            leechers: self.stats.leechers,
        }
    }
}

/// The state installed for a torrent when it is admitted, before its worker
/// has published anything.
pub open spec fn initial_state(info_hash: Seq<u8>, name: Seq<char>) -> TorrentStateView {
    TorrentStateView {
        info_hash,
        name,
        status: TorrentStatus::Idle,
        size: 0,
        downloaded: 0,
        uploaded: 0,
        download_rate: 0,
        upload_rate: 0,
        seeders: 0,
        leechers: 0,
    }
}

pub open spec fn opt_state_view(o: Option<TorrentState>) -> Option<TorrentStateView> {
    match o {
        Some(s) => Some(s@),
        None => None,
    }
}

/// A parsed magnet link.
#[derive(Clone, Debug)]
pub struct Magnet {
    pub info_hash: InfoHash,
    pub display_name: String,
    pub trackers: Vec<String>,
}

impl TorrentState {
    /// The state of a freshly admitted torrent: `Idle`, all counters zero.
    pub fn initial(info_hash: InfoHash, name: String) -> (r: TorrentState)
        ensures
            r@ == initial_state(info_hash@, name@),
    {
        TorrentState {
            info_hash,
            name,
            status: TorrentStatus::Idle,
            size: 0,
            downloaded: 0,
            uploaded: 0,
            download_rate: 0,
            upload_rate: 0,
            stats: Stats { seeders: 0, leechers: 0 },
        }
    }

    /// A copy of this snapshot.
    pub fn snapshot(&self) -> (r: TorrentState)
        ensures
            r@ == self@,
    {
        TorrentState {
            info_hash: self.info_hash,
            name: self.name.clone(),
            status: self.status,
            size: self.size,
            downloaded: self.downloaded,
            uploaded: self.uploaded,
            download_rate: self.download_rate,
            upload_rate: self.upload_rate,
            stats: self.stats,
        }
    }

    pub fn is_seeding(&self) -> (r: bool)
        ensures
            r == (self@.status == TorrentStatus::Seeding),
    {
        self.status == TorrentStatus::Seeding
    }
}

} // verus!
