use vincenzo::state::{Stats, TorrentState, TorrentStatus};
use vincenzo::wire::{decode, encode, Message, WireError, MAX_FRAME};

fn sample_state() -> TorrentState {
    TorrentState {
        info_hash: [0xAA; 20],
        name: "X".to_string(),
        status: TorrentStatus::Downloading,
        size: 100,
        downloaded: 10,
        uploaded: 3,
        download_rate: 7,
        upload_rate: 1,
        stats: Stats { seeders: 4, leechers: 5 },
    }
}

fn round_trip(m: Message) {
    let bytes = encode(&m).unwrap();
    let (back, used) = decode(&bytes).unwrap().unwrap();
    assert_eq!(used, bytes.len());
    assert_eq!(format!("{:?}", back), format!("{:?}", m));
}

#[test]
fn round_trip_every_variant() {
    round_trip(Message::NewTorrent("magnet:?xt=urn:btih:ab&dn=é".to_string()));
    round_trip(Message::TorrentState(None));
    round_trip(Message::TorrentState(Some(sample_state())));
    round_trip(Message::RequestTorrentState([7; 20]));
    round_trip(Message::TogglePause([9; 20]));
    round_trip(Message::Quit);
    round_trip(Message::PrintTorrentStatus);
}

#[test]
fn quit_frame_bytes() {
    assert_eq!(encode(&Message::Quit).unwrap(), vec![0, 0, 0, 1, 5]);
    assert_eq!(encode(&Message::TorrentState(None)).unwrap(), vec![0, 0, 0, 2, 2, 0]);
}

#[test]
fn state_frame_layout() {
    let bytes = encode(&Message::TorrentState(Some(sample_state()))).unwrap();
    // length, tag, presence flag, hash, name length, name, status, ...
    assert_eq!(bytes.len(), 4 + 1 + 1 + 20 + 4 + 1 + 1 + 40 + 8);
    assert_eq!(&bytes[0..4], &[0, 0, 0, 76]);
    assert_eq!(bytes[4], 2);
    assert_eq!(bytes[5], 1);
    assert_eq!(&bytes[26..30], &[0, 0, 0, 1]);
    assert_eq!(bytes[30], b'X');
    assert_eq!(bytes[31], 2);
    assert_eq!(&bytes[32..40], &[0, 0, 0, 0, 0, 0, 0, 100]);
}

#[test]
fn trailing_bytes_are_left_alone() {
    let mut bytes = encode(&Message::TogglePause([1; 20])).unwrap();
    let n = bytes.len();
    bytes.extend_from_slice(&[0, 0]);
    let (_, used) = decode(&bytes).unwrap().unwrap();
    assert_eq!(used, n);
}

#[test]
fn incomplete_buffers_wait() {
    assert!(matches!(decode(&[]), Ok(None)));
    assert!(matches!(decode(&[0, 0, 0]), Ok(None)));
    assert!(matches!(decode(&[0, 0, 0, 21, 3, 1, 2]), Ok(None)));
}

#[test]
fn malformed_frames_are_rejected() {
    // unknown tag
    assert!(matches!(decode(&[0, 0, 0, 1, 9]), Err(WireError::MalformedFrame)));
    // zero length
    assert!(matches!(decode(&[0, 0, 0, 0, 1]), Err(WireError::MalformedFrame)));
    // hash payload of the wrong size
    assert!(matches!(decode(&[0, 0, 0, 3, 3, 1, 2]), Err(WireError::MalformedFrame)));
    // payload on a message that takes none
    assert!(matches!(decode(&[0, 0, 0, 2, 5, 0]), Err(WireError::MalformedFrame)));
    // magnet that is not UTF-8
    assert!(matches!(decode(&[0, 0, 0, 2, 1, 0xFF]), Err(WireError::MalformedFrame)));
    // presence flag other than 0 or 1
    assert!(matches!(decode(&[0, 0, 0, 2, 2, 2]), Err(WireError::MalformedFrame)));
    // over the ceiling
    assert!(matches!(decode(&[1, 0, 0, 1, 5]), Err(WireError::MalformedFrame)));
    // truncated snapshot
    assert!(matches!(decode(&[0, 0, 0, 5, 2, 1, 0, 0, 0]), Err(WireError::MalformedFrame)));
}

#[test]
fn unknown_status_is_rejected() {
    let mut bytes = encode(&Message::TorrentState(Some(sample_state()))).unwrap();
    bytes[31] = 6;
    assert!(matches!(decode(&bytes), Err(WireError::MalformedFrame)));
}

#[test]
fn ceiling_is_exact() {
    let fits = "a".repeat((MAX_FRAME - 1) as usize);
    let bytes = encode(&Message::NewTorrent(fits)).unwrap();
    assert_eq!(&bytes[0..4], &[1, 0, 0, 0]);
    assert!(matches!(decode(&bytes), Ok(Some(_))));
    let too_big = "a".repeat(MAX_FRAME as usize);
    assert!(matches!(encode(&Message::NewTorrent(too_big)), Err(WireError::MalformedFrame)));
}

#[test]
fn codec_fuzz() {
    let mut seed: u64 = 0x2545_F491_4F6C_DD1D;
    for round in 0..10_000u32 {
        seed ^= seed << 13;
        seed ^= seed >> 7;
        seed ^= seed << 17;
        let len = (seed % 96) as usize;
        let mut bytes = Vec::with_capacity(len);
        let mut x = seed;
        for i in 0..len {
            x = x.wrapping_mul(6364136223846793005).wrapping_add(1442695040888963407);
            bytes.push((x >> 56) as u8);
            if round % 2 == 0 && i < 4 {
                // keep the length small on half the inputs, so that frames complete
                bytes[i] = if i == 3 { (x >> 58) as u8 } else { 0 };
            }
        }
        match decode(&bytes) {
            Ok(Some((m, used))) => {
                let again = encode(&m).unwrap();
                assert_eq!(&again[..], &bytes[..used]);
            }
            Ok(None) | Err(WireError::MalformedFrame) => {}
        }
    }
}
