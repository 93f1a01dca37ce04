use vstd::prelude::*;
use vstd::slice::slice_subrange;
use vstd::utf8::{decode_utf8, encode_utf8, valid_utf8};
use crate::be::{
    be_bytes, be_value, lemma_be_bytes_len, lemma_be_canonical, lemma_be_round_trip,
    lemma_be_value_bound, lemma_pow256_facts, pow256, push_be, read_be,
};
use crate::state::{opt_state_view, Stats, TorrentState, TorrentStateView, TorrentStatus};

verus! {

/// The largest frame length (tag and payload) that is encoded or accepted.
pub const MAX_FRAME: u64 = 16 * 1024 * 1024;

/// A message of the control channel.
#[derive(Debug)]
pub enum Message {
    NewTorrent(String),
    TorrentState(Option<TorrentState>),
    RequestTorrentState([u8; 20]),
    TogglePause([u8; 20]),
    Quit,
    PrintTorrentStatus,
}

pub ghost enum MessageView {
    NewTorrent(Seq<char>),
    TorrentState(Option<TorrentStateView>),
    RequestTorrentState(Seq<u8>),
    TogglePause(Seq<u8>),
    Quit,
    PrintTorrentStatus,
}

impl View for Message {
    type V = MessageView;

    open spec fn view(&self) -> MessageView {
        match self {
            Message::NewTorrent(s) => MessageView::NewTorrent(s@),
            Message::TorrentState(o) => MessageView::TorrentState(opt_state_view(*o)),
            Message::RequestTorrentState(h) => MessageView::RequestTorrentState(h@),
            Message::TogglePause(h) => MessageView::TogglePause(h@),
            Message::Quit => MessageView::Quit,
            Message::PrintTorrentStatus => MessageView::PrintTorrentStatus,
        }
    }
}

#[derive(Clone, Copy, Debug, PartialEq, Eq, Structural)]
pub enum WireError {
    MalformedFrame,
}

pub open spec fn status_byte(s: TorrentStatus) -> u8 {
    match s {
        TorrentStatus::Idle => 0,
        TorrentStatus::ConnectingToTracker => 1,
        TorrentStatus::Downloading => 2,
        TorrentStatus::Seeding => 3,
        TorrentStatus::Paused => 4,
        TorrentStatus::Error => 5,
    }
}

pub open spec fn status_of_byte(b: u8) -> Option<TorrentStatus> {
    if b == 0 {
        Some(TorrentStatus::Idle)
    } else if b == 1 {
        Some(TorrentStatus::ConnectingToTracker)
    } else if b == 2 {
        Some(TorrentStatus::Downloading)
    } else if b == 3 {
        Some(TorrentStatus::Seeding)
    } else if b == 4 {
        Some(TorrentStatus::Paused)
    } else if b == 5 {
        Some(TorrentStatus::Error)
    } else {
        None
    }
}

/// A snapshot in fixed field order: the info hash, the name's length (4 bytes)
/// and UTF-8 bytes, the status byte, five 8-byte counters, and the seeders and
/// leechers (4 bytes each), every number big-endian.
pub open spec fn state_bytes(s: TorrentStateView) -> Seq<u8> {
    let name = encode_utf8(s.name);
    s.info_hash + be_bytes(name.len(), 4) + name + seq![status_byte(s.status)] + be_bytes(
        s.size as nat,
        8,
    ) + be_bytes(s.downloaded as nat, 8) + be_bytes(s.uploaded as nat, 8) + be_bytes(
        s.download_rate as nat,
        8,
    ) + be_bytes(s.upload_rate as nat, 8) + be_bytes(s.seeders as nat, 4) + be_bytes(
        s.leechers as nat,
        4,
    )
}

pub open spec fn tag_of(m: MessageView) -> u8 {
    match m {
        MessageView::NewTorrent(_) => 1,
        MessageView::TorrentState(_) => 2,
        MessageView::RequestTorrentState(_) => 3,
        MessageView::TogglePause(_) => 4,
        MessageView::Quit => 5,
        MessageView::PrintTorrentStatus => 6,
    }
}

pub open spec fn payload_of(m: MessageView) -> Seq<u8> {
    match m {
        MessageView::NewTorrent(s) => encode_utf8(s),
        MessageView::TorrentState(None) => seq![0u8],
        MessageView::TorrentState(Some(s)) => seq![1u8] + state_bytes(s),
        MessageView::RequestTorrentState(h) => h,
        MessageView::TogglePause(h) => h,
        MessageView::Quit => Seq::empty(),
        MessageView::PrintTorrentStatus => Seq::empty(),
    }
}

/// The bytes of the frame that carries `m`: its length (tag and payload) in
/// 4 big-endian bytes, the tag, the payload.
pub open spec fn frame_of(m: MessageView) -> Seq<u8> {
    be_bytes(payload_of(m).len() + 1, 4) + seq![tag_of(m)] + payload_of(m)
}

/// Whether the frame of `m` is within the size ceiling.
pub open spec fn fits(m: MessageView) -> bool {
    payload_of(m).len() + 1 <= MAX_FRAME
}

/// Info hashes in `m` have their 20 bytes.
pub open spec fn well_formed(m: MessageView) -> bool {
    match m {
        MessageView::TorrentState(Some(s)) => s.info_hash.len() == 20,
        MessageView::RequestTorrentState(h) => h.len() == 20,
        MessageView::TogglePause(h) => h.len() == 20,
        _ => true,
    }
}

pub open spec fn parse_state(p: Seq<u8>) -> Option<TorrentStateView> {
    if p.len() < 24 {
        None
    } else {
        let nl = be_value(p.subrange(20, 24)) as int;
        let o = 24 + nl;
        if p.len() != 73 + nl {
            None
        } else if !valid_utf8(p.subrange(24, o)) {
            None
        } else if status_of_byte(p[o]) is None {
            None
        } else {
            Some(
                TorrentStateView {
                    info_hash: p.subrange(0, 20),
                    name: decode_utf8(p.subrange(24, o)),
                    status: status_of_byte(p[o])->0,
                    size: be_value(p.subrange(o + 1, o + 9)) as u64,
                    downloaded: be_value(p.subrange(o + 9, o + 17)) as u64,
                    uploaded: be_value(p.subrange(o + 17, o + 25)) as u64,
                    download_rate: be_value(p.subrange(o + 25, o + 33)) as u64,
                    upload_rate: be_value(p.subrange(o + 33, o + 41)) as u64,
                    seeders: be_value(p.subrange(o + 41, o + 45)) as u32,
                    leechers: be_value(p.subrange(o + 45, o + 49)) as u32,
                },
            )
        }
    }
}

/// The message that tag `tag` and payload `p` stand for, if any.
pub open spec fn parse_body(tag: u8, p: Seq<u8>) -> Option<MessageView> {
    if tag == 1 {
        if valid_utf8(p) {
            Some(MessageView::NewTorrent(decode_utf8(p)))
        } else {
            None
        }
    } else if tag == 2 {
        if p.len() == 1 && p[0] == 0 {
            Some(MessageView::TorrentState(None))
        } else if p.len() >= 1 && p[0] == 1 && parse_state(p.drop_first()) is Some {
            Some(MessageView::TorrentState(Some(parse_state(p.drop_first())->0)))
        } else {
            None
        }
    } else if tag == 3 || tag == 4 {
        if p.len() == 20 {
            if tag == 3 {
                Some(MessageView::RequestTorrentState(p))
            } else {
                Some(MessageView::TogglePause(p))
            }
        } else {
            None
        }
    } else if tag == 5 || tag == 6 {
        if p.len() == 0 {
            if tag == 5 {
                Some(MessageView::Quit)
            } else {
                Some(MessageView::PrintTorrentStatus)
            }
        } else {
            None
        }
    } else {
        None
    }
}

pub ghost enum Decoded {
    /// The buffer holds no whole frame yet.
    Incomplete,
    Malformed,
    /// A message, and the number of bytes that its frame takes.
    Frame(MessageView, nat),
}

/// What the first frame of `b` holds.
pub open spec fn parse_frame(b: Seq<u8>) -> Decoded {
    if b.len() < 4 {
        Decoded::Incomplete
    } else {
        let n = be_value(b.subrange(0, 4)) as int;
        if n == 0 || n > MAX_FRAME {
            Decoded::Malformed
        } else if b.len() < 4 + n {
            Decoded::Incomplete
        } else {
            match parse_body(b[4], b.subrange(5, 4 + n)) {
                Some(m) => Decoded::Frame(m, (4 + n) as nat),
                None => Decoded::Malformed,
            }
        }
    }
}

pub open spec fn decode_agrees(r: Result<Option<(Message, usize)>, WireError>, d: Decoded) -> bool {
    match d {
        Decoded::Incomplete => r matches Ok(None),
        Decoded::Malformed => r == Err::<Option<(Message, usize)>, WireError>(
            WireError::MalformedFrame,
        ),
        Decoded::Frame(m, n) => r matches Ok(Some((msg, k))) && msg@ == m && k == n,
    }
}

/// Relies on `std::str::from_utf8`: it accepts exactly the valid UTF-8
/// byte sequences and reads their characters.
#[verifier::external_body]
fn utf8_string(b: &[u8]) -> (r: Option<String>)
    ensures
        r is Some <==> valid_utf8(b@),
        r matches Some(s) ==> s@ == decode_utf8(b@),
{
    match std::str::from_utf8(b) {
        Ok(s) => Some(s.to_string()),
        Err(_) => None,
    }
}

fn push_all(out: &mut Vec<u8>, b: &[u8])
    ensures
        final(out)@ == old(out)@ + b@,
{
    let mut i: usize = 0;
    while i < b.len()
        invariant
            i <= b@.len(),
            out@ == old(out)@ + b@.subrange(0, i as int),
        decreases b@.len() - i,
    {
        out.push(b[i]);
        i = i + 1;
        assert(out@ =~= old(out)@ + b@.subrange(0, i as int));
    }
    assert(b@.subrange(0, i as int) =~= b@);
}

fn status_to_byte(s: TorrentStatus) -> (r: u8)
    ensures
        r == status_byte(s),
{
    match s {
        TorrentStatus::Idle => 0,
        TorrentStatus::ConnectingToTracker => 1,
        TorrentStatus::Downloading => 2,
        TorrentStatus::Seeding => 3,
        TorrentStatus::Paused => 4,
        TorrentStatus::Error => 5,
    }
}

fn byte_to_status(b: u8) -> (r: Option<TorrentStatus>)
    ensures
        r == status_of_byte(b),
{
    if b == 0 {
        Some(TorrentStatus::Idle)
    } else if b == 1 {
        Some(TorrentStatus::ConnectingToTracker)
    } else if b == 2 {
        Some(TorrentStatus::Downloading)
    } else if b == 3 {
        Some(TorrentStatus::Seeding)
    } else if b == 4 {
        Some(TorrentStatus::Paused)
    } else if b == 5 {
        Some(TorrentStatus::Error)
    } else {
        None
    }
}

fn push_state(out: &mut Vec<u8>, st: &TorrentState)
    ensures
        final(out)@ == old(out)@ + state_bytes(st@),
{
    let name = st.name.as_str().as_bytes();
    push_all(out, st.info_hash.as_slice());
    push_be(out, name.len() as u64, 4);
    push_all(out, name);
    out.push(status_to_byte(st.status));
    push_be(out, st.size, 8);
    push_be(out, st.downloaded, 8);
    push_be(out, st.uploaded, 8);
    push_be(out, st.download_rate, 8);
    push_be(out, st.upload_rate, 8);
    push_be(out, st.stats.seeders as u64, 4);
    push_be(out, st.stats.leechers as u64, 4);
    assert(final(out)@ =~= old(out)@ + state_bytes(st@));
}

/// The frame that carries `m`, or `MalformedFrame` where it would exceed
/// the size ceiling.
pub fn encode(m: &Message) -> (r: Result<Vec<u8>, WireError>)
    ensures
        fits(m@) ==> (r matches Ok(v) && v@ == frame_of(m@)),
        !fits(m@) ==> r == Err::<Vec<u8>, WireError>(WireError::MalformedFrame),
{
    let mut payload: Vec<u8> = Vec::new();
    let tag: u8;
    match m {
        Message::NewTorrent(s) => {
            tag = 1;
            push_all(&mut payload, s.as_str().as_bytes());
        },
        Message::TorrentState(None) => {
            tag = 2;
            payload.push(0);
            assert(payload@ =~= seq![0u8]);
        },
        Message::TorrentState(Some(st)) => {
            tag = 2;
            if st.name.as_str().as_bytes().len() as u64 >= MAX_FRAME {
                return Err(WireError::MalformedFrame);
            }
            payload.push(1);
            push_state(&mut payload, st);
            assert(payload@ =~= seq![1u8] + state_bytes(st@));
        },
        Message::RequestTorrentState(h) => {
            tag = 3;
            push_all(&mut payload, h.as_slice());
        },
        Message::TogglePause(h) => {
            tag = 4;
            push_all(&mut payload, h.as_slice());
        },
        Message::Quit => {
            tag = 5;
        },
        Message::PrintTorrentStatus => {
            tag = 6;
        },
    }
    assert(payload@ =~= payload_of(m@));
    if payload.len() as u64 >= MAX_FRAME {
        return Err(WireError::MalformedFrame);
    }
    let mut out: Vec<u8> = Vec::new();
    push_be(&mut out, payload.len() as u64 + 1, 4);
    out.push(tag);
    push_all(&mut out, payload.as_slice());
    assert(out@ =~= frame_of(m@));
    Ok(out)
}

fn read_hash(p: &[u8]) -> (r: [u8; 20])
    requires
        p@.len() >= 20,
    ensures
        r@ == p@.subrange(0, 20),
{
    let mut h: [u8; 20] = [0u8; 20];
    let mut i: usize = 0;
    while i < 20
        invariant
            i <= 20,
            p@.len() >= 20,
            h@.len() == 20,
            forall|j: int| 0 <= j < i ==> h@[j] == p@[j],
        decreases 20 - i,
    {
        h[i] = p[i];
        i = i + 1;
    }
    assert(h@ =~= p@.subrange(0, 20));
    h
}

fn decode_state(p: &[u8]) -> (r: Option<TorrentState>)
    ensures
        opt_state_view(r) == parse_state(p@),
{
    if p.len() < 24 {
        return None;
    }
    let nl = read_be(p, 20, 4);
    proof {
        lemma_be_value_bound(p@.subrange(20, 24));
        lemma_pow256_facts();
    }
    if p.len() as u64 != 73 + nl {
        return None;
    }
    let o: usize = 24 + nl as usize;
    let name = match utf8_string(slice_subrange(p, 24, o)) {
        Some(s) => s,
        None => {
            return None;
        },
    };
    let status = match byte_to_status(p[o]) {
        Some(s) => s,
        None => {
            return None;
        },
    };
    proof {
        lemma_pow256_facts();
    }
    let size = read_be(p, o + 1, 8);
    let downloaded = read_be(p, o + 9, 8);
    let uploaded = read_be(p, o + 17, 8);
    let download_rate = read_be(p, o + 25, 8);
    let upload_rate = read_be(p, o + 33, 8);
    let seeders = read_be(p, o + 41, 4);
    let leechers = read_be(p, o + 45, 4);
    proof {
        lemma_be_value_bound(p@.subrange(o + 41, o + 45));
        lemma_be_value_bound(p@.subrange(o + 45, o + 49));
    }
    let r = TorrentState {
        info_hash: read_hash(p),
        name,
        status,
        size,
        downloaded,
        uploaded,
        download_rate,
        upload_rate,
        stats: Stats { seeders: seeders as u32, leechers: leechers as u32 },
    };
    Some(r)
}

fn decode_body(tag: u8, p: &[u8]) -> (r: Option<Message>)
    ensures
        r matches Some(m) ==> parse_body(tag, p@) == Some(m@),
        r is None ==> parse_body(tag, p@) is None,
{
    if tag == 1 {
        match utf8_string(p) {
            Some(s) => Some(Message::NewTorrent(s)),
            None => None,
        }
    } else if tag == 2 {
        if p.len() == 1 && p[0] == 0 {
            Some(Message::TorrentState(None))
        } else if p.len() >= 1 && p[0] == 1 {
            let rest = slice_subrange(p, 1, p.len());
            assert(rest@ =~= p@.drop_first());
            match decode_state(rest) {
                Some(st) => Some(Message::TorrentState(Some(st))),
                None => None,
            }
        } else {
            None
        }
    } else if tag == 3 || tag == 4 {
        if p.len() == 20 {
            let h = read_hash(p);
            assert(h@ =~= p@);
            if tag == 3 {
                Some(Message::RequestTorrentState(h))
            } else {
                Some(Message::TogglePause(h))
            }
        } else {
            None
        }
    } else if tag == 5 || tag == 6 {
        if p.len() == 0 {
            if tag == 5 {
                Some(Message::Quit)
            } else {
                Some(Message::PrintTorrentStatus)
            }
        } else {
            None
        }
    } else {
        None
    }
}

/// Reads the first frame of `buf`: `Ok(None)` while the buffer holds no
/// whole frame, the message and the length of its frame once it does, and
/// `MalformedFrame` for a length of zero or over the ceiling, an unknown tag,
/// or a payload that does not fit its tag.
pub fn decode(buf: &[u8]) -> (r: Result<Option<(Message, usize)>, WireError>)
    ensures
        decode_agrees(r, parse_frame(buf@)),
{
    if buf.len() < 4 {
        return Ok(None);
    }
    let n = read_be(buf, 0, 4);
    proof {
        lemma_be_value_bound(buf@.subrange(0, 4));
        lemma_pow256_facts();
    }
    if n == 0 || n > MAX_FRAME {
        return Err(WireError::MalformedFrame);
    }
    if (buf.len() as u64) < 4 + n {
        return Ok(None);
    }
    let end: usize = 4 + n as usize;
    let body = slice_subrange(buf, 5, end);
    match decode_body(buf[4], body) {
        Some(m) => Ok(Some((m, end))),
        None => Err(WireError::MalformedFrame),
    }
}

pub proof fn lemma_status_byte(s: TorrentStatus)
    ensures
        status_of_byte(status_byte(s)) == Some(s),
{
}

pub proof fn lemma_state_round_trip(st: TorrentStateView)
    requires
        st.info_hash.len() == 20,
        encode_utf8(st.name).len() < MAX_FRAME,
    ensures
        parse_state(state_bytes(st)) == Some(st),
{
    broadcast use vstd::utf8::encode_utf8_valid_utf8, vstd::utf8::encode_utf8_decode_utf8;

    lemma_pow256_facts();
    let name = encode_utf8(st.name);
    let nl = name.len();
    let q = state_bytes(st);
    let o: int = 24 + nl as int;
    lemma_be_round_trip(nl, 4);
    lemma_be_round_trip(st.size as nat, 8);
    lemma_be_round_trip(st.downloaded as nat, 8);
    lemma_be_round_trip(st.uploaded as nat, 8);
    lemma_be_round_trip(st.download_rate as nat, 8);
    lemma_be_round_trip(st.upload_rate as nat, 8);
    lemma_be_round_trip(st.seeders as nat, 4);
    lemma_be_round_trip(st.leechers as nat, 4);
    assert(q.len() == 73 + nl);
    assert(q.subrange(0, 20) =~= st.info_hash);
    assert(q.subrange(20, 24) =~= be_bytes(nl, 4));
    assert(q.subrange(24, o) =~= name);
    assert(q[o] == status_byte(st.status));
    lemma_status_byte(st.status);
    assert(q.subrange(o + 1, o + 9) =~= be_bytes(st.size as nat, 8));
    assert(q.subrange(o + 9, o + 17) =~= be_bytes(st.downloaded as nat, 8));
    assert(q.subrange(o + 17, o + 25) =~= be_bytes(st.uploaded as nat, 8));
    assert(q.subrange(o + 25, o + 33) =~= be_bytes(st.download_rate as nat, 8));
    assert(q.subrange(o + 33, o + 41) =~= be_bytes(st.upload_rate as nat, 8));
    assert(q.subrange(o + 41, o + 45) =~= be_bytes(st.seeders as nat, 4));
    assert(q.subrange(o + 45, o + 49) =~= be_bytes(st.leechers as nat, 4));
}

/// Decoding the frame of a well-formed message that fits the ceiling gives
/// back that message, whatever bytes follow the frame.
pub proof fn lemma_round_trip(m: MessageView, rest: Seq<u8>)
    requires
        well_formed(m),
        fits(m),
    ensures
        parse_frame(frame_of(m) + rest) == Decoded::Frame(m, frame_of(m).len()),
{
    broadcast use vstd::utf8::encode_utf8_valid_utf8, vstd::utf8::encode_utf8_decode_utf8;

    lemma_pow256_facts();
    let p = payload_of(m);
    let b = frame_of(m) + rest;
    lemma_be_round_trip(p.len() + 1, 4);
    assert(b.subrange(0, 4) =~= be_bytes(p.len() + 1, 4));
    assert(b[4] == tag_of(m));
    assert(b.subrange(5, 5 + p.len() as int) =~= p);
    match m {
        MessageView::TorrentState(Some(st)) => {
            assert(p.drop_first() =~= state_bytes(st));
            lemma_state_round_trip(st);
        },
        _ => {},
    }
}

pub proof fn lemma_state_canonical(p: Seq<u8>)
    requires
        parse_state(p) is Some,
    ensures
        state_bytes(parse_state(p)->0) == p,
        parse_state(p)->0.info_hash.len() == 20,
{
    broadcast use vstd::utf8::decode_utf8_encode_utf8;

    lemma_pow256_facts();
    let st = parse_state(p)->0;
    let nl = be_value(p.subrange(20, 24)) as int;
    let o = 24 + nl;
    lemma_be_canonical(p.subrange(20, 24));
    lemma_be_canonical(p.subrange(o + 1, o + 9));
    lemma_be_canonical(p.subrange(o + 9, o + 17));
    lemma_be_canonical(p.subrange(o + 17, o + 25));
    lemma_be_canonical(p.subrange(o + 25, o + 33));
    lemma_be_canonical(p.subrange(o + 33, o + 41));
    lemma_be_canonical(p.subrange(o + 41, o + 45));
    lemma_be_canonical(p.subrange(o + 45, o + 49));
    lemma_be_value_bound(p.subrange(o + 1, o + 9));
    lemma_be_value_bound(p.subrange(o + 9, o + 17));
    lemma_be_value_bound(p.subrange(o + 17, o + 25));
    lemma_be_value_bound(p.subrange(o + 25, o + 33));
    lemma_be_value_bound(p.subrange(o + 33, o + 41));
    lemma_be_value_bound(p.subrange(o + 41, o + 45));
    lemma_be_value_bound(p.subrange(o + 45, o + 49));
    assert(encode_utf8(st.name) =~= p.subrange(24, o));
    assert(status_byte(st.status) == p[o]);
    assert(state_bytes(st) =~= p);
}

/// A frame that decodes is within the ceiling, and its bytes are exactly the
/// frame of the message it decodes to.
#[verifier::rlimit(50)]
pub proof fn lemma_frame_canonical(b: Seq<u8>)
    ensures
        parse_frame(b) matches Decoded::Frame(m, n) ==> {
            &&& fits(m)
            &&& well_formed(m)
            &&& n <= b.len()
            &&& b.subrange(0, n as int) == frame_of(m)
        },
{
    broadcast use vstd::utf8::decode_utf8_encode_utf8;

    if let Decoded::Frame(m, n) = parse_frame(b) {
        let k = be_value(b.subrange(0, 4)) as int;
        let p = b.subrange(5, 4 + k);
        lemma_be_canonical(b.subrange(0, 4));
        assert(parse_body(b[4], p) == Some(m));
        if b[4] == 2 && p.len() >= 1 && p[0] == 1 {
            lemma_state_canonical(p.drop_first());
            assert(payload_of(m) =~= p);
        }
        assert(payload_of(m) =~= p);
        assert(b.subrange(0, n as int) =~= frame_of(m));
    }
}

} // verus!
