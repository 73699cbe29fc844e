//! Frames on the wire: two sync bytes, two little-endian numbers, and the checksum of both.
use crate::crc::crc16_ccitt_false;
use vstd::prelude::*;
use vstd::slice::slice_subrange;

verus! {

/// The first byte of every frame.
pub const SYNC0: u8 = 0xA5;

/// The second byte of every frame.
pub const SYNC1: u8 = 0x5A;

/// The length of a frame: sync bytes, payload and checksum.
pub const FRAME_LEN: usize = 2 + 8 + 2;

/// The two numbers that a frame carries.
#[derive(Debug, Clone, Copy, PartialEq, Eq, Structural)]
pub struct TwoU32 {
    pub a: u32,
    pub b: u32,
}

/// The 16-bit number whose little-endian bytes stand at `at`.
pub open spec fn le16(s: Seq<u8>, at: int) -> int {
    s[at] + 0x100 * s[at + 1]
}

/// The 32-bit number whose little-endian bytes stand at `at`.
pub open spec fn le32(s: Seq<u8>, at: int) -> int {
    s[at] + 0x100 * s[at + 1] + 0x1_0000 * s[at + 2] + 0x100_0000 * s[at + 3]
}

/// The two little-endian bytes of `x`.
pub open spec fn le16_bytes(x: u16) -> Seq<u8> {
    seq![(x % 0x100) as u8, (x / 0x100) as u8]
}

/// The four little-endian bytes of `x`.
pub open spec fn le32_bytes(x: u32) -> Seq<u8> {
    seq![
        (x % 0x100) as u8,
        (x / 0x100 % 0x100) as u8,
        (x / 0x1_0000 % 0x100) as u8,
        (x / 0x100_0000) as u8,
    ]
}

/// The payload that carries `pair`.
pub open spec fn payload_of(pair: TwoU32) -> Seq<u8> {
    le32_bytes(pair.a) + le32_bytes(pair.b)
}

/// The frame around `payload`.
pub open spec fn frame_of(payload: Seq<u8>) -> Seq<u8> {
    let body = seq![SYNC0, SYNC1] + payload;
    body + le16_bytes(crate::crc::crc_of(body))
}

/// The two sync bytes stand at `at`.
pub open spec fn sync_at(s: Seq<u8>, at: int) -> bool {
    0 <= at && at + 1 < s.len() && s[at] == SYNC0 && s[at + 1] == SYNC1
}

/// `s` starts with a whole frame whose checksum is right.
pub open spec fn starts_with_frame(s: Seq<u8>) -> bool {
    &&& s.len() >= FRAME_LEN
    &&& sync_at(s, 0)
    &&& le16(s, 10) == crate::crc::crc_of(s.take(10))
}

/// The two numbers in the frame at the start of `s`.
pub open spec fn first_pair(s: Seq<u8>) -> TwoU32 {
    TwoU32 { a: le32(s, 2) as u32, b: le32(s, 6) as u32 }
}

/// The first frame in `s`, wherever it starts: its numbers, and the bytes that follow it.
pub open spec fn next_frame(s: Seq<u8>) -> Option<(TwoU32, Seq<u8>)>
    decreases s.len(),
{
    if s.len() < FRAME_LEN {
        None
    } else if starts_with_frame(s) {
        Some((first_pair(s), s.skip(FRAME_LEN as int)))
    } else {
        next_frame(s.skip(1))
    }
}

/// The first place from `from` on where sync bytes stand, or else the place of the last byte.
pub open spec fn sync_or_last(s: Seq<u8>, from: int) -> int
    decreases s.len() - from,
{
    if from + 1 >= s.len() || sync_at(s, from) {
        from
    } else {
        sync_or_last(s, from + 1)
    }
}

/// What is worth keeping of `s` when it holds no whole frame: the bytes with which a frame
/// may have begun. Fewer bytes than a frame has are all kept.
pub open spec fn leftover(s: Seq<u8>) -> Seq<u8> {
    let n = s.len() as int;
    if n < FRAME_LEN {
        s
    } else if sync_at(s, n - FRAME_LEN) {
        s.skip(n - FRAME_LEN + 1)
    } else {
        s.skip(sync_or_last(s, n - FRAME_LEN + 1))
    }
}

/// The bytes of a number make up that number again.
pub proof fn law_le32_round_trip(x: u32)
    ensures
        le32_bytes(x).len() == 4,
        le32(le32_bytes(x), 0) == x,
{
    let y = x as int;
    assert(y == y % 0x100 + 0x100 * (y / 0x100 % 0x100) + 0x1_0000 * (y / 0x1_0000 % 0x100)
        + 0x100_0000 * (y / 0x100_0000));
}

/// A frame is twelve bytes: A5 5A, the payload, and the checksum of these ten, low byte first.
/// So the ten bytes followed by the checksum's high byte and low byte leave no remainder.
pub proof fn law_frame_holds_payload(payload: Seq<u8>)
    requires
        payload.len() == 8,
    ensures
        ({
            let f = frame_of(payload);
            &&& f.len() == 12
            &&& f[0] == 0xA5
            &&& f[1] == 0x5A
            &&& f.subrange(2, 10) == payload
            &&& f[10] + 0x100 * f[11] == crate::crc::crc_of(f.take(10))
            &&& crate::crc::crc_of(f.take(10) + seq![f[11], f[10]]) == 0
        }),
{
    let f = frame_of(payload);
    let body = seq![SYNC0, SYNC1] + payload;
    assert(f.take(10) =~= body);
    assert(f.subrange(2, 10) =~= payload);
    crate::crc::law_checksum_is_remainder(body, f[11], f[10]);
}

/// In the frame of a pair, the first number stands in the four bytes after the sync bytes and
/// the second in the next four, each with its lowest byte first.
pub proof fn law_frame_holds_pair(pair: TwoU32)
    ensures
        ({
            let f = frame_of(payload_of(pair));
            &&& payload_of(pair).len() == 8
            &&& f[2] + 0x100 * f[3] + 0x1_0000 * f[4] + 0x100_0000 * f[5] == pair.a
            &&& f[6] + 0x100 * f[7] + 0x1_0000 * f[8] + 0x100_0000 * f[9] == pair.b
        }),
{
    let f = frame_of(payload_of(pair));
    let a = le32_bytes(pair.a);
    let b = le32_bytes(pair.b);
    law_le32_round_trip(pair.a);
    law_le32_round_trip(pair.b);
    assert(f[2] == a[0] && f[3] == a[1] && f[4] == a[2] && f[5] == a[3]);
    assert(f[6] == b[0] && f[7] == b[1] && f[8] == b[2] && f[9] == b[3]);
}

/// The frame around an 8-byte payload.
pub fn build_frame(payload: &[u8; 8]) -> (frame: [u8; FRAME_LEN])
    ensures
        frame@ == frame_of(payload@),
{
    let body: [u8; 10] = [
        SYNC0,
        SYNC1,
        payload[0],
        payload[1],
        payload[2],
        payload[3],
        payload[4],
        payload[5],
        payload[6],
        payload[7],
    ];
    assert(body@ =~= seq![SYNC0, SYNC1] + payload@);
    let crc: u16 = crc16_ccitt_false(body.as_slice());
    let frame: [u8; FRAME_LEN] = [
        body[0],
        body[1],
        body[2],
        body[3],
        body[4],
        body[5],
        body[6],
        body[7],
        body[8],
        body[9],
        (crc % 0x100) as u8,
        (crc / 0x100) as u8,
    ];
    assert(frame@ =~= frame_of(payload@));
    frame
}

/// The 32-bit number whose little-endian bytes stand at `at`.
fn read_le32(s: &[u8], at: usize) -> (x: u32)
    requires
        at + 4 <= s@.len(),
    ensures
        x == le32(s@, at as int),
{
    s[at] as u32 + 0x100 * s[at + 1] as u32 + 0x1_0000 * s[at + 2] as u32 + 0x100_0000 * s[at
        + 3] as u32
}

/// Drops the first `n` bytes.
fn drop_front(rx: &mut Vec<u8>, n: usize)
    requires
        n <= old(rx)@.len(),
    ensures
        final(rx)@ == old(rx)@.skip(n as int),
{
    let rest = rx.split_off(n);
    *rx = rest;
}

/// Bytes before the first sync bytes hold no frame.
pub(crate) proof fn lemma_skip_to_sync(s: Seq<u8>, k: int)
    requires
        0 <= k <= s.len(),
        forall|j: int| 0 <= j < k ==> !sync_at(s, j),
    ensures
        next_frame(s) == next_frame(s.skip(k)),
    decreases k,
{
    if k == 0 {
        assert(s.skip(0) =~= s);
    } else {
        let t = s.skip(1);
        assert(!sync_at(s, 0));
        assert forall|j: int| 0 <= j < k - 1 implies !sync_at(t, j) by {
            assert(!sync_at(s, j + 1));
        }
        lemma_skip_to_sync(t, k - 1);
        assert(t.skip(k - 1) =~= s.skip(k));
        if s.len() < FRAME_LEN {
            assert(s.skip(k).len() < FRAME_LEN);
        }
    }
}

/// Where the sync bytes are looked for, given that none stand before `k`.
pub(crate) proof fn lemma_sync_or_last(s: Seq<u8>, from: int, k: int)
    requires
        0 <= from <= k < s.len(),
        forall|j: int| from <= j < k ==> !sync_at(s, j),
        sync_at(s, k) || k + 1 == s.len(),
    ensures
        sync_or_last(s, from) == k,
    decreases k - from,
{
    if from < k {
        assert(!sync_at(s, from));
        lemma_sync_or_last(s, from + 1, k);
    }
}

/// Skipping bytes moves the places, and nothing else.
proof fn lemma_sync_or_last_skip(s: Seq<u8>, n: int, from: int)
    requires
        0 <= n <= s.len(),
        0 <= from,
    ensures
        sync_or_last(s.skip(n), from) == sync_or_last(s, from + n) - n,
    decreases s.len() - n - from,
{
    let t = s.skip(n);
    if from + 1 < t.len() {
        assert(sync_at(t, from) == sync_at(s, from + n));
        if !sync_at(t, from) {
            lemma_sync_or_last_skip(s, n, from + 1);
        }
    }
}

/// What is kept depends on the last bytes only, as many as a frame has.
proof fn lemma_leftover_skip(s: Seq<u8>, n: int)
    requires
        0 <= n,
        n + FRAME_LEN <= s.len(),
    ensures
        leftover(s.skip(n)) == leftover(s),
{
    let t = s.skip(n);
    let at = t.len() - FRAME_LEN;
    assert(sync_at(t, at) == sync_at(s, at + n));
    lemma_sync_or_last_skip(s, n, at + 1);
    lemma_sync_or_last_bounds(s, at + n + 1);
    assert(t.skip(at + 1) =~= s.skip(at + n + 1));
    let k = sync_or_last(s, at + n + 1);
    assert(t.skip(k - n) =~= s.skip(k));
}

/// The place found lies within the bytes.
pub(crate) proof fn lemma_sync_or_last_bounds(s: Seq<u8>, from: int)
    requires
        0 <= from < s.len(),
    ensures
        from <= sync_or_last(s, from) < s.len(),
    decreases s.len() - from,
{
    if from + 1 < s.len() && !sync_at(s, from) {
        lemma_sync_or_last_bounds(s, from + 1);
    }
}

/// Takes the first whole frame out of `rx`, with everything before it. Bytes that cannot
/// belong to a frame are dropped; those with which a frame may begin are kept.
pub fn try_extract_frame(rx: &mut Vec<u8>) -> (pair: Option<TwoU32>)
    ensures
        match next_frame(old(rx)@) {
            Some((first, rest)) => pair == Some(first) && final(rx)@ == rest,
            None => pair is None && final(rx)@ == leftover(old(rx)@),
        },
{
    loop
        invariant
            next_frame(rx@) == next_frame(old(rx)@),
            leftover(rx@) == leftover(old(rx)@),
        decreases rx@.len(),
    {
        if rx.len() < FRAME_LEN {
            return None;
        }
        let ghost s = rx@;
        let mut i: usize = 0;
        while i + 1 < rx.len() && !(rx[i] == SYNC0 && rx[i + 1] == SYNC1)
            invariant
                rx@ == s,
                0 <= i < rx.len(),
                forall|j: int| 0 <= j < i ==> !sync_at(s, j),
            decreases s.len() - i,
        {
            i = i + 1;
        }
        proof {
            lemma_skip_to_sync(s, i as int);
        }
        if i + 1 >= rx.len() {
            let last = rx[rx.len() - 1];
            rx.clear();
            rx.push(last);
            proof {
                assert(next_frame(s) is None);
                lemma_sync_or_last(s, s.len() - FRAME_LEN + 1, s.len() - 1);
                assert(rx@ =~= s.skip(s.len() - 1));
            }
            return None;
        }
        if i > 0 {
            drop_front(rx, i);
        }
        assert(rx@ =~= s.skip(i as int));
        proof {
            if i + FRAME_LEN <= s.len() {
                lemma_leftover_skip(s, i as int);
            } else {
                lemma_sync_or_last(s, s.len() - FRAME_LEN + 1, i as int);
            }
        }
        if rx.len() < FRAME_LEN {
            return None;
        }
        let ghost t = rx@;
        let crc_expected: u16 = rx[10] as u16 + 0x100 * rx[11] as u16;
        let crc_calc: u16 = crc16_ccitt_false(slice_subrange(rx.as_slice(), 0, 10));
        assert(t.subrange(0, 10) =~= t.take(10));
        if crc_calc != crc_expected {
            drop_front(rx, 1);
            proof {
                if t.len() > FRAME_LEN {
                    lemma_leftover_skip(t, 1);
                }
            }
            continue ;
        }
        let a: u32 = read_le32(rx.as_slice(), 2);
        let b: u32 = read_le32(rx.as_slice(), 6);
        drop_front(rx, FRAME_LEN);
        return Some(TwoU32 { a, b });
    }
}

} // verus!
