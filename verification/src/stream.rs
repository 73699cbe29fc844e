//! A stream of frames: what all the frames in received bytes are, however the bytes arrive.
use crate::crc::law_burst_changes_checksum;
use crate::frame::{
    law_le32_round_trip, lemma_skip_to_sync, lemma_sync_or_last_bounds, try_extract_frame, TwoU32,
    FRAME_LEN, SYNC0,
};
use crate::frame::{
    first_pair, frame_of, le16, le32, le32_bytes, leftover, next_frame, payload_of,
    starts_with_frame, sync_at, sync_or_last,
};
use vstd::prelude::*;

verus! {

/// The numbers of all frames in `s`, in order.
pub open spec fn frames_in(s: Seq<u8>) -> Seq<TwoU32>
    decreases s.len(),
{
    if s.len() < FRAME_LEN {
        Seq::empty()
    } else if starts_with_frame(s) {
        seq![first_pair(s)] + frames_in(s.skip(FRAME_LEN as int))
    } else {
        frames_in(s.skip(1))
    }
}

/// The bytes after the last frame in `s`.
pub open spec fn after_frames(s: Seq<u8>) -> Seq<u8>
    decreases s.len(),
{
    match next_frame(s) {
        Some((_, rest)) => {
            proof {
                lemma_next_frame_shorter(s);
            }
            after_frames(rest)
        },
        None => s,
    }
}

/// What is kept of `s` once all its frames are taken out.
pub open spec fn pending(s: Seq<u8>) -> Seq<u8> {
    leftover(after_frames(s))
}

/// The bytes on the wire for `pairs`, one frame each.
pub open spec fn wire(pairs: Seq<TwoU32>) -> Seq<u8>
    decreases pairs.len(),
{
    if pairs.len() == 0 {
        Seq::empty()
    } else {
        frame_of(payload_of(pairs[0])) + wire(pairs.drop_first())
    }
}

/// A frame taken out takes its own bytes along.
pub proof fn lemma_next_frame_shorter(s: Seq<u8>)
    ensures
        next_frame(s) matches Some((_, rest)) ==> rest.len() + FRAME_LEN <= s.len(),
    decreases s.len(),
{
    if s.len() >= FRAME_LEN && !starts_with_frame(s) {
        lemma_next_frame_shorter(s.skip(1));
    }
}

/// The frames are the first one and those in the bytes that follow it.
pub proof fn lemma_frames_by_next(s: Seq<u8>)
    ensures
        frames_in(s) == match next_frame(s) {
            Some((pair, rest)) => seq![pair] + frames_in(rest),
            None => Seq::empty(),
        },
    decreases s.len(),
{
    if s.len() >= FRAME_LEN && !starts_with_frame(s) {
        lemma_frames_by_next(s.skip(1));
    }
}

/// Takes all whole frames out of `rx`, in order.
pub fn extract_frames(rx: &mut Vec<u8>) -> (pairs: Vec<TwoU32>)
    ensures
        pairs@ == frames_in(old(rx)@),
        final(rx)@ == pending(old(rx)@),
{
    let mut pairs: Vec<TwoU32> = Vec::new();
    loop
        invariant
            pairs@ + frames_in(rx@) == frames_in(old(rx)@),
            pending(rx@) == pending(old(rx)@),
        decreases rx@.len(),
    {
        let ghost s = rx@;
        proof {
            lemma_frames_by_next(s);
            lemma_next_frame_shorter(s);
        }
        match try_extract_frame(rx) {
            Some(pair) => {
                let ghost before = pairs@;
                pairs.push(pair);
                assert(before + (seq![pair] + frames_in(rx@)) =~= before.push(pair) + frames_in(
                    rx@,
                ));
            },
            None => {
                assert(pairs@ + Seq::<TwoU32>::empty() =~= pairs@);
                return pairs;
            },
        }
    }
}

/// What is kept is shorter than a frame: the buffer does not grow, whatever arrives.
pub proof fn law_pending_is_short(s: Seq<u8>)
    ensures
        pending(s).len() < FRAME_LEN,
{
    let t = after_frames(s);
    if t.len() >= FRAME_LEN {
        lemma_sync_or_last_bounds(t, t.len() - FRAME_LEN + 1);
    }
}

/// A frame that was built is read back: the numbers in it come out, and the bytes after it
/// are left as they are.
pub proof fn law_frame_round_trip(pair: TwoU32, rest: Seq<u8>)
    ensures
        next_frame(frame_of(payload_of(pair)) + rest) == Some((pair, rest)),
{
    let f = frame_of(payload_of(pair));
    let s = f + rest;
    let body = seq![SYNC0, crate::frame::SYNC1] + payload_of(pair);
    let a = le32_bytes(pair.a);
    let b = le32_bytes(pair.b);
    law_le32_round_trip(pair.a);
    law_le32_round_trip(pair.b);
    assert(f.len() == FRAME_LEN);
    assert(s.take(10) =~= body);
    assert(s[2] == a[0] && s[3] == a[1] && s[4] == a[2] && s[5] == a[3]);
    assert(s[6] == b[0] && s[7] == b[1] && s[8] == b[2] && s[9] == b[3]);
    assert(le16(s, 10) == crate::crc::crc_of(body));
    assert(starts_with_frame(s));
    assert(s.skip(FRAME_LEN as int) =~= rest);
}

/// A frame is determined by the numbers in it: building one from them gives the same bytes.
pub proof fn law_frame_is_determined(s: Seq<u8>)
    requires
        starts_with_frame(s),
    ensures
        frame_of(payload_of(first_pair(s))) == s.take(FRAME_LEN as int),
{
    let pair = first_pair(s);
    let body = seq![SYNC0, crate::frame::SYNC1] + payload_of(pair);
    lemma_le32_bytes_of(s, 2);
    lemma_le32_bytes_of(s, 6);
    assert(body =~= s.take(10));
    let f = frame_of(payload_of(pair));
    assert(f =~= s.take(FRAME_LEN as int));
}

/// Digits to the base 256 are found again.
proof fn lemma_base_256(b0: int, b1: int, b2: int, b3: int)
    requires
        0 <= b0 < 0x100,
        0 <= b1 < 0x100,
        0 <= b2 < 0x100,
        0 <= b3 < 0x100,
    ensures
        ({
            let x = b0 + 0x100 * b1 + 0x1_0000 * b2 + 0x100_0000 * b3;
            &&& 0 <= x <= u32::MAX
            &&& x % 0x100 == b0
            &&& x / 0x100 % 0x100 == b1
            &&& x / 0x1_0000 % 0x100 == b2
            &&& x / 0x100_0000 == b3
        }),
{
    let x = b0 + 0x100 * b1 + 0x1_0000 * b2 + 0x100_0000 * b3;
    assert(x / 0x100 == b1 + 0x100 * b2 + 0x1_0000 * b3);
    assert(x / 0x1_0000 == b2 + 0x100 * b3);
}

/// The bytes of a number read from four bytes are those bytes.
proof fn lemma_le32_bytes_of(s: Seq<u8>, at: int)
    requires
        0 <= at,
        at + 4 <= s.len(),
    ensures
        0 <= le32(s, at) <= u32::MAX,
        le32_bytes(le32(s, at) as u32) == s.subrange(at, at + 4),
{
    let (b0, b1, b2, b3) = (s[at] as int, s[at + 1] as int, s[at + 2] as int, s[at + 3] as int);
    let x = b0 + 0x100 * b1 + 0x1_0000 * b2 + 0x100_0000 * b3;
    lemma_base_256(b0, b1, b2, b3);
    let bytes = le32_bytes(x as u32);
    assert(bytes[0] == b0 && bytes[1] == b1 && bytes[2] == b2 && bytes[3] == b3);
    assert(bytes =~= s.subrange(at, at + 4));
}

/// A sequence of frames is read back in order, with nothing left over.
pub proof fn law_wire_round_trip(pairs: Seq<TwoU32>)
    ensures
        frames_in(wire(pairs)) == pairs,
        pending(wire(pairs)) == Seq::<u8>::empty(),
    decreases pairs.len(),
{
    let s = wire(pairs);
    lemma_frames_by_next(s);
    if pairs.len() > 0 {
        let rest = wire(pairs.drop_first());
        law_frame_round_trip(pairs[0], rest);
        law_wire_round_trip(pairs.drop_first());
        assert(seq![pairs[0]] + pairs.drop_first() =~= pairs);
    } else {
        assert(frames_in(s) =~= pairs);
    }
}

/// Bytes at none of whose places a frame starts are skipped: the frame that follows them is the
/// first one found.
pub proof fn law_noise_is_skipped(noise: Seq<u8>, pair: TwoU32, rest: Seq<u8>)
    requires
        forall|j: int|
            0 <= j < noise.len() ==> !starts_with_frame(
                #[trigger] (noise + (frame_of(payload_of(pair)) + rest)).skip(j),
            ),
    ensures
        next_frame(noise + (frame_of(payload_of(pair)) + rest)) == Some((pair, rest)),
    decreases noise.len(),
{
    let tail = frame_of(payload_of(pair)) + rest;
    let s = noise + tail;
    law_frame_round_trip(pair, rest);
    if noise.len() == 0 {
        assert(s =~= tail);
    } else {
        let shorter = noise.skip(1);
        assert(s.skip(0) =~= s);
        assert(!starts_with_frame(s.skip(0)));
        assert(s.skip(1) =~= shorter + tail);
        assert forall|j: int| 0 <= j < shorter.len() implies !starts_with_frame(
            #[trigger] (shorter + tail).skip(j),
        ) by {
            assert((shorter + tail).skip(j) =~= s.skip(j + 1));
        }
        law_noise_is_skipped(shorter, pair, rest);
    }
}

/// Noise in which the first sync byte does not occur is skipped, whatever follows it.
pub proof fn law_plain_noise_is_skipped(noise: Seq<u8>, rest: Seq<u8>)
    requires
        !noise.contains(SYNC0),
    ensures
        next_frame(noise + rest) == next_frame(rest),
{
    let s = noise + rest;
    let k = noise.len() as int;
    assert forall|j: int| 0 <= j < k implies !sync_at(s, j) by {
        assert(noise[j] != SYNC0);
    }
    lemma_skip_to_sync(s, k);
    assert(s.skip(k) =~= rest);
}

/// A damaged frame is not taken for a frame, if the damage stays within two neighbouring bytes
/// before the checksum, or within the checksum.
pub proof fn law_damaged_frame_is_rejected(s: Seq<u8>, damaged: Seq<u8>, at: int)
    requires
        starts_with_frame(s),
        damaged.len() == s.len(),
        damaged.take(FRAME_LEN as int) != s.take(FRAME_LEN as int),
        0 <= at <= 8 || at == 10,
        forall|i: int|
            0 <= i < FRAME_LEN && i != at && i != at + 1 ==> #[trigger] damaged[i] == s[i],
    ensures
        !starts_with_frame(damaged),
{
    let body = s.take(10);
    let other = damaged.take(10);
    if starts_with_frame(damaged) {
        if at == 10 {
            assert(body =~= other);
            assert(s[10] == damaged[10] && s[11] == damaged[11]);
            assert(damaged.take(FRAME_LEN as int) =~= s.take(FRAME_LEN as int));
        } else {
            if body == other {
                assert forall|i: int| 0 <= i < FRAME_LEN implies damaged[i] == s[i] by {
                    if i < 10 {
                        assert(body[i] == other[i]);
                    }
                }
                assert(damaged.take(FRAME_LEN as int) =~= s.take(FRAME_LEN as int));
            }
            law_burst_changes_checksum(crate::crc::CRC_INIT, body, other, at);
        }
    }
}

/// Bytes at which no frame starts can be dropped.
proof fn lemma_drop_no_frame(s: Seq<u8>, k: int)
    requires
        0 <= k <= s.len(),
        forall|j: int| 0 <= j < k ==> !starts_with_frame(#[trigger] s.skip(j)),
    ensures
        frames_in(s) == frames_in(s.skip(k)),
    decreases k,
{
    assert(s.skip(0) =~= s);
    if k > 0 {
        assert(!starts_with_frame(s.skip(0)));
        let t = s.skip(1);
        assert forall|j: int| 0 <= j < k - 1 implies !starts_with_frame(#[trigger] t.skip(j)) by {
            assert(t.skip(j) =~= s.skip(j + 1));
        }
        lemma_drop_no_frame(t, k - 1);
        assert(t.skip(k - 1) =~= s.skip(k));
    }
}

/// Without a frame in `s`, none starts at any of its places.
proof fn lemma_no_frame_anywhere(s: Seq<u8>, j: int)
    requires
        next_frame(s) is None,
        0 <= j <= s.len(),
    ensures
        !starts_with_frame(s.skip(j)),
    decreases j,
{
    assert(s.skip(0) =~= s);
    if j > 0 && s.len() >= FRAME_LEN {
        lemma_no_frame_anywhere(s.skip(1), j - 1);
        assert(s.skip(1).skip(j - 1) =~= s.skip(j));
    }
}

/// More bytes behind it do not change whether a frame starts here.
proof fn lemma_frame_extends(x: Seq<u8>, y: Seq<u8>)
    requires
        x.len() >= FRAME_LEN,
    ensures
        starts_with_frame(x + y) == starts_with_frame(x),
        first_pair(x + y) == first_pair(x),
{
    assert((x + y).take(10) =~= x.take(10));
}

/// No sync bytes stand between `from` and the place found.
proof fn lemma_no_sync_before(s: Seq<u8>, from: int, j: int)
    requires
        0 <= from <= j < sync_or_last(s, from),
    ensures
        !sync_at(s, j),
        j + 1 < s.len(),
    decreases j - from,
{
    if j > from {
        lemma_no_sync_before(s, from + 1, j);
    }
}

/// What is dropped of bytes without a frame cannot begin one, whatever follows.
proof fn lemma_leftover_suffices(x: Seq<u8>, y: Seq<u8>)
    requires
        next_frame(x) is None,
    ensures
        frames_in(x + y) == frames_in(leftover(x) + y),
{
    let s = x + y;
    let n = x.len() as int;
    if n < FRAME_LEN {
    } else {
        let from = n - FRAME_LEN + 1;
        let k = if sync_at(x, n - FRAME_LEN) {
            from
        } else {
            sync_or_last(x, from)
        };
        lemma_sync_or_last_bounds(x, from);
        assert forall|j: int| 0 <= j < k implies !starts_with_frame(#[trigger] s.skip(j)) by {
            if j < from {
                lemma_no_frame_anywhere(x, j);
                lemma_frame_extends(x.skip(j), y);
                assert(x.skip(j) + y =~= s.skip(j));
            } else {
                lemma_no_sync_before(x, from, j);
                assert(s[j] == x[j] && s[j + 1] == x[j + 1]);
            }
        }
        lemma_drop_no_frame(s, k);
        assert(s.skip(k) =~= leftover(x) + y);
    }
}

/// How the bytes are cut into reads makes no difference: the frames in `x` followed by `y` are
/// those in `x`, then those in what was kept of `x` followed by `y`.
pub proof fn law_reads_may_be_cut(x: Seq<u8>, y: Seq<u8>)
    ensures
        frames_in(x + y) == frames_in(x) + frames_in(pending(x) + y),
    decreases x.len(),
{
    lemma_frames_by_next(x);
    if next_frame(x) is None {
        lemma_leftover_suffices(x, y);
        assert(Seq::<TwoU32>::empty() + frames_in(leftover(x) + y) =~= frames_in(
            leftover(x) + y,
        ));
    } else if starts_with_frame(x) {
        let rest = x.skip(FRAME_LEN as int);
        law_reads_may_be_cut(rest, y);
        lemma_frame_extends(x, y);
        assert((x + y).skip(FRAME_LEN as int) =~= rest + y);
        assert(seq![first_pair(x)] + (frames_in(rest) + frames_in(pending(x) + y)) =~= (seq![
            first_pair(x),
        ] + frames_in(rest)) + frames_in(pending(x) + y));
    } else {
        let rest = x.skip(1);
        law_reads_may_be_cut(rest, y);
        lemma_frame_extends(x, y);
        assert((x + y).skip(1) =~= rest + y);
    }
}

/// The frame of `pair` stands at `at`.
pub open spec fn frame_at(s: Seq<u8>, at: int, pair: TwoU32) -> bool {
    &&& 0 <= at
    &&& at + 12 <= s.len()
    &&& s.subrange(at, at + 12) == frame_of(payload_of(pair))
}

/// Where the frame of a pair stands, a frame starts.
proof fn lemma_frame_at_starts(s: Seq<u8>, at: int, pair: TwoU32)
    requires
        frame_at(s, at, pair),
    ensures
        starts_with_frame(s.skip(at)),
        first_pair(s.skip(at)) == pair,
{
    let t = s.skip(at);
    let f = frame_of(payload_of(pair));
    let rest = t.skip(12);
    assert(t =~= f + rest);
    law_frame_round_trip(pair, rest);
    assert(f[0] == SYNC0);
    let body = seq![SYNC0, crate::frame::SYNC1] + payload_of(pair);
    assert(t.take(10) =~= body);
}

/// The frame that is found is the first in the bytes: it is there, with just what follows it
/// left over, and no frame of any pair stands before it. If none is found, there is none.
pub proof fn law_first_frame_is_found(s: Seq<u8>)
    ensures
        match next_frame(s) {
            Some((pair, rest)) => {
                let at = s.len() - 12 - rest.len();
                &&& frame_at(s, at, pair)
                &&& rest == s.skip(at + 12)
                &&& forall|k: int, other: TwoU32| k < at ==> !frame_at(s, k, other)
            },
            None => forall|k: int, other: TwoU32| !frame_at(s, k, other),
        },
    decreases s.len(),
{
    if s.len() >= FRAME_LEN {
        assert(s.skip(0) =~= s);
        if starts_with_frame(s) {
            law_frame_is_determined(s);
            assert(s.subrange(0, 12) =~= s.take(FRAME_LEN as int));
        } else {
            let t = s.skip(1);
            law_first_frame_is_found(t);
            assert forall|k: int, other: TwoU32| frame_at(s, k, other) implies k >= 1 && frame_at(
                t,
                k - 1,
                other,
            ) by {
                lemma_frame_at_starts(s, k, other);
                assert(t.subrange(k - 1, k + 11) =~= s.subrange(k, k + 12));
            }
            if let Some((pair, rest)) = next_frame(s) {
                let at = s.len() - 12 - rest.len();
                assert(t.subrange(at - 1, at + 11) =~= s.subrange(at, at + 12));
                assert(t.skip(at + 11) =~= s.skip(at + 12));
                assert forall|k: int, other: TwoU32| k < at implies !frame_at(s, k, other) by {
                    if frame_at(s, k, other) {
                        assert(frame_at(t, k - 1, other));
                    }
                }
            }
        }
    }
}

/// The frames are found one by one, each in what the one before has left over, and what is kept
/// in the end is what is kept of that.
pub proof fn law_frames_are_found_in_turn(s: Seq<u8>)
    ensures
        match next_frame(s) {
            Some((pair, rest)) => frames_in(s) == seq![pair] + frames_in(rest) && pending(s)
                == pending(rest),
            None => frames_in(s) == Seq::<TwoU32>::empty(),
        },
{
    lemma_frames_by_next(s);
}

/// What is kept of bytes without a frame are the last of them. If they are fewer than a frame
/// has, all are kept. Otherwise, counting from the end: if sync bytes stand where a whole frame
/// would start, all but the first of its bytes are kept; else everything from the first sync
/// bytes after that place, or the very last byte if there are none.
pub proof fn law_start_of_a_frame_is_kept(s: Seq<u8>)
    requires
        next_frame(s) is None,
    ensures
        ({
            let n = s.len() as int;
            let m = pending(s).len() as int;
            &&& m <= n
            &&& pending(s) == s.skip(n - m)
            &&& n < 12 ==> m == n
            &&& n >= 12 && s[n - 12] == 0xA5 && s[n - 11] == 0x5A ==> m == 11
            &&& n >= 12 && !(s[n - 12] == 0xA5 && s[n - 11] == 0x5A) ==> {
                &&& 1 <= m <= 11
                &&& m == 1 || (s[n - m] == 0xA5 && s[n - m + 1] == 0x5A)
                &&& forall|j: int|
                    n - 11 <= j < n - m ==> !(#[trigger] s[j] == 0xA5 && s[j + 1] == 0x5A)
            }
        }),
{
    let n = s.len() as int;
    assert(s.skip(0) =~= s);
    if n >= FRAME_LEN && !sync_at(s, n - FRAME_LEN) {
        let from = n - FRAME_LEN + 1;
        let k = sync_or_last(s, from);
        lemma_sync_or_last_bounds(s, from);
        lemma_sync_or_last_is_either(s, from);
        assert forall|j: int| n - 11 <= j < k implies !(#[trigger] s[j] == 0xA5 && s[j + 1]
            == 0x5A) by {
            lemma_no_sync_before(s, from, j);
        }
    }
}

/// The place found is that of sync bytes, or of the last byte.
proof fn lemma_sync_or_last_is_either(s: Seq<u8>, from: int)
    requires
        0 <= from < s.len(),
    ensures
        sync_at(s, sync_or_last(s, from)) || sync_or_last(s, from) + 1 == s.len(),
    decreases s.len() - from,
{
    if from + 1 < s.len() && !sync_at(s, from) {
        lemma_sync_or_last_is_either(s, from + 1);
    }
}

} // verus!
