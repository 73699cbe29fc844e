//! The checksum of a frame: CRC-16/CCITT-FALSE.
use vstd::prelude::*;

verus! {

/// The checksum register before the first bit.
pub const CRC_INIT: u16 = 0xFFFF;

/// The generator polynomial x^16 + x^12 + x^5 + 1, without its leading term.
pub const CRC_POLY: u16 = 0x1021;

/// The register after one more message bit: a step of the long division by the generator.
pub open spec fn feed_bit(crc: u16, bit: u16) -> u16 {
    if ((crc >> 15) & 1) ^ (bit & 1) == 1 {
        (crc << 1) ^ CRC_POLY
    } else {
        crc << 1
    }
}

/// The register after the eight bits of a byte, the most significant one first.
pub open spec fn feed_byte(crc: u16, byte: u8) -> u16 {
    let b = byte as u16;
    let c7 = feed_bit(crc, b >> 7);
    let c6 = feed_bit(c7, b >> 6);
    let c5 = feed_bit(c6, b >> 5);
    let c4 = feed_bit(c5, b >> 4);
    let c3 = feed_bit(c4, b >> 3);
    let c2 = feed_bit(c3, b >> 2);
    let c1 = feed_bit(c2, b >> 1);
    feed_bit(c1, b)
}

/// The register `crc` after all bytes of `data`, in order.
pub open spec fn feed(crc: u16, data: Seq<u8>) -> u16
    decreases data.len(),
{
    if data.len() == 0 {
        crc
    } else {
        feed_byte(feed(crc, data.drop_last()), data.last())
    }
}

/// The checksum of `data`.
pub open spec fn crc_of(data: Seq<u8>) -> u16 {
    feed(CRC_INIT, data)
}

/// One shift of the register, with no message bit coming in.
spec fn shift(crc: u16) -> u16 {
    if (crc & 0x8000) != 0 {
        (crc << 1) ^ CRC_POLY
    } else {
        crc << 1
    }
}

/// The register after `n` shifts.
spec fn shifts(crc: u16, n: nat) -> u16
    decreases n,
{
    if n == 0 {
        crc
    } else {
        shift(shifts(crc, (n - 1) as nat))
    }
}

/// Adding a byte to the top of the register and shifting eight times feeds its eight bits.
proof fn lemma_byte_at_once(crc: u16, byte: u8)
    ensures
        shifts(crc ^ ((byte as u16) << 8), 8) == feed_byte(crc, byte),
{
    let x = crc ^ ((byte as u16) << 8);
    reveal_with_fuel(shifts, 9);
    assert(shift(shift(shift(shift(shift(shift(shift(shift(crc ^ ((byte as u16) << 8)))))))))
        == feed_byte(crc, byte)) by (bit_vector);
}

/// The CRC-16/CCITT-FALSE checksum of `data`.
pub fn crc16_ccitt_false(data: &[u8]) -> (crc: u16)
    ensures
        crc == crc_of(data@),
{
    let mut crc: u16 = CRC_INIT;
    let mut i: usize = 0;
    while i < data.len()
        invariant
            0 <= i <= data@.len(),
            crc == feed(CRC_INIT, data@.take(i as int)),
        decreases data@.len() - i,
    {
        let ghost before = crc;
        let byte = data[i];
        crc = crc ^ ((byte as u16) << 8);
        let ghost mixed = crc;
        let mut n: u8 = 0;
        while n < 8
            invariant
                0 <= n <= 8,
                crc == shifts(mixed, n as nat),
            decreases 8 - n,
        {
            if (crc & 0x8000) != 0 {
                crc = (crc << 1) ^ CRC_POLY;
            } else {
                crc = crc << 1;
            }
            n = n + 1;
        }
        proof {
            lemma_byte_at_once(before, byte);
            assert(data@.take(i + 1).drop_last() =~= data@.take(i as int));
        }
        i = i + 1;
    }
    assert(data@.take(i as int) =~= data@);
    crc
}

/// Shifting is linear: it commutes with the sum of registers.
proof fn lemma_shifts_linear(c: u16, d: u16, n: nat)
    ensures
        shifts(c ^ d, n) == shifts(c, n) ^ shifts(d, n),
    decreases n,
{
    if n > 0 {
        let m = (n - 1) as nat;
        lemma_shifts_linear(c, d, m);
        let x = shifts(c, m);
        let y = shifts(d, m);
        assert(shift(x ^ y) == shift(x) ^ shift(y)) by (bit_vector);
    }
}

/// Shifting keeps different registers different.
proof fn lemma_shifts_injective(c: u16, d: u16, n: nat)
    requires
        shifts(c, n) == shifts(d, n),
    ensures
        c == d,
    decreases n,
{
    if n > 0 {
        let m = (n - 1) as nat;
        let x = shifts(c, m);
        let y = shifts(d, m);
        assert(shift(x) == shift(y) ==> x == y) by (bit_vector);
        lemma_shifts_injective(c, d, m);
    }
}

/// The low byte of the register moves to the top in eight shifts, with no feedback.
proof fn lemma_low_byte_moves_up(byte: u8)
    ensures
        shifts(byte as u16, 8) == (byte as u16) << 8,
{
    reveal_with_fuel(shifts, 9);
    assert(shift(shift(shift(shift(shift(shift(shift(shift(byte as u16)))))))) == (byte as u16)
        << 8) by (bit_vector);
}

/// Feeding one byte keeps different registers different.
proof fn lemma_register_kept(c: u16, d: u16, byte: u8)
    requires
        feed_byte(c, byte) == feed_byte(d, byte),
    ensures
        c == d,
{
    let b = (byte as u16) << 8;
    lemma_byte_at_once(c, byte);
    lemma_byte_at_once(d, byte);
    lemma_shifts_injective(c ^ b, d ^ b, 8);
    assert(c ^ b == d ^ b ==> c == d) by (bit_vector);
}

/// From one register, different bytes lead to different registers.
proof fn lemma_byte_kept(crc: u16, byte: u8, other: u8)
    requires
        feed_byte(crc, byte) == feed_byte(crc, other),
    ensures
        byte == other,
{
    lemma_byte_at_once(crc, byte);
    lemma_byte_at_once(crc, other);
    lemma_shifts_injective(crc ^ ((byte as u16) << 8), crc ^ ((other as u16) << 8), 8);
    assert(crc ^ ((byte as u16) << 8) == crc ^ ((other as u16) << 8) ==> byte == other)
        by (bit_vector);
}

/// Feeding two bytes is adding them to the register and shifting eight times, twice over.
proof fn lemma_two_bytes_at_once(crc: u16, hi: u8, lo: u8)
    ensures
        feed_byte(feed_byte(crc, hi), lo) == shifts(
            shifts((crc ^ ((hi as u16) << 8)) ^ (lo as u16), 8),
            8,
        ),
{
    let mid = feed_byte(crc, hi);
    lemma_byte_at_once(crc, hi);
    lemma_byte_at_once(mid, lo);
    lemma_low_byte_moves_up(lo);
    lemma_shifts_linear(crc ^ ((hi as u16) << 8), lo as u16, 8);
}

/// From one register, different pairs of bytes lead to different registers.
proof fn lemma_two_bytes_kept(crc: u16, b1: u8, b2: u8, d1: u8, d2: u8)
    requires
        feed_byte(feed_byte(crc, b1), b2) == feed_byte(feed_byte(crc, d1), d2),
    ensures
        b1 == d1,
        b2 == d2,
{
    let b = (crc ^ ((b1 as u16) << 8)) ^ (b2 as u16);
    let d = (crc ^ ((d1 as u16) << 8)) ^ (d2 as u16);
    lemma_two_bytes_at_once(crc, b1, b2);
    lemma_two_bytes_at_once(crc, d1, d2);
    lemma_shifts_injective(shifts(b, 8), shifts(d, 8), 8);
    lemma_shifts_injective(b, d, 8);
    assert((crc ^ ((b1 as u16) << 8)) ^ (b2 as u16) == (crc ^ ((d1 as u16) << 8)) ^ (d2 as u16)
        ==> b1 == d1 && b2 == d2) by (bit_vector);
}

/// Damage that stays within two neighbouring bytes always changes the register, so the
/// checksum of `damaged` differs from that of `data` whenever the two differ at all.
pub proof fn law_burst_changes_checksum(crc: u16, data: Seq<u8>, damaged: Seq<u8>, at: int)
    requires
        data.len() == damaged.len(),
        data != damaged,
        forall|i: int|
            0 <= i < data.len() && i != at && i != at + 1 ==> #[trigger] data[i] == damaged[i],
    ensures
        feed(crc, data) != feed(crc, damaged),
    decreases data.len(),
{
    let n = data.len() as int;
    if n == 0 {
        assert(data =~= damaged);
    } else if at + 1 < n - 1 || n <= at {
        assert(data.last() == damaged.last());
        if data.drop_last() == damaged.drop_last() {
            assert(data =~= data.drop_last().push(data.last()));
            assert(damaged =~= damaged.drop_last().push(damaged.last()));
        }
        law_burst_changes_checksum(crc, data.drop_last(), damaged.drop_last(), at);
        if feed(crc, data) == feed(crc, damaged) {
            lemma_register_kept(
                feed(crc, data.drop_last()),
                feed(crc, damaged.drop_last()),
                data.last(),
            );
        }
    } else if at == n - 1 || n == 1 {
        assert(data.drop_last() =~= damaged.drop_last());
        if feed(crc, data) == feed(crc, damaged) {
            lemma_byte_kept(feed(crc, data.drop_last()), data.last(), damaged.last());
            assert(data =~= damaged);
        }
    } else {
        let head = data.drop_last().drop_last();
        assert(head =~= damaged.drop_last().drop_last());
        if feed(crc, data) == feed(crc, damaged) {
            assert(feed(crc, data.drop_last()) == feed_byte(feed(crc, head), data[n - 2]));
            assert(feed(crc, damaged.drop_last()) == feed_byte(feed(crc, head), damaged[n - 2]));
            lemma_two_bytes_kept(
                feed(crc, head),
                data[n - 2],
                data.last(),
                damaged[n - 2],
                damaged.last(),
            );
            assert(data =~= damaged);
        }
    }
}

/// No shift brings anything into an empty register.
proof fn lemma_empty_register_shifts(n: nat)
    ensures
        shifts(0, n) == 0,
    decreases n,
{
    if n > 0 {
        lemma_empty_register_shifts((n - 1) as nat);
        assert(shift(0) == 0) by (bit_vector);
    }
}

/// Feeding a byte is linear: it commutes with the sum of registers and of bytes.
proof fn lemma_byte_linear(c: u16, d: u16, b: u8, e: u8)
    ensures
        feed_byte(c ^ d, b ^ e) == feed_byte(c, b) ^ feed_byte(d, e),
{
    let x = c ^ ((b as u16) << 8);
    let y = d ^ ((e as u16) << 8);
    lemma_byte_at_once(c, b);
    lemma_byte_at_once(d, e);
    lemma_byte_at_once(c ^ d, b ^ e);
    lemma_shifts_linear(x, y, 8);
    assert((c ^ d) ^ (((b ^ e) as u16) << 8) == (c ^ ((b as u16) << 8)) ^ (d ^ ((e as u16) << 8)))
        by (bit_vector);
}

/// Feeding bytes one after the other.
proof fn lemma_feed_in_turn(crc: u16, x: Seq<u8>, y: Seq<u8>)
    ensures
        feed(crc, x + y) == feed(feed(crc, x), y),
    decreases y.len(),
{
    if y.len() == 0 {
        assert(x + y =~= x);
    } else {
        lemma_feed_in_turn(crc, x, y.drop_last());
        assert((x + y).drop_last() =~= x + y.drop_last());
    }
}

/// The checksum is the remainder of the division by the generator: of all pairs of bytes, its
/// own high byte and low byte are the only ones that make the checksum zero when they follow
/// the data.
pub proof fn law_checksum_is_remainder(data: Seq<u8>, hi: u8, lo: u8)
    ensures
        crc_of(data + seq![hi, lo]) == 0 <==> crc_of(data) == 0x100 * hi + lo,
{
    let all = data + seq![hi, lo];
    let crc = crc_of(data);
    assert(all.drop_last().drop_last() =~= data);
    assert(feed(CRC_INIT, all.drop_last()) == feed_byte(crc, hi));
    let mixed = (crc ^ ((hi as u16) << 8)) ^ (lo as u16);
    lemma_two_bytes_at_once(crc, hi, lo);
    lemma_empty_register_shifts(8);
    if shifts(shifts(mixed, 8), 8) == 0 {
        lemma_shifts_injective(shifts(mixed, 8), 0, 8);
        lemma_shifts_injective(mixed, 0, 8);
    }
    assert((crc ^ ((hi as u16) << 8)) ^ (lo as u16) == 0 <==> crc == 0x100 * hi + lo)
        by (bit_vector);
}

/// The sum of three pieces of data, bit by bit.
pub open spec fn sum_of(x: Seq<u8>, y: Seq<u8>, z: Seq<u8>) -> Seq<u8> {
    Seq::new(x.len(), |i: int| x[i] ^ y[i] ^ z[i])
}

/// For data of one length, the checksum of a sum of three is the sum of the three checksums.
pub proof fn law_checksum_is_affine(x: Seq<u8>, y: Seq<u8>, z: Seq<u8>)
    requires
        x.len() == y.len() == z.len(),
    ensures
        crc_of(sum_of(x, y, z)) == crc_of(x) ^ crc_of(y) ^ crc_of(z),
    decreases x.len(),
{
    let all = sum_of(x, y, z);
    if x.len() == 0 {
        let c = CRC_INIT;
        assert(c ^ c ^ c == c) by (bit_vector);
    } else {
        let (p, q, r) = (x.drop_last(), y.drop_last(), z.drop_last());
        law_checksum_is_affine(p, q, r);
        assert(all.drop_last() =~= sum_of(p, q, r));
        lemma_byte_linear(crc_of(p), crc_of(q), x.last(), y.last());
        lemma_byte_linear(crc_of(p) ^ crc_of(q), crc_of(r), x.last() ^ y.last(), z.last());
    }
}

/// The generator itself leaves an empty register empty, wherever it stands in three bytes.
proof fn lemma_generator_leaves_nothing(s: u32)
    requires
        s < 8,
    ensures
        ({
            let g = 0x1_1021u32 << s;
            feed_byte(feed_byte(feed_byte(0, (g >> 16) as u8), (g >> 8) as u8), g as u8) == 0
        }),
{
    let g = 0x1_1021u32 << s;
    let (g2, g1, g0) = ((g >> 16) as u8, (g >> 8) as u8, g as u8);
    let zero: u16 = 0;
    let top = (zero ^ ((g2 as u16) << 8)) ^ (g1 as u16);
    assert(top == (g >> 8) as u16 && g0 == g as u8) by (bit_vector)
        requires
            g2 == (g >> 16) as u8,
            g1 == (g >> 8) as u8,
            g0 == g as u8,
            zero == 0,
            top == (zero ^ ((g2 as u16) << 8)) ^ (g1 as u16),
    ;
    assert(shifts((g >> 8) as u16, 8) == g0 as u16) by {
        reveal_with_fuel(shifts, 9);
        assert(s < 8 ==> shift(
            shift(shift(shift(shift(shift(shift(shift(((0x1_1021u32 << s) >> 8) as u16))))))),
        ) == ((0x1_1021u32 << s) as u8) as u16) by (bit_vector);
    }
    lemma_two_bytes_at_once(0, g2, g1);
    lemma_low_byte_moves_up(g0);
    let last = (g0 as u16) << 8;
    lemma_byte_at_once(last, g0);
    assert(last ^ last == 0) by (bit_vector);
    lemma_empty_register_shifts(8);
}

/// The data with the generator x^16 + x^12 + x^5 + 1 added at byte `at`, `s` bits up from the
/// end of the third byte.
pub open spec fn with_generator(data: Seq<u8>, at: int, s: u32) -> Seq<u8> {
    let g = 0x1_1021u32 << s;
    data.update(at, data[at] ^ (g >> 16) as u8).update(
        at + 1,
        data[at + 1] ^ (g >> 8) as u8,
    ).update(at + 2, data[at + 2] ^ g as u8)
}

/// Adding the generator anywhere in the data does not change the checksum.
pub proof fn law_generator_adds_nothing(data: Seq<u8>, at: int, s: u32)
    requires
        0 <= at,
        at + 3 <= data.len(),
        s < 8,
    ensures
        crc_of(with_generator(data, at, s)) == crc_of(data),
{
    let g = 0x1_1021u32 << s;
    let (g2, g1, g0) = ((g >> 16) as u8, (g >> 8) as u8, g as u8);
    let other = with_generator(data, at, s);
    let head = data.take(at);
    let tail = data.skip(at + 3);
    let c = crc_of(head);
    let (x, y, z) = (data[at], data[at + 1], data[at + 2]);
    let three = seq![x, y, z];
    let three_other = seq![x ^ g2, y ^ g1, z ^ g0];
    assert(data =~= (head + three) + tail);
    assert(other =~= (head + three_other) + tail);
    lemma_feed_in_turn(CRC_INIT, head + three, tail);
    lemma_feed_in_turn(CRC_INIT, head + three_other, tail);
    lemma_feed_in_turn(CRC_INIT, head, three);
    lemma_feed_in_turn(CRC_INIT, head, three_other);
    assert(three.drop_last() =~= seq![x, y]);
    assert(seq![x, y].drop_last() =~= seq![x]);
    assert(seq![x].drop_last() =~= Seq::<u8>::empty());
    assert(three_other.drop_last() =~= seq![x ^ g2, y ^ g1]);
    assert(seq![x ^ g2, y ^ g1].drop_last() =~= seq![x ^ g2]);
    assert(seq![x ^ g2].drop_last() =~= Seq::<u8>::empty());
    reveal_with_fuel(feed, 4);
    let zero: u16 = 0;
    let r2 = feed_byte(c, x);
    let r1 = feed_byte(r2, y);
    let r0 = feed_byte(r1, z);
    let q2 = feed_byte(zero, g2);
    let q1 = feed_byte(q2, g1);
    lemma_generator_leaves_nothing(s);
    lemma_byte_linear(c, zero, x, g2);
    lemma_byte_linear(r2, q2, y, g1);
    lemma_byte_linear(r1, q1, z, g0);
    assert(c ^ 0 == c) by (bit_vector);
    assert(r0 ^ 0 == r0) by (bit_vector);
    assert(feed(c, three) == r0);
    assert(feed(c, three_other) == r0);
}

/// Two bytes of ones take the initial register away: zeros after them leave the checksum at
/// zero.
pub proof fn law_ones_clear_the_register(n: nat)
    ensures
        crc_of(seq![0xFFu8, 0xFFu8] + Seq::new(n, |i: int| 0u8)) == 0,
    decreases n,
{
    let all = seq![0xFFu8, 0xFFu8] + Seq::new(n, |i: int| 0u8);
    if n == 0 {
        assert(all =~= Seq::<u8>::empty() + seq![0xFFu8, 0xFFu8]);
        law_checksum_is_remainder(Seq::empty(), 0xFF, 0xFF);
    } else {
        law_ones_clear_the_register((n - 1) as nat);
        assert(all.drop_last() =~= seq![0xFFu8, 0xFFu8] + Seq::new((n - 1) as nat, |i: int| 0u8));
        assert(feed_byte(0, 0) == 0) by (bit_vector);
    }
}

} // verus!
