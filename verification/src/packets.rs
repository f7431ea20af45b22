//! Frames of the X6 protocol.
//!
//! A frame is `51 78 cmd 00`, the payload's length (little-endian), the payload, its CRC-8 and
//! `FF`.

use vstd::prelude::*;

use crate::bitmap::bit;

verus! {

/// One bit of the CRC-8 with polynomial 0x07.
pub open spec fn crc8_bit(crc: u8) -> u8 {
    if crc & 0x80 != 0 {
        (crc << 1) ^ 0x07
    } else {
        crc << 1
    }
}

/// `n` bits of the CRC-8.
pub open spec fn crc8_bits(crc: u8, n: nat) -> u8
    decreases n,
{
    if n == 0 {
        crc
    } else {
        crc8_bit(crc8_bits(crc, (n - 1) as nat))
    }
}

/// The CRC-8 (polynomial 0x07, starting at 0) of some bytes.
pub open spec fn crc8(bytes: Seq<u8>) -> u8
    decreases bytes.len(),
{
    if bytes.len() == 0 {
        0
    } else {
        crc8_bits(crc8(bytes.drop_last()) ^ bytes.last(), 8)
    }
}

/// A frame with command `cmd`.
pub open spec fn frame_bytes(cmd: u8, payload: Seq<u8>) -> Seq<u8> {
    seq![0x51u8, 0x78u8, cmd, 0u8] + little_endian(payload.len()) + payload + seq![
        crc8(payload),
        0xffu8,
    ]
}

/// The two low bytes of `n`, the lowest first.
pub open spec fn little_endian(n: nat) -> Seq<u8> {
    seq![(n % 256) as u8, (n / 256 % 256) as u8]
}

/// A byte with its bits in reverse order.
pub open spec fn reversed_bits(b: u8) -> u8 {
    ((b & 0x01) << 7) | ((b & 0x02) << 5) | ((b & 0x04) << 3) | ((b & 0x08) << 1) | ((b & 0x10)
        >> 1) | ((b & 0x20) >> 3) | ((b & 0x40) >> 5) | ((b & 0x80) >> 7)
}

/// Reversing a byte's bits sends bit `i` to bit `7 - i`.
pub proof fn law_reversed_bits(b: u8, i: u8)
    requires
        i < 8,
    ensures
        bit(reversed_bits(b), i) == bit(b, (7 - i) as u8),
{
    let j = (7 - i) as u8;
    assert((((((b & 0x01) << 7) | ((b & 0x02) << 5) | ((b & 0x04) << 3) | ((b & 0x08) << 1) | ((b
        & 0x10) >> 1) | ((b & 0x20) >> 3) | ((b & 0x40) >> 5) | ((b & 0x80) >> 7)) >> i) & 1 == 1)
        == ((b >> j) & 1 == 1)) by (bit_vector)
        requires
            i < 8,
            j == 7 - i,
    ;
}

/// The CRC-8 of some bytes.
fn checksum(bytes: &[u8]) -> (r: u8)
    ensures
        r == crc8(bytes@),
{
    let mut crc: u8 = 0;
    let mut i: usize = 0;
    while i < bytes.len()
        invariant
            i <= bytes.len(),
            crc == crc8(bytes@.take(i as int)),
        decreases bytes.len() - i,
    {
        assert(bytes@.take(i + 1).drop_last() =~= bytes@.take(i as int));
        let start: u8 = crc ^ bytes[i];
        crc = start;
        let mut n: u8 = 0;
        while n < 8
            invariant
                n <= 8,
                crc == crc8_bits(start, n as nat),
            decreases 8 - n,
        {
            crc = if crc & 0x80 != 0 {
                (crc << 1) ^ 0x07
            } else {
                crc << 1
            };
            n += 1;
        }
        i += 1;
    }
    assert(bytes@.take(i as int) =~= bytes@);
    crc
}

/// A frame with command `cmd`.
fn frame(cmd: u8, payload: &[u8]) -> (r: Vec<u8>)
    requires
        payload@.len() <= 0xffff,
    ensures
        r@ == frame_bytes(cmd, payload@),
{
    let n: usize = payload.len();
    let mut out: Vec<u8> = Vec::new();
    out.push(0x51);
    out.push(0x78);
    out.push(cmd);
    out.push(0);
    out.push((n % 256) as u8);
    out.push((n / 256 % 256) as u8);
    let ghost head = seq![0x51u8, 0x78u8, cmd, 0u8] + little_endian(payload@.len());
    assert(out@ =~= head);
    let mut i: usize = 0;
    while i < n
        invariant
            i <= n,
            n == payload@.len(),
            out@ == head + payload@.take(i as int),
        decreases n - i,
    {
        out.push(payload[i]);
        i += 1;
        assert(out@ =~= head + payload@.take(i as int));
    }
    assert(payload@.take(i as int) =~= payload@);
    out.push(checksum(payload));
    out.push(0xff);
    assert(out@ =~= frame_bytes(cmd, payload@));
    out
}

/// The frame that sets the feed-speed divisor.
pub open spec fn set_speed_frame(speed: u8) -> Seq<u8> {
    frame_bytes(0xbd, seq![speed])
}

/// The frame that sets the printhead energy.
pub open spec fn set_energy_frame(energy: u16) -> Seq<u8> {
    frame_bytes(0xaf, little_endian(energy as nat))
}

/// The frame that puts the energy into effect.
pub open spec fn apply_energy_frame() -> Seq<u8> {
    frame_bytes(0xbe, seq![1u8])
}

/// The frame that prints one row: its leftmost pixel is the least significant bit on the wire.
pub open spec fn scanline_frame(row: Seq<u8>) -> Seq<u8> {
    frame_bytes(0xa2, row.map_values(|b: u8| reversed_bits(b)))
}

/// The frame that feeds blank paper.
pub open spec fn feed_frame(px: u16) -> Seq<u8> {
    frame_bytes(0xa1, little_endian(px as nat))
}

/// Sets the feed-speed divisor.
pub fn set_speed(speed: u8) -> (r: Vec<u8>)
    ensures
        r@ == set_speed_frame(speed),
{
    let payload: [u8; 1] = [speed];
    assert(payload@ =~= seq![speed]);
    frame(0xbd, &payload)
}

/// Sets the printhead energy.
pub fn set_energy(energy: u16) -> (r: Vec<u8>)
    ensures
        r@ == set_energy_frame(energy),
{
    let payload: [u8; 2] = [(energy % 256) as u8, (energy / 256 % 256) as u8];
    assert(payload@ =~= little_endian(energy as nat));
    frame(0xaf, &payload)
}

/// Puts the energy into effect.
pub fn apply_energy() -> (r: Vec<u8>)
    ensures
        r@ == apply_energy_frame(),
{
    let payload: [u8; 1] = [1u8];
    assert(payload@ =~= seq![1u8]);
    frame(0xbe, &payload)
}

/// Prints one packed row.
pub fn raw_scanline(row: &[u8; 48]) -> (r: Vec<u8>)
    ensures
        r@ == scanline_frame(row@),
{
    let mut payload: Vec<u8> = Vec::new();
    let ghost wanted = row@.map_values(|b: u8| reversed_bits(b));
    let mut i: usize = 0;
    while i < 48
        invariant
            i <= 48,
            row@.len() == 48,
            wanted == row@.map_values(|b: u8| reversed_bits(b)),
            payload@ == wanted.take(i as int),
        decreases 48 - i,
    {
        let b = row[i];
        payload.push(
            ((b & 0x01) << 7) | ((b & 0x02) << 5) | ((b & 0x04) << 3) | ((b & 0x08) << 1) | ((b
                & 0x10) >> 1) | ((b & 0x20) >> 3) | ((b & 0x40) >> 5) | ((b & 0x80) >> 7),
        );
        i += 1;
        assert(payload@ =~= wanted.take(i as int));
    }
    assert(payload@ =~= wanted);
    frame(0xa2, payload.as_slice())
}

/// Feeds blank paper.
pub fn feed_paper(px: u16) -> (r: Vec<u8>)
    ensures
        r@ == feed_frame(px),
{
    let payload: [u8; 2] = [(px % 256) as u8, (px / 256 % 256) as u8];
    assert(payload@ =~= little_endian(px as nat));
    frame(0xa1, &payload)
}

/// Whether a frame's command is the one that prints a row.
pub open spec fn is_scanline(frame: Seq<u8>) -> bool {
    frame[2] == 0xa2
}

/// Of the frames of a job only a row's is a scanline.
pub proof fn lemma_commands(speed: u8, energy: u16, row: Seq<u8>, px: u16)
    ensures
        !is_scanline(set_speed_frame(speed)),
        !is_scanline(set_energy_frame(energy)),
        !is_scanline(apply_energy_frame()),
        is_scanline(scanline_frame(row)),
        !is_scanline(feed_frame(px)),
{
}

/// What goes over the wire, byte by byte: two marks, the command, a zero, the payload's length with
/// the low byte first, the payload, its checksum, and an end mark. Numbers have their low byte
/// first.
pub proof fn law_frames_on_the_wire(speed: u8, energy: u16, px: u16)
    ensures
        set_speed_frame(speed) == seq![
            0x51u8,
            0x78u8,
            0xbdu8,
            0u8,
            1u8,
            0u8,
            speed,
            crc8(seq![speed]),
            0xffu8,
        ],
        apply_energy_frame() == seq![
            0x51u8,
            0x78u8,
            0xbeu8,
            0u8,
            1u8,
            0u8,
            1u8,
            crc8(seq![1u8]),
            0xffu8,
        ],
        set_energy_frame(energy).len() == 10,
        set_energy_frame(energy).take(6) == seq![0x51u8, 0x78u8, 0xafu8, 0u8, 2u8, 0u8],
        set_energy_frame(energy)[6] + 256 * set_energy_frame(energy)[7] == energy,
        set_energy_frame(energy)[8] == crc8(set_energy_frame(energy).subrange(6, 8)),
        set_energy_frame(energy)[9] == 0xff,
        feed_frame(px).len() == 10,
        feed_frame(px).take(6) == seq![0x51u8, 0x78u8, 0xa1u8, 0u8, 2u8, 0u8],
        feed_frame(px)[6] + 256 * feed_frame(px)[7] == px,
        feed_frame(px)[8] == crc8(feed_frame(px).subrange(6, 8)),
        feed_frame(px)[9] == 0xff,
{
    assert(set_energy_frame(energy).subrange(6, 8) =~= little_endian(energy as nat));
    assert(feed_frame(px).subrange(6, 8) =~= little_endian(px as nat));
}

/// A scanline carries the 384 pixels of its row from left to right, the leftmost of each eight in
/// the lowest bit of its byte, where the packed row has it in the highest.
pub proof fn law_scanlines_carry_every_pixel(row: Seq<u8>, x: int)
    requires
        row.len() == 48,
        0 <= x < 384,
    ensures
        scanline_frame(row).len() == 56,
        scanline_frame(row).take(6) == seq![0x51u8, 0x78u8, 0xa2u8, 0u8, 48u8, 0u8],
        (scanline_frame(row)[6 + x / 8] >> ((x % 8) as u8)) & 1 == (row[x / 8] >> ((7 - x
            % 8) as u8)) & 1,
        scanline_frame(row)[54] == crc8(scanline_frame(row).subrange(6, 54)),
        scanline_frame(row)[55] == 0xff,
{
    let payload = row.map_values(|b: u8| reversed_bits(b));
    assert(scanline_frame(row).subrange(6, 54) =~= payload);
    assert(scanline_frame(row)[6 + x / 8] == reversed_bits(row[x / 8]));
    let b = row[x / 8];
    let r = reversed_bits(b);
    let i = (x % 8) as u8;
    let j = (7 - x % 8) as u8;
    law_reversed_bits(b, i);
    assert((r >> i) & 1 == 0 || (r >> i) & 1 == 1) by (bit_vector);
    assert((b >> j) & 1 == 0 || (b >> j) & 1 == 1) by (bit_vector);
}

/// A step of the checksum doubles it, as polynomials over two elements, modulo the polynomial
/// 0x107. So no two states are confused by it.
pub proof fn law_checksum_step(a: u8, b: u8)
    ensures
        crc8_bit(a) as u16 == (a as u16) << 1 || crc8_bit(a) as u16 == ((a as u16) << 1) ^ 0x107,
        crc8_bit(a) == crc8_bit(b) ==> a == b,
{
    assert(((if a & 0x80 != 0 {
        (a << 1) ^ 0x07
    } else {
        a << 1
    }) as u16 == (a as u16) << 1 || (if a & 0x80 != 0 {
        (a << 1) ^ 0x07
    } else {
        a << 1
    }) as u16 == ((a as u16) << 1) ^ 0x107) && ((if a & 0x80 != 0 {
        (a << 1) ^ 0x07
    } else {
        a << 1
    }) == (if b & 0x80 != 0 {
        (b << 1) ^ 0x07
    } else {
        b << 1
    }) ==> a == b)) by (bit_vector);
}

proof fn lemma_bits_tell_apart(a: u8, b: u8, n: nat)
    requires
        a != b,
    ensures
        crc8_bits(a, n) != crc8_bits(b, n),
    decreases n,
{
    if n > 0 {
        lemma_bits_tell_apart(a, b, (n - 1) as nat);
        law_checksum_step(crc8_bits(a, (n - 1) as nat), crc8_bits(b, (n - 1) as nat));
    }
}

/// The checksum notices a change in any single byte, wherever it is.
pub proof fn law_checksum_notices_a_change(a: Seq<u8>, i: int, byte: u8)
    requires
        0 <= i < a.len(),
        byte != a[i],
    ensures
        crc8(a.update(i, byte)) != crc8(a),
    decreases a.len(),
{
    let b = a.update(i, byte);
    let x = crc8(a.drop_last());
    let y = crc8(b.drop_last());
    let p = a.last();
    let q = b.last();
    if i == a.len() - 1 {
        assert(b.drop_last() =~= a.drop_last());
        assert(x ^ p != x ^ q) by (bit_vector)
            requires
                p != q,
        ;
        lemma_bits_tell_apart(x ^ p, x ^ q, 8);
    } else {
        assert(b.drop_last() =~= a.drop_last().update(i, byte));
        law_checksum_notices_a_change(a.drop_last(), i, byte);
        assert(x ^ p != y ^ p) by (bit_vector)
            requires
                x != y,
        ;
        lemma_bits_tell_apart(x ^ p, y ^ p, 8);
    }
}

} // verus!
