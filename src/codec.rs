//! Little-endian integer encoding, the CRC-32 used by the ring, and the
//! data-block framing: a 16-byte header, the payload, and zero padding to a
//! four-byte boundary.
use vstd::prelude::*;

verus! {

/// Size of a data-block header in bytes.
pub const FRAME_HEADER_LEN: u64 = 16;

/// Flag bit 0: the header carries a CRC of the payload.
pub const FLAG_CHECKSUM: u16 = 1;

/// Flag bit 1: the block is a wrap sentinel that fills the tail of the data area.
pub const FLAG_WRAP: u16 = 2;

/// Bytes of zero padding after a payload of `n` bytes.
pub open spec fn pad4(n: int) -> int {
    (4 - n % 4) % 4
}

/// Total size of a data block whose payload has `n` bytes.
pub open spec fn framed_size(n: int) -> int {
    FRAME_HEADER_LEN + n + pad4(n)
}

pub open spec fn le16(x: u16) -> Seq<u8> {
    seq![(x & 0xff) as u8, ((x >> 8) & 0xff) as u8]
}

pub open spec fn le32(x: u32) -> Seq<u8> {
    seq![
        (x & 0xff) as u8,
        ((x >> 8) & 0xff) as u8,
        ((x >> 16) & 0xff) as u8,
        ((x >> 24) & 0xff) as u8,
    ]
}

pub open spec fn u16_from_le(b0: u8, b1: u8) -> u16 {
    (b0 as u16) | ((b1 as u16) << 8)
}

pub open spec fn u32_from_le(b0: u8, b1: u8, b2: u8, b3: u8) -> u32 {
    (b0 as u32) | ((b1 as u32) << 8) | ((b2 as u32) << 16) | ((b3 as u32) << 24)
}

pub proof fn lemma_le16(x: u16)
    ensures
        u16_from_le(le16(x)[0], le16(x)[1]) == x,
{
    assert(((x & 0xff) as u8 as u16) | ((((x >> 8) & 0xff) as u8 as u16) << 8) == x)
        by (bit_vector);
}

pub proof fn lemma_le32(x: u32)
    ensures
        u32_from_le(le32(x)[0], le32(x)[1], le32(x)[2], le32(x)[3]) == x,
{
    assert(((x & 0xff) as u8 as u32) | ((((x >> 8) & 0xff) as u8 as u32) << 8) | ((((x >> 16)
        & 0xff) as u8 as u32) << 16) | ((((x >> 24) & 0xff) as u8 as u32) << 24) == x)
        by (bit_vector);
}

/// One shift of the reflected CRC-32 (polynomial 0xEDB88320).
pub open spec fn crc_shift(c: u32) -> u32 {
    if c & 1 == 1 {
        (c >> 1) ^ 0xEDB8_8320u32
    } else {
        c >> 1
    }
}

pub open spec fn crc_shifts(c: u32, n: nat) -> u32
    decreases n,
{
    if n == 0 {
        c
    } else {
        crc_shift(crc_shifts(c, (n - 1) as nat))
    }
}

/// The CRC register after feeding one more byte.
pub open spec fn crc_feed(c: u32, b: u8) -> u32 {
    crc_shifts(c ^ (b as u32), 8)
}

/// The CRC register after feeding all of `s`, starting from all ones.
pub open spec fn crc_register(s: Seq<u8>) -> u32
    decreases s.len(),
{
    if s.len() == 0 {
        0xFFFF_FFFFu32
    } else {
        crc_feed(crc_register(s.drop_last()), s.last())
    }
}

/// CRC-32 (IEEE) of a byte sequence.
pub open spec fn crc32(s: Seq<u8>) -> u32 {
    !crc_register(s)
}

/// The checksum kept in a block header: the low half of the CRC-32 of the
/// length and id fields.
pub open spec fn header_crc(len: u32, msg_id: u32) -> u16 {
    (crc32(le32(len) + le32(msg_id)) & 0xffff) as u16
}

/// The 16 header bytes of a data block.
pub open spec fn header_bytes(len: u32, msg_id: u32, flags: u16, payload_crc: u32) -> Seq<u8> {
    le32(len) + le32(msg_id) + le16(flags) + le16(header_crc(len, msg_id)) + le32(payload_crc)
}

/// The bytes of a complete data block.
pub open spec fn frame_bytes(msg_id: u32, flags: u16, payload_crc: u32, payload: Seq<u8>) -> Seq<
    u8,
> {
    header_bytes(payload.len() as u32, msg_id, flags, payload_crc) + payload + Seq::new(
        pad4(payload.len() as int) as nat,
        |i: int| 0u8,
    )
}

proof fn lemma_shift_linear(a: u32, b: u32)
    ensures
        crc_shift(a ^ b) == crc_shift(a) ^ crc_shift(b),
{
    assert((if (a ^ b) & 1 == 1 {
        ((a ^ b) >> 1) ^ 0xEDB8_8320u32
    } else {
        (a ^ b) >> 1
    }) == (if a & 1 == 1 {
        (a >> 1) ^ 0xEDB8_8320u32
    } else {
        a >> 1
    }) ^ (if b & 1 == 1 {
        (b >> 1) ^ 0xEDB8_8320u32
    } else {
        b >> 1
    })) by (bit_vector);
}

proof fn lemma_shifts_linear(a: u32, b: u32, n: nat)
    ensures
        crc_shifts(a ^ b, n) == crc_shifts(a, n) ^ crc_shifts(b, n),
    decreases n,
{
    if n > 0 {
        lemma_shifts_linear(a, b, (n - 1) as nat);
        lemma_shift_linear(crc_shifts(a, (n - 1) as nat), crc_shifts(b, (n - 1) as nat));
    }
}

proof fn lemma_shifts_nonzero(d: u32, n: nat)
    requires
        d != 0,
    ensures
        crc_shifts(d, n) != 0,
    decreases n,
{
    if n > 0 {
        let e = crc_shifts(d, (n - 1) as nat);
        lemma_shifts_nonzero(d, (n - 1) as nat);
        assert(e != 0 ==> (if e & 1 == 1 {
            (e >> 1) ^ 0xEDB8_8320u32
        } else {
            e >> 1
        }) != 0) by (bit_vector);
    }
}

/// Feeding the same byte into two registers that differ keeps them apart,
/// and feeding two different bytes into equal registers sets them apart.
proof fn lemma_feed_apart(r1: u32, b1: u8, r2: u32, b2: u8)
    requires
        r1 != r2 || b1 != b2,
        r1 == r2 || b1 == b2,
    ensures
        crc_feed(r1, b1) != crc_feed(r2, b2),
{
    let u = r1 ^ (b1 as u32);
    let w = r2 ^ (b2 as u32);
    assert((r1 != r2 || b1 != b2) && (r1 == r2 || b1 == b2) ==> (r1 ^ (b1 as u32)) ^ (r2 ^ (
    b2 as u32)) != 0) by (bit_vector);
    lemma_shifts_linear(u, w, 8);
    lemma_shifts_nonzero(u ^ w, 8);
    let x = crc_shifts(u, 8);
    let y = crc_shifts(w, 8);
    assert(x ^ y != 0 ==> x != y) by (bit_vector);
}

proof fn lemma_register_apart(s: Seq<u8>, t: Seq<u8>, i: int)
    requires
        s.len() == t.len(),
        0 <= i < s.len(),
        s[i] != t[i],
        forall|j: int| 0 <= j < s.len() && j != i ==> s[j] == t[j],
    ensures
        crc_register(s) != crc_register(t),
    decreases s.len(),
{
    let n = s.len() as int;
    if i == n - 1 {
        assert(s.drop_last() =~= t.drop_last());
        lemma_feed_apart(crc_register(s.drop_last()), s.last(), crc_register(t.drop_last()), t.last());
    } else {
        lemma_register_apart(s.drop_last(), t.drop_last(), i);
        assert(s.last() == t.last());
        lemma_feed_apart(crc_register(s.drop_last()), s.last(), crc_register(t.drop_last()), t.last());
    }
}

/// Changing any one byte of a sequence changes its CRC-32: a payload whose
/// stored bytes differ from the published ones in one byte (one flipped bit,
/// in particular) no longer matches the CRC stored with it.
pub proof fn law_crc_detects_byte_change(s: Seq<u8>, i: int, v: u8)
    requires
        0 <= i < s.len(),
        v != s[i],
    ensures
        crc32(s.update(i, v)) != crc32(s),
{
    let t = s.update(i, v);
    lemma_register_apart(t, s, i);
    let a = crc_register(t);
    let b = crc_register(s);
    assert(a != b ==> !a != !b) by (bit_vector);
}

fn crc_feed_exec(c: u32, b: u8) -> (r: u32)
    ensures
        r == crc_feed(c, b),
{
    let mut x: u32 = c ^ (b as u32);
    let mut k: u32 = 0;
    while k < 8
        invariant
            k <= 8,
            x == crc_shifts(c ^ (b as u32), k as nat),
        decreases 8 - k,
    {
        x = if x & 1 == 1 {
            (x >> 1) ^ 0xEDB8_8320u32
        } else {
            x >> 1
        };
        k = k + 1;
    }
    x
}

/// CRC-32 of `data[start..end]`.
pub fn crc32_range(data: &Vec<u8>, start: usize, end: usize) -> (r: u32)
    requires
        start <= end <= data.len(),
    ensures
        r == crc32(data@.subrange(start as int, end as int)),
{
    let mut c: u32 = 0xFFFF_FFFF;
    let mut i: usize = start;
    assert(data@.subrange(start as int, start as int).len() == 0);
    while i < end
        invariant
            start <= i <= end <= data.len(),
            c == crc_register(data@.subrange(start as int, i as int)),
        decreases end - i,
    {
        assert(data@.subrange(start as int, i + 1).drop_last() =~= data@.subrange(
            start as int,
            i as int,
        ));
        c = crc_feed_exec(c, data[i]);
        i = i + 1;
    }
    !c
}

pub fn push_le16(v: &mut Vec<u8>, x: u16)
    ensures
        final(v)@ == old(v)@ + le16(x),
{
    v.push((x & 0xff) as u8);
    v.push(((x >> 8) & 0xff) as u8);
    assert(final(v)@ =~= old(v)@ + le16(x));
}

pub fn push_le32(v: &mut Vec<u8>, x: u32)
    ensures
        final(v)@ == old(v)@ + le32(x),
{
    v.push((x & 0xff) as u8);
    v.push(((x >> 8) & 0xff) as u8);
    v.push(((x >> 16) & 0xff) as u8);
    v.push(((x >> 24) & 0xff) as u8);
    assert(final(v)@ =~= old(v)@ + le32(x));
}

/// Reads the little-endian `u16` at `data[at..at + 2]`.
pub fn read_le16(data: &Vec<u8>, at: usize) -> (r: u16)
    requires
        at + 2 <= data.len(),
    ensures
        r == u16_from_le(data@[at as int], data@[at + 1]),
{
    (data[at] as u16) | ((data[at + 1] as u16) << 8)
}

/// Reads the little-endian `u32` at `data[at..at + 4]`.
pub fn read_le32(data: &Vec<u8>, at: usize) -> (r: u32)
    requires
        at + 4 <= data.len(),
    ensures
        r == u32_from_le(data@[at as int], data@[at + 1], data@[at + 2], data@[at + 3]),
{
    (data[at] as u32) | ((data[at + 1] as u32) << 8) | ((data[at + 2] as u32) << 16) | ((data[at
        + 3] as u32) << 24)
}

/// Encodes a block header; its header CRC is computed here.
pub fn encode_header(len: u32, msg_id: u32, flags: u16, payload_crc: u32) -> (r: Vec<u8>)
    ensures
        r@ == header_bytes(len, msg_id, flags, payload_crc),
        r@.len() == FRAME_HEADER_LEN,
{
    let mut v: Vec<u8> = Vec::new();
    push_le32(&mut v, len);
    push_le32(&mut v, msg_id);
    let c = crc32_range(&v, 0, 8);
    assert(v@.subrange(0, 8) =~= le32(len) + le32(msg_id));
    push_le16(&mut v, flags);
    push_le16(&mut v, (c & 0xffff) as u16);
    push_le32(&mut v, payload_crc);
    v
}

/// Encodes a complete data block for `payload`.
pub fn encode_frame(msg_id: u32, flags: u16, payload_crc: u32, payload: &Vec<u8>) -> (r: Vec<u8>)
    requires
        payload.len() <= 0xffff_0000,
    ensures
        r@ == frame_bytes(msg_id, flags, payload_crc, payload@),
        r@.len() == framed_size(payload.len() as int),
{
    let n = payload.len() as u32;
    let mut v = encode_header(n, msg_id, flags, payload_crc);
    let mut i: usize = 0;
    while i < payload.len()
        invariant
            i <= payload.len(),
            v@ == header_bytes(n, msg_id, flags, payload_crc) + payload@.subrange(0, i as int),
        decreases payload.len() - i,
    {
        v.push(payload[i]);
        i = i + 1;
        assert(v@ =~= header_bytes(n, msg_id, flags, payload_crc) + payload@.subrange(0, i as int));
    }
    let pad = (4 - n % 4) % 4;
    let mut k: u32 = 0;
    let ghost base = v@;
    assert(payload@.subrange(0, payload.len() as int) =~= payload@);
    while k < pad
        invariant
            k <= pad,
            pad == pad4(n as int),
            v@ == base + Seq::new(k as nat, |i: int| 0u8),
        decreases pad - k,
    {
        v.push(0u8);
        k = k + 1;
        assert(v@ =~= base + Seq::new(k as nat, |i: int| 0u8));
    }
    v
}

} // verus!
