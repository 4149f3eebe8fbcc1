//! The 64-byte header that starts a shared region, the message body that
//! hands the region over on the descriptor-passing socket, and the sizing of
//! the data area.
use crate::codec::{le32, lemma_le32, push_le32, read_le32, u32_from_le};
use crate::error::Error;
use crate::ringbuf::{is_pow2, valid_capacity, MAX_CAPACITY, MIN_CAPACITY};
use vstd::prelude::*;

verus! {

/// Size of the region header in bytes.
pub const REGION_HEADER_LEN: usize = 64;

/// "RBUF": marks a valid region.
pub const REGION_MAGIC: u32 = 0x5242_5546;

/// Layout version of the region.
pub const REGION_VERSION: u32 = 1;

/// "FDPS": marks the body that travels with the shared-memory descriptor.
pub const FDPASS_MAGIC: u32 = 0x4644_5053;

/// Size of that body in bytes.
pub const FDPASS_BODY_LEN: usize = 16;

pub open spec fn zeros(n: nat) -> Seq<u8> {
    Seq::new(n, |i: int| 0u8)
}

/// A freshly stamped header: magic, version, capacity, then zeros (the
/// padding word, both offsets at zero, and the reserved bytes).
pub open spec fn region_header_bytes(capacity: u32) -> Seq<u8> {
    le32(REGION_MAGIC) + le32(REGION_VERSION) + le32(capacity) + zeros(52)
}

pub open spec fn le32_at(b: Seq<u8>, q: int) -> u32 {
    u32_from_le(b[q], b[q + 1], b[q + 2], b[q + 3])
}

/// A consumer accepts the header: the right magic and version, and a
/// capacity a ring can have.
pub open spec fn region_header_ok(b: Seq<u8>) -> bool {
    &&& b.len() >= REGION_HEADER_LEN
    &&& le32_at(b, 0) == REGION_MAGIC
    &&& le32_at(b, 4) == REGION_VERSION
    &&& valid_capacity(le32_at(b, 8) as u64)
}

pub open spec fn fdpass_body_bytes(capacity: u32, checksum: bool) -> Seq<u8> {
    le32(FDPASS_MAGIC) + le32(capacity) + le32(
        if checksum {
            1u32
        } else {
            0u32
        },
    ) + le32(0)
}

pub open spec fn fdpass_body_ok(b: Seq<u8>) -> bool {
    b.len() == FDPASS_BODY_LEN && le32_at(b, 0) == FDPASS_MAGIC
}

fn push_zeros(v: &mut Vec<u8>, n: usize)
    ensures
        final(v)@ == old(v)@ + zeros(n as nat),
{
    let mut i: usize = 0;
    while i < n
        invariant
            i <= n,
            v@ == old(v)@ + zeros(i as nat),
        decreases n - i,
    {
        v.push(0u8);
        i = i + 1;
        assert(v@ =~= old(v)@ + zeros(i as nat));
    }
}

/// The header a producer writes at the start of a new region.
pub fn stamp_region_header(capacity: u32) -> (r: Vec<u8>)
    ensures
        r@ == region_header_bytes(capacity),
        r@.len() == REGION_HEADER_LEN,
{
    let mut v: Vec<u8> = Vec::new();
    push_le32(&mut v, REGION_MAGIC);
    push_le32(&mut v, REGION_VERSION);
    push_le32(&mut v, capacity);
    push_zeros(&mut v, 52);
    v
}

/// Checks a mapped region's header against the capacity announced with its
/// descriptor, and gives that capacity.
pub fn validate_region_header(header: &Vec<u8>, announced: u32) -> (r: Result<u32, Error>)
    ensures
        region_header_ok(header@) && le32_at(header@, 8) == announced <==> r is Ok,
        r matches Ok(c) ==> c == announced,
        r matches Err(e) ==> e is InvalidParameter,
{
    if header.len() < REGION_HEADER_LEN {
        return Err(Error::InvalidParameter { detail: "region header is truncated".to_string() });
    }
    if read_le32(header, 0) != REGION_MAGIC {
        return Err(Error::InvalidParameter { detail: "bad region magic".to_string() });
    }
    if read_le32(header, 4) != REGION_VERSION {
        return Err(Error::InvalidParameter { detail: "unsupported region version".to_string() });
    }
    let c = read_le32(header, 8);
    let c64 = c as u64;
    if c64 < MIN_CAPACITY || c64 > MAX_CAPACITY || c64 & (c64 - 1) != 0 {
        return Err(Error::InvalidParameter { detail: "bad region capacity".to_string() });
    }
    if c != announced {
        return Err(
            Error::InvalidParameter {
                detail: "region capacity differs from the announced one".to_string(),
            },
        );
    }
    Ok(c)
}

/// A stamped header is accepted, and gives back the capacity it was stamped with.
pub proof fn law_region_header_round_trip(capacity: u32)
    requires
        valid_capacity(capacity as u64),
    ensures
        region_header_ok(region_header_bytes(capacity)),
        le32_at(region_header_bytes(capacity), 8) == capacity,
{
    let b = region_header_bytes(capacity);
    lemma_le32(REGION_MAGIC);
    lemma_le32(REGION_VERSION);
    lemma_le32(capacity);
    assert(b.subrange(0, 4) =~= le32(REGION_MAGIC));
    assert(b.subrange(4, 8) =~= le32(REGION_VERSION));
    assert(b.subrange(8, 12) =~= le32(capacity));
    assert(b[0] == b.subrange(0, 4)[0] && b[1] == b.subrange(0, 4)[1] && b[2] == b.subrange(0, 4)[2] && b[3] == b.subrange(0, 4)[3]);
    assert(b[4] == b.subrange(4, 8)[0] && b[5] == b.subrange(4, 8)[1] && b[6] == b.subrange(4, 8)[2] && b[7] == b.subrange(4, 8)[3]);
    assert(b[8] == b.subrange(8, 12)[0] && b[9] == b.subrange(8, 12)[1] && b[10] == b.subrange(8, 12)[2] && b[11] == b.subrange(8, 12)[3]);
}

/// The body sent with the shared-memory descriptor.
pub fn encode_fdpass_body(capacity: u32, checksum: bool) -> (r: Vec<u8>)
    ensures
        r@ == fdpass_body_bytes(capacity, checksum),
        r@.len() == FDPASS_BODY_LEN,
{
    let mut v: Vec<u8> = Vec::new();
    push_le32(&mut v, FDPASS_MAGIC);
    push_le32(&mut v, capacity);
    push_le32(
        &mut v,
        if checksum {
            1
        } else {
            0
        },
    );
    push_le32(&mut v, 0);
    v
}

/// Reads the body sent with the descriptor: the capacity, and whether
/// checksums are on (flag bit 0).
pub fn decode_fdpass_body(body: &Vec<u8>) -> (r: Result<(u32, bool), Error>)
    ensures
        fdpass_body_ok(body@) <==> r is Ok,
        r matches Ok((c, ck)) ==> c == le32_at(body@, 4) && ck == (le32_at(body@, 8) & 1 == 1),
        r matches Err(e) ==> e is InvalidParameter,
{
    if body.len() != FDPASS_BODY_LEN {
        return Err(Error::InvalidParameter { detail: "bad descriptor body length".to_string() });
    }
    if read_le32(body, 0) != FDPASS_MAGIC {
        return Err(Error::InvalidParameter { detail: "bad descriptor body magic".to_string() });
    }
    let c = read_le32(body, 4);
    let flags = read_le32(body, 8);
    Ok((c, flags & 1 == 1))
}

/// A body read back gives the capacity and checksum setting it was made from.
pub proof fn law_fdpass_body_round_trip(capacity: u32, checksum: bool)
    ensures
        fdpass_body_ok(fdpass_body_bytes(capacity, checksum)),
        le32_at(fdpass_body_bytes(capacity, checksum), 4) == capacity,
        (le32_at(fdpass_body_bytes(capacity, checksum), 8) & 1 == 1) == checksum,
{
    let b = fdpass_body_bytes(capacity, checksum);
    let f: u32 = if checksum {
        1
    } else {
        0
    };
    lemma_le32(FDPASS_MAGIC);
    lemma_le32(capacity);
    lemma_le32(f);
    assert(b.subrange(0, 4) =~= le32(FDPASS_MAGIC));
    assert(b.subrange(4, 8) =~= le32(capacity));
    assert(b.subrange(8, 12) =~= le32(f));
    assert(b[0] == b.subrange(0, 4)[0] && b[1] == b.subrange(0, 4)[1] && b[2] == b.subrange(0, 4)[2] && b[3] == b.subrange(0, 4)[3]);
    assert(b[4] == b.subrange(4, 8)[0] && b[5] == b.subrange(4, 8)[1] && b[6] == b.subrange(4, 8)[2] && b[7] == b.subrange(4, 8)[3]);
    assert(b[8] == b.subrange(8, 12)[0] && b[9] == b.subrange(8, 12)[1] && b[10] == b.subrange(8, 12)[2] && b[11] == b.subrange(8, 12)[3]);
    assert((1u32 & 1u32) == 1u32 && (0u32 & 1u32) == 0u32) by (bit_vector);
}

/// The data-area size for a requested ring length: the smallest power of
/// two that is at least the request and at least the minimum capacity.
/// Requests above the largest capacity are refused.
pub fn ring_capacity(requested: usize) -> (r: Result<u64, Error>)
    ensures
        requested > MAX_CAPACITY <==> r is Err,
        r matches Err(e) ==> e is InvalidParameter,
        r matches Ok(c) ==> {
            &&& valid_capacity(c)
            &&& c >= requested
            &&& c == MIN_CAPACITY || c / 2 < requested
        },
{
    if requested as u64 > MAX_CAPACITY {
        return Err(Error::InvalidParameter { detail: "ring length is too large".to_string() });
    }
    let mut c: u64 = MIN_CAPACITY;
    assert(is_pow2(64)) by (bit_vector);
    while c < requested as u64
        invariant
            MIN_CAPACITY <= c <= MAX_CAPACITY,
            is_pow2(c),
            requested <= MAX_CAPACITY,
            c == MIN_CAPACITY || c / 2 < requested,
        decreases MAX_CAPACITY - c,
    {
        assert(c & ((c - 1) as u64) == 0 && 0 < c && c < 0x8000_0000 ==> c <= 0x4000_0000)
            by (bit_vector);
        let d: u64 = c * 2;
        assert(c & ((c - 1) as u64) == 0 && c < 0x8000_0000 && d == c * 2 ==> d & ((d - 1) as u64)
            == 0) by (bit_vector);
        c = d;
    }
    Ok(c)
}

} // verus!
