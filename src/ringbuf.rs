//! Single-producer/single-consumer ring of variable-length data blocks.
//!
//! Offsets are absolute byte counts; the position in the data area is the
//! offset modulo the capacity. A block never straddles the end of the data
//! area: the tail before a wrap is covered by a wrap sentinel when it can hold
//! a header, and is implicit padding otherwise.
use crate::codec::{
    crc32, crc32_range, encode_frame, pad4, encode_header, header_crc, le16, le32, lemma_le16, lemma_le32,
    law_crc_detects_byte_change, read_le16, read_le32, u16_from_le, u32_from_le, frame_bytes, framed_size, header_bytes, FLAG_CHECKSUM, FLAG_WRAP, FRAME_HEADER_LEN,
};
use crate::error::Error;
use vstd::arithmetic::div_mod::{
    lemma_fundamental_div_mod,
    lemma_mod_multiples_basic,
    lemma_mod_pos_bound,
};
use vstd::prelude::*;

verus! {

/// Smallest data area a ring accepts.
pub const MIN_CAPACITY: u64 = 64;

/// Largest data area a ring accepts (2 GiB): the most the header's 32-bit
/// capacity field holds as a power of two.
pub const MAX_CAPACITY: u64 = 0x8000_0000;

/// Largest payload a block can describe.
pub const MAX_PAYLOAD_LEN: usize = 0xffff_0000;

/// Publish asks for a produce offset of at most this, so offsets never overflow.
pub const OFFSET_LIMIT: u64 = 0xffff_fff0_0000_0000;

/// A message as the consumer sees it.
#[derive(Debug)]
pub struct Message {
    pub msg_id: u32,
    pub payload: Vec<u8>,
}

/// One publish as it stands in the ring: the skipped tail before it (0 when
/// the block did not wrap), then its data block.
pub struct Entry {
    pub start: int,
    pub skip: int,
    pub msg_id: u32,
    pub payload: Seq<u8>,
}

pub open spec fn is_pow2(c: u64) -> bool {
    c > 0 && c & (c - 1) as u64 == 0
}

pub open spec fn valid_capacity(c: u64) -> bool {
    MIN_CAPACITY <= c <= MAX_CAPACITY && is_pow2(c)
}

pub open spec fn entry_size(e: Entry) -> int {
    e.skip + framed_size(e.payload.len() as int)
}

pub open spec fn entry_end(e: Entry) -> int {
    e.start + entry_size(e)
}

/// Bytes taken by all outstanding publishes, tails included.
pub open spec fn total_size(s: Seq<Entry>) -> int
    decreases s.len(),
{
    if s.len() == 0 {
        0
    } else {
        total_size(s.drop_last()) + entry_size(s.last())
    }
}

/// The bytes a publish of a payload of `n` bytes takes when the write
/// position is `produce`: the block, plus the tail when the block would
/// straddle the end of the data area.
pub open spec fn space_needed(cap: int, produce: int, n: int) -> int {
    let p = produce % cap;
    if p + framed_size(n) > cap {
        cap - p + framed_size(n)
    } else {
        framed_size(n)
    }
}

pub open spec fn flags_for(checksum: bool) -> u16 {
    if checksum {
        FLAG_CHECKSUM
    } else {
        0u16
    }
}

pub open spec fn crc_for(checksum: bool, payload: Seq<u8>) -> u32 {
    if checksum {
        crc32(payload)
    } else {
        0u32
    }
}

pub open spec fn entry_frame(e: Entry, checksum: bool) -> Seq<u8> {
    frame_bytes(e.msg_id, flags_for(checksum), crc_for(checksum, e.payload), e.payload)
}

/// Header of the wrap sentinel that fills a tail of `skip` bytes.
pub open spec fn sentinel_bytes(skip: int) -> Seq<u8> {
    header_bytes((skip - FRAME_HEADER_LEN) as u32, 0, FLAG_WRAP, 0)
}

/// `data[q..q + b.len()]` holds `b`.
pub open spec fn holds_at(data: Seq<u8>, q: int, b: Seq<u8>) -> bool {
    &&& 0 <= q
    &&& q + b.len() <= data.len()
    &&& forall|k: int| 0 <= k < b.len() ==> data[q + k] == #[trigger] b[k]
}

/// Where the bytes of an entry stand in the data area.
pub open spec fn entry_placed(e: Entry, cap: int, data: Seq<u8>, checksum: bool) -> bool {
    let p = e.start % cap;
    let fs = framed_size(e.payload.len() as int);
    &&& e.start >= 0
    &&& e.payload.len() <= MAX_PAYLOAD_LEN
    &&& if e.skip == 0 {
        p + fs <= cap && holds_at(data, p, entry_frame(e, checksum))
    } else {
        &&& e.skip == cap - p
        &&& fs <= p
        &&& e.skip >= FRAME_HEADER_LEN ==> holds_at(data, p, sentinel_bytes(e.skip))
        &&& holds_at(data, 0, entry_frame(e, checksum))
    }
}

pub struct Ringbuf {
    capacity: u64,
    produce: u64,
    consume: u64,
    checksum: bool,
    data: Vec<u8>,
    entries: Ghost<Seq<Entry>>,
}

impl Ringbuf {
    pub closed spec fn spec_capacity(&self) -> int {
        self.capacity as int
    }

    pub closed spec fn spec_produce(&self) -> int {
        self.produce as int
    }

    pub closed spec fn spec_consume(&self) -> int {
        self.consume as int
    }

    pub closed spec fn spec_checksum(&self) -> bool {
        self.checksum
    }

    pub closed spec fn spec_data(&self) -> Seq<u8> {
        self.data@
    }

    /// The outstanding publishes, oldest first.
    pub closed spec fn entries(&self) -> Seq<Entry> {
        self.entries@
    }

    /// The outstanding messages, oldest first.
    pub open spec fn messages(&self) -> Seq<(u32, Seq<u8>)> {
        self.entries().map_values(|e: Entry| (e.msg_id, e.payload))
    }

    /// Bytes free for publishing.
    pub open spec fn spec_remaining(&self) -> int {
        self.spec_capacity() - (self.spec_produce() - self.spec_consume())
    }

    /// The structure that every operation keeps, whatever the data area holds.
    pub closed spec fn inv(&self) -> bool {
        &&& valid_capacity(self.capacity)
        &&& self.data@.len() == self.capacity
        &&& self.consume <= self.produce
        &&& self.produce - self.consume <= self.capacity
    }

    /// The data area holds exactly the outstanding publishes, in order and
    /// without gaps, from the consume offset to the produce offset.
    pub closed spec fn wf(&self) -> bool {
        &&& self.inv()
        &&& layout_ok(
            self.entries@,
            self.capacity as int,
            self.consume as int,
            self.produce as int,
            self.data@,
            self.checksum,
        )
    }
}

/// Entries `s` cover `[lo, hi)` in order and without gaps, and each stands in
/// `data` where its offsets say.
pub open spec fn layout_ok(s: Seq<Entry>, cap: int, lo: int, hi: int, data: Seq<u8>, ck: bool) -> bool {
    &&& s.len() == 0 ==> hi == lo
    &&& s.len() > 0 ==> s[0].start == lo && entry_end(s.last()) == hi
    &&& forall|i: int| 0 <= i < s.len() - 1 ==> entry_end(#[trigger] s[i]) == s[i + 1].start
    &&& forall|i: int, j: int|
        0 <= i < j < s.len() ==> entry_end(#[trigger] s[i]) <= #[trigger] s[j].start
    &&& forall|i: int|
        0 <= i < s.len() ==> lo <= (#[trigger] s[i]).start && entry_end(s[i]) <= hi
            && entry_placed(s[i], cap, data, ck)
}

proof fn lemma_mod_window(cap: int, lo: int, a: int, la: int, b: int, lb: int)
    requires
        0 < cap,
        0 <= lo <= a,
        0 <= la,
        a + la <= b,
        0 <= lb,
        b + lb <= lo + cap,
        a % cap + la <= cap,
        b % cap + lb <= cap,
    ensures
        a % cap + la <= b % cap || b % cap + lb <= a % cap,
{
    let qa = a / cap;
    let qb = b / cap;
    let ra = a % cap;
    let rb = b % cap;
    lemma_fundamental_div_mod(a, cap);
    lemma_fundamental_div_mod(b, cap);
    lemma_mod_pos_bound(a, cap);
    lemma_mod_pos_bound(b, cap);
    assert(qa <= qb && qb <= qa + 1) by (nonlinear_arith)
        requires
            a == cap * qa + ra,
            b == cap * qb + rb,
            0 <= ra < cap,
            0 <= rb < cap,
            a <= b,
            b <= a + cap,
            0 < cap,
    ;
    if qb == qa + 1 {
        assert(cap * qb == cap * qa + cap) by (nonlinear_arith)
            requires
                qb == qa + 1,
        ;
    }
}

proof fn lemma_wrap_mod(x: int, cap: int)
    requires
        0 <= x,
        0 < cap,
    ensures
        (x + (cap - x % cap)) % cap == 0,
{
    let q = x / cap;
    lemma_fundamental_div_mod(x, cap);
    lemma_mod_multiples_basic(q + 1, cap);
    assert((q + 1) * cap == cap * q + cap) by (nonlinear_arith);
}

/// Bytes at `q` stay where nothing was written over them.
proof fn lemma_holds_kept(d0: Seq<u8>, d1: Seq<u8>, q: int, b: Seq<u8>, wq: int, wn: int)
    requires
        holds_at(d0, q, b),
        d1.len() == d0.len(),
        forall|j: int| 0 <= j < d0.len() && !(wq <= j < wq + wn) ==> d1[j] == d0[j],
        q + b.len() <= wq || wq + wn <= q,
    ensures
        holds_at(d1, q, b),
{
    assert forall|k: int| 0 <= k < b.len() implies d1[q + k] == #[trigger] b[k] by {
        assert(d0[q + k] == b[k]);
    }
}

/// A write into the free part of the ring leaves an outstanding entry in place.
proof fn lemma_entry_kept(
    e: Entry,
    cap: int,
    ck: bool,
    d0: Seq<u8>,
    d1: Seq<u8>,
    lo: int,
    wabs: int,
    wn: int,
)
    requires
        0 < cap,
        entry_placed(e, cap, d0, ck),
        0 <= lo <= e.start,
        entry_end(e) <= wabs,
        0 <= wn,
        wabs + wn <= lo + cap,
        wabs % cap + wn <= cap,
        d1.len() == d0.len(),
        forall|j: int|
            0 <= j < d0.len() && !(wabs % cap <= j < wabs % cap + wn) ==> d1[j] == d0[j],
    ensures
        entry_placed(e, cap, d1, ck),
{
    let p = e.start % cap;
    let fs = framed_size(e.payload.len() as int);
    let wq = wabs % cap;
    if e.skip == 0 {
        lemma_mod_window(cap, lo, e.start, fs, wabs, wn);
        lemma_holds_kept(d0, d1, p, entry_frame(e, ck), wq, wn);
    } else {
        if e.skip >= FRAME_HEADER_LEN {
            lemma_mod_window(cap, lo, e.start, FRAME_HEADER_LEN as int, wabs, wn);
            lemma_holds_kept(d0, d1, p, sentinel_bytes(e.skip), wq, wn);
        }
        lemma_wrap_mod(e.start, cap);
        lemma_mod_window(cap, lo, e.start + e.skip, fs, wabs, wn);
        lemma_holds_kept(d0, d1, 0, entry_frame(e, ck), wq, wn);
    }
}

/// Appending a publish keeps the layout: the writes of the sentinel and of the
/// block fall in the free part of the ring.
proof fn lemma_push_layout(
    s0: Seq<Entry>,
    ne: Entry,
    cap: int,
    lo: int,
    ck: bool,
    d0: Seq<u8>,
    d1: Seq<u8>,
    d2: Seq<u8>,
    frame: Seq<u8>,
)
    requires
        0 < cap,
        0 <= lo,
        layout_ok(s0, cap, lo, ne.start, d0, ck),
        ne.start >= lo,
        ne.payload.len() <= MAX_PAYLOAD_LEN,
        frame == entry_frame(ne, ck),
        frame.len() == framed_size(ne.payload.len() as int),
        entry_end(ne) <= lo + cap,
        ne.skip == 0 ==> ne.start % cap + frame.len() <= cap,
        ne.skip != 0 ==> ne.skip == cap - ne.start % cap && (ne.start + ne.skip) % cap == 0,
        ne.skip >= 0,
        d0.len() == cap,
        d1.len() == cap,
        d2.len() == cap,
        ne.skip >= FRAME_HEADER_LEN ==> holds_at(d1, ne.start % cap, sentinel_bytes(ne.skip)),
        ne.skip >= FRAME_HEADER_LEN ==> forall|j: int|
            0 <= j < cap && !(ne.start % cap <= j < ne.start % cap + FRAME_HEADER_LEN) ==> d1[j]
                == d0[j],
        ne.skip < FRAME_HEADER_LEN ==> d1 == d0,
        holds_at(d2, (ne.start + ne.skip) % cap, frame),
        forall|j: int|
            0 <= j < cap && !((ne.start + ne.skip) % cap <= j < (ne.start + ne.skip) % cap
                + frame.len()) ==> d2[j] == d1[j],
    ensures
        layout_ok(s0.push(ne), cap, lo, entry_end(ne), d2, ck),
{
    let s1 = s0.push(ne);
    let fs = frame.len() as int;
    let pos = ne.start % cap;
    assert forall|i: int| 0 <= i < s0.len() implies entry_placed(s0[i], cap, d2, ck) by {
        let e = s0[i];
        if ne.skip >= FRAME_HEADER_LEN {
            lemma_entry_kept(e, cap, ck, d0, d1, lo, ne.start, 16);
        }
        lemma_entry_kept(e, cap, ck, d1, d2, lo, ne.start + ne.skip, fs);
    }
    if ne.skip >= FRAME_HEADER_LEN {
        lemma_holds_kept(d1, d2, pos, sentinel_bytes(ne.skip), 0, fs);
    }
    assert(entry_placed(ne, cap, d2, ck));
    assert forall|i: int| 0 <= i < s1.len() implies lo <= (#[trigger] s1[i]).start && entry_end(
        s1[i],
    ) <= entry_end(ne) && entry_placed(s1[i], cap, d2, ck) by {
        if i < s0.len() {
            assert(s1[i] == s0[i]);
        }
    }
    assert forall|i: int, j: int| 0 <= i < j < s1.len() implies entry_end(#[trigger] s1[i])
        <= #[trigger] s1[j].start by {
        if j < s0.len() {
            assert(s1[i] == s0[i] && s1[j] == s0[j]);
        } else {
            assert(s1[i] == s0[i]);
        }
    }
    assert forall|i: int| 0 <= i < s1.len() - 1 implies entry_end(#[trigger] s1[i]) == s1[i
        + 1].start by {
        if i + 1 < s0.len() {
            assert(s1[i] == s0[i] && s1[i + 1] == s0[i + 1]);
        } else {
            assert(s1[i] == s0.last());
        }
    }
}

/// Copies `bytes` into `data` at `at`, leaving the rest as it was.
fn copy_into(data: &mut Vec<u8>, at: usize, bytes: &Vec<u8>)
    requires
        at + bytes.len() <= old(data).len(),
    ensures
        final(data)@.len() == old(data)@.len(),
        holds_at(final(data)@, at as int, bytes@),
        forall|j: int|
            0 <= j < old(data)@.len() && !(at <= j < at + bytes.len()) ==> final(data)@[j]
                == old(data)@[j],
{
    let mut i: usize = 0;
    while i < bytes.len()
        invariant
            i <= bytes.len(),
            at + bytes.len() <= data.len(),
            data@.len() == old(data)@.len(),
            forall|k: int| 0 <= k < i ==> data@[at + k] == bytes@[k],
            forall|j: int|
                0 <= j < old(data)@.len() && !(at <= j < at + i) ==> data@[j] == old(data)@[j],
        decreases bytes.len() - i,
    {
        data[at + i] = bytes[i];
        i = i + 1;
    }
}

/// Copies `data[from..from + n]` out.
fn copy_out(data: &Vec<u8>, from: usize, n: usize) -> (r: Vec<u8>)
    requires
        from + n <= data.len(),
    ensures
        r@ == data@.subrange(from as int, from + n),
{
    let mut v: Vec<u8> = Vec::new();
    let mut i: usize = 0;
    while i < n
        invariant
            i <= n,
            from + n <= data.len(),
            v@ == data@.subrange(from as int, from + i),
        decreases n - i,
    {
        v.push(data[from + i]);
        i = i + 1;
        assert(v@ =~= data@.subrange(from as int, from + i));
    }
    v
}

impl Ringbuf {
    /// Bytes ever published, wrap tails included.
    pub fn produce_offset(&self) -> (r: u64)
        ensures
            r == self.spec_produce(),
    {
        self.produce
    }

    /// Bytes ever consumed, wrap tails included.
    pub fn consume_offset(&self) -> (r: u64)
        ensures
            r == self.spec_consume(),
    {
        self.consume
    }

    pub fn capacity(&self) -> (r: u64)
        ensures
            r == self.spec_capacity(),
    {
        self.capacity
    }

    /// Bytes free for publishing.
    pub fn remaining(&self) -> (r: u64)
        requires
            self.inv(),
        ensures
            r == self.spec_remaining(),
    {
        self.capacity - (self.produce - self.consume)
    }
}

impl Ringbuf {
    /// A ring whose data area has `capacity` bytes, all zero, and no message.
    pub fn new(capacity: u64, checksum: bool) -> (r: Result<Ringbuf, Error>)
        ensures
            valid_capacity(capacity) <==> r is Ok,
            r matches Err(e) ==> e is InvalidParameter,
            r matches Ok(rb) ==> {
                &&& rb.inv()
                &&& rb.wf()
                &&& rb.spec_capacity() == capacity
                &&& rb.spec_checksum() == checksum
                &&& rb.spec_produce() == 0
                &&& rb.spec_consume() == 0
                &&& rb.entries().len() == 0
            },
    {
        if capacity < MIN_CAPACITY || capacity > MAX_CAPACITY || capacity & (capacity - 1) != 0 {
            return Err(
                Error::InvalidParameter {
                    detail: "ring capacity must be a power of two between 64 bytes and 2 GiB".to_string(),
                },
            );
        }
        let mut data: Vec<u8> = Vec::new();
        let mut i: u64 = 0;
        while i < capacity
            invariant
                i <= capacity,
                data@.len() == i,
            decreases capacity - i,
        {
            data.push(0u8);
            i = i + 1;
        }
        Ok(Ringbuf { capacity, produce: 0, consume: 0, checksum, data, entries: Ghost(Seq::empty()) })
    }
}


impl Ringbuf {
    /// Publishes `payload` under `msg_id`.
    ///
    /// Fails with `NotEnoughSpace`, changing nothing, when the block (plus the
    /// tail it would skip to avoid straddling the end of the data area) does
    /// not fit in the free bytes. Otherwise the skipped tail, if any, gets a
    /// wrap sentinel when it can hold a header, the block is written, and the
    /// produce offset advances past both.
    #[verifier::rlimit(40)]
    pub fn publish(&mut self, msg_id: u32, payload: &Vec<u8>) -> (r: Result<(), Error>)
        requires
            old(self).inv(),
            old(self).spec_produce() <= OFFSET_LIMIT,
            payload.len() <= MAX_PAYLOAD_LEN,
        ensures
            final(self).inv(),
            final(self).spec_capacity() == old(self).spec_capacity(),
            final(self).spec_checksum() == old(self).spec_checksum(),
            final(self).spec_consume() == old(self).spec_consume(),
            ({
                let need = space_needed(
                    old(self).spec_capacity(),
                    old(self).spec_produce(),
                    payload.len() as int,
                );
                &&& (need > old(self).spec_remaining() <==> r is Err)
                &&& r matches Err(e) ==> {
                    &&& e matches Error::NotEnoughSpace { remaining, expected }
                    &&& remaining == old(self).spec_remaining()
                    &&& expected == framed_size(payload.len() as int)
                    &&& *final(self) == *old(self)
                }
                &&& r is Ok ==> final(self).spec_produce() == old(self).spec_produce() + need
                &&& r is Ok && old(self).wf() ==> {
                    &&& final(self).wf()
                    &&& final(self).entries() == old(self).entries().push(
                        Entry {
                            start: old(self).spec_produce(),
                            skip: need - framed_size(payload.len() as int),
                            msg_id,
                            payload: payload@,
                        },
                    )
                    &&& final(self).messages() == old(self).messages().push((msg_id, payload@))
                }
            }),
    {
        let cap = self.capacity;
        let remaining = cap - (self.produce - self.consume);
        let n = payload.len() as u64;
        let fs = FRAME_HEADER_LEN + n + (4 - n % 4) % 4;
        let pos = self.produce % cap;
        let skip: u64 = if pos + fs > cap {
            cap - pos
        } else {
            0
        };
        let need = skip + fs;
        if need > remaining {
            return Err(Error::NotEnoughSpace { remaining, expected: fs });
        }
        let crc = if self.checksum {
            crc32_range(payload, 0, payload.len())
        } else {
            0
        };
        proof {
            assert(payload@.subrange(0, payload@.len() as int) =~= payload@);
        }
        let flags = if self.checksum {
            FLAG_CHECKSUM
        } else {
            0
        };
        let frame = encode_frame(msg_id, flags, crc, payload);
        let ghost d0 = self.data@;
        if skip >= FRAME_HEADER_LEN {
            let sentinel = encode_header((skip - FRAME_HEADER_LEN) as u32, 0, FLAG_WRAP, 0);
            copy_into(&mut self.data, pos as usize, &sentinel);
        }
        let ghost d1 = self.data@;
        let at = if skip > 0 {
            0
        } else {
            pos
        };
        copy_into(&mut self.data, at as usize, &frame);
        let ghost d2 = self.data@;
        let ghost old_produce = self.produce as int;
        let ghost ne = Entry { start: old_produce, skip: skip as int, msg_id, payload: payload@ };
        let ghost s0 = self.entries@;
        self.produce = self.produce + need;
        self.entries = Ghost(s0.push(ne));
        proof {
            let capi = cap as int;
            let lo = self.consume as int;
            if skip > 0 {
                lemma_wrap_mod(old_produce, capi);
            }
            assert(entry_frame(ne, self.checksum) == frame@);
            if old(self).wf() {
                lemma_push_layout(
                    s0,
                    ne,
                    capi,
                    lo,
                    self.checksum,
                    d0,
                    d1,
                    d2,
                    frame@,
                );
                assert(self.messages() =~= old(self).messages().push((msg_id, payload@)));
            }
        }
        Ok(())
    }
}


/// The fields of the block header at `q`: length, id, flags, payload CRC.
pub open spec fn decode_header(d: Seq<u8>, q: int) -> (u32, u32, u16, u32) {
    (
        u32_from_le(d[q], d[q + 1], d[q + 2], d[q + 3]),
        u32_from_le(d[q + 4], d[q + 5], d[q + 6], d[q + 7]),
        u16_from_le(d[q + 8], d[q + 9]),
        u32_from_le(d[q + 12], d[q + 13], d[q + 14], d[q + 15]),
    )
}

/// The header CRC at `q` matches the length and id fields before it.
pub open spec fn header_valid(d: Seq<u8>, q: int) -> bool {
    u16_from_le(d[q + 10], d[q + 11]) == (crc32(d.subrange(q, q + 8)) & 0xffff) as u16
}

/// Where the consumer looks for the next block: the start of the data area
/// when the tail at the consume position is too short for a header or holds
/// a wrap sentinel, else the consume position itself.
pub open spec fn frame_pos(d: Seq<u8>, consume: int, cap: int) -> int {
    let p = consume % cap;
    if p + FRAME_HEADER_LEN > cap {
        0
    } else if decode_header(d, p).2 & FLAG_WRAP != 0 {
        0
    } else {
        p
    }
}

/// The block at `q`, if its header asks for a payload check, stores the
/// CRC-32 of the `n` payload bytes after its header.
pub open spec fn payload_checks(d: Seq<u8>, q: int, n: int) -> bool {
    decode_header(d, q).2 & FLAG_CHECKSUM != 0 ==> decode_header(d, q).3 == crc32(
        d.subrange(q + 16, q + 16 + n),
    )
}

/// What a consumer returns as `payload` was read from the block it looks at:
/// the header there passes its CRC, the payload is the header's length of
/// bytes after it, and passes the payload check when the header asks for one.
pub open spec fn frame_read_ok(d: Seq<u8>, consume: int, cap: int, payload: Seq<u8>) -> bool {
    let q = frame_pos(d, consume, cap);
    let n = decode_header(d, q).0 as int;
    &&& header_valid(d, q)
    &&& payload == d.subrange(q + 16, q + 16 + n)
    &&& payload_checks(d, q, n)
}

proof fn lemma_header_decodes(d: Seq<u8>, q: int, len: u32, id: u32, flags: u16, pcrc: u32)
    requires
        holds_at(d, q, header_bytes(len, id, flags, pcrc)),
    ensures
        header_valid(d, q),
        decode_header(d, q) == (len, id, flags, pcrc),
{
    let hb = header_bytes(len, id, flags, pcrc);
    let h = header_crc(len, id);
    assert forall|k: int| 0 <= k < 16 implies d[q + k] == hb[k] by {
        assert(hb[k] == hb[k]);
    }
    assert(hb.subrange(0, 4) =~= le32(len));
    assert(hb.subrange(4, 8) =~= le32(id));
    assert(hb.subrange(8, 10) =~= le16(flags));
    assert(hb.subrange(10, 12) =~= le16(h));
    assert(hb.subrange(12, 16) =~= le32(pcrc));
    assert(hb.subrange(0, 8) =~= le32(len) + le32(id));
    assert(d.subrange(q, q + 8) =~= hb.subrange(0, 8));
    lemma_le32(len);
    lemma_le32(id);
    lemma_le16(flags);
    lemma_le16(h);
    lemma_le32(pcrc);
    assert(d[q] == le32(len)[0]);
    assert(d[q + 1] == le32(len)[1]);
    assert(d[q + 2] == le32(len)[2]);
    assert(d[q + 3] == le32(len)[3]);
    assert(d[q + 4] == le32(id)[0]);
    assert(d[q + 5] == le32(id)[1]);
    assert(d[q + 6] == le32(id)[2]);
    assert(d[q + 7] == le32(id)[3]);
    assert(d[q + 8] == le16(flags)[0]);
    assert(d[q + 9] == le16(flags)[1]);
    assert(d[q + 10] == le16(h)[0]);
    assert(d[q + 11] == le16(h)[1]);
    assert(d[q + 12] == le32(pcrc)[0]);
    assert(d[q + 13] == le32(pcrc)[1]);
    assert(d[q + 14] == le32(pcrc)[2]);
    assert(d[q + 15] == le32(pcrc)[3]);
}

/// A block stored at `q` holds its header there, and its payload after it.
proof fn lemma_frame_parts(d: Seq<u8>, q: int, e: Entry, ck: bool)
    requires
        holds_at(d, q, entry_frame(e, ck)),
        e.payload.len() <= MAX_PAYLOAD_LEN,
    ensures
        holds_at(
            d,
            q,
            header_bytes(e.payload.len() as u32, e.msg_id, flags_for(ck), crc_for(ck, e.payload)),
        ),
        d.subrange(q + 16, q + 16 + e.payload.len()) == e.payload,
{
    let fb = entry_frame(e, ck);
    let hb = header_bytes(e.payload.len() as u32, e.msg_id, flags_for(ck), crc_for(ck, e.payload));
    assert forall|k: int| 0 <= k < hb.len() implies d[q + k] == #[trigger] hb[k] by {
        assert(fb[k] == hb[k]);
    }
    assert forall|j: int| 0 <= j < e.payload.len() implies d[q + 16 + j] == e.payload[j] by {
        assert(fb[16 + j] == e.payload[j]);
    }
    assert(d.subrange(q + 16, q + 16 + e.payload.len()) =~= e.payload);
}

impl Ringbuf {
    fn read_header(&self, pos: usize) -> (r: Result<(u32, u32, u16, u32), Error>)
        requires
            self.inv(),
            pos + FRAME_HEADER_LEN <= self.spec_capacity(),
        ensures
            header_valid(self.spec_data(), pos as int) ==> r == Ok::<_, Error>(
                decode_header(self.spec_data(), pos as int),
            ),
            !header_valid(self.spec_data(), pos as int) ==> r is Err,
    {
        let len = read_le32(&self.data, pos);
        let id = read_le32(&self.data, pos + 4);
        let flags = read_le16(&self.data, pos + 8);
        let hcrc = read_le16(&self.data, pos + 10);
        let pcrc = read_le32(&self.data, pos + 12);
        let c = crc32_range(&self.data, pos, pos + 8);
        if hcrc != (c & 0xffff) as u16 {
            return Err(Error::HeaderChecksum { offset: self.consume });
        }
        Ok((len, id, flags, pcrc))
    }

    /// Finds the next message without moving the consume offset; also gives
    /// the number of bytes that consuming it frees.
    fn next_frame(&self) -> (r: Result<Option<(Message, u64)>, Error>)
        requires
            self.inv(),
        ensures
            r matches Ok(Some((_, adv))) ==> 0 < adv <= self.spec_produce() - self.spec_consume(),
            r matches Ok(None) ==> self.spec_produce() == self.spec_consume(),
            r matches Ok(Some((m, _))) ==> frame_read_ok(
                self.spec_data(),
                self.spec_consume(),
                self.spec_capacity(),
                m.payload@,
            ),
            self.wf() ==> if self.entries().len() == 0 {
                r matches Ok(None)
            } else {
                (r matches Ok(Some((m, adv))) && m.msg_id == self.entries()[0].msg_id
                    && m.payload@ == self.entries()[0].payload && adv == entry_size(
                    self.entries()[0],
                ))
            },
    {
        let cap = self.capacity;
        let avail = self.produce - self.consume;
        if avail == 0 {
            return Ok(None);
        }
        let pos0 = self.consume % cap;
        let ghost e0 = self.entries@[0];
        proof {
            assert((1u16 & 2u16) == 0u16 && (0u16 & 2u16) == 0u16 && (2u16 & 2u16) != 0u16)
                by (bit_vector);
            assert((1u16 & 1u16) != 0u16 && (0u16 & 1u16) == 0u16) by (bit_vector);
            if self.wf() {
                assert(self.entries@.len() > 0);
                assert(entry_placed(e0, cap as int, self.data@, self.checksum));
                if e0.skip == 0 {
                    lemma_frame_parts(self.data@, pos0 as int, e0, self.checksum);
                    lemma_header_decodes(
                        self.data@,
                        pos0 as int,
                        e0.payload.len() as u32,
                        e0.msg_id,
                        flags_for(self.checksum),
                        crc_for(self.checksum, e0.payload),
                    );
                } else if e0.skip >= FRAME_HEADER_LEN {
                    lemma_header_decodes(
                        self.data@,
                        pos0 as int,
                        (e0.skip - FRAME_HEADER_LEN) as u32,
                        0,
                        FLAG_WRAP,
                        0,
                    );
                }
            }
        }
        let mut skip: u64 = 0;
        if pos0 + FRAME_HEADER_LEN > cap {
            skip = cap - pos0;
        } else {
            match self.read_header(pos0 as usize) {
                Err(e) => {
                    return Err(e);
                },
                Ok((len, _id, flags, _pcrc)) => {
                    if flags & FLAG_WRAP != 0 {
                        if len as u64 + FRAME_HEADER_LEN != cap - pos0 {
                            return Err(Error::Malformed { offset: self.consume });
                        }
                        skip = cap - pos0;
                    }
                },
            }
        }
        if skip >= avail {
            return Err(Error::Malformed { offset: self.consume });
        }
        let pos = if skip > 0 {
            0
        } else {
            pos0
        };
        proof {
            if self.wf() {
                assert(skip == e0.skip);
                if e0.skip != 0 {
                    lemma_frame_parts(self.data@, 0, e0, self.checksum);
                    lemma_header_decodes(
                        self.data@,
                        0,
                        e0.payload.len() as u32,
                        e0.msg_id,
                        flags_for(self.checksum),
                        crc_for(self.checksum, e0.payload),
                    );
                }
            }
        }
        let (len, id, flags, pcrc) = match self.read_header(pos as usize) {
            Err(e) => {
                return Err(e);
            },
            Ok(h) => h,
        };
        if flags & FLAG_WRAP != 0 {
            return Err(Error::Malformed { offset: self.consume });
        }
        let n = len as u64;
        let fs = FRAME_HEADER_LEN + n + (4 - n % 4) % 4;
        if fs > cap - pos || fs > avail - skip {
            return Err(Error::Malformed { offset: self.consume });
        }
        let start = pos as usize + 16;
        let payload = copy_out(&self.data, start, n as usize);
        if flags & FLAG_CHECKSUM != 0 {
            let c = crc32_range(&self.data, start, start + n as usize);
            if c != pcrc {
                return Err(Error::PayloadChecksum { offset: self.consume });
            }
        }
        Ok(Some((Message { msg_id: id, payload }, skip + fs)))
    }

    /// The next message, leaving it in the ring. Peeking twice gives the same
    /// message.
    pub fn peek(&self) -> (r: Result<Option<Message>, Error>)
        requires
            self.inv(),
        ensures
            r matches Ok(None) ==> self.spec_produce() == self.spec_consume(),
            r matches Ok(Some(m)) ==> frame_read_ok(
                self.spec_data(),
                self.spec_consume(),
                self.spec_capacity(),
                m.payload@,
            ),
            self.wf() && self.messages().len() == 0 ==> r matches Ok(None),
            self.wf() && self.messages().len() > 0 ==> (r matches Ok(Some(m)) && (
            m.msg_id,
            m.payload@,
            ) == self.messages()[0]),
    {
        match self.next_frame() {
            Err(e) => Err(e),
            Ok(None) => Ok(None),
            Ok(Some((m, _adv))) => Ok(Some(m)),
        }
    }

    /// Takes the next message out of the ring and frees its bytes.
    ///
    /// A header or payload that fails its CRC is an error that changes
    /// nothing; on a well-formed ring that never happens.
    pub fn consume(&mut self) -> (r: Result<Option<Message>, Error>)
        requires
            old(self).inv(),
        ensures
            final(self).inv(),
            final(self).spec_capacity() == old(self).spec_capacity(),
            final(self).spec_checksum() == old(self).spec_checksum(),
            final(self).spec_produce() == old(self).spec_produce(),
            final(self).spec_data() == old(self).spec_data(),
            !(r matches Ok(Some(_))) ==> *final(self) == *old(self),
            r matches Ok(None) ==> old(self).spec_produce() == old(self).spec_consume(),
            r matches Ok(Some(m)) ==> frame_read_ok(
                old(self).spec_data(),
                old(self).spec_consume(),
                old(self).spec_capacity(),
                m.payload@,
            ),
            old(self).wf() && old(self).messages().len() == 0 ==> r matches Ok(None),
            old(self).wf() && old(self).messages().len() > 0 ==> {
                &&& r matches Ok(Some(m)) && (m.msg_id, m.payload@) == old(self).messages()[0]
                &&& final(self).wf()
                &&& final(self).entries() == old(self).entries().drop_first()
                &&& final(self).messages() == old(self).messages().drop_first()
                &&& final(self).spec_consume() == old(self).spec_consume() + entry_size(
                    old(self).entries()[0],
                )
            },
    {
        match self.next_frame() {
            Err(e) => Err(e),
            Ok(None) => Ok(None),
            Ok(Some((m, adv))) => {
                let ghost s0 = self.entries@;
                self.consume = self.consume + adv;
                self.entries = Ghost(
                    if s0.len() > 0 {
                        s0.drop_first()
                    } else {
                        s0
                    },
                );
                proof {
                    if old(self).wf() && s0.len() > 0 {
                        let s1 = s0.drop_first();
                        assert forall|i: int| 0 <= i < s1.len() implies s1[i] == s0[i + 1] by {}
                        assert forall|i: int| 0 <= i < s1.len() implies self.consume <= (
                        #[trigger] s1[i]).start by {
                            assert(s1[i] == s0[i + 1]);
                            assert(entry_end(s0[0]) <= s0[i + 1].start);
                        }
                        assert forall|i: int, j: int| 0 <= i < j < s1.len() implies entry_end(
                            #[trigger] s1[i],
                        ) <= #[trigger] s1[j].start by {
                            assert(s1[i] == s0[i + 1] && s1[j] == s0[j + 1]);
                        }
                        assert forall|i: int| 0 <= i < s1.len() - 1 implies entry_end(
                            #[trigger] s1[i],
                        ) == s1[i + 1].start by {
                            assert(s1[i] == s0[i + 1] && s1[i + 1] == s0[i + 2]);
                        }
                        if s1.len() > 0 {
                            assert(s1[0] == s0[1]);
                            assert(s1.last() == s0.last());
                        }
                        assert(self.messages() =~= old(self).messages().drop_first());
                    }
                }
                Ok(Some(m))
            },
        }
    }

    /// Overwrites one byte of the data area, as a peer sharing the mapping can.
    /// The offsets stay; the stored messages may no longer read back.
    pub fn write_data_byte(&mut self, index: usize, value: u8)
        requires
            old(self).inv(),
            index < old(self).spec_capacity(),
        ensures
            final(self).inv(),
            final(self).spec_capacity() == old(self).spec_capacity(),
            final(self).spec_checksum() == old(self).spec_checksum(),
            final(self).spec_produce() == old(self).spec_produce(),
            final(self).spec_consume() == old(self).spec_consume(),
            final(self).spec_data() == old(self).spec_data().update(index as int, value),
    {
        self.data[index] = value;
    }
}


proof fn lemma_total_span(s: Seq<Entry>, lo: int)
    requires
        s.len() > 0,
        s[0].start == lo,
        forall|i: int| 0 <= i < s.len() - 1 ==> entry_end(#[trigger] s[i]) == s[i + 1].start,
    ensures
        entry_end(s.last()) == lo + total_size(s),
    decreases s.len(),
{
    if s.len() > 1 {
        let t = s.drop_last();
        assert forall|i: int| 0 <= i < t.len() - 1 implies entry_end(#[trigger] t[i]) == t[i
            + 1].start by {
            assert(t[i] == s[i] && t[i + 1] == s[i + 1]);
        }
        lemma_total_span(t, lo);
        assert(s[s.len() - 2] == t.last());
        assert(entry_end(s[s.len() - 2]) == s[s.len() - 1].start);
        assert(total_size(s) == total_size(t) + entry_size(s.last()));
    } else {
        assert(s.drop_last().len() == 0);
        assert(total_size(s.drop_last()) == 0);
        assert(total_size(s) == entry_size(s.last()));
    }
}

/// The bytes between the consume and produce offsets are exactly those of
/// the outstanding publishes (blocks, and the tails they skipped).
pub proof fn law_outstanding_bytes(rb: &Ringbuf)
    requires
        rb.wf(),
    ensures
        rb.spec_produce() - rb.spec_consume() == total_size(rb.entries()),
{
    if rb.entries().len() > 0 {
        lemma_total_span(rb.entries(), rb.spec_consume());
    }
}

/// Once every published message has been consumed, the offsets are equal.
pub proof fn law_drained_offsets_meet(rb: &Ringbuf)
    requires
        rb.wf(),
        rb.messages().len() == 0,
    ensures
        rb.spec_produce() == rb.spec_consume(),
{
}

/// A payload whose block is larger than the free bytes always needs more
/// than the free bytes, so publish refuses it and leaves the offsets alone.
pub proof fn law_full_ring_refuses(rb: &Ringbuf, n: int)
    requires
        rb.inv(),
        0 <= n,
        framed_size(n) > rb.spec_remaining(),
    ensures
        space_needed(rb.spec_capacity(), rb.spec_produce(), n) > rb.spec_remaining(),
{
}

/// On an empty ring whose write position is the start of the data area,
/// every payload of at most `capacity - 16 - pad` bytes fits: publish
/// succeeds, and the next consume returns it.
pub proof fn law_round_trip_fits(rb: &Ringbuf, n: int)
    requires
        rb.wf(),
        rb.messages().len() == 0,
        rb.spec_produce() % rb.spec_capacity() == 0,
        0 <= n <= rb.spec_capacity() - FRAME_HEADER_LEN - pad4(n),
    ensures
        space_needed(rb.spec_capacity(), rb.spec_produce(), n) <= rb.spec_remaining(),
{
}

/// A publish that wraps leaves a tail before its block: a wrap sentinel when
/// the tail can hold a header, implicit padding of under 16 bytes otherwise.
pub proof fn law_wrap_tail(rb: &Ringbuf, i: int)
    requires
        rb.wf(),
        0 <= i < rb.entries().len(),
        rb.entries()[i].skip != 0,
    ensures
        ({
            let e = rb.entries()[i];
            let p = e.start % rb.spec_capacity();
            &&& e.skip == rb.spec_capacity() - p
            &&& e.skip >= FRAME_HEADER_LEN ==> holds_at(rb.spec_data(), p, sentinel_bytes(e.skip))
            &&& e.skip < FRAME_HEADER_LEN ==> p + FRAME_HEADER_LEN > rb.spec_capacity()
            &&& entry_frame_pos(e, rb.spec_capacity()) == 0
            &&& holds_at(rb.spec_data(), 0, entry_frame(e, rb.spec_checksum()))
            &&& framed_size(e.payload.len() as int) <= p
        }),
{
    assert(entry_placed(rb.entries()[i], rb.spec_capacity(), rb.spec_data(), rb.spec_checksum()));
}

/// With checksums on, the payload CRC stored with every outstanding block is
/// the CRC of the payload bytes that follow it, and its header says so.
pub proof fn law_stored_crc_matches(rb: &Ringbuf, i: int)
    requires
        rb.wf(),
        rb.spec_checksum(),
        0 <= i < rb.entries().len(),
    ensures
        ({
            let e = rb.entries()[i];
            let q = if e.skip == 0 {
                e.start % rb.spec_capacity()
            } else {
                0
            };
            let h = decode_header(rb.spec_data(), q);
            &&& header_valid(rb.spec_data(), q)
            &&& h.2 == FLAG_CHECKSUM
            &&& h.3 == crc32(rb.spec_data().subrange(q + 16, q + 16 + e.payload.len()))
        }),
{
    let e = rb.entries()[i];
    let q = if e.skip == 0 {
        e.start % rb.spec_capacity()
    } else {
        0
    };
    assert(entry_placed(e, rb.spec_capacity(), rb.spec_data(), rb.spec_checksum()));
    lemma_frame_parts(rb.spec_data(), q, e, true);
    lemma_header_decodes(
        rb.spec_data(),
        q,
        e.payload.len() as u32,
        e.msg_id,
        flags_for(true),
        crc_for(true, e.payload),
    );
}


/// Where the block of an entry stands: at its start offset, or at the
/// start of the data area when it wrapped.
pub open spec fn entry_frame_pos(e: Entry, cap: int) -> int {
    if e.skip == 0 {
        e.start % cap
    } else {
        0
    }
}

/// A valid ring's capacity is a power of two within the accepted range, and
/// its offsets are at most one capacity apart.
pub proof fn law_capacity_valid(rb: &Ringbuf)
    requires
        rb.inv(),
    ensures
        valid_capacity(rb.spec_capacity() as u64),
        MIN_CAPACITY <= rb.spec_capacity() <= MAX_CAPACITY,
        0 <= rb.spec_consume() <= rb.spec_produce() <= rb.spec_consume() + rb.spec_capacity(),
        rb.spec_data().len() == rb.spec_capacity(),
{
}

/// Each outstanding entry's block stands unsplit in the data area, at the
/// start of the area when it wrapped: its header decodes to the payload's
/// length, the id, the flags and the payload CRC (when checksums are on),
/// and the payload's bytes follow the header. The oldest entry's block is
/// where the consumer looks.
pub proof fn law_entry_in_place(rb: &Ringbuf, i: int)
    requires
        rb.wf(),
        0 <= i < rb.entries().len(),
    ensures
        ({
            let e = rb.entries()[i];
            let cap = rb.spec_capacity();
            let q = entry_frame_pos(e, cap);
            let n = e.payload.len() as int;
            let d = rb.spec_data();
            &&& 0 <= q
            &&& q + framed_size(n) <= cap
            &&& holds_at(d, q, entry_frame(e, rb.spec_checksum()))
            &&& header_valid(d, q)
            &&& decode_header(d, q) == (
                n as u32,
                e.msg_id,
                flags_for(rb.spec_checksum()),
                crc_for(rb.spec_checksum(), e.payload),
            )
            &&& d.subrange(q + 16, q + 16 + n) == e.payload
            &&& i == 0 ==> frame_pos(d, rb.spec_consume(), cap) == q
        }),
{
    let e = rb.entries()[i];
    let cap = rb.spec_capacity();
    let data = rb.spec_data();
    let ck = rb.spec_checksum();
    let q = entry_frame_pos(e, cap);
    let p = e.start % cap;
    let n = e.payload.len() as int;
    assert(entry_placed(e, cap, data, ck));
    lemma_frame_parts(data, q, e, ck);
    lemma_header_decodes(data, q, n as u32, e.msg_id, flags_for(ck), crc_for(ck, e.payload));
    assert((1u16 & 2u16) == 0u16 && (0u16 & 2u16) == 0u16 && (2u16 & 2u16) != 0u16)
        by (bit_vector);
    if e.skip != 0 && e.skip >= FRAME_HEADER_LEN {
        lemma_header_decodes(data, p, (e.skip - FRAME_HEADER_LEN) as u32, 0, FLAG_WRAP, 0);
    }
}

/// With checksums on, changing any one payload byte of the oldest message in
/// the data area makes the consumer's read of the ring fail: no payload
/// passes `frame_read_ok`, and the ring is not empty, so `peek` and
/// `consume` return an error (and `consume` changes nothing).
pub proof fn law_corrupted_payload_is_refused(rb: &Ringbuf, j: int, v: u8)
    requires
        rb.wf(),
        rb.spec_checksum(),
        rb.entries().len() > 0,
        0 <= j < rb.entries()[0].payload.len(),
        v != rb.entries()[0].payload[j],
    ensures
        ({
            let e = rb.entries()[0];
            let q = entry_frame_pos(e, rb.spec_capacity());
            let d = rb.spec_data().update(q + 16 + j, v);
            &&& rb.spec_produce() != rb.spec_consume()
            &&& 0 <= q + 16 + j < rb.spec_data().len()
            &&& frame_pos(d, rb.spec_consume(), rb.spec_capacity()) == q
            &&& decode_header(d, q).0 == e.payload.len()
            &&& !payload_checks(d, q, e.payload.len() as int)
            &&& forall|pl: Seq<u8>| !#[trigger] frame_read_ok(
                d,
                rb.spec_consume(),
                rb.spec_capacity(),
                pl,
            )
        }),
{
    let e = rb.entries()[0];
    let cap = rb.spec_capacity();
    let data = rb.spec_data();
    let q = entry_frame_pos(e, cap);
    let p = e.start % cap;
    let n = e.payload.len() as int;
    let d = data.update(q + 16 + j, v);
    law_entry_in_place(rb, 0);
    assert(data[q + 16 + j] == e.payload[j]) by {
        assert(data.subrange(q + 16, q + 16 + n)[j] == data[q + 16 + j]);
    }
    assert(entry_placed(e, cap, data, true));
    assert((1u16 & 2u16) == 0u16 && (2u16 & 2u16) != 0u16 && (1u16 & 1u16) != 0u16)
        by (bit_vector);
    assert(decode_header(d, q) == decode_header(data, q));
    if e.skip != 0 && e.skip >= FRAME_HEADER_LEN {
        lemma_header_decodes(data, p, (e.skip - FRAME_HEADER_LEN) as u32, 0, FLAG_WRAP, 0);
        assert(decode_header(d, p) == decode_header(data, p));
    }
    assert(frame_pos(d, rb.spec_consume(), cap) == q);
    assert(d.subrange(q + 16, q + 16 + n) =~= e.payload.update(j, v));
    law_crc_detects_byte_change(e.payload, j, v);
}

} // verus!
