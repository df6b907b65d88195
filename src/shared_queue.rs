//! A fixed-size single-producer/single-consumer queue of `(op_id, payload)`
//! records laid out in a flat byte buffer that JavaScript reads as well.
//!
//! Layout, all integers 32-bit little-endian:
//! - `NUM_RECORDS` at byte 0, `NUM_SHIFTED_OFF` at byte 4, `HEAD` at byte 8;
//! - `OFFSETS[MAX_RECORDS]`: the padded end of each record, relative to the
//!   record area;
//! - `LENGTHS[MAX_RECORDS]`: the payload length of each record;
//! - the record area: `(op_id, payload, zero padding)` per record, each
//!   record padded to a multiple of 4 bytes.
//!
//! Native code and JavaScript never touch the queue at the same time: control
//! alternates between the two, so no lock is taken.
use vstd::prelude::*;

verus! {

/// Largest number of records the queue holds between two resets.
pub const MAX_RECORDS: usize = 100;

/// Default size in bytes of the whole buffer.
pub const RECOMMENDED_SIZE: usize = 2 * 1024 * 1024;

/// Byte position of `NUM_RECORDS`, the records pushed since the last reset.
pub const INDEX_NUM_RECORDS: usize = 0;

/// Byte position of `NUM_SHIFTED_OFF`, the records shifted off since then.
pub const INDEX_NUM_SHIFTED_OFF: usize = 4;

/// Byte position of `HEAD`, the end of the data in the record area.
pub const INDEX_HEAD: usize = 8;

/// Byte position of the `OFFSETS` table.
pub const INDEX_OFFSETS: usize = 12;

/// Byte position of the `LENGTHS` table.
pub const INDEX_LENGTHS: usize = INDEX_OFFSETS + 4 * MAX_RECORDS;

/// Byte position of the record area: the header ends here.
pub const INDEX_RECORDS: usize = INDEX_LENGTHS + 4 * MAX_RECORDS;

/// The little-endian 32-bit integer stored at `b[p..p + 4]`.
#[verifier::opaque]
pub open spec fn u32_at(b: Seq<u8>, p: int) -> u32 {
    (b[p] as int + 256 * (b[p + 1] as int) + 65536 * (b[p + 2] as int) + 16777216 * (
    b[p + 3] as int)) as u32
}

/// `n` rounded up to a multiple of 4.
pub open spec fn align4(n: int) -> int {
    n + (4 - n % 4) % 4
}

/// Bytes that a record with a payload of `n` bytes occupies.
pub open spec fn padded_record_len(n: int) -> int {
    4 + align4(n)
}

pub open spec fn num_records(b: Seq<u8>) -> int {
    u32_at(b, INDEX_NUM_RECORDS as int) as int
}

pub open spec fn num_shifted_off(b: Seq<u8>) -> int {
    u32_at(b, INDEX_NUM_SHIFTED_OFF as int) as int
}

pub open spec fn head(b: Seq<u8>) -> int {
    u32_at(b, INDEX_HEAD as int) as int
}

/// `OFFSETS[i]`: the padded end of record `i` in the record area.
pub open spec fn end_of(b: Seq<u8>, i: int) -> int {
    u32_at(b, INDEX_OFFSETS + 4 * i) as int
}

/// Where record `i` begins in the record area.
pub open spec fn begin_of(b: Seq<u8>, i: int) -> int {
    if i == 0 {
        0
    } else {
        end_of(b, i - 1)
    }
}

/// `LENGTHS[i]`: the payload length of record `i`.
pub open spec fn len_of(b: Seq<u8>, i: int) -> int {
    u32_at(b, INDEX_LENGTHS + 4 * i) as int
}

/// Record `i` as `(op_id, payload)`.
pub open spec fn record_at(b: Seq<u8>, i: int) -> (u32, Seq<u8>) {
    let start = INDEX_RECORDS + begin_of(b, i);
    (u32_at(b, start), b.subrange(start + 4, start + 4 + len_of(b, i)))
}

/// The records that have been pushed and not yet shifted off, oldest first.
pub open spec fn unshifted(b: Seq<u8>) -> Seq<(u32, Seq<u8>)> {
    Seq::new(
        (num_records(b) - num_shifted_off(b)) as nat,
        |k: int| record_at(b, num_shifted_off(b) + k),
    )
}

/// The header and the record offsets of `b` describe a consistent queue.
pub open spec fn layout_ok(b: Seq<u8>) -> bool {
    &&& INDEX_RECORDS <= b.len() <= u32::MAX
    &&& num_records(b) <= MAX_RECORDS
    &&& (num_shifted_off(b) < num_records(b) || (num_shifted_off(b) == 0 && num_records(b) == 0))
    &&& head(b) == begin_of(b, num_records(b))
    &&& INDEX_RECORDS + head(b) <= b.len()
    &&& head(b) % 4 == 0
    &&& forall|i: int|
        0 <= i < num_records(b) ==> {
            &&& end_of(b, i) == begin_of(b, i) + padded_record_len(#[trigger] len_of(b, i))
            &&& end_of(b, i) <= head(b)
            &&& end_of(b, i) % 4 == 0
        }
}

/// The queue, over the byte buffer that is shared with JavaScript.
pub struct SharedQueue {
    buf: Vec<u8>,
}

impl View for SharedQueue {
    type V = Seq<(u32, Seq<u8>)>;

    closed spec fn view(&self) -> Seq<(u32, Seq<u8>)> {
        unshifted(self.buf@)
    }
}

impl SharedQueue {
    /// The raw bytes, in the layout that JavaScript reads.
    pub closed spec fn raw(&self) -> Seq<u8> {
        self.buf@
    }

    pub closed spec fn wf(&self) -> bool {
        layout_ok(self.buf@)
    }

    /// Bytes available to records.
    pub closed spec fn capacity(&self) -> int {
        self.buf@.len() - INDEX_RECORDS
    }

    /// Bytes of the record area in use since the last reset.
    pub closed spec fn used(&self) -> int {
        head(self.buf@)
    }

    /// Records pushed since the last reset.
    pub closed spec fn records_since_reset(&self) -> int {
        num_records(self.buf@)
    }
}

fn read_u32(b: &Vec<u8>, p: usize) -> (r: u32)
    requires
        p + 4 <= b.len(),
    ensures
        r == u32_at(b@, p as int),
{
    reveal(u32_at);
    b[p] as u32 + (b[p + 1] as u32) * 256 + (b[p + 2] as u32) * 65536 + (b[p + 3] as u32)
        * 16777216
}

fn write_u32(b: &mut Vec<u8>, p: usize, v: u32)
    requires
        p + 4 <= old(b).len(),
    ensures
        final(b)@.len() == old(b)@.len(),
        u32_at(final(b)@, p as int) == v,
        forall|q: int|
            0 <= q && q + 4 <= old(b)@.len() && (q + 4 <= p || p + 4 <= q) ==> #[trigger] u32_at(
                final(b)@,
                q,
            ) == u32_at(old(b)@, q),
        forall|j: int| 0 <= j < old(b)@.len() && !(p <= j < p + 4) ==> final(b)@[j] == old(b)@[j],
{
    reveal(u32_at);
    let b0: u8 = (v & 0xff) as u8;
    let b1: u8 = ((v >> 8) & 0xff) as u8;
    let b2: u8 = ((v >> 16) & 0xff) as u8;
    let b3: u8 = ((v >> 24) & 0xff) as u8;
    assert(v == (v & 0xff) + 256 * ((v >> 8) & 0xff) + 65536 * ((v >> 16) & 0xff) + 16777216 * ((
    v >> 24) & 0xff)) by (bit_vector);
    assert(b0 == (v & 0xff) && b1 == ((v >> 8) & 0xff) && b2 == ((v >> 16) & 0xff) && b3 == ((v
        >> 24) & 0xff)) by (bit_vector)
        requires
            b0 == (v & 0xff) as u8,
            b1 == ((v >> 8) & 0xff) as u8,
            b2 == ((v >> 16) & 0xff) as u8,
            b3 == ((v >> 24) & 0xff) as u8,
    ;
    let (p1, p2, p3) = (p + 1, p + 2, p + 3);
    b[p] = b0;
    b[p1] = b1;
    b[p2] = b2;
    b[p3] = b3;
}


proof fn lemma_u32_same(b0: Seq<u8>, b1: Seq<u8>, p: int)
    requires
        0 <= p,
        p + 4 <= b0.len(),
        p + 4 <= b1.len(),
        forall|j: int| p <= j < p + 4 ==> b1[j] == b0[j],
    ensures
        u32_at(b1, p) == u32_at(b0, p),
{
    reveal(u32_at);
    assert(b1[p] == b0[p] && b1[p + 1] == b0[p + 1] && b1[p + 2] == b0[p + 2] && b1[p + 3] == b0[p + 3]);
}

proof fn lemma_align4(n: int)
    requires
        n >= 0,
    ensures
        align4(n) % 4 == 0,
        n <= align4(n) < n + 4,
{
}

impl SharedQueue {
    /// A queue over a zeroed buffer of `size` bytes.
    pub fn new(size: usize) -> (q: SharedQueue)
        requires
            INDEX_RECORDS <= size <= u32::MAX,
        ensures
            q.wf(),
            q@ == Seq::<(u32, Seq<u8>)>::empty(),
            q.raw() == Seq::new(size as nat, |i: int| 0u8),
            q.capacity() == size - INDEX_RECORDS,
            q.used() == 0,
            q.records_since_reset() == 0,
    {
        let buf: Vec<u8> = vec![0u8; size];
        let q = SharedQueue { buf };
        assert(q.buf@ =~= Seq::new(size as nat, |i: int| 0u8));
        reveal(u32_at);
        assert(q@ =~= Seq::<(u32, Seq<u8>)>::empty());
        q
    }

    /// Empties the queue: no records, none shifted off, head at 0.
    pub fn reset(&mut self)
        requires
            old(self).wf(),
        ensures
            final(self).wf(),
            final(self)@ == Seq::<(u32, Seq<u8>)>::empty(),
            final(self).capacity() == old(self).capacity(),
            final(self).used() == 0,
            final(self).records_since_reset() == 0,
    {
        write_u32(&mut self.buf, INDEX_NUM_RECORDS, 0);
        write_u32(&mut self.buf, INDEX_NUM_SHIFTED_OFF, 0);
        write_u32(&mut self.buf, INDEX_HEAD, 0);
        assert(self@ =~= Seq::<(u32, Seq<u8>)>::empty());
    }

    /// The number of records not yet shifted off.
    pub fn size(&self) -> (r: usize)
        requires
            self.wf(),
        ensures
            r == self@.len(),
    {
        let n = read_u32(&self.buf, INDEX_NUM_RECORDS);
        let s = read_u32(&self.buf, INDEX_NUM_SHIFTED_OFF);
        (n - s) as usize
    }

    /// The buffer, in the layout described above, for mapping into JavaScript.
    pub fn bytes(&self) -> (r: &Vec<u8>)
        ensures
            r@ == self.raw(),
    {
        &self.buf
    }
}


proof fn lemma_header_same(b0: Seq<u8>, b1: Seq<u8>)
    requires
        INDEX_RECORDS <= b0.len(),
        b1.len() == b0.len(),
        forall|q: int| 0 <= q < INDEX_RECORDS ==> #[trigger] b1[q] == b0[q],
    ensures
        forall|p: int| 0 <= p && p + 4 <= INDEX_RECORDS ==> #[trigger] u32_at(b1, p) == u32_at(b0, p),
{
    assert forall|p: int| 0 <= p && p + 4 <= INDEX_RECORDS implies #[trigger] u32_at(b1, p) == u32_at(
        b0,
        p,
    ) by {
        lemma_u32_same(b0, b1, p);
    }
}

proof fn lemma_push_layout(b0: Seq<u8>, b4: Seq<u8>, op_id: u32, record: Seq<u8>)
    requires
        layout_ok(b0),
        num_records(b0) < MAX_RECORDS,
        head(b0) + padded_record_len(record.len() as int) <= b0.len() - INDEX_RECORDS,
        b4.len() == b0.len(),
        num_shifted_off(b4) == num_shifted_off(b0),
        forall|i: int|
            0 <= i < num_records(b0) ==> #[trigger] end_of(b4, i) == end_of(b0, i) && len_of(b4, i)
                == len_of(b0, i),
        forall|q: int| INDEX_RECORDS <= q < INDEX_RECORDS + head(b0) ==> #[trigger] b4[q] == b0[q],
        num_records(b4) == num_records(b0) + 1,
        head(b4) == head(b0) + padded_record_len(record.len() as int),
        end_of(b4, num_records(b0)) == head(b4),
        len_of(b4, num_records(b0)) == record.len(),
        u32_at(b4, INDEX_RECORDS + head(b0)) == op_id,
        b4.subrange(
            INDEX_RECORDS + head(b0) + 4,
            INDEX_RECORDS + head(b0) + 4 + record.len(),
        ) == record,
    ensures
        layout_ok(b4),
        unshifted(b4) == unshifted(b0).push((op_id, record)),
{
    let n = num_records(b0);
    let h = head(b0);
    lemma_align4(record.len() as int);
    assert forall|i: int| 0 <= i < n implies #[trigger] record_at(b4, i) == record_at(b0, i) by {
        let st = INDEX_RECORDS + begin_of(b0, i);
        assert(end_of(b4, i) == end_of(b0, i));
        if i > 0 {
            assert(end_of(b4, i - 1) == end_of(b0, i - 1));
            assert(end_of(b0, i - 1) <= h);
        }
        assert(begin_of(b4, i) == begin_of(b0, i));
        assert(end_of(b0, i) <= h);
        lemma_u32_same(b0, b4, st);
        assert(b4.subrange(st + 4, st + 4 + len_of(b0, i)) =~= b0.subrange(
            st + 4,
            st + 4 + len_of(b0, i),
        ));
    }
    if n > 0 {
        assert(end_of(b4, n - 1) == end_of(b0, n - 1));
    }
    assert(begin_of(b4, n) == h);
    assert(record_at(b4, n) == (op_id, record));
    assert(unshifted(b4) =~= unshifted(b0).push((op_id, record)));
    assert forall|i: int| 0 <= i < num_records(b4) implies {
        &&& end_of(b4, i) == begin_of(b4, i) + padded_record_len(#[trigger] len_of(b4, i))
        &&& end_of(b4, i) <= head(b4)
        &&& end_of(b4, i) % 4 == 0
    } by {
        if i < n {
            assert(end_of(b4, i) == end_of(b0, i));
            if i > 0 {
                assert(end_of(b4, i - 1) == end_of(b0, i - 1));
            }
        }
    }
}

impl SharedQueue {
    /// Appends the record `(op_id, record)`. Returns false, and leaves the
    /// queue as it was, when `MAX_RECORDS` records have been pushed since the
    /// last reset or when the padded record does not fit in the record area.
    #[verifier::rlimit(50)]
    pub fn push(&mut self, op_id: u32, record: &[u8]) -> (r: bool)
        requires
            old(self).wf(),
        ensures
            final(self).wf(),
            final(self).capacity() == old(self).capacity(),
            r == (old(self).records_since_reset() < MAX_RECORDS && old(self).used()
                + padded_record_len(record@.len() as int) <= old(self).capacity()),
            r ==> final(self)@ == old(self)@.push((op_id, record@)),
            r ==> final(self).used() == old(self).used() + padded_record_len(record@.len() as int),
            r ==> final(self).records_since_reset() == old(self).records_since_reset() + 1,
            r ==> forall|j: int|
                INDEX_RECORDS + old(self).used() + 4 + record@.len() <= j
                    < INDEX_RECORDS + final(self).used() ==> #[trigger] final(self).raw()[j] == 0,
            !r ==> *final(self) == *old(self),
    {
        let ghost b0 = self.buf@;
        let n = read_u32(&self.buf, INDEX_NUM_RECORDS) as usize;
        let h = read_u32(&self.buf, INDEX_HEAD) as usize;
        let len = record.len();
        let cap = self.buf.len() - INDEX_RECORDS;
        proof {
            lemma_align4(len as int);
        }
        if n >= MAX_RECORDS || len > cap {
            return false;
        }
        let pad = (4 - len % 4) % 4;
        let l = 4 + len + pad;
        if l > cap - h {
            return false;
        }
        let start = INDEX_RECORDS + h;
        write_u32(&mut self.buf, start, op_id);
        let ghost b1 = self.buf@;
        let mut j: usize = 0;
        while j < len
            invariant
                j <= len == record@.len(),
                start + 4 + len + pad <= self.buf.len() == b0.len(),
                forall|k: int| 0 <= k < j ==> self.buf@[start + 4 + k] == record@[k],
                forall|q: int|
                    0 <= q < b0.len() && !(start + 4 <= q < start + 4 + j) ==> self.buf@[q]
                        == b1[q],
            decreases len - j,
        {
            self.buf.set(start + 4 + j, record[j]);
            j = j + 1;
        }
        let ghost b2 = self.buf@;
        let mut k: usize = 0;
        while k < pad
            invariant
                k <= pad,
                start + 4 + len + pad <= self.buf.len() == b0.len(),
                forall|q: int| start + 4 + len <= q < start + 4 + len + k ==> self.buf@[q] == 0,
                forall|q: int|
                    0 <= q < b0.len() && !(start + 4 + len <= q < start + 4 + len + k)
                        ==> self.buf@[q] == b2[q],
            decreases pad - k,
        {
            self.buf.set(start + 4 + len + k, 0);
            k = k + 1;
        }
        let ghost b3 = self.buf@;
        write_u32(&mut self.buf, INDEX_OFFSETS + 4 * n, (h + l) as u32);
        write_u32(&mut self.buf, INDEX_LENGTHS + 4 * n, len as u32);
        write_u32(&mut self.buf, INDEX_NUM_RECORDS, (n + 1) as u32);
        write_u32(&mut self.buf, INDEX_HEAD, (h + l) as u32);
        let ghost b4 = self.buf@;
        proof {
            assert(forall|q: int| start + 4 <= q < start + 4 + len ==> #[trigger] b4[q] == b2[q]);
            assert(b4.subrange(start + 4, start + 4 + len) =~= record@);
            lemma_header_same(b0, b3);
            lemma_u32_same(b1, b3, start as int);
            assert forall|i: int| 0 <= i < n implies #[trigger] end_of(b4, i) == end_of(b0, i)
                && len_of(b4, i) == len_of(b0, i) by {
                assert(end_of(b3, i) == end_of(b0, i));
                assert(len_of(b3, i) == len_of(b0, i));
            }
            assert(num_shifted_off(b3) == num_shifted_off(b0));
            lemma_push_layout(b0, b4, op_id, record@);
        }
        true
    }
}


proof fn lemma_shift_keeps_records(b0: Seq<u8>, b1: Seq<u8>)
    requires
        layout_ok(b0),
        num_shifted_off(b0) + 1 < num_records(b0),
        b1.len() == b0.len(),
        forall|q: int| 0 <= q < b0.len() && !(4 <= q < 8) ==> #[trigger] b1[q] == b0[q],
        num_shifted_off(b1) == num_shifted_off(b0) + 1,
    ensures
        layout_ok(b1),
        unshifted(b1) == unshifted(b0).drop_first(),
{
    let n = num_records(b0);
    lemma_u32_same(b0, b1, INDEX_NUM_RECORDS as int);
    lemma_u32_same(b0, b1, INDEX_HEAD as int);
    assert forall|i: int| 0 <= i < n implies #[trigger] end_of(b1, i) == end_of(b0, i) && len_of(b1, i)
        == len_of(b0, i) by {
        lemma_u32_same(b0, b1, INDEX_OFFSETS + 4 * i);
        lemma_u32_same(b0, b1, INDEX_LENGTHS + 4 * i);
    }
    assert forall|i: int| 0 <= i < n implies #[trigger] record_at(b1, i) == record_at(b0, i) by {
        assert(end_of(b1, i) == end_of(b0, i));
        if i > 0 {
            assert(end_of(b1, i - 1) == end_of(b0, i - 1));
        }
        let st = INDEX_RECORDS + begin_of(b0, i);
        lemma_u32_same(b0, b1, st);
        assert(b1.subrange(st + 4, st + 4 + len_of(b0, i)) =~= b0.subrange(
            st + 4,
            st + 4 + len_of(b0, i),
        ));
    }
    if n > 0 {
        assert(end_of(b1, n - 1) == end_of(b0, n - 1));
    }
    assert(unshifted(b1) =~= unshifted(b0).drop_first());
    assert forall|i: int| 0 <= i < num_records(b1) implies {
        &&& end_of(b1, i) == begin_of(b1, i) + padded_record_len(#[trigger] len_of(b1, i))
        &&& end_of(b1, i) <= head(b1)
        &&& end_of(b1, i) % 4 == 0
    } by {
        assert(end_of(b1, i) == end_of(b0, i));
        if i > 0 {
            assert(end_of(b1, i - 1) == end_of(b0, i - 1));
        }
    }
}

impl SharedQueue {
    /// Takes off the oldest record not yet shifted off. When that was the
    /// last one, the queue is reset.
    pub fn shift(&mut self) -> (r: Option<(u32, Vec<u8>)>)
        requires
            old(self).wf(),
        ensures
            final(self).wf(),
            final(self).capacity() == old(self).capacity(),
            old(self)@.len() == 0 ==> r.is_none() && *final(self) == *old(self),
            old(self)@.len() > 0 ==> r.is_some() && r.unwrap().0 == old(self)@[0].0
                && r.unwrap().1@ == old(self)@[0].1,
            old(self)@.len() > 0 ==> final(self)@ == old(self)@.drop_first(),
    {
        let ghost b0 = self.buf@;
        let n = read_u32(&self.buf, INDEX_NUM_RECORDS) as usize;
        let i = read_u32(&self.buf, INDEX_NUM_SHIFTED_OFF) as usize;
        if i >= n {
            return None;
        }
        assert(record_at(b0, i as int) == self@[0]);
        let begin: usize = if i == 0 {
            0
        } else {
            read_u32(&self.buf, INDEX_OFFSETS + 4 * (i - 1)) as usize
        };
        let len = read_u32(&self.buf, INDEX_LENGTHS + 4 * i) as usize;
        let start = INDEX_RECORDS + begin;
        proof {
            lemma_align4(len as int);
            assert(end_of(b0, i as int) <= head(b0));
        }
        let op_id = read_u32(&self.buf, start);
        let mut payload: Vec<u8> = Vec::new();
        let mut j: usize = 0;
        while j < len
            invariant
                j <= len,
                start + 4 + len <= self.buf.len(),
                self.buf@ == b0,
                payload@ == b0.subrange(start + 4, start + 4 + j),
            decreases len - j,
        {
            payload.push(self.buf[start + 4 + j]);
            j = j + 1;
            assert(payload@ =~= b0.subrange(start + 4, start + 4 + j));
        }
        if i + 1 == n {
            self.reset();
        } else {
            write_u32(&mut self.buf, INDEX_NUM_SHIFTED_OFF, (i + 1) as u32);
            proof {
                lemma_shift_keeps_records(b0, self.buf@);
            }
        }
        Some((op_id, payload))
    }
}


/// Records leave the queue in the order they entered it. After successful
/// pushes of `pushed` onto an empty queue its view is `pushed`; each shift
/// returns the first record of the view and drops it. So the `k`-th shift
/// returns `pushed[k]` and leaves `pushed.skip(k + 1)`, and after the last one
/// the queue is empty.
pub proof fn lemma_round_trip(pushed: Seq<(u32, Seq<u8>)>)
    ensures
        forall|k: int|
            0 <= k < pushed.len() ==> #[trigger] pushed.skip(k)[0] == pushed[k]
                && pushed.skip(k).drop_first() == pushed.skip(k + 1),
        pushed.skip(pushed.len() as int).len() == 0,
{
    assert forall|k: int| 0 <= k < pushed.len() implies #[trigger] pushed.skip(k)[0] == pushed[k]
        && pushed.skip(k).drop_first() == pushed.skip(k + 1) by {
        assert(pushed.skip(k).drop_first() =~= pushed.skip(k + 1));
    }
}

/// Every stored record occupies a multiple of 4 bytes: `OFFSETS[i]` minus the
/// begin of record `i` is the padded size `4 + align4(len)` of its payload.
pub proof fn lemma_record_alignment(q: &SharedQueue, i: int)
    requires
        q.wf(),
        0 <= i < q.records_since_reset(),
    ensures
        end_of(q.raw(), i) - begin_of(q.raw(), i) == padded_record_len(len_of(q.raw(), i)),
        padded_record_len(len_of(q.raw(), i)) % 4 == 0,
        end_of(q.raw(), i) % 4 == 0,
        begin_of(q.raw(), i) % 4 == 0,
{
    assert(len_of(q.buf@, i) >= 0);
    lemma_align4(len_of(q.buf@, i));
    if i > 0 {
        assert(len_of(q.buf@, i - 1) >= 0);
    }
}

} // verus!
