//! Prepend-only byte buffers.
use crate::byte_bufs::{bytes_as_slice, bytes_contents};
use bytes::Bytes;
use vstd::prelude::*;

verus! {

/// The `k` low-order bytes of `v`, least significant first.
pub open spec fn le_bytes(v: nat, k: nat) -> Seq<u8>
    decreases k,
{
    if k == 0 {
        Seq::empty()
    } else {
        seq![(v % 256) as u8] + le_bytes(v / 256, (k - 1) as nat)
    }
}

pub(crate) proof fn lemma_le_bytes_len(v: nat, k: nat)
    ensures
        le_bytes(v, k).len() == k,
    decreases k,
{
    if k > 0 {
        lemma_le_bytes_len(v / 256, (k - 1) as nat);
    }
}

/// The `k` low-order bytes of `v`, most significant first.
pub open spec fn be_bytes(v: nat, k: nat) -> Seq<u8> {
    le_bytes(v, k).reverse()
}

/// The `k` low-order bytes of `v`, in little-endian or big-endian order.
pub(crate) fn int_bytes(v: u64, k: usize, big_endian: bool) -> (r: Vec<u8>)
    requires
        k <= 8,
    ensures
        r@ == (if big_endian { be_bytes(v as nat, k as nat) } else { le_bytes(v as nat, k as nat) }),
        r@.len() == k,
{
    let mut le: Vec<u8> = Vec::new();
    let mut rest: u64 = v;
    let mut i: usize = 0;
    while i < k
        invariant
            i <= k <= 8,
            le@ + le_bytes(rest as nat, (k - i) as nat) == le_bytes(v as nat, k as nat),
        decreases k - i,
    {
        let ghost before = le@;
        le.push((rest % 256) as u8);
        proof {
            assert(le@ + le_bytes((rest / 256) as nat, (k - i - 1) as nat) =~= before + le_bytes(
                rest as nat,
                (k - i) as nat,
            ));
        }
        rest = rest / 256;
        i = i + 1;
    }
    assert(le@ =~= le_bytes(v as nat, k as nat));
    proof {
        lemma_le_bytes_len(v as nat, k as nat);
    }
    if !big_endian {
        return le;
    }
    let mut be: Vec<u8> = Vec::new();
    let mut j: usize = k;
    while j > 0
        invariant
            j <= k,
            k == le@.len(),
            be@ =~= le@.subrange(j as int, k as int).reverse(),
        decreases j,
    {
        be.push(le[j - 1]);
        j = j - 1;
        proof {
            assert(be@ =~= le@.subrange(j as int, k as int).reverse());
        }
    }
    assert(le@.subrange(0, k as int) =~= le@);
    be
}

/// A prepend-only byte buffer: bytes written later are read before bytes written earlier.
pub trait ReverseBuf {
    /// The buffer's internal state is consistent; every operation keeps it so.
    spec fn is_valid(&self) -> bool;

    /// The bytes written so far, in reading order.
    spec fn contents(&self) -> Seq<u8>;

    /// How many more bytes can be prepended.
    spec fn writable(&self) -> nat;

    /// How many bytes can be prepended before the buffer must allocate.
    spec fn spare(&self) -> nat;

    /// The sizes of the buffer's allocations.
    spec fn allocations(&self) -> Seq<nat>;

    /// Returns the number of bytes available for additional data to be prepended. The value does
    /// not change unless data is prepended, and is zero exactly when no more writes can succeed.
    fn remaining_writable(&self) -> (r: usize)
        requires
            self.is_valid(),
        ensures
            r == self.writable(),
    ;

    /// Prepends bytes to the buffer. They keep their order when read back, and come immediately
    /// before any bytes already written.
    fn prepend_slice(&mut self, data: &[u8])
        requires
            old(self).is_valid(),
            data@.len() <= old(self).writable(),
        ensures
            final(self).is_valid(),
            final(self).contents() == data@ + old(self).contents(),
            final(self).writable() == old(self).writable() - data@.len(),
            data@.len() <= old(self).spare() ==> final(self).allocations() == old(
                self,
            ).allocations() && final(self).spare() == old(self).spare() - data@.len(),
    ;

    /// Prepends an unsigned 16-bit integer in little-endian byte order.
    fn prepend_u16_le(&mut self, n: u16)
        requires
            old(self).is_valid(),
            2 <= old(self).writable(),
        ensures
            final(self).is_valid(),
            final(self).contents() == le_bytes(n as nat, 2) + old(self).contents(),
            final(self).writable() == old(self).writable() - 2,
    {
        let bytes = int_bytes(n as u64, 2, false);
        self.prepend_slice(bytes.as_slice());
    }

    /// Prepends a signed 16-bit integer, in two's complement, in little-endian byte order.
    fn prepend_i16_le(&mut self, n: i16)
        requires
            old(self).is_valid(),
            2 <= old(self).writable(),
        ensures
            final(self).is_valid(),
            final(self).contents() == le_bytes((n as u16) as nat, 2) + old(self).contents(),
            final(self).writable() == old(self).writable() - 2,
    {
        let bytes = int_bytes((n as u16) as u64, 2, false);
        self.prepend_slice(bytes.as_slice());
    }

    /// Prepends an unsigned 16-bit integer in big-endian byte order.
    fn prepend_u16_be(&mut self, n: u16)
        requires
            old(self).is_valid(),
            2 <= old(self).writable(),
        ensures
            final(self).is_valid(),
            final(self).contents() == be_bytes(n as nat, 2) + old(self).contents(),
            final(self).writable() == old(self).writable() - 2,
    {
        let bytes = int_bytes(n as u64, 2, true);
        self.prepend_slice(bytes.as_slice());
    }

    /// Prepends a signed 16-bit integer, in two's complement, in big-endian byte order.
    fn prepend_i16_be(&mut self, n: i16)
        requires
            old(self).is_valid(),
            2 <= old(self).writable(),
        ensures
            final(self).is_valid(),
            final(self).contents() == be_bytes((n as u16) as nat, 2) + old(self).contents(),
            final(self).writable() == old(self).writable() - 2,
    {
        let bytes = int_bytes((n as u16) as u64, 2, true);
        self.prepend_slice(bytes.as_slice());
    }

    /// Prepends an unsigned 32-bit integer in little-endian byte order.
    fn prepend_u32_le(&mut self, n: u32)
        requires
            old(self).is_valid(),
            4 <= old(self).writable(),
        ensures
            final(self).is_valid(),
            final(self).contents() == le_bytes(n as nat, 4) + old(self).contents(),
            final(self).writable() == old(self).writable() - 4,
    {
        let bytes = int_bytes(n as u64, 4, false);
        self.prepend_slice(bytes.as_slice());
    }

    /// Prepends a signed 32-bit integer, in two's complement, in little-endian byte order.
    fn prepend_i32_le(&mut self, n: i32)
        requires
            old(self).is_valid(),
            4 <= old(self).writable(),
        ensures
            final(self).is_valid(),
            final(self).contents() == le_bytes((n as u32) as nat, 4) + old(self).contents(),
            final(self).writable() == old(self).writable() - 4,
    {
        let bytes = int_bytes((n as u32) as u64, 4, false);
        self.prepend_slice(bytes.as_slice());
    }

    /// Prepends an unsigned 32-bit integer in big-endian byte order.
    fn prepend_u32_be(&mut self, n: u32)
        requires
            old(self).is_valid(),
            4 <= old(self).writable(),
        ensures
            final(self).is_valid(),
            final(self).contents() == be_bytes(n as nat, 4) + old(self).contents(),
            final(self).writable() == old(self).writable() - 4,
    {
        let bytes = int_bytes(n as u64, 4, true);
        self.prepend_slice(bytes.as_slice());
    }

    /// Prepends a signed 32-bit integer, in two's complement, in big-endian byte order.
    fn prepend_i32_be(&mut self, n: i32)
        requires
            old(self).is_valid(),
            4 <= old(self).writable(),
        ensures
            final(self).is_valid(),
            final(self).contents() == be_bytes((n as u32) as nat, 4) + old(self).contents(),
            final(self).writable() == old(self).writable() - 4,
    {
        let bytes = int_bytes((n as u32) as u64, 4, true);
        self.prepend_slice(bytes.as_slice());
    }

    /// Prepends an unsigned 64-bit integer in little-endian byte order.
    fn prepend_u64_le(&mut self, n: u64)
        requires
            old(self).is_valid(),
            8 <= old(self).writable(),
        ensures
            final(self).is_valid(),
            final(self).contents() == le_bytes(n as nat, 8) + old(self).contents(),
            final(self).writable() == old(self).writable() - 8,
    {
        let bytes = int_bytes(n as u64, 8, false);
        self.prepend_slice(bytes.as_slice());
    }

    /// Prepends a signed 64-bit integer, in two's complement, in little-endian byte order.
    fn prepend_i64_le(&mut self, n: i64)
        requires
            old(self).is_valid(),
            8 <= old(self).writable(),
        ensures
            final(self).is_valid(),
            final(self).contents() == le_bytes((n as u64) as nat, 8) + old(self).contents(),
            final(self).writable() == old(self).writable() - 8,
    {
        let bytes = int_bytes((n as u64) as u64, 8, false);
        self.prepend_slice(bytes.as_slice());
    }

    /// Prepends an unsigned 64-bit integer in big-endian byte order.
    fn prepend_u64_be(&mut self, n: u64)
        requires
            old(self).is_valid(),
            8 <= old(self).writable(),
        ensures
            final(self).is_valid(),
            final(self).contents() == be_bytes(n as nat, 8) + old(self).contents(),
            final(self).writable() == old(self).writable() - 8,
    {
        let bytes = int_bytes(n as u64, 8, true);
        self.prepend_slice(bytes.as_slice());
    }

    /// Prepends a signed 64-bit integer, in two's complement, in big-endian byte order.
    fn prepend_i64_be(&mut self, n: i64)
        requires
            old(self).is_valid(),
            8 <= old(self).writable(),
        ensures
            final(self).is_valid(),
            final(self).contents() == be_bytes((n as u64) as nat, 8) + old(self).contents(),
            final(self).writable() == old(self).writable() - 8,
    {
        let bytes = int_bytes((n as u64) as u64, 8, true);
        self.prepend_slice(bytes.as_slice());
    }

    /// Prepends a single byte.
    fn prepend_u8(&mut self, n: u8)
        requires
            old(self).is_valid(),
            1 <= old(self).writable(),
        ensures
            final(self).is_valid(),
            final(self).contents() == seq![n] + old(self).contents(),
            final(self).writable() == old(self).writable() - 1,
    {
        let mut one: Vec<u8> = Vec::new();
        one.push(n);
        self.prepend_slice(one.as_slice());
    }

    /// Prepends a signed byte, in two's complement.
    fn prepend_i8(&mut self, n: i8)
        requires
            old(self).is_valid(),
            1 <= old(self).writable(),
        ensures
            final(self).is_valid(),
            final(self).contents() == seq![n as u8] + old(self).contents(),
            final(self).writable() == old(self).writable() - 1,
    {
        self.prepend_u8(n as u8);
    }

    /// Prepends the bytes of an array.
    fn prepend_array<const N: usize>(&mut self, data: [u8; N])
        requires
            old(self).is_valid(),
            N <= old(self).writable(),
        ensures
            final(self).is_valid(),
            final(self).contents() == data@ + old(self).contents(),
            final(self).writable() == old(self).writable() - N,
    {
        self.prepend_slice(data.as_slice());
    }

    /// Prepends all the bytes that `data` holds, keeping their order.
    fn prepend(&mut self, data: Bytes)
        requires
            old(self).is_valid(),
            bytes_contents(data).len() <= old(self).writable(),
        ensures
            final(self).is_valid(),
            final(self).contents() == bytes_contents(data) + old(self).contents(),
            final(self).writable() == old(self).writable() - bytes_contents(data).len(),
            bytes_contents(data).len() <= old(self).spare() ==> final(self).allocations() == old(
                self,
            ).allocations() && final(self).spare() == old(self).spare() - bytes_contents(
                data,
            ).len(),
    {
        self.prepend_slice(bytes_as_slice(&data));
    }
}

} // verus!

verus! {

/// The smallest chunk a growing buffer allocates.
pub const MIN_CHUNK_SIZE: usize = 32;

/// The sum of a sequence of sizes.
pub open spec fn sum_sizes(s: Seq<nat>) -> nat
    decreases s.len(),
{
    if s.len() == 0 {
        0
    } else {
        sum_sizes(s.drop_last()) + s.last()
    }
}

/// The size of the chunk that a growing buffer allocates when `needed` more bytes do not fit:
/// the planned size when the plan is exact, otherwise at least the plan, the present capacity
/// (so that capacity grows exponentially) and the minimum chunk size; never less than `needed`
/// and never so much that the total capacity would pass `isize::MAX`.
pub open spec fn next_allocation(planned: nat, exact: bool, capacity: nat, needed: nat) -> nat {
    let desired = if exact {
        planned
    } else {
        vstd::math::max(
            planned as int,
            vstd::math::max(capacity as int, MIN_CHUNK_SIZE as int),
        ) as nat
    };
    let room = (isize::MAX - capacity) as nat;
    let capped = if desired <= room {
        desired
    } else {
        room
    };
    if capped >= needed {
        capped
    } else {
        needed
    }
}

/// What prepending `n` bytes does to a growing buffer's (chunk sizes, free room in the front
/// chunk, plan): bytes that fit in the free room go there; otherwise the free room is filled, one
/// chunk of `next_allocation` size is added for the rest, whose free room is what the rest left,
/// and the plan is spent.
pub open spec fn prepend_step(state: (Seq<nat>, nat, (nat, bool)), n: nat) -> (
    Seq<nat>,
    nat,
    (nat, bool),
) {
    let (sizes, free, plan) = state;
    if n <= free {
        (sizes, (free - n) as nat, plan)
    } else {
        let c = next_allocation(plan.0, plan.1, sum_sizes(sizes), (n - free) as nat);
        (sizes.push(c), (c - (n - free)) as nat, (0nat, false))
    }
}

/// The state after prepending slices of the given lengths, the first length first.
pub open spec fn prepends_state(state: (Seq<nat>, nat, (nat, bool)), lens: Seq<nat>) -> (
    Seq<nat>,
    nat,
    (nat, bool),
)
    decreases lens.len(),
{
    if lens.len() == 0 {
        state
    } else {
        prepend_step(prepends_state(state, lens.drop_last()), lens.last())
    }
}

/// All the bytes of the chunks, the last chunk's bytes first.
spec fn stacked(cs: Seq<Vec<u8>>) -> Seq<u8>
    decreases cs.len(),
{
    if cs.len() == 0 {
        Seq::empty()
    } else {
        cs.last()@ + stacked(cs.drop_last())
    }
}

/// The data held by chunks whose last chunk is in use from index `front` on.
spec fn data_of(cs: Seq<Vec<u8>>, front: nat) -> Seq<u8> {
    if cs.len() == 0 {
        Seq::empty()
    } else {
        cs.last()@.skip(front as int) + stacked(cs.drop_last())
    }
}

/// The sizes of the chunks, in order.
spec fn sizes_of(cs: Seq<Vec<u8>>) -> Seq<nat> {
    cs.map_values(|c: Vec<u8>| c@.len())
}

/// The layout every chunked buffer keeps: no chunk is empty, the front index lies inside the last
/// chunk, and the last chunk is wholly unused only when it is the sole chunk.
spec fn layout_ok(cs: Seq<Vec<u8>>, front: nat) -> bool {
    &&& forall|i: int| 0 <= i < cs.len() ==> #[trigger] cs[i]@.len() > 0
    &&& sum_sizes(sizes_of(cs)) <= isize::MAX
    &&& cs.len() == 0 ==> front == 0
    &&& cs.len() > 0 ==> front <= cs.last()@.len()
    &&& cs.len() > 0 && front == cs.last()@.len() ==> cs.len() == 1
}

proof fn lemma_sizes_drop_last(cs: Seq<Vec<u8>>)
    requires
        cs.len() > 0,
    ensures
        sizes_of(cs.drop_last()) == sizes_of(cs).drop_last(),
        sizes_of(cs).last() == cs.last()@.len(),
        sum_sizes(sizes_of(cs)) == sum_sizes(sizes_of(cs.drop_last())) + cs.last()@.len(),
{
    assert(sizes_of(cs.drop_last()) =~= sizes_of(cs).drop_last());
}

proof fn lemma_sizes_push(cs: Seq<Vec<u8>>, c: Vec<u8>)
    ensures
        sizes_of(cs.push(c)) == sizes_of(cs).push(c@.len()),
        sum_sizes(sizes_of(cs.push(c))) == sum_sizes(sizes_of(cs)) + c@.len(),
{
    assert(sizes_of(cs.push(c)) =~= sizes_of(cs).push(c@.len()));
    assert(sizes_of(cs).push(c@.len()).drop_last() =~= sizes_of(cs));
}

proof fn lemma_stacked_len(cs: Seq<Vec<u8>>)
    ensures
        stacked(cs).len() == sum_sizes(sizes_of(cs)),
    decreases cs.len(),
{
    if cs.len() > 0 {
        lemma_stacked_len(cs.drop_last());
        lemma_sizes_drop_last(cs);
    } else {
        assert(sizes_of(cs) =~= Seq::<nat>::empty());
    }
}

proof fn lemma_data_len(cs: Seq<Vec<u8>>, front: nat)
    requires
        layout_ok(cs, front),
    ensures
        data_of(cs, front).len() + front == sum_sizes(sizes_of(cs)),
        cs.len() > 0 && data_of(cs, front).len() > 0 ==> sum_sizes(sizes_of(cs.drop_last())) < data_of(
            cs,
            front,
        ).len(),
        data_of(cs, front).len() == 0 ==> cs.len() <= 1,
{
    if cs.len() > 0 {
        lemma_stacked_len(cs.drop_last());
        lemma_sizes_drop_last(cs);
        if cs.len() > 1 {
            assert(cs.drop_last()[cs.len() - 2]@.len() > 0);
            lemma_sizes_drop_last(cs.drop_last());
        }
    } else {
        assert(sizes_of(cs) =~= Seq::<nat>::empty());
    }
}

pub(crate) proof fn lemma_sum_prefix_le(s: Seq<nat>, k: int)
    requires
        0 <= k <= s.len(),
    ensures
        sum_sizes(s.take(k)) <= sum_sizes(s),
    decreases s.len(),
{
    if k < s.len() {
        lemma_sum_prefix_le(s.drop_last(), k);
        assert(s.drop_last().take(k) =~= s.take(k));
    } else {
        assert(s.take(k) =~= s);
    }
}

/// Writes `src[from..to]` into `chunk` so that it ends just before index `end`.
fn write_tail(chunk: &mut Vec<u8>, end: usize, src: &[u8], from: usize, to: usize)
    requires
        from <= to <= src@.len(),
        to - from <= end <= old(chunk)@.len(),
    ensures
        final(chunk)@ == old(chunk)@.take(end - (to - from)) + src@.subrange(from as int, to as int)
            + old(chunk)@.skip(end as int),
{
    let start = end - (to - from);
    let mut i: usize = 0;
    while i < to - from
        invariant
            from <= to <= src@.len(),
            start == end - (to - from),
            i <= to - from,
            to - from <= end <= old(chunk)@.len(),
            chunk@.len() == old(chunk)@.len(),
            forall|j: int| 0 <= j < start ==> chunk@[j] == old(chunk)@[j],
            forall|j: int| start <= j < start + i ==> chunk@[j] == src@[from + j - start],
            forall|j: int| start + i <= j < chunk@.len() ==> chunk@[j] == old(chunk)@[j],
        decreases to - from - i,
    {
        chunk.set(start + i, src[from + i]);
        i = i + 1;
    }
    let ghost want = old(chunk)@.take(end - (to - from)) + src@.subrange(from as int, to as int)
        + old(chunk)@.skip(end as int);
    assert forall|j: int| 0 <= j < chunk@.len() implies chunk@[j] == want[j] by {
        let a = old(chunk)@.take(end - (to - from));
        let b = src@.subrange(from as int, to as int);
        assert(a.len() == start);
        if j < start {
            assert(want[j] == a[j]);
        } else if j < end {
            assert(want[j] == (a + b)[j]);
            assert(want[j] == b[j - start]);
        } else {
            assert(want[j] == old(chunk)@.skip(end as int)[j - end]);
        }
    }
    assert(chunk@ =~= want);
}

/// A zero-filled chunk of the given size.
fn zeroed_chunk(size: usize) -> (r: Vec<u8>)
    ensures
        r@.len() == size,
{
    let mut c: Vec<u8> = Vec::with_capacity(size);
    let mut i: usize = 0;
    while i < size
        invariant
            i <= size,
            c@.len() == i,
        decreases size - i,
    {
        c.push(0);
        i = i + 1;
    }
    c
}

/// Appends all of `s` to `out`.
pub(crate) fn append_slice(out: &mut Vec<u8>, s: &[u8])
    ensures
        final(out)@ == old(out)@ + s@,
{
    let mut i: usize = 0;
    while i < s.len()
        invariant
            i <= s@.len(),
            out@ == old(out)@ + s@.take(i as int),
        decreases s@.len() - i,
    {
        out.push(s[i]);
        i = i + 1;
        assert(out@ =~= old(out)@ + s@.take(i as int));
    }
    assert(s@.take(s@.len() as int) =~= s@);
}

/// The total size of the chunks.
fn total_size(chunks: &[Vec<u8>]) -> (r: usize)
    requires
        sum_sizes(sizes_of(chunks@)) <= isize::MAX,
    ensures
        r == sum_sizes(sizes_of(chunks@)),
{
    let mut total: usize = 0;
    let mut i: usize = 0;
    while i < chunks.len()
        invariant
            i <= chunks@.len(),
            total == sum_sizes(sizes_of(chunks@.take(i as int))),
            sum_sizes(sizes_of(chunks@)) <= isize::MAX,
        decreases chunks@.len() - i,
    {
        proof {
            let t = chunks@.take(i as int + 1);
            lemma_sizes_drop_last(t);
            assert(t.drop_last() =~= chunks@.take(i as int));
            lemma_sum_prefix_le(sizes_of(chunks@), i as int + 1);
            assert(sizes_of(chunks@).take(i as int + 1) =~= sizes_of(t));
        }
        total = total + chunks[i].len();
        i = i + 1;
    }
    assert(chunks@.take(i as int) =~= chunks@);
    total
}

/// A growable, prepend-only byte buffer that stores its data in exponentially growing chunks.
///
/// It is rope-like in that its data need not be contiguous. Reading it drains bytes from the
/// front.
pub struct ReverseBuffer {
    /// Owned chunks, the one holding the front of the data last.
    chunks: Vec<Vec<u8>>,
    /// Index of the first byte in use in the front chunk (the last of `chunks`). When the buffer
    /// is empty and keeps its back chunk, this equals that chunk's length.
    front: usize,
    /// Advisory size for the next allocated chunk.
    planned_allocation: usize,
    /// Whether the planned allocation is an exact size rather than a minimum.
    planned_exact: bool,
    /// When true, the first chunk is never dropped; it is reserved minimum capacity.
    keep_back: bool,
}

impl View for ReverseBuffer {
    type V = Seq<u8>;

    /// The bytes held, in reading order.
    closed spec fn view(&self) -> Seq<u8> {
        data_of(self.chunks@, self.front as nat)
    }
}

impl ReverseBuffer {
    /// The buffer's internal layout is consistent.
    pub closed spec fn wf(&self) -> bool {
        &&& layout_ok(self.chunks@, self.front as nat)
        &&& self.chunks@.len() == 0 ==> !self.keep_back
        &&& self.chunks@.len() > 0 && self.front == self.chunks@.last()@.len() ==> self.keep_back
    }

    /// Sizes of the allocated chunks, from the one holding the back of the data to the one
    /// holding the front.
    pub closed spec fn chunk_sizes(&self) -> Seq<nat> {
        sizes_of(self.chunks@)
    }

    /// The bytes of each allocated chunk, free room included, in the order of `chunk_sizes`.
    pub closed spec fn chunk_contents(&self) -> Seq<Seq<u8>> {
        chunk_views(self.chunks@)
    }

    /// Bytes that can still be prepended into the front chunk without allocating.
    pub closed spec fn free_front(&self) -> nat {
        self.front as nat
    }

    /// The size planned for the next allocation, and whether that plan is exact.
    pub closed spec fn plan(&self) -> (nat, bool) {
        (self.planned_allocation as nat, self.planned_exact)
    }

    /// Whether the buffer keeps its first chunk as reserved capacity.
    pub closed spec fn keeps_back(&self) -> bool {
        self.keep_back
    }

    /// The facts that the layout of every well-formed buffer gives: the data and the free room
    /// in the front chunk fill the capacity exactly, every chunk but the front one is full, and
    /// an empty buffer has at most one chunk, which it keeps only when it keeps its back chunk.
    pub proof fn lemma_layout(&self)
        requires
            self.wf(),
        ensures
            self@.len() + self.free_front() == sum_sizes(self.chunk_sizes()),
            sum_sizes(self.chunk_sizes()) <= isize::MAX,
            self@.len() > 0 ==> sum_sizes(self.chunk_sizes().drop_last()) < self@.len(),
            self@.len() == 0 ==> self.chunk_sizes().len() == (if self.keeps_back() {
                1int
            } else {
                0int
            }),
            self.keeps_back() ==> self.chunk_sizes().len() >= 1,
            forall|i: int| 0 <= i < self.chunk_sizes().len() ==> #[trigger] self.chunk_sizes()[i] > 0,
            self.chunk_contents().len() == self.chunk_sizes().len(),
            forall|i: int|
                0 <= i < self.chunk_sizes().len() ==> #[trigger] self.chunk_contents()[i].len()
                    == self.chunk_sizes()[i],
            self.chunk_sizes().len() > 0 ==> self.free_front() <= self.chunk_sizes().last(),
    {
        lemma_data_len(self.chunks@, self.front as nat);
        assert forall|i: int| 0 <= i < self.chunk_sizes().len() implies #[trigger] self.chunk_sizes()[i]
            > 0 by {
            assert(self.chunks@[i]@.len() > 0);
        }
        if self.chunks@.len() > 0 {
            lemma_sizes_drop_last(self.chunks@);
        }
        if self@.len() == 0 && self.chunks@.len() == 1 {
            assert(self.front == self.chunks@.last()@.len());
        }
    }

    /// Creates a new empty buffer. It does not allocate until data is added.
    pub fn new() -> (r: Self)
        ensures
            r.wf(),
            r@ == Seq::<u8>::empty(),
            r.chunk_sizes() == Seq::<nat>::empty(),
            r.plan() == (0nat, false),
            !r.keeps_back(),
    {
        let r = ReverseBuffer {
            chunks: Vec::new(),
            front: 0,
            planned_allocation: 0,
            planned_exact: false,
            keep_back: false,
        };
        assert(r.chunk_sizes() =~= Seq::<nat>::empty());
        r
    }

    /// Creates a new buffer with a given base capacity. If the capacity is nonzero, the buffer
    /// always retains at least that much capacity, even when fully read or cleared.
    pub fn with_capacity(capacity: usize) -> (r: Self)
        requires
            capacity <= isize::MAX,
        ensures
            r.wf(),
            r@ == Seq::<u8>::empty(),
            r.chunk_sizes() == (if capacity > 0 {
                seq![capacity as nat]
            } else {
                Seq::<nat>::empty()
            }),
            r.plan() == (0nat, false),
            r.keeps_back() == (capacity > 0),
    {
        let mut r = Self::new();
        if capacity > 0 {
            let c = zeroed_chunk(capacity);
            r.chunks.push(c);
            r.front = capacity;
            r.keep_back = true;
            proof {
                lemma_sizes_push(Seq::empty(), c);
                assert(Seq::<Vec<u8>>::empty().push(c) =~= r.chunks@);
                assert(sizes_of(Seq::<Vec<u8>>::empty()) =~= Seq::<nat>::empty());
                assert(r.chunk_sizes() =~= seq![capacity as nat]);
                assert(r.chunks@.last()@.skip(capacity as int) =~= Seq::<u8>::empty());
                assert(r.chunks@.drop_last() =~= Seq::<Vec<u8>>::empty());
                assert(r@ =~= Seq::<u8>::empty());
            }
        }
        r
    }

    /// Returns the number of bytes written into this buffer and not yet read.
    pub fn len(&self) -> (r: usize)
        requires
            self.wf(),
        ensures
            r == self@.len(),
    {
        proof {
            lemma_data_len(self.chunks@, self.front as nat);
        }
        total_size(self.chunks.as_slice()) - self.front
    }

    /// Returns `true` if the buffer holds no data.
    pub fn is_empty(&self) -> (r: bool)
        requires
            self.wf(),
        ensures
            r == (self@.len() == 0),
    {
        proof {
            lemma_data_len(self.chunks@, self.front as nat);
        }
        self.chunks.len() == 0 || (self.chunks.len() == 1 && self.front == self.chunks[0].len())
    }

    /// Returns the number of bytes this buffer currently has allocated.
    pub fn capacity(&self) -> (r: usize)
        requires
            self.wf(),
        ensures
            r == sum_sizes(self.chunk_sizes()),
    {
        total_size(self.chunks.as_slice())
    }
}


/// The plan after `plan_reservation(additional)` when `free` bytes fit without allocating: a
/// request that does not fit raises the planned size to what is missing, unless the plan already
/// covers it.
pub open spec fn plan_after_reservation(plan: (nat, bool), free: nat, additional: nat) -> (nat, bool) {
    if additional <= free || plan.0 >= additional - free {
        plan
    } else {
        ((additional - free) as nat, false)
    }
}

/// The plan after `plan_reservation_exact(additional)` when `free` bytes fit without allocating:
/// a request that does not fit replaces the plan with exactly what is missing.
pub open spec fn plan_after_exact_reservation(plan: (nat, bool), free: nat, additional: nat) -> (
    nat,
    bool,
) {
    if additional <= free {
        plan
    } else {
        ((additional - free) as nat, true)
    }
}

proof fn lemma_stacked_front_zero(cs: Seq<Vec<u8>>)
    ensures
        data_of(cs, 0) == stacked(cs),
{
    if cs.len() > 0 {
        assert(cs.last()@.skip(0) =~= cs.last()@);
    }
}

/// Replacing the last chunk by one of the same length keeps the sizes.
proof fn lemma_replace_last(cs: Seq<Vec<u8>>, c: Vec<u8>)
    requires
        cs.len() > 0,
        c@.len() == cs.last()@.len(),
    ensures
        sizes_of(cs.drop_last().push(c)) == sizes_of(cs),
        cs.drop_last().push(c).drop_last() == cs.drop_last(),
        cs.drop_last().push(c).last() == c,
{
    lemma_sizes_push(cs.drop_last(), c);
    lemma_sizes_drop_last(cs);
    assert(sizes_of(cs).drop_last().push(c@.len()) =~= sizes_of(cs));
    assert(cs.drop_last().push(c).drop_last() =~= cs.drop_last());
}

impl ReverseBuffer {
    /// Clears the data from the buffer, including any additional allocations. A buffer that
    /// keeps its back chunk keeps that chunk alone.
    pub fn clear(&mut self)
        requires
            old(self).wf(),
        ensures
            final(self).wf(),
            final(self)@ == Seq::<u8>::empty(),
            final(self).chunk_sizes() == (if old(self).keeps_back() {
                old(self).chunk_sizes().take(1)
            } else {
                Seq::<nat>::empty()
            }),
            final(self).keeps_back() == old(self).keeps_back(),
            final(self).plan() == old(self).plan(),
            old(self).keeps_back() ==> final(self).chunk_sizes()[0] == old(self).chunk_sizes()[0],
    {
        if self.keep_back {
            self.chunks.truncate(1);
            self.front = self.chunks[0].len();
            proof {
                let cs = self.chunks@;
                assert(cs.drop_last() =~= Seq::<Vec<u8>>::empty());
                assert(sizes_of(cs) =~= sizes_of(old(self).chunks@).take(1));
                lemma_sizes_drop_last(cs);
                assert(sizes_of(cs.drop_last()) =~= Seq::<nat>::empty());
                assert(cs.last()@.skip(self.front as int) =~= Seq::<u8>::empty());
                assert(self@ =~= Seq::<u8>::empty());
                assert(old(self).chunks@[0]@.len() > 0);
                assert(cs[0] == old(self).chunks@[0]);
                lemma_sum_prefix_le(sizes_of(old(self).chunks@), 1);
            }
        } else {
            self.chunks.clear();
            self.front = 0;
            assert(self.chunk_sizes() =~= Seq::<nat>::empty());
        }
    }

    /// Returns the slice of bytes at the front of the buffer: a nonempty prefix of the data
    /// whenever there is data, and all of it when the buffer has at most one chunk.
    pub fn chunk(&self) -> (r: &[u8])
        requires
            self.wf(),
        ensures
            r@ == self@.take(r@.len() as int),
            self@.len() > 0 ==> r@.len() > 0,
            self.chunk_sizes().len() <= 1 ==> r@ == self@,
            self.chunk_sizes().len() > 0 ==> r@.len() + self.free_front() == self.chunk_sizes().last(),
    {
        proof {
            lemma_data_len(self.chunks@, self.front as nat);
        }
        let n = self.chunks.len();
        if n == 0 {
            let empty: &[u8] = &[];
            assert(empty@ =~= Seq::<u8>::empty());
            return empty;
        }
        let c: &Vec<u8> = &self.chunks[n - 1];
        let (_, tail) = c.as_slice().split_at(self.front);
        proof {
            let cs = self.chunks@;
            lemma_sizes_drop_last(cs);
            assert(tail@ =~= cs.last()@.skip(self.front as int));
            assert(self@.take(tail@.len() as int) =~= tail@);
            if n == 1 {
                assert(cs.drop_last() =~= Seq::<Vec<u8>>::empty());
                assert(self@ =~= tail@);
            }
        }
        tail
    }

    /// Returns the full contents of the buffer if they are contiguous, or `None` if they are not.
    pub fn contiguous(&self) -> (r: Option<&[u8]>)
        requires
            self.wf(),
        ensures
            r is Some <==> self.chunk_sizes().len() <= 1,
            r matches Some(s) ==> s@ == self@,
    {
        if self.chunks.len() <= 1 {
            Some(self.chunk())
        } else {
            None
        }
    }

    /// Converts this buffer into a single `Vec`. A contiguous buffer without spare capacity is
    /// converted without copying.
    pub fn into_vec(self) -> (r: Vec<u8>)
        requires
            self.wf(),
        ensures
            r@ == self@,
    {
        let mut this = self;
        let n = this.chunks.len();
        if n == 0 {
            return Vec::new();
        }
        if n == 1 && this.front == 0 {
            let ghost cs = this.chunks@;
            let c = this.chunks.pop().unwrap();
            proof {
                assert(cs.drop_last() =~= Seq::<Vec<u8>>::empty());
                assert(c@.skip(0) =~= c@);
                assert(data_of(cs, 0) =~= c@);
            }
            return c;
        }
        let ghost cs = this.chunks@;
        let mut out: Vec<u8> = Vec::new();
        {
            let c: &Vec<u8> = &this.chunks[n - 1];
            let (_, tail) = c.as_slice().split_at(this.front);
            append_slice(&mut out, tail);
        }
        let mut j: usize = n - 1;
        proof {
            assert(cs.take(n - 1) =~= cs.drop_last());
        }
        while j > 0
            invariant
                j < n == cs.len(),
                this.chunks@ == cs,
                out@ + stacked(cs.take(j as int)) == data_of(cs, this.front as nat),
            decreases j,
        {
            let ghost before = out@;
            append_slice(&mut out, this.chunks[j - 1].as_slice());
            proof {
                let t = cs.take(j as int);
                assert(t.drop_last() =~= cs.take(j - 1));
                assert(t.last() == cs[j - 1]);
                assert(out@ + stacked(cs.take(j - 1)) =~= before + stacked(t));
            }
            j = j - 1;
        }
        proof {
            assert(cs.take(0) =~= Seq::<Vec<u8>>::empty());
            assert(out@ + Seq::<u8>::empty() =~= out@);
        }
        out
    }

    /// Ensures that the buffer will, upon its next allocation, reserve at least enough space to
    /// fit this many more bytes than are currently in the buffer.
    pub fn plan_reservation(&mut self, additional: usize)
        requires
            old(self).wf(),
        ensures
            final(self).wf(),
            final(self)@ == old(self)@,
            final(self).chunk_sizes() == old(self).chunk_sizes(),
            final(self).free_front() == old(self).free_front(),
            final(self).keeps_back() == old(self).keeps_back(),
            final(self).plan() == plan_after_reservation(
                old(self).plan(),
                old(self).free_front(),
                additional as nat,
            ),
    {
        if additional > self.front {
            let needed = additional - self.front;
            if needed > self.planned_allocation {
                self.planned_allocation = needed;
                self.planned_exact = false;
            }
        }
    }

    /// Ensures that the buffer will, upon its next allocation, reserve enough space to fit this
    /// many more bytes than are in the buffer at present. If there is already room for this many
    /// more bytes, this has no effect; otherwise any plan for the size of the next allocation is
    /// overridden by this request.
    pub fn plan_reservation_exact(&mut self, additional: usize)
        requires
            old(self).wf(),
        ensures
            final(self).wf(),
            final(self)@ == old(self)@,
            final(self).chunk_sizes() == old(self).chunk_sizes(),
            final(self).free_front() == old(self).free_front(),
            final(self).keeps_back() == old(self).keeps_back(),
            final(self).plan() == plan_after_exact_reservation(
                old(self).plan(),
                old(self).free_front(),
                additional as nat,
            ),
    {
        if additional > self.front {
            self.planned_allocation = additional - self.front;
            self.planned_exact = true;
        }
    }

    /// The size of the next chunk to allocate when `needed` more bytes must fit.
    fn new_allocation_size(&self, capacity: usize, needed: usize) -> (r: usize)
        requires
            capacity <= isize::MAX,
        ensures
            r == next_allocation(
                self.planned_allocation as nat,
                self.planned_exact,
                capacity as nat,
                needed as nat,
            ),
    {
        let desired = if self.planned_exact {
            self.planned_allocation
        } else {
            let grown = if capacity > MIN_CHUNK_SIZE {
                capacity
            } else {
                MIN_CHUNK_SIZE
            };
            if self.planned_allocation > grown {
                self.planned_allocation
            } else {
                grown
            }
        };
        let room = isize::MAX as usize - capacity;
        let capped = if desired <= room {
            desired
        } else {
            room
        };
        if capped >= needed {
            capped
        } else {
            needed
        }
    }

    /// Prepends data that fits in the front chunk.
    fn prepend_in_place(&mut self, data: &[u8])
        requires
            old(self).wf(),
            0 < data@.len() <= old(self).front,
        ensures
            final(self).wf(),
            final(self)@ == data@ + old(self)@,
            final(self).chunk_sizes() == old(self).chunk_sizes(),
            final(self).front == old(self).front - data@.len(),
            final(self).plan() == old(self).plan(),
            final(self).keeps_back() == old(self).keeps_back(),
    {
        let ghost cs = self.chunks@;
        let dlen = data.len();
        let mut c = self.chunks.pop().unwrap();
        let ghost oc = c@;
        write_tail(&mut c, self.front, data, 0, dlen);
        self.chunks.push(c);
        self.front = self.front - dlen;
        proof {
            lemma_replace_last(cs, c);
            assert(self.chunks@ =~= cs.drop_last().push(c));
            assert(data@.subrange(0, dlen as int) =~= data@);
            assert(c@.skip(self.front as int) =~= data@ + oc.skip(old(self).front as int));
            assert forall|i: int| 0 <= i < self.chunks@.len() implies #[trigger] self.chunks@[i]@.len()
                > 0 by {
                if i < cs.len() - 1 {
                    assert(self.chunks@[i] == cs[i]);
                }
            }
        }
    }

    /// Fills the free room of the front chunk with the last bytes of `data`, leaving the first
    /// `needed` bytes of `data` to be placed elsewhere.
    fn fill_front(&mut self, data: &[u8], needed: usize)
        requires
            old(self).wf(),
            needed + old(self).front == data@.len(),
        ensures
            layout_ok(final(self).chunks@, 0),
            final(self).front == 0,
            stacked(final(self).chunks@) == data@.subrange(needed as int, data@.len() as int) + old(
                self,
            )@,
            sizes_of(final(self).chunks@) == sizes_of(old(self).chunks@),
            final(self).planned_allocation == old(self).planned_allocation,
            final(self).planned_exact == old(self).planned_exact,
            final(self).keep_back == old(self).keep_back,
            final(self).keep_back ==> final(self).chunks@.len() >= 1,
    {
        let ghost cs = self.chunks@;
        let dlen = data.len();
        let free = self.front;
        if free > 0 {
            let mut c = self.chunks.pop().unwrap();
            let ghost oc = c@;
            write_tail(&mut c, free, data, needed, dlen);
            self.chunks.push(c);
            self.front = 0;
            proof {
                lemma_replace_last(cs, c);
                assert(self.chunks@ =~= cs.drop_last().push(c));
                assert(c@ =~= data@.subrange(needed as int, dlen as int) + oc.skip(free as int));
                assert forall|i: int| 0 <= i < self.chunks@.len() implies #[trigger] self.chunks@[i]@.len()
                    > 0 by {
                    if i < cs.len() - 1 {
                        assert(self.chunks@[i] == cs[i]);
                    }
                }
            }
        }
        proof {
            lemma_stacked_front_zero(self.chunks@);
            if free == 0 {
                assert(data@.subrange(needed as int, dlen as int) =~= Seq::<u8>::empty());
            }
            assert(stacked(self.chunks@) =~= data@.subrange(needed as int, dlen as int) + old(self)@);
        }
    }

    /// Prepends data that does not fit in the front chunk: fills the front chunk, then allocates
    /// one new chunk for the rest.
    #[verifier::spinoff_prover]
    #[verifier::rlimit(40)]
    fn grow_and_copy_slice(&mut self, data: &[u8])
        requires
            old(self).wf(),
            old(self).front < data@.len(),
            old(self)@.len() + data@.len() <= isize::MAX,
        ensures
            final(self).wf(),
            final(self)@ == data@ + old(self)@,
            final(self).chunk_sizes() == old(self).chunk_sizes().push(
                next_allocation(
                    old(self).planned_allocation as nat,
                    old(self).planned_exact,
                    sum_sizes(old(self).chunk_sizes()),
                    (data@.len() - old(self).front) as nat,
                ),
            ),
            final(self).plan() == (0nat, false),
            final(self).keeps_back() == old(self).keeps_back(),
    {
        proof {
            lemma_data_len(self.chunks@, self.front as nat);
        }
        let dlen = data.len();
        let free = self.front;
        let needed = dlen - free;
        self.fill_front(data, needed);
        let ghost mid = self.chunks@;
        let capacity = total_size(self.chunks.as_slice());
        let size = self.new_allocation_size(capacity, needed);
        let mut chunk = zeroed_chunk(size);
        let ghost zc = chunk@;
        write_tail(&mut chunk, size, data, 0, needed);
        self.chunks.push(chunk);
        self.front = size - needed;
        self.planned_allocation = 0;
        self.planned_exact = false;
        proof {
            lemma_sizes_push(mid, chunk);
            let ncs = self.chunks@;
            assert(ncs.drop_last() =~= mid);
            assert(ncs.last() == chunk);
            assert(chunk@.skip(self.front as int) =~= data@.subrange(0, needed as int));
            assert(data@ =~= data@.subrange(0, needed as int) + data@.subrange(
                needed as int,
                dlen as int,
            ));
            assert(self@ =~= data@ + old(self)@);
            assert forall|i: int| 0 <= i < ncs.len() implies #[trigger] ncs[i]@.len() > 0 by {
                if i < mid.len() {
                    assert(ncs[i] == mid[i]);
                }
            }
        }
    }

    /// Drops `cnt` bytes from the front of the buffer, releasing chunks that are fully read
    /// (except a kept back chunk).
    pub fn advance(&mut self, cnt: usize)
        requires
            old(self).wf(),
            cnt <= old(self)@.len(),
        ensures
            final(self).wf(),
            final(self)@ == old(self)@.skip(cnt as int),
            final(self).chunk_sizes() == old(self).chunk_sizes().take(
                final(self).chunk_sizes().len() as int,
            ),
            final(self).keeps_back() == old(self).keeps_back(),
            final(self).plan() == old(self).plan(),
            old(self).keeps_back() ==> final(self).chunk_sizes()[0] == old(self).chunk_sizes()[0],
    {
        let mut left = cnt;
        proof {
            assert(old(self)@.skip(0) =~= old(self)@);
            assert(sizes_of(self.chunks@).take(sizes_of(self.chunks@).len() as int) =~= sizes_of(
                self.chunks@,
            ));
        }
        while left > 0
            invariant
                self.wf(),
                left <= cnt,
                cnt <= old(self)@.len(),
                self@ == old(self)@.skip(cnt - left),
                left <= self@.len(),
                self.chunk_sizes() == old(self).chunk_sizes().take(self.chunk_sizes().len() as int),
                self.chunk_sizes().len() <= old(self).chunk_sizes().len(),
                self.keep_back == old(self).keep_back,
                self.plan() == old(self).plan(),
                self.keep_back ==> self.chunk_sizes()[0] == old(self).chunk_sizes()[0],
            decreases left,
        {
            proof {
                lemma_data_len(self.chunks@, self.front as nat);
            }
            let ghost cs = self.chunks@;
            let ghost before = self@;
            let n = self.chunks.len();
            let avail = self.chunks[n - 1].len() - self.front;
            proof {
                lemma_sizes_drop_last(cs);
                lemma_stacked_len(cs.drop_last());
            }
            if left < avail {
                self.front = self.front + left;
                proof {
                    assert(self@ =~= before.skip(left as int));
                    assert(self@ =~= old(self)@.skip(cnt as int));
                }
                left = 0;
            } else {
                let ghost old_left = left;
                left = left - avail;
                if n == 1 && self.keep_back {
                    self.front = self.chunks[0].len();
                    proof {
                        assert(cs.drop_last() =~= Seq::<Vec<u8>>::empty());
                        assert(self@ =~= Seq::<u8>::empty());
                        assert(before.skip(avail as int) =~= Seq::<u8>::empty());
                    }
                } else {
                    self.chunks.pop();
                    self.front = 0;
                    proof {
                        let ncs = self.chunks@;
                        assert(ncs =~= cs.drop_last());
                        lemma_stacked_front_zero(ncs);
                        assert(self@ =~= before.skip(avail as int));
                        assert(sizes_of(ncs) == sizes_of(cs).drop_last());
                        assert(sizes_of(cs) == old(self).chunk_sizes().take(n as int));
                        assert(old(self).chunk_sizes().take(n as int).drop_last() =~= old(
                            self,
                        ).chunk_sizes().take(ncs.len() as int));
                        if ncs.len() > 0 {
                            assert(ncs.last() == cs[n - 2]);
                            assert(ncs.last()@.len() > 0);
                        }
                        assert forall|i: int| 0 <= i < ncs.len() implies #[trigger] ncs[i]@.len()
                            > 0 by {
                            assert(ncs[i] == cs[i]);
                        }
                        lemma_sum_prefix_le(sizes_of(cs), ncs.len() as int);
                        assert(sizes_of(cs).take(ncs.len() as int) =~= sizes_of(ncs));
                    }
                }
                proof {
                    assert(self@ =~= old(self)@.skip(cnt - left));
                }
            }
        }
    }
}

impl Default for ReverseBuffer {
    fn default() -> (r: Self)
        ensures
            r.wf(),
            r@ == Seq::<u8>::empty(),
            r.chunk_sizes() == Seq::<nat>::empty(),
            r.plan() == (0nat, false),
            !r.keeps_back(),
    {
        Self::new()
    }
}

impl ReverseBuf for ReverseBuffer {
    open spec fn is_valid(&self) -> bool {
        self.wf()
    }

    open spec fn contents(&self) -> Seq<u8> {
        self@
    }

    open spec fn writable(&self) -> nat {
        (isize::MAX - self@.len()) as nat
    }

    open spec fn spare(&self) -> nat {
        self.free_front()
    }

    open spec fn allocations(&self) -> Seq<nat> {
        self.chunk_sizes()
    }

    fn remaining_writable(&self) -> (r: usize) {
        proof {
            self.lemma_layout();
        }
        isize::MAX as usize - self.len()
    }

    fn prepend_slice(&mut self, data: &[u8])
        ensures
            data@.len() <= old(self).free_front() ==> final(self).chunk_sizes() == old(
                self,
            ).chunk_sizes() && final(self).free_front() == old(self).free_front() - data@.len()
                && final(self).plan() == old(self).plan(),
            data@.len() > old(self).free_front() ==> final(self).chunk_sizes() == old(
                self,
            ).chunk_sizes().push(
                next_allocation(
                    old(self).plan().0,
                    old(self).plan().1,
                    sum_sizes(old(self).chunk_sizes()),
                    (data@.len() - old(self).free_front()) as nat,
                ),
            ) && final(self).plan() == (0nat, false),
            final(self).keeps_back() == old(self).keeps_back(),
            old(self).keeps_back() ==> final(self).chunk_sizes()[0] == old(self).chunk_sizes()[0],
            (final(self).chunk_sizes(), final(self).free_front(), final(self).plan()) == prepend_step(
                (old(self).chunk_sizes(), old(self).free_front(), old(self).plan()),
                data@.len(),
            ),
    {
        proof {
            self.lemma_layout();
        }
        let dlen = data.len();
        if dlen == 0 {
            assert(data@ + self@ =~= self@);
            return;
        }
        if dlen <= self.front {
            self.prepend_in_place(data);
            assert(self.spare() == old(self).spare() - data@.len());
            assert(self.allocations() == old(self).allocations());
        } else {
            self.grow_and_copy_slice(data);
        }
        proof {
            self.lemma_layout();
            old(self).lemma_layout();
            if dlen > old(self).free_front() {
                assert(self.chunk_sizes().drop_last() =~= old(self).chunk_sizes());
            }
        }
    }

    /// Prepends all the bytes that `data` holds, in one step: the chunks change as for one
    /// `prepend_slice` of those bytes, so at most one chunk is allocated.
    fn prepend(&mut self, data: Bytes)
        ensures
            bytes_contents(data).len() <= old(self).free_front() ==> final(self).chunk_sizes()
                == old(self).chunk_sizes() && final(self).free_front() == old(self).free_front()
                - bytes_contents(data).len() && final(self).plan() == old(self).plan(),
            bytes_contents(data).len() > old(self).free_front() ==> final(self).chunk_sizes()
                == old(self).chunk_sizes().push(
                next_allocation(
                    old(self).plan().0,
                    old(self).plan().1,
                    sum_sizes(old(self).chunk_sizes()),
                    (bytes_contents(data).len() - old(self).free_front()) as nat,
                ),
            ) && final(self).plan() == (0nat, false),
            final(self).keeps_back() == old(self).keeps_back(),
            old(self).keeps_back() ==> final(self).chunk_sizes()[0] == old(self).chunk_sizes()[0],
            (final(self).chunk_sizes(), final(self).free_front(), final(self).plan()) == prepend_step(
                (old(self).chunk_sizes(), old(self).free_front(), old(self).plan()),
                bytes_contents(data).len(),
            ),
    {
        self.prepend_slice(bytes_as_slice(&data));
    }
}

impl ReverseBuffer {
    /// Returns the number of bytes left to read; the same as `len`.
    pub fn remaining(&self) -> (r: usize)
        requires
            self.wf(),
        ensures
            r == self@.len(),
    {
        self.len()
    }

    /// Returns a reader over this buffer's contents that reads without draining the buffer.
    pub fn buf_reader(&self) -> (r: ReverseBufferReader<'_>)
        requires
            self.wf(),
        ensures
            r.wf(),
            r@ == self@,
            r.chunk_sizes() == self.chunk_sizes(),
    {
        ReverseBufferReader {
            chunks: self.chunks.as_slice(),
            front: self.front,
            capacity: total_size(self.chunks.as_slice()),
        }
    }
}

/// A non-draining reader over the contents of a `ReverseBuffer`.
pub struct ReverseBufferReader<'a> {
    /// Chunks being read, the one holding the front of the data last.
    chunks: &'a [Vec<u8>],
    /// Index of the front byte in the front chunk (the last in the slice).
    front: usize,
    /// Total size of all the chunks covered.
    capacity: usize,
}

impl<'a> View for ReverseBufferReader<'a> {
    type V = Seq<u8>;

    /// The bytes left to read, in order.
    closed spec fn view(&self) -> Seq<u8> {
        data_of(self.chunks@, self.front as nat)
    }
}

impl<'a> ReverseBufferReader<'a> {
    /// The reader's internal layout is consistent.
    pub closed spec fn wf(&self) -> bool {
        &&& layout_ok(self.chunks@, self.front as nat)
        &&& self.capacity == sum_sizes(sizes_of(self.chunks@))
    }

    /// Sizes of the chunks still covered, back to front.
    pub closed spec fn chunk_sizes(&self) -> Seq<nat> {
        sizes_of(self.chunks@)
    }

    /// The bytes of each chunk still covered, in the order of `chunk_sizes`.
    pub closed spec fn chunk_contents(&self) -> Seq<Seq<u8>> {
        chunk_views(self.chunks@)
    }

    /// The index in the front chunk of the next byte to read.
    pub closed spec fn front_offset(&self) -> nat {
        self.front as nat
    }

    /// Returns the number of bytes left to read.
    pub fn remaining(&self) -> (r: usize)
        requires
            self.wf(),
        ensures
            r == self@.len(),
    {
        proof {
            lemma_data_len(self.chunks@, self.front as nat);
        }
        self.capacity - self.front
    }

    /// Returns the bytes at the front: a nonempty prefix of what is left whenever anything is,
    /// and all of it when at most one chunk is covered.
    pub fn chunk(&self) -> (r: &'a [u8])
        requires
            self.wf(),
        ensures
            r@ == self@.take(r@.len() as int),
            self@.len() > 0 ==> r@.len() > 0,
            self.chunk_sizes().len() <= 1 ==> r@ == self@,
    {
        proof {
            lemma_data_len(self.chunks@, self.front as nat);
        }
        let chunks: &'a [Vec<u8>] = self.chunks;
        let n = chunks.len();
        if n == 0 {
            let empty: &'a [u8] = &[];
            assert(empty@ =~= Seq::<u8>::empty());
            return empty;
        }
        let c: &'a Vec<u8> = &chunks[n - 1];
        let (_, tail) = c.as_slice().split_at(self.front);
        proof {
            let cs = self.chunks@;
            assert(tail@ =~= cs.last()@.skip(self.front as int));
            assert(self@.take(tail@.len() as int) =~= tail@);
            if n == 1 {
                assert(cs.drop_last() =~= Seq::<Vec<u8>>::empty());
                assert(self@ =~= tail@);
            }
        }
        tail
    }

    /// Returns everything left to read if it is contiguous, or `None` if it is not.
    pub fn contiguous(&self) -> (r: Option<&'a [u8]>)
        requires
            self.wf(),
        ensures
            r is Some <==> self.chunk_sizes().len() <= 1,
            r matches Some(s) ==> s@ == self@,
    {
        if self.chunks.len() <= 1 {
            Some(self.chunk())
        } else {
            None
        }
    }

    /// Skips `cnt` bytes without changing the underlying buffer.
    pub fn advance(&mut self, cnt: usize)
        requires
            old(self).wf(),
            cnt <= old(self)@.len(),
        ensures
            final(self).wf(),
            final(self)@ == old(self)@.skip(cnt as int),
    {
        let mut left = cnt;
        proof {
            assert(old(self)@.skip(0) =~= old(self)@);
        }
        while left > 0
            invariant
                self.wf(),
                left <= cnt,
                cnt <= old(self)@.len(),
                self@ == old(self)@.skip(cnt - left),
                left <= self@.len(),
            decreases left,
        {
            proof {
                lemma_data_len(self.chunks@, self.front as nat);
            }
            let ghost cs = self.chunks@;
            let ghost before = self@;
            let chunks: &'a [Vec<u8>] = self.chunks;
            let n = chunks.len();
            let last_len = chunks[n - 1].len();
            let avail = last_len - self.front;
            proof {
                lemma_sizes_drop_last(cs);
                lemma_stacked_len(cs.drop_last());
            }
            if left < avail {
                self.front = self.front + left;
                proof {
                    assert(self@ =~= before.skip(left as int));
                    assert(self@ =~= old(self)@.skip(cnt as int));
                }
                left = 0;
            } else {
                left = left - avail;
                if n == 1 {
                    self.front = last_len;
                    proof {
                        assert(cs.drop_last() =~= Seq::<Vec<u8>>::empty());
                        assert(self@ =~= Seq::<u8>::empty());
                        assert(before.skip(avail as int) =~= Seq::<u8>::empty());
                    }
                } else {
                    let (rest, _) = chunks.split_at(n - 1);
                    self.chunks = rest;
                    self.capacity = self.capacity - last_len;
                    self.front = 0;
                    proof {
                        let ncs = self.chunks@;
                        assert(ncs =~= cs.drop_last());
                        lemma_stacked_front_zero(ncs);
                        assert(self@ =~= before.skip(avail as int));
                        assert(ncs.last() == cs[n - 2]);
                        assert forall|i: int| 0 <= i < ncs.len() implies #[trigger] ncs[i]@.len()
                            > 0 by {
                            assert(ncs[i] == cs[i]);
                        }
                    }
                }
                proof {
                    assert(self@ =~= old(self)@.skip(cnt - left));
                }
            }
        }
    }
}

/// A buffer that keeps its back chunk never has less capacity than that chunk: what
/// `with_capacity` reserves stays reserved through any reading, clearing and prepending, since
/// each of those keeps the first chunk.
pub proof fn lemma_reserved_capacity_kept(b: ReverseBuffer)
    requires
        b.wf(),
        b.keeps_back(),
    ensures
        b.chunk_sizes().len() >= 1,
        sum_sizes(b.chunk_sizes()) >= b.chunk_sizes()[0],
{
    b.lemma_layout();
    lemma_sum_prefix_le(b.chunk_sizes(), 1);
    assert(b.chunk_sizes().take(1).drop_last() =~= Seq::<nat>::empty());
}

/// After `plan_reservation(additional)`, prepending up to `additional` bytes in all allocates
/// at most one chunk, and that chunk holds what did not fit in the front chunk (as long as the
/// total stays within `isize::MAX`).
pub proof fn lemma_planned_reservation_fits(
    plan: (nat, bool),
    free: nat,
    additional: nat,
    capacity: nat,
    needed: nat,
)
    requires
        free < additional,
        needed <= additional - free,
        capacity + (additional - free) <= isize::MAX,
    ensures
        ({
            let p = plan_after_reservation(plan, free, additional);
            next_allocation(p.0, p.1, capacity, needed) >= additional - free
        }),
{
}

/// After `plan_reservation(additional)` on a buffer with no chunks, prepending slices whose
/// lengths add up to at most `additional` allocates at most once: nothing while they are all
/// empty, and otherwise one chunk of at least `additional` bytes, which holds them all, so the
/// buffer stays contiguous.
pub proof fn lemma_planned_prepends_allocate_once(plan: (nat, bool), additional: nat, lens: Seq<nat>)
    requires
        0 < additional <= isize::MAX,
        sum_sizes(lens) <= additional,
    ensures
        ({
            let end = prepends_state(
                (Seq::<nat>::empty(), 0nat, plan_after_reservation(plan, 0, additional)),
                lens,
            );
            &&& sum_sizes(lens) == 0 ==> end == (
                Seq::<nat>::empty(),
                0nat,
                plan_after_reservation(plan, 0, additional),
            )
            &&& sum_sizes(lens) > 0 ==> end.0.len() == 1 && end.0[0] >= additional && end.1 == end.0[0]
                - sum_sizes(lens)
        }),
    decreases lens.len(),
{
    if lens.len() > 0 {
        let front = lens.drop_last();
        lemma_planned_prepends_allocate_once(plan, additional, front);
        let n = lens.last();
        let p = plan_after_reservation(plan, 0, additional);
        if sum_sizes(front) == 0 && n > 0 {
            assert(sum_sizes(Seq::<nat>::empty()) == 0);
            lemma_planned_reservation_fits(plan, 0, additional, 0, n);
            let c = next_allocation(p.0, p.1, 0, n);
            assert(Seq::<nat>::empty().push(c) =~= seq![c]);
        }
    }
}

/// One prepend into a buffer with no chunks and no plan allocates at most one chunk, large enough
/// for all the bytes (as long as they fit within `isize::MAX`), so the buffer is contiguous.
pub proof fn lemma_single_prepend_allocates_once(n: nat)
    requires
        n <= isize::MAX,
    ensures
        ({
            let end = prepend_step((Seq::<nat>::empty(), 0nat, (0nat, false)), n);
            &&& n == 0 ==> end.0 == Seq::<nat>::empty()
            &&& n > 0 ==> end.0.len() == 1 && end.0[0] >= n
        }),
{
    if n > 0 {
        let c = next_allocation(0, false, 0, n);
        assert(Seq::<nat>::empty().push(c) =~= seq![c]);
    }
}

/// After `plan_reservation_exact(additional)`, the next allocation is exactly what the request
/// lacked (as long as it is enough for what must be placed and the total stays within
/// `isize::MAX`).
pub proof fn lemma_exact_reservation_size(
    plan: (nat, bool),
    free: nat,
    additional: nat,
    capacity: nat,
    needed: nat,
)
    requires
        free < additional,
        needed <= additional - free,
        capacity + (additional - free) <= isize::MAX,
    ensures
        ({
            let p = plan_after_exact_reservation(plan, free, additional);
            next_allocation(p.0, p.1, capacity, needed) == additional - free
        }),
{
}

/// All the bytes of a list of slices, in order.
pub open spec fn concat_slices(s: Seq<Seq<u8>>) -> Seq<u8>
    decreases s.len(),
{
    if s.len() == 0 {
        Seq::empty()
    } else {
        concat_slices(s.drop_last()) + s.last()
    }
}

/// The views of a list of borrowed slices.
pub open spec fn slice_views(s: Seq<&[u8]>) -> Seq<Seq<u8>> {
    s.map_values(|x: &[u8]| x@)
}

/// The bytes of each chunk, in order.
spec fn chunk_views(cs: Seq<Vec<u8>>) -> Seq<Seq<u8>> {
    cs.map_values(|c: Vec<u8>| c@)
}

/// The slices that chunks (back to front) in use from `front` in the last one give, front first:
/// the last chunk from `front` on, then each earlier chunk whole, from the last to the first.
pub open spec fn front_first_slices(chunks: Seq<Seq<u8>>, front: nat) -> Seq<Seq<u8>> {
    Seq::new(
        chunks.len(),
        |i: int|
            if i == 0 {
                chunks.last().skip(front as int)
            } else {
                chunks[chunks.len() - 1 - i]
            },
    )
}

/// The slices of data held by chunks in use from `front` in the last chunk, front first.
fn chunk_slices<'a>(chunks: &'a [Vec<u8>], front: usize) -> (r: Vec<&'a [u8]>)
    requires
        layout_ok(chunks@, front as nat),
    ensures
        concat_slices(slice_views(r@)) == data_of(chunks@, front as nat),
        slice_views(r@) == front_first_slices(chunk_views(chunks@), front as nat),
        r@.len() == chunks@.len(),
        forall|i: int| 0 <= i < r@.len() ==> #[trigger] r@[i]@.len() > 0 || (i == 0 && r@.len()
            == 1),
{
    let n = chunks.len();
    let mut out: Vec<&'a [u8]> = Vec::new();
    if n == 0 {
        assert(slice_views(out@) =~= Seq::<Seq<u8>>::empty());
        assert(front_first_slices(chunk_views(chunks@), front as nat) =~= Seq::<Seq<u8>>::empty());
        return out;
    }
    let c: &'a Vec<u8> = &chunks[n - 1];
    let (_, tail) = c.as_slice().split_at(front);
    out.push(tail);
    let ghost cs = chunks@;
    let mut j: usize = n - 1;
    proof {
        assert(slice_views(out@) =~= seq![tail@]);
        assert(concat_slices(seq![tail@]) =~= tail@) by {
            assert(seq![tail@].drop_last() =~= Seq::<Seq<u8>>::empty());
            assert(concat_slices(Seq::<Seq<u8>>::empty()) == Seq::<u8>::empty());
            assert(seq![tail@].last() == tail@);
            assert(Seq::<u8>::empty() + tail@ =~= tail@);
        }
        assert(cs.take(n - 1) =~= cs.drop_last());
        assert(tail@ =~= cs.last()@.skip(front as int));
    }
    while j > 0
        invariant
            j < n == cs.len(),
            chunks@ == cs,
            layout_ok(cs, front as nat),
            out@.len() == n - j,
            concat_slices(slice_views(out@)) + stacked(cs.take(j as int)) == data_of(
                cs,
                front as nat,
            ),
            forall|i: int| 0 <= i < out@.len() ==> #[trigger] out@[i]@.len() > 0 || (i == 0 && n
                == 1),
            out@[0]@ == cs.last()@.skip(front as int),
            forall|i: int| 0 < i < out@.len() ==> #[trigger] out@[i]@ == cs[n - 1 - i]@,
        decreases j,
    {
        let ghost before = out@;
        let s: &'a [u8] = chunks[j - 1].as_slice();
        out.push(s);
        proof {
            let t = cs.take(j as int);
            assert(t.drop_last() =~= cs.take(j - 1));
            assert(t.last() == cs[j - 1]);
            assert(slice_views(out@) =~= slice_views(before).push(s@));
            assert(slice_views(out@).drop_last() =~= slice_views(before));
            assert(concat_slices(slice_views(out@)) + stacked(cs.take(j - 1)) =~= concat_slices(
                slice_views(before),
            ) + stacked(t));
            assert(cs[j - 1]@.len() > 0);
        }
        j = j - 1;
    }
    proof {
        assert(cs.take(0) =~= Seq::<Vec<u8>>::empty());
        assert(concat_slices(slice_views(out@)) + Seq::<u8>::empty() =~= concat_slices(
            slice_views(out@),
        ));
        if n > 1 {
            lemma_data_len(cs, front as nat);
        }
        assert(slice_views(out@) =~= front_first_slices(chunk_views(cs), front as nat));
    }
    out
}

impl ReverseBuffer {
    /// Returns the slices of data in the buffer, front first, suitable for vectored writing:
    /// together they are the buffer's contents, one slice per chunk: the front chunk from the
    /// front of the data on, then each earlier chunk whole. Only the slice of a buffer with
    /// nothing in its sole chunk is empty.
    pub fn slices(&self) -> (r: Vec<&[u8]>)
        requires
            self.wf(),
        ensures
            concat_slices(slice_views(r@)) == self@,
            slice_views(r@) == front_first_slices(self.chunk_contents(), self.free_front()),
            r@.len() == self.chunk_sizes().len(),
            forall|i: int| 0 <= i < r@.len() ==> #[trigger] r@[i]@.len() > 0 || (i == 0 && r@.len()
                == 1),
    {
        chunk_slices(self.chunks.as_slice(), self.front)
    }

    /// Converts a vector into a buffer holding its bytes, taking the vector as its only chunk
    /// without copying.
    pub fn from_vec(value: Vec<u8>) -> (r: Self)
        requires
            value@.len() <= isize::MAX,
        ensures
            r.wf(),
            r@ == value@,
            r.chunk_sizes() == (if value@.len() > 0 {
                seq![value@.len()]
            } else {
                Seq::<nat>::empty()
            }),
            r.plan() == (0nat, false),
            !r.keeps_back(),
    {
        let mut r = Self::new();
        if value.len() > 0 {
            let ghost v = value;
            r.chunks.push(value);
            proof {
                lemma_sizes_push(Seq::empty(), v);
                assert(Seq::<Vec<u8>>::empty().push(v) =~= r.chunks@);
                assert(sizes_of(Seq::<Vec<u8>>::empty()) =~= Seq::<nat>::empty());
                assert(r.chunk_sizes() =~= seq![v@.len()]);
                assert(v@.skip(0) =~= v@);
                assert(r.chunks@.drop_last() =~= Seq::<Vec<u8>>::empty());
                assert(r@ =~= v@);
            }
        }
        r
    }
}

impl<'a> ReverseBufferReader<'a> {
    /// Returns the slices of data left to read, front first, suitable for vectored writing: the
    /// front chunk from the next byte to read on, then each earlier chunk whole. Only the slice
    /// of a reader with nothing left in its sole chunk is empty.
    pub fn slices(&self) -> (r: Vec<&'a [u8]>)
        requires
            self.wf(),
        ensures
            concat_slices(slice_views(r@)) == self@,
            slice_views(r@) == front_first_slices(self.chunk_contents(), self.front_offset()),
            r@.len() == self.chunk_sizes().len(),
            forall|i: int| 0 <= i < r@.len() ==> #[trigger] r@[i]@.len() > 0 || (i == 0 && r@.len()
                == 1),
    {
        chunk_slices(self.chunks, self.front)
    }
}

/// Prepending data and then reading past as many bytes gives back what the buffer held before:
/// reading undoes a prepend.
pub proof fn lemma_advance_undoes_prepend(before: Seq<u8>, data: Seq<u8>)
    ensures
        (data + before).skip(data.len() as int) == before,
{
    assert((data + before).skip(data.len() as int) =~= before);
}

/// Chunk lists whose chunks hold the same bytes, position by position.
spec fn same_chunks(a: Seq<Vec<u8>>, b: Seq<Vec<u8>>) -> bool {
    &&& a.len() == b.len()
    &&& forall|i: int| 0 <= i < a.len() ==> #[trigger] a[i]@ == b[i]@
}

proof fn lemma_same_chunks(a: Seq<Vec<u8>>, b: Seq<Vec<u8>>, front: nat)
    requires
        same_chunks(a, b),
    ensures
        stacked(a) == stacked(b),
        data_of(a, front) == data_of(b, front),
        sizes_of(a) == sizes_of(b),
        layout_ok(a, front) == layout_ok(b, front),
    decreases a.len(),
{
    assert(sizes_of(a) =~= sizes_of(b));
    if a.len() > 0 {
        assert(same_chunks(a.drop_last(), b.drop_last()));
        lemma_same_chunks(a.drop_last(), b.drop_last(), front);
        assert(a.last()@ == b.last()@);
        if layout_ok(a, front) {
            assert forall|i: int| 0 <= i < b.len() implies #[trigger] b[i]@.len() > 0 by {
                assert(a[i]@ == b[i]@);
            }
        }
        if layout_ok(b, front) {
            assert forall|i: int| 0 <= i < a.len() implies #[trigger] a[i]@.len() > 0 by {
                assert(a[i]@ == b[i]@);
            }
        }
    }
}

impl Clone for ReverseBuffer {
    /// Copies the buffer: the copy holds the same data in chunks of the same sizes, with the
    /// same plan.
    fn clone(&self) -> (r: Self)
        ensures
            r@ == self@,
            r.chunk_sizes() == self.chunk_sizes(),
            r.free_front() == self.free_front(),
            r.plan() == self.plan(),
            r.keeps_back() == self.keeps_back(),
            self.wf() ==> r.wf(),
    {
        let mut chunks: Vec<Vec<u8>> = Vec::new();
        let mut i: usize = 0;
        while i < self.chunks.len()
            invariant
                i <= self.chunks@.len(),
                same_chunks(chunks@, self.chunks@.take(i as int)),
            decreases self.chunks@.len() - i,
        {
            let mut copy: Vec<u8> = Vec::new();
            append_slice(&mut copy, self.chunks[i].as_slice());
            assert(copy@ =~= self.chunks@[i as int]@);
            chunks.push(copy);
            i = i + 1;
            assert(same_chunks(chunks@, self.chunks@.take(i as int)));
        }
        assert(self.chunks@.take(i as int) =~= self.chunks@);
        let r = ReverseBuffer {
            chunks,
            front: self.front,
            planned_allocation: self.planned_allocation,
            planned_exact: self.planned_exact,
            keep_back: self.keep_back,
        };
        proof {
            lemma_same_chunks(r.chunks@, self.chunks@, self.front as nat);
        }
        r
    }
}
} // verus!
