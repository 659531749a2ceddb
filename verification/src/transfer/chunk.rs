//! Chunks of a file, and which of them have arrived.

use std::collections::{BTreeMap, BTreeSet};
use vstd::prelude::*;

use crate::bytes::copy_range;
use crate::ordered::{ascending_is_u32, ascending_u32, increasing_u32, sorted_keys_u32, sorted_members_u32};
use crate::transfer::integrity::{chunk_checksum, chunk_metas, meta_at, IntegrityVerifier};
use crate::transfer::options::{MAX_CHUNK_SIZE, MIN_CHUNK_SIZE};

verus! {

/// Where a chunk stands in its file, and its checksum.
#[derive(Debug, Clone, Copy, PartialEq, Eq, Structural)]
pub struct ChunkMeta {
    pub index: u32,
    pub offset: u64,
    pub size: u32,
    pub checksum: u64,
}

/// A chunk with its content.
#[derive(Debug, PartialEq, Eq)]
pub struct Chunk {
    pub index: u32,
    pub offset: u64,
    pub size: u32,
    pub checksum: u64,
    pub data: Vec<u8>,
}

/// How many chunks of a size cover a file.
pub open spec fn chunks_needed(file_size: nat, chunk_size: nat) -> nat {
    if file_size == 0 {
        0
    } else {
        (file_size - 1) as nat / chunk_size + 1
    }
}

/// The least of two numbers.
pub open spec fn least(a: int, b: int) -> int {
    if a <= b {
        a
    } else {
        b
    }
}

/// How long the chunk with a number is.
pub open spec fn span_size(file_size: nat, chunk_size: nat, i: int) -> int {
    least(file_size - i * chunk_size, chunk_size as int)
}

/// The chunk with a number, without its checksum. The number itself stops at the greatest
/// that thirty-two bits can hold.
pub open spec fn span_at(file_size: nat, chunk_size: nat, i: int) -> ChunkMeta {
    ChunkMeta {
        index: least(i, 0xffff_ffff) as u32,
        offset: (i * chunk_size) as u64,
        size: span_size(file_size, chunk_size, i) as u32,
        checksum: 0,
    }
}

/// The chunks that cover a file, without their checksums.
pub open spec fn layout(file_size: nat, chunk_size: nat) -> Seq<ChunkMeta> {
    Seq::new(chunks_needed(file_size, chunk_size), |i: int| span_at(file_size, chunk_size, i))
}

/// The size of chunks.
#[derive(Debug, Clone, Copy, PartialEq, Eq, Structural)]
pub struct ChunkManager {
    chunk_size: usize,
}

/// A size brought into the range of sizes.
pub open spec fn clamped_size(chunk_size: usize) -> usize {
    if chunk_size < MIN_CHUNK_SIZE {
        MIN_CHUNK_SIZE
    } else if chunk_size > MAX_CHUNK_SIZE {
        MAX_CHUNK_SIZE
    } else {
        chunk_size
    }
}

impl ChunkManager {
    /// The size of chunks.
    pub closed spec fn size(&self) -> usize {
        self.chunk_size
    }

    /// The size is in the range of sizes.
    pub closed spec fn wf(&self) -> bool {
        MIN_CHUNK_SIZE <= self.chunk_size <= MAX_CHUNK_SIZE
    }

    /// A size, brought into the range of sizes.
    pub fn new(chunk_size: usize) -> (manager: Self)
        ensures
            manager.wf(),
            manager.size() == clamped_size(chunk_size),
            MIN_CHUNK_SIZE <= manager.size() <= MAX_CHUNK_SIZE,
    {
        let size: usize = if chunk_size < MIN_CHUNK_SIZE {
            MIN_CHUNK_SIZE
        } else if chunk_size > MAX_CHUNK_SIZE {
            MAX_CHUNK_SIZE
        } else {
            chunk_size
        };
        ChunkManager { chunk_size: size }
    }

    /// The size of chunks.
    pub fn chunk_size(&self) -> (size: usize)
        ensures
            size == self.size(),
            self.wf() ==> MIN_CHUNK_SIZE <= size <= MAX_CHUNK_SIZE,
    {
        self.chunk_size
    }

    /// How many chunks cover a file. Of a count that thirty-two bits cannot hold, the low
    /// thirty-two bits are given.
    pub fn calculate_chunk_count(&self, file_size: u64) -> (count: u32)
        requires
            self.wf(),
        ensures
            count as nat == chunks_needed(file_size as nat, self.size() as nat) % 0x1_0000_0000,
    {
        let size: u64 = self.chunk_size as u64;
        if file_size == 0 {
            return 0;
        }
        let count: u64 = (file_size - 1) / size + 1;
        let low: u64 = count % 0x1_0000_0000;
        low as u32
    }

    /// Where the chunk with a number stands in a file, and how long it is. A number behind
    /// the end of the file gives an empty chunk.
    pub fn span(&self, index: u32, file_size: u64) -> (span: (u64, usize))
        requires
            self.wf(),
        ensures
            span.0 == index * self.size(),
            span.1 == (if file_size <= span.0 {
                0
            } else {
                least(file_size - span.0, self.size() as int)
            }),
    {
        assert(index * self.chunk_size <= 0xffff_ffff * 0x100_0000) by (nonlinear_arith)
            requires
                index <= 0xffff_ffff,
                self.chunk_size <= 0x100_0000,
        ;
        let offset: u64 = index as u64 * self.chunk_size as u64;
        if file_size <= offset {
            (offset, 0)
        } else if file_size - offset < self.chunk_size as u64 {
            (offset, (file_size - offset) as usize)
        } else {
            (offset, self.chunk_size)
        }
    }

    /// The chunk with a number, of this content.
    pub fn chunk(&self, index: u32, data: Vec<u8>) -> (chunk: Chunk)
        requires
            self.wf(),
            data@.len() <= self.size(),
        ensures
            chunk.index == index,
            chunk.offset == index * self.size(),
            chunk.size == data@.len(),
            chunk.checksum == chunk_checksum(data@),
            chunk.data@ == data@,
    {
        let (offset, _) = self.span(index, 0);
        let size: u32 = data.len() as u32;
        let checksum: u64 = IntegrityVerifier::compute_chunk_checksum(data.as_slice());
        Chunk { index, offset, size, checksum, data }
    }

    /// Whether a chunk's content has the chunk's checksum.
    pub fn verify_chunk(&self, chunk: &Chunk) -> (matches: bool)
        ensures
            matches == (chunk_checksum(chunk.data@) == chunk.checksum),
    {
        IntegrityVerifier::verify_chunk_checksum(chunk.data.as_slice(), chunk.checksum)
    }

    /// The metadata of the chunks of a file with this content, as many as
    /// [`Self::calculate_chunk_count`] gives.
    pub fn generate_chunk_metas(&self, data: &[u8]) -> (metas: Vec<ChunkMeta>)
        requires
            self.wf(),
        ensures
            metas@ == chunk_metas(data@, self.size() as nat).take(
                (chunks_needed(data@.len(), self.size() as nat) % 0x1_0000_0000) as int,
            ),
    {
        let file_size: u64 = data.len() as u64;
        let count: u32 = self.calculate_chunk_count(file_size);
        let ghost n = data@.len();
        let ghost size = self.size() as nat;
        let ghost all = chunk_metas(data@, size);
        let mut metas: Vec<ChunkMeta> = Vec::new();
        let mut index: u32 = 0;
        assert(metas@ =~= all.take(0));
        while index < count
            invariant
                self.wf(),
                file_size == data@.len(),
                n == data@.len() <= usize::MAX,
                size == self.size() > 0,
                all == chunk_metas(data@, size),
                index <= count <= chunks_needed(n, size),
                metas@ == all.take(index as int),
            decreases count - index,
        {
            let (offset, len) = self.span(index, file_size);
            proof {
                let needed = chunks_needed(n, size);
                chunks_tile_the_file(n, size, index as int);
                chunks_needed_cover_the_file(n, size);
                if index + 1 < needed {
                    assert((index + 1) * size <= (needed - 1) * size) by (nonlinear_arith)
                        requires
                            index + 1 <= needed - 1,
                    ;
                }
            }
            assert(len == span_size(n, size, index as int));
            assert(offset + len <= n);
            let part = copy_range(data, offset as usize, offset as usize + len);
            let checksum: u64 = IntegrityVerifier::compute_chunk_checksum(part.as_slice());
            metas.push(ChunkMeta { index, offset, size: len as u32, checksum });
            assert(metas@.last() == meta_at(data@, n, size, index as int));
            assert(metas@ =~= all.take(index + 1));
            index = index + 1;
        }
        metas
    }
}

/// As many chunks as are needed reach the end of the file, and one less does not.
pub proof fn chunks_needed_cover_the_file(file_size: nat, chunk_size: nat)
    requires
        chunk_size > 0,
    ensures
        chunks_needed(file_size, chunk_size) * chunk_size >= file_size,
        file_size > 0 ==> (chunks_needed(file_size, chunk_size) - 1) * chunk_size < file_size,
        chunks_needed(file_size, chunk_size) <= file_size,
{
    if file_size > 0 {
        let last = (file_size - 1) as nat / chunk_size;
        let n = chunks_needed(file_size, chunk_size);
        vstd::arithmetic::div_mod::lemma_fundamental_div_mod(file_size - 1, chunk_size as int);
        vstd::arithmetic::div_mod::lemma_mod_bound(file_size - 1, chunk_size as int);
        assert(n * chunk_size == last * chunk_size + chunk_size) by (nonlinear_arith)
            requires
                n == last + 1,
        ;
        assert((n - 1) * chunk_size == chunk_size * last) by (nonlinear_arith)
            requires
                n == last + 1,
        ;
        assert(last * chunk_size == chunk_size * last) by (nonlinear_arith);
        assert(last <= chunk_size * last) by (nonlinear_arith)
            requires
                chunk_size > 0,
        ;
    }
}

/// The chunks of a file lie one behind the other, from its start to its end, and none is
/// empty or longer than the size of chunks.
pub proof fn chunks_tile_the_file(file_size: nat, chunk_size: nat, i: int)
    requires
        chunk_size > 0,
        file_size <= u64::MAX,
        0 <= i < chunks_needed(file_size, chunk_size),
    ensures
        layout(file_size, chunk_size)[i].offset == i * chunk_size,
        i == 0 ==> layout(file_size, chunk_size)[i].offset == 0,
        0 < span_size(file_size, chunk_size, i) <= chunk_size,
        i * chunk_size + span_size(file_size, chunk_size, i) == (if i + 1 < chunks_needed(
            file_size,
            chunk_size,
        ) {
            (i + 1) * chunk_size
        } else {
            file_size as int
        }),
{
    chunks_needed_cover_the_file(file_size, chunk_size);
    let n = chunks_needed(file_size, chunk_size);
    assert(i * chunk_size <= (n - 1) * chunk_size) by (nonlinear_arith)
        requires
            i <= n - 1,
    ;
    assert((i + 1) * chunk_size == i * chunk_size + chunk_size) by (nonlinear_arith);
    assert(i * chunk_size >= 0) by (nonlinear_arith)
        requires
            i >= 0,
    ;
    if i + 1 < n {
        assert((i + 1) * chunk_size <= (n - 1) * chunk_size) by (nonlinear_arith)
            requires
                i + 1 <= n - 1,
        ;
    } else {
        assert(n * chunk_size == i * chunk_size + chunk_size) by (nonlinear_arith)
            requires
                n == i + 1,
        ;
    }
}

/// A file with some bytes written into it.
pub open spec fn written_at(file: Seq<u8>, offset: int, data: Seq<u8>) -> Seq<u8> {
    Seq::new(
        file.len(),
        |k: int|
            if offset <= k < offset + data.len() {
                data[k - offset]
            } else {
                file[k]
            },
    )
}

/// What the chunk with a number holds of a file.
pub open spec fn chunk_of(source: Seq<u8>, chunk_size: nat, i: int) -> Seq<u8> {
    source.subrange(i * chunk_size, i * chunk_size + span_size(source.len(), chunk_size, i))
}

/// A file after chunks of `source` were written into it, in the order of their numbers.
pub open spec fn after_writes(file: Seq<u8>, source: Seq<u8>, chunk_size: nat, numbers: Seq<int>) -> Seq<
    u8,
>
    decreases numbers.len(),
{
    if numbers.len() == 0 {
        file
    } else {
        written_at(
            after_writes(file, source, chunk_size, numbers.drop_last()),
            numbers.last() * chunk_size,
            chunk_of(source, chunk_size, numbers.last()),
        )
    }
}

/// What arrives is what was sent: once every chunk of a file has been written to its place, in
/// whatever order and however often, the file is the one that the chunks were taken from.
pub proof fn written_chunks_make_the_file(
    file: Seq<u8>,
    source: Seq<u8>,
    chunk_size: nat,
    numbers: Seq<int>,
)
    requires
        chunk_size > 0,
        source.len() <= u64::MAX,
        file.len() == source.len(),
        forall|j: int|
            0 <= j < numbers.len() ==> 0 <= #[trigger] numbers[j] < chunks_needed(
                source.len(),
                chunk_size,
            ),
        forall|i: int|
            0 <= i < chunks_needed(source.len(), chunk_size) ==> #[trigger] numbers.contains(i),
    ensures
        after_writes(file, source, chunk_size, numbers) == source,
{
    let after = after_writes(file, source, chunk_size, numbers);
    written_bytes_are_right(file, source, chunk_size, numbers, 0);
    assert forall|k: int| 0 <= k < source.len() implies after[k] == source[k] by {
        let i = k / chunk_size as int;
        vstd::arithmetic::div_mod::lemma_fundamental_div_mod(k, chunk_size as int);
        vstd::arithmetic::div_mod::lemma_mod_bound(k, chunk_size as int);
        vstd::arithmetic::div_mod::lemma_div_pos_is_pos(k, chunk_size as int);
        vstd::arithmetic::div_mod::lemma_div_is_ordered(
            k,
            source.len() - 1,
            chunk_size as int,
        );
        assert(i * chunk_size == chunk_size * i) by (nonlinear_arith);
        assert(0 <= i < chunks_needed(source.len(), chunk_size));
        assert(numbers.contains(i));
        written_bytes_are_right(file, source, chunk_size, numbers, k);
        assert(is_in_chunk(source.len(), chunk_size, i, k));
    }
    assert(after =~= source);
}

/// Whether the byte at a place belongs to the chunk with a number.
pub open spec fn is_in_chunk(file_size: nat, chunk_size: nat, i: int, k: int) -> bool {
    i * chunk_size <= k < i * chunk_size + span_size(file_size, chunk_size, i)
}

proof fn written_bytes_are_right(
    file: Seq<u8>,
    source: Seq<u8>,
    chunk_size: nat,
    numbers: Seq<int>,
    k: int,
)
    requires
        chunk_size > 0,
        source.len() <= u64::MAX,
        file.len() == source.len(),
        forall|j: int|
            0 <= j < numbers.len() ==> 0 <= #[trigger] numbers[j] < chunks_needed(
                source.len(),
                chunk_size,
            ),
    ensures
        after_writes(file, source, chunk_size, numbers).len() == source.len(),
        0 <= k < source.len() && (exists|i: int| #[trigger]
            numbers.contains(i) && is_in_chunk(source.len(), chunk_size, i, k)) ==> after_writes(
            file,
            source,
            chunk_size,
            numbers,
        )[k] == source[k],
    decreases numbers.len(),
{
    if numbers.len() > 0 {
        let fewer = numbers.drop_last();
        let last = numbers.last();
        assert(numbers[numbers.len() - 1] == last);
        assert forall|j: int| 0 <= j < fewer.len() implies 0 <= #[trigger] fewer[j]
            < chunks_needed(source.len(), chunk_size) by {
            assert(fewer[j] == numbers[j]);
        }
        written_bytes_are_right(file, source, chunk_size, fewer, k);
        chunks_tile_the_file(source.len(), chunk_size, last);
        assert(last * chunk_size >= 0) by (nonlinear_arith)
            requires
                last >= 0,
        ;
        let data = chunk_of(source, chunk_size, last);
        assert(last * chunk_size + span_size(source.len(), chunk_size, last) <= source.len());
        if 0 <= k < source.len() && !is_in_chunk(source.len(), chunk_size, last, k) {
            if exists|i: int| #[trigger]
                numbers.contains(i) && is_in_chunk(source.len(), chunk_size, i, k) {
                let i = choose|i: int| #[trigger]
                    numbers.contains(i) && is_in_chunk(source.len(), chunk_size, i, k);
                let j = choose|j: int| 0 <= j < numbers.len() && numbers[j] == i;
                assert(fewer[j] == i);
                assert(fewer.contains(i));
            }
        }
    }
}

/// Which chunks of a transfer have arrived, which are under way and which failed how often.
#[derive(Debug)]
pub struct ChunkTracker {
    pub total_chunks: u32,
    pub completed: BTreeSet<u32>,
    pub in_flight: BTreeSet<u32>,
    pub failed: BTreeMap<u32, u8>,
    pub max_retries: u8,
}

/// A tracker, seen as plain values.
#[verifier::ext_equal]
pub struct TrackerView {
    pub total_chunks: u32,
    pub completed: Set<u32>,
    pub in_flight: Set<u32>,
    pub failed: Map<u32, u8>,
    pub max_retries: u8,
}

impl View for ChunkTracker {
    type V = TrackerView;

    open spec fn view(&self) -> TrackerView {
        TrackerView {
            total_chunks: self.total_chunks,
            completed: self.completed@,
            in_flight: self.in_flight@,
            failed: self.failed@,
            max_retries: self.max_retries,
        }
    }
}

/// A tracker of a transfer that has not begun.
pub open spec fn untouched(total_chunks: u32, max_retries: u8) -> TrackerView {
    TrackerView {
        total_chunks,
        completed: Set::empty(),
        in_flight: Set::empty(),
        failed: Map::empty(),
        max_retries,
    }
}

/// Whether a chunk failed, may be tried again and is not under way.
pub open spec fn is_retryable(v: TrackerView, i: u32) -> bool {
    v.failed[i] < v.max_retries && !v.in_flight.contains(i)
}

/// Whether nothing has happened to a chunk yet.
pub open spec fn is_fresh(v: TrackerView, i: u32) -> bool {
    !v.completed.contains(i) && !v.in_flight.contains(i) && !v.failed.contains_key(i)
}

/// The numbers of all chunks.
pub open spec fn all_chunks(total: u32) -> Seq<u32> {
    Seq::new(total as nat, |i: int| i as u32)
}

/// The chunks to send next: those that failed and may be tried again, then those to which
/// nothing has happened, each in increasing order.
pub open spec fn sendable(v: TrackerView) -> Seq<u32> {
    ascending_u32(v.failed.dom()).filter(|i: u32| is_retryable(v, i)) + all_chunks(
        v.total_chunks,
    ).filter(|i: u32| is_fresh(v, i))
}

/// The chunks that failed as often as is allowed, in increasing order: they are given up.
pub open spec fn given_up(v: TrackerView) -> Seq<u32> {
    ascending_u32(v.failed.dom()).filter(|i: u32| v.failed[i] >= v.max_retries)
}

/// The first items of a list: at least one, at most `count`.
pub open spec fn first_few(list: Seq<u32>, count: nat) -> Seq<u32> {
    let limit = if count == 0 {
        1
    } else {
        count as int
    };
    list.take(least(list.len() as int, limit))
}

/// A tracker after a chunk arrived.
pub open spec fn chunk_completed(v: TrackerView, i: u32) -> TrackerView {
    TrackerView {
        completed: v.completed.insert(i),
        in_flight: v.in_flight.remove(i),
        failed: v.failed.remove(i),
        ..v
    }
}

/// How often a chunk failed.
pub open spec fn failures(v: TrackerView, i: u32) -> u8 {
    if v.failed.contains_key(i) {
        v.failed[i]
    } else {
        0
    }
}

/// A tracker after a chunk failed once more.
pub open spec fn chunk_failed(v: TrackerView, i: u32) -> TrackerView {
    TrackerView {
        in_flight: v.in_flight.remove(i),
        failed: v.failed.insert(
            i,
            if failures(v, i) == 255 {
                255
            } else {
                (failures(v, i) + 1) as u8
            },
        ),
        ..v
    }
}

/// Whether as many chunks have arrived as there are.
pub open spec fn all_arrived(v: TrackerView) -> bool {
    v.completed.len() == v.total_chunks
}

proof fn filtered_prefix(s: Seq<u32>, keep: spec_fn(u32) -> bool, i: int)
    requires
        0 <= i <= s.len(),
    ensures
        s.take(i).filter(keep).len() <= s.filter(keep).len(),
        s.take(i).filter(keep) == s.filter(keep).take(s.take(i).filter(keep).len() as int),
{
    assert(s =~= s.take(i) + s.skip(i));
    Seq::filter_distributes_over_add(s.take(i), s.skip(i), keep);
    assert(s.take(i).filter(keep) =~= s.filter(keep).take(s.take(i).filter(keep).len() as int));
}

proof fn filter_step(s: Seq<u32>, keep: spec_fn(u32) -> bool, i: int)
    requires
        0 <= i < s.len(),
    ensures
        s.take(i + 1).filter(keep) == (if keep(s[i]) {
            s.take(i).filter(keep).push(s[i])
        } else {
            s.take(i).filter(keep)
        }),
{
    reveal(Seq::filter);
    assert(s.take(i + 1).drop_last() =~= s.take(i));
    assert(s.take(i + 1).last() == s[i]);
}

impl ChunkTracker {
    /// A tracker of a transfer that has not begun.
    pub fn new(total_chunks: u32, max_retries: u8) -> (tracker: Self)
        ensures
            tracker@ == untouched(total_chunks, max_retries),
    {
        let tracker = ChunkTracker {
            total_chunks,
            completed: BTreeSet::new(),
            in_flight: BTreeSet::new(),
            failed: BTreeMap::new(),
            max_retries,
        };
        assert(tracker@ =~= untouched(total_chunks, max_retries));
        tracker
    }

    /// The chunks to send next, at least one and at most `count` where there are any.
    pub fn next_chunks(&self, count: usize) -> (next: Vec<u32>)
        ensures
            next@ == first_few(sendable(self@), count as nat),
    {
        let limit: usize = if count == 0 {
            1
        } else {
            count
        };
        let ghost v = self@;
        let ghost retry = |i: u32| is_retryable(v, i);
        let ghost fresh = |i: u32| is_fresh(v, i);
        let keys = sorted_keys_u32(&self.failed);
        proof {
            ascending_is_u32(v.failed.dom(), keys@);
            reveal(Seq::filter);
            assert(keys@.take(0).filter(retry) =~= Seq::<u32>::empty());
        }
        let ghost first = keys@.filter(retry);
        let ghost second = all_chunks(v.total_chunks).filter(fresh);
        let mut next: Vec<u32> = Vec::new();
        let mut i: usize = 0;
        while i < keys.len()
            invariant
                v == self@,
                retry == (|i: u32| is_retryable(v, i)),
                fresh == (|i: u32| is_fresh(v, i)),
                i <= keys@.len(),
                keys@ == ascending_u32(v.failed.dom()),
                forall|k: u32| #[trigger] v.failed.contains_key(k) <==> keys@.contains(k),
                first == keys@.filter(retry),
                second == all_chunks(v.total_chunks).filter(fresh),
                sendable(v) == first + second,
                next@ == keys@.take(i as int).filter(retry),
                next@.len() < limit,
                limit == (if count == 0 {
                    1
                } else {
                    count as int
                }),
            decreases keys@.len() - i,
        {
            let key: u32 = keys[i];
            proof {
                filter_step(keys@, retry, i as int);
                assert(keys@.contains(keys@[i as int]));
            }
            let retries: u8 = match self.failed.get(&key) {
                Some(n) => *n,
                None => 0,
            };
            if retries < self.max_retries && !self.in_flight.contains(&key) {
                next.push(key);
                if next.len() >= limit {
                    proof {
                        filtered_prefix(keys@, retry, i + 1);
                        assert(next@ =~= (first + second).take(limit as int));
                    }
                    return next;
                }
            }
            i = i + 1;
        }
        let ghost all = all_chunks(v.total_chunks);
        proof {
            assert(keys@.take(keys@.len() as int) =~= keys@);
            reveal(Seq::filter);
            assert(all.take(0).filter(fresh) =~= Seq::<u32>::empty());
            assert(next@ =~= first + all.take(0).filter(fresh));
        }
        let mut index: u32 = 0;
        while index < self.total_chunks
            invariant
                v == self@,
                fresh == (|i: u32| is_fresh(v, i)),
                index <= self.total_chunks,
                all == all_chunks(v.total_chunks),
                second == all.filter(fresh),
                sendable(v) == first + second,
                next@ == first + all.take(index as int).filter(fresh),
                next@.len() < limit,
                limit == (if count == 0 {
                    1
                } else {
                    count as int
                }),
            decreases self.total_chunks - index,
        {
            proof {
                filter_step(all, fresh, index as int);
                assert(all[index as int] == index);
            }
            if !self.completed.contains(&index) && !self.in_flight.contains(&index)
                && !self.failed.contains_key(&index) {
                next.push(index);
                assert(next@ =~= first + all.take(index + 1).filter(fresh));
                if next.len() >= limit {
                    proof {
                        filtered_prefix(all, fresh, index + 1);
                        assert(next@ =~= (first + second).take(limit as int));
                    }
                    return next;
                }
            }
            index = index + 1;
        }
        proof {
            assert(all.take(all.len() as int) =~= all);
            assert(next@ =~= (first + second).take((first + second).len() as int));
        }
        next
    }

    /// Notes that a chunk is under way.
    pub fn mark_in_flight(&mut self, index: u32)
        ensures
            final(self)@ == (TrackerView {
                in_flight: old(self)@.in_flight.insert(index),
                ..old(self)@
            }),
    {
        let ghost before = self@;
        self.in_flight.insert(index);
        assert(self@ =~= (TrackerView { in_flight: before.in_flight.insert(index), ..before }));
    }

    /// Notes that a chunk arrived.
    pub fn mark_completed(&mut self, index: u32)
        ensures
            final(self)@ == chunk_completed(old(self)@, index),
    {
        let ghost before = self@;
        self.in_flight.remove(&index);
        self.failed.remove(&index);
        self.completed.insert(index);
        assert(self@ =~= chunk_completed(before, index));
    }

    /// Notes that a chunk failed.
    pub fn mark_failed(&mut self, index: u32)
        ensures
            final(self)@ == chunk_failed(old(self)@, index),
    {
        let ghost before = self@;
        self.in_flight.remove(&index);
        let retries: u8 = match self.failed.get(&index) {
            Some(n) => *n,
            None => 0,
        };
        self.failed.insert(index, retries.saturating_add(1));
        assert(self@ =~= chunk_failed(before, index));
    }

    /// Takes back that a chunk arrived.
    pub fn forget_completed(&mut self, index: u32)
        ensures
            final(self)@ == (TrackerView {
                completed: old(self)@.completed.remove(index),
                ..old(self)@
            }),
    {
        let ghost before = self@;
        self.completed.remove(&index);
        assert(self@ =~= (TrackerView { completed: before.completed.remove(index), ..before }));
    }

    /// Whether as many chunks have arrived as there are.
    pub fn is_complete(&self) -> (complete: bool)
        ensures
            complete == all_arrived(self@),
    {
        self.completed.len() == self.total_chunks as usize
    }

    /// The chunks that failed too often, in increasing order.
    pub fn permanently_failed(&self) -> (lost: Vec<u32>)
        ensures
            lost@ == given_up(self@),
    {
        let ghost v = self@;
        let ghost gone = |i: u32| v.failed[i] >= v.max_retries;
        let keys = sorted_keys_u32(&self.failed);
        proof {
            ascending_is_u32(v.failed.dom(), keys@);
            reveal(Seq::filter);
            assert(keys@.take(0).filter(gone) =~= Seq::<u32>::empty());
        }
        let mut lost: Vec<u32> = Vec::new();
        let mut i: usize = 0;
        while i < keys.len()
            invariant
                v == self@,
                gone == (|i: u32| v.failed[i] >= v.max_retries),
                i <= keys@.len(),
                forall|k: u32| #[trigger] v.failed.contains_key(k) <==> keys@.contains(k),
                lost@ == keys@.take(i as int).filter(gone),
            decreases keys@.len() - i,
        {
            let key: u32 = keys[i];
            proof {
                filter_step(keys@, gone, i as int);
                assert(keys@.contains(keys@[i as int]));
            }
            if let Some(retries) = self.failed.get(&key) {
                if *retries >= self.max_retries {
                    lost.push(key);
                }
            }
            i = i + 1;
        }
        assert(keys@.take(keys@.len() as int) =~= keys@);
        lost
    }
}

/// A copy of a set of numbers.
pub fn copy_numbers(numbers: &BTreeSet<u32>) -> (copy: BTreeSet<u32>)
    ensures
        copy@ == numbers@,
{
    let list = sorted_members_u32(numbers);
    let mut copy: BTreeSet<u32> = BTreeSet::new();
    let mut i: usize = 0;
    while i < list.len()
        invariant
            i <= list@.len(),
            forall|k: u32| #[trigger] copy@.contains(k) <==> list@.take(i as int).contains(k),
        decreases list@.len() - i,
    {
        let ghost shorter = list@.take(i as int);
        let ghost longer = list@.take(i + 1);
        let ghost before = copy@;
        copy.insert(list[i]);
        i = i + 1;
        assert forall|k: u32| #[trigger] copy@.contains(k) <==> longer.contains(k) by {
            if longer.contains(k) {
                let j = choose|j: int| 0 <= j < longer.len() && longer[j] == k;
                if j < shorter.len() {
                    assert(shorter[j] == k);
                }
            }
            if shorter.contains(k) {
                let j = choose|j: int| 0 <= j < shorter.len() && shorter[j] == k;
                assert(longer[j] == k);
            }
            assert(longer[i - 1] == list@[i - 1]);
            assert(before.contains(k) <==> shorter.contains(k));
        }
    }
    assert(list@.take(list@.len() as int) =~= list@);
    assert(copy@ =~= numbers@) by {
        assert forall|k: u32| #[trigger] copy@.contains(k) <==> numbers@.contains(k) by {
            assert(copy@.contains(k) <==> list@.take(list@.len() as int).contains(k));
            assert(numbers@.contains(k) <==> list@.contains(k));
        }
    }
    copy
}

impl Clone for ChunkTracker {
    fn clone(&self) -> (copy: Self)
        ensures
            copy@ == self@,
    {
        let keys = sorted_keys_u32(&self.failed);
        let mut failed: BTreeMap<u32, u8> = BTreeMap::new();
        let mut i: usize = 0;
        while i < keys.len()
            invariant
                i <= keys@.len(),
                forall|k: u32| #[trigger] self.failed@.contains_key(k) <==> keys@.contains(k),
                forall|k: u32| #[trigger]
                    failed@.contains_key(k) <==> keys@.take(i as int).contains(k),
                forall|k: u32| #[trigger] failed@.contains_key(k) ==> failed@[k] == self.failed@[k],
            decreases keys@.len() - i,
        {
            let key: u32 = keys[i];
            let ghost shorter = keys@.take(i as int);
            let ghost longer = keys@.take(i + 1);
            let ghost before = failed@;
            assert(keys@.contains(keys@[i as int]));
            assert(self.failed@.contains_key(key));
            if let Some(retries) = self.failed.get(&key) {
                failed.insert(key, *retries);
            }
            assert forall|k: u32| #[trigger] failed@.contains_key(k) <==> longer.contains(k) by {
                if longer.contains(k) {
                    let j = choose|j: int| 0 <= j < longer.len() && longer[j] == k;
                    if j < shorter.len() {
                        assert(shorter[j] == k);
                    }
                }
                if shorter.contains(k) {
                    let j = choose|j: int| 0 <= j < shorter.len() && shorter[j] == k;
                    assert(longer[j] == k);
                }
                assert(longer[i as int] == key);
                assert(before.contains_key(k) <==> shorter.contains(k));
            }
            i = i + 1;
        }
        assert(keys@.take(keys@.len() as int) =~= keys@);
        assert(failed@ =~= self.failed@) by {
            assert forall|k: u32| #[trigger] failed@.contains_key(k) <==> self.failed@.contains_key(
                k,
            ) by {
                assert(failed@.contains_key(k) <==> keys@.take(keys@.len() as int).contains(k));
                assert(self.failed@.contains_key(k) <==> keys@.contains(k));
            }
        }
        let copy = ChunkTracker {
            total_chunks: self.total_chunks,
            completed: copy_numbers(&self.completed),
            in_flight: copy_numbers(&self.in_flight),
            failed,
            max_retries: self.max_retries,
        };
        assert(copy@ =~= self@);
        copy
    }
}

/// A chunk that arrived is not sent again, unless it fails after that.
pub proof fn completed_chunk_is_not_sent_again(v: TrackerView, i: u32)
    requires
        v.failed.dom().finite(),
    ensures
        !sendable(chunk_completed(v, i)).contains(i),
{
    let after = chunk_completed(v, i);
    let retry = |k: u32| is_retryable(after, k);
    let fresh = |k: u32| is_fresh(after, k);
    let keys = ascending_u32(after.failed.dom());
    crate::ordered::ascending_lists_u32(after.failed.dom());
    if sendable(after).contains(i) {
        let k = choose|k: int| 0 <= k < sendable(after).len() && sendable(after)[k] == i;
        let first = keys.filter(retry);
        let second = all_chunks(after.total_chunks).filter(fresh);
        if k < first.len() {
            filter_members(keys, retry, k);
            assert(keys.contains(i));
        } else {
            filter_members(all_chunks(after.total_chunks), fresh, k - first.len());
        }
    }
}

proof fn filter_members(s: Seq<u32>, keep: spec_fn(u32) -> bool, k: int)
    requires
        0 <= k < s.filter(keep).len(),
    ensures
        keep(s.filter(keep)[k]),
        s.contains(s.filter(keep)[k]),
{
    s.lemma_filter_contains_rev(keep, s.filter(keep)[k]);
    s.lemma_filter_pred(keep, k);
}

/// A chunk that failed as often as is allowed is given up and not sent again.
pub proof fn given_up_chunk_is_not_sent_again(v: TrackerView, i: u32)
    requires
        v.failed.dom().finite(),
        v.failed.contains_key(i),
        v.failed[i] >= v.max_retries,
    ensures
        !sendable(v).contains(i),
{
    let retry = |k: u32| is_retryable(v, k);
    let fresh = |k: u32| is_fresh(v, k);
    let keys = ascending_u32(v.failed.dom());
    if sendable(v).contains(i) {
        let k = choose|k: int| 0 <= k < sendable(v).len() && sendable(v)[k] == i;
        let first = keys.filter(retry);
        if k < first.len() {
            filter_members(keys, retry, k);
        } else {
            filter_members(all_chunks(v.total_chunks), fresh, k - first.len());
        }
    }
}

proof fn filter_stays_increasing(s: Seq<u32>, keep: spec_fn(u32) -> bool)
    requires
        increasing_u32(s),
    ensures
        increasing_u32(s.filter(keep)),
    decreases s.len(),
{
    reveal(Seq::filter);
    if s.len() > 0 {
        let shorter = s.drop_last();
        filter_stays_increasing(shorter, keep);
        assert forall|k: int| 0 <= k < shorter.filter(keep).len() implies #[trigger] shorter.filter(
            keep,
        )[k] < s.last() by {
            filter_members(shorter, keep, k);
            let j = choose|j: int| 0 <= j < shorter.len() && shorter[j] == shorter.filter(keep)[k];
            assert(s[j] < s[s.len() - 1]);
        }
    }
}

proof fn filter_holds(s: Seq<u32>, keep: spec_fn(u32) -> bool, x: u32)
    ensures
        s.filter(keep).contains(x) <==> s.contains(x) && keep(x),
{
    if s.filter(keep).contains(x) {
        let k = choose|k: int| 0 <= k < s.filter(keep).len() && s.filter(keep)[k] == x;
        filter_members(s, keep, k);
    }
    if s.contains(x) && keep(x) {
        let j = choose|j: int| 0 <= j < s.len() && s[j] == x;
        s.lemma_filter_contains(keep, j);
    }
}

/// The chunks that are given up are listed in increasing order, and none of them is sent next.
/// Where there is room for all, no chunk is lost: each has arrived, is under way, is given up or
/// is sent next.
pub proof fn every_chunk_is_accounted_for(v: TrackerView, count: nat)
    requires
        v.failed.dom().finite(),
    ensures
        increasing_u32(given_up(v)),
        forall|i: u32| #[trigger]
            given_up(v).contains(i) <==> v.failed.contains_key(i) && v.failed[i] >= v.max_retries,
        forall|i: u32| #[trigger]
            given_up(v).contains(i) ==> !first_few(sendable(v), count).contains(i),
        count >= v.failed.dom().len() + v.total_chunks ==> forall|i: u32|
            i < v.total_chunks ==> {
                ||| v.completed.contains(i)
                ||| v.in_flight.contains(i)
                ||| given_up(v).contains(i)
                ||| #[trigger] first_few(sendable(v), count).contains(i)
            },
{
    let keys = ascending_u32(v.failed.dom());
    let gone = |i: u32| v.failed[i] >= v.max_retries;
    let retry = |i: u32| is_retryable(v, i);
    let fresh = |i: u32| is_fresh(v, i);
    let all = all_chunks(v.total_chunks);
    let first = keys.filter(retry);
    let second = all.filter(fresh);
    let next = first_few(sendable(v), count);
    crate::ordered::ascending_lists_u32(v.failed.dom());
    filter_stays_increasing(keys, gone);
    assert forall|i: u32| #[trigger] given_up(v).contains(i) <==> v.failed.contains_key(i)
        && v.failed[i] >= v.max_retries by {
        filter_holds(keys, gone, i);
        assert(keys.contains(i) <==> v.failed.dom().contains(i));
    }
    assert forall|i: u32| #[trigger] given_up(v).contains(i) implies !next.contains(i) by {
        given_up_chunk_is_not_sent_again(v, i);
        if next.contains(i) {
            let k = choose|k: int| 0 <= k < next.len() && next[k] == i;
            assert(sendable(v)[k] == i);
        }
    }
    if count >= v.failed.dom().len() + v.total_chunks {
        keys.lemma_filter_len(retry);
        all.lemma_filter_len(fresh);
        assert(keys.to_set() =~= v.failed.dom()) by {
            assert forall|k: u32| keys.to_set().contains(k) <==> v.failed.dom().contains(k) by {
                assert(keys.contains(k) <==> v.failed.dom().contains(k));
            }
        }
        keys.unique_seq_to_set();
        assert(next =~= sendable(v));
        assert forall|i: u32| i < v.total_chunks implies {
            ||| v.completed.contains(i)
            ||| v.in_flight.contains(i)
            ||| given_up(v).contains(i)
            ||| #[trigger] next.contains(i)
        } by {
            filter_holds(keys, retry, i);
            filter_holds(all, fresh, i);
            assert(keys.contains(i) <==> v.failed.dom().contains(i));
            assert(all[i as int] == i);
            if first.contains(i) {
                let k = choose|k: int| 0 <= k < first.len() && first[k] == i;
                assert(next[k] == i);
            }
            if second.contains(i) {
                let k = choose|k: int| 0 <= k < second.len() && second[k] == i;
                assert(next[first.len() + k] == i);
            }
        }
    }
}

/// A chunk that arrives has arrived, is no longer under way and no longer counts as failed; a
/// chunk that fails is no longer under way and has failed once more than before, as far as that
/// can be counted. No other chunk changes, and the number of chunks and of retries stay.
pub proof fn chunks_change_one_by_one(v: TrackerView, i: u32, other: u32)
    ensures
        ({
            let after = chunk_completed(v, i);
            &&& after.completed.contains(i) && !after.in_flight.contains(i)
                && !after.failed.contains_key(i)
            &&& other != i ==> {
                &&& after.completed.contains(other) == v.completed.contains(other)
                &&& after.in_flight.contains(other) == v.in_flight.contains(other)
                &&& after.failed.contains_key(other) == v.failed.contains_key(other)
                &&& v.failed.contains_key(other) ==> after.failed[other] == v.failed[other]
            }
            &&& after.total_chunks == v.total_chunks && after.max_retries == v.max_retries
        }),
        ({
            let after = chunk_failed(v, i);
            let times: int = if v.failed.contains_key(i) {
                v.failed[i] as int
            } else {
                0
            };
            &&& !after.in_flight.contains(i) && after.failed.contains_key(i)
            &&& times < 255 ==> after.failed[i] == times + 1
            &&& times == 255 ==> after.failed[i] == 255
            &&& after.completed == v.completed
            &&& other != i ==> {
                &&& after.in_flight.contains(other) == v.in_flight.contains(other)
                &&& after.failed.contains_key(other) == v.failed.contains_key(other)
                &&& v.failed.contains_key(other) ==> after.failed[other] == v.failed[other]
            }
            &&& after.total_chunks == v.total_chunks && after.max_retries == v.max_retries
        }),
{
}

/// Nothing has happened to any chunk of a transfer that has not begun.
pub proof fn untouched_chunks_are_all_to_be_sent(total: u32, max_retries: u8, i: u32)
    ensures
        ({
            let v = untouched(total, max_retries);
            &&& !v.completed.contains(i) && !v.in_flight.contains(i) && !v.failed.contains_key(i)
            &&& v.total_chunks == total && v.max_retries == max_retries
            &&& sendable(v).contains(i) <==> i < total
        }),
{
    let v = untouched(total, max_retries);
    sendable_are_the_waiting(v, i);
}

proof fn all_chunks_hold(total: u32, i: u32)
    ensures
        all_chunks(total).contains(i) <==> i < total,
{
    if i < total {
        assert(all_chunks(total)[i as int] == i);
    }
}

/// The chunks to send next are exactly those that failed less often than is allowed and are not
/// under way, and those of the file to which nothing has happened: the failed ones first, each
/// kind in increasing order, and none twice.
pub proof fn sendable_are_the_waiting(v: TrackerView, i: u32)
    requires
        v.failed.dom().finite(),
    ensures
        sendable(v).contains(i) <==> (v.failed.contains_key(i) && v.failed[i] < v.max_retries
            && !v.in_flight.contains(i)) || (i < v.total_chunks && !v.completed.contains(i)
            && !v.in_flight.contains(i) && !v.failed.contains_key(i)),
        forall|a: int, b: int|
            0 <= a < b < sendable(v).len() ==> {
                &&& v.failed.contains_key(#[trigger] sendable(v)[b]) ==> v.failed.contains_key(
                    #[trigger] sendable(v)[a],
                ) && sendable(v)[a] < sendable(v)[b]
                &&& !v.failed.contains_key(sendable(v)[a]) ==> !v.failed.contains_key(sendable(v)[b])
                    && sendable(v)[a] < sendable(v)[b]
                &&& sendable(v)[a] != sendable(v)[b]
            },
{
    let keys = ascending_u32(v.failed.dom());
    let retry = |i: u32| is_retryable(v, i);
    let fresh = |i: u32| is_fresh(v, i);
    let all = all_chunks(v.total_chunks);
    let first = keys.filter(retry);
    let second = all.filter(fresh);
    let list = sendable(v);
    crate::ordered::ascending_lists_u32(v.failed.dom());
    crate::ordered::filter_increases_u32(keys, retry);
    assert(increasing_u32(all));
    crate::ordered::filter_increases_u32(all, fresh);
    crate::ordered::filter_holds_u32(keys, retry, i);
    crate::ordered::filter_holds_u32(all, fresh, i);
    all_chunks_hold(v.total_chunks, i);
    assert(keys.contains(i) <==> v.failed.dom().contains(i));
    if first.contains(i) {
        let k = choose|k: int| 0 <= k < first.len() && first[k] == i;
        assert(list[k] == i);
    }
    if second.contains(i) {
        let k = choose|k: int| 0 <= k < second.len() && second[k] == i;
        assert(list[first.len() + k] == i);
    }
    if list.contains(i) {
        let k = choose|k: int| 0 <= k < list.len() && list[k] == i;
        if k < first.len() {
            assert(first[k] == i);
        } else {
            assert(second[k - first.len()] == i);
        }
    }
    assert forall|a: int| 0 <= a < list.len() implies (v.failed.contains_key(#[trigger] list[a])
        <==> a < first.len()) by {
        if a < first.len() {
            assert(first[a] == list[a]);
            filter_members(keys, retry, a);
            assert(keys.contains(list[a]));
            assert(v.failed.dom().contains(list[a]));
        } else {
            assert(second[a - first.len()] == list[a]);
            filter_members(all, fresh, a - first.len());
        }
    }
    assert forall|a: int, b: int| 0 <= a < b < list.len() implies {
        &&& v.failed.contains_key(#[trigger] list[b]) ==> v.failed.contains_key(#[trigger] list[a])
            && list[a] < list[b]
        &&& !v.failed.contains_key(list[a]) ==> !v.failed.contains_key(list[b]) && list[a] < list[b]
        &&& list[a] != list[b]
    } by {
        if b < first.len() {
            assert(first[a] < first[b]);
        } else if a >= first.len() {
            assert(second[a - first.len()] < second[b - first.len()]);
        }
    }
}

/// What is asked for is given, from the front, as far as there is so much, and at least one.
pub proof fn as_many_as_are_asked_for(list: Seq<u32>, count: nat, i: int)
    ensures
        count > 0 ==> first_few(list, count).len() == (if list.len() < count {
            list.len()
        } else {
            count
        }),
        count == 0 ==> first_few(list, count).len() == (if list.len() == 0 {
            0nat
        } else {
            1
        }),
        0 <= i < first_few(list, count).len() ==> first_few(list, count)[i] == list[i],
{
}

proof fn members_below_are_bounded(s: Set<u32>, total: u32)
    requires
        s.finite(),
        forall|i: u32| #[trigger] s.contains(i) ==> i < total,
    ensures
        s.len() <= total,
        s.len() == total ==> forall|i: u32| i < total ==> s.contains(i),
    decreases total,
{
    if total == 0 {
        assert(s =~= Set::empty());
    } else {
        let last = (total - 1) as u32;
        let rest = s.remove(last);
        assert forall|i: u32| #[trigger] rest.contains(i) implies i < last by {
            assert(s.contains(i));
        }
        members_below_are_bounded(rest, last);
        if s.len() == total {
            assert(s.contains(last));
            assert forall|i: u32| i < total implies s.contains(i) by {
                if i < last {
                    assert(rest.contains(i));
                }
            }
        }
    }
}

proof fn whole_set_counts(s: Set<u32>, total: u32)
    requires
        s.finite(),
        forall|i: u32| #[trigger] s.contains(i) <==> i < total,
    ensures
        s.len() == total,
    decreases total,
{
    if total == 0 {
        assert(s =~= Set::empty());
    } else {
        let last = (total - 1) as u32;
        let rest = s.remove(last);
        assert(s.contains(last));
        assert forall|i: u32| #[trigger] rest.contains(i) <==> i < last by {
            assert(s.contains(i) <==> i < total);
        }
        whole_set_counts(rest, last);
    }
}

/// All chunks have arrived exactly where each single one has, as long as none counts that the file
/// does not have.
pub proof fn all_have_arrived_where_each_has(v: TrackerView)
    requires
        v.completed.finite(),
        forall|i: u32| #[trigger] v.completed.contains(i) ==> i < v.total_chunks,
    ensures
        all_arrived(v) <==> forall|i: u32| i < v.total_chunks ==> v.completed.contains(i),
{
    members_below_are_bounded(v.completed, v.total_chunks);
    if forall|i: u32| i < v.total_chunks ==> v.completed.contains(i) {
        whole_set_counts(v.completed, v.total_chunks);
    }
}

/// Chunks are never smaller than sixty-four kibibytes nor greater than sixteen mebibytes, and of
/// the size that is asked for in between.
pub proof fn chunk_size_is_kept_in_bounds(chunk_size: usize, manager: ChunkManager)
    requires
        call_ensures(ChunkManager::new, (chunk_size,), manager),
    ensures
        65_536 <= manager.size() <= 16_777_216,
        65_536 <= chunk_size <= 16_777_216 ==> manager.size() == chunk_size,
        chunk_size < 65_536 ==> manager.size() == 65_536,
        chunk_size > 16_777_216 ==> manager.size() == 16_777_216,
{
}

/// A chunk is made of the bytes that it is given, lies where its number says, and is told from a
/// damaged one by its checksum.
pub proof fn chunk_is_made_of_its_bytes(
    manager: &ChunkManager,
    index: u32,
    data: Vec<u8>,
    chunk: Chunk,
    matches: bool,
    file_size: u64,
    span: (u64, usize),
)
    requires
        manager.wf(),
        data@.len() <= manager.size(),
        call_ensures(ChunkManager::chunk, (manager, index, data), chunk),
        call_ensures(ChunkManager::verify_chunk, (manager, &chunk), matches),
        call_ensures(ChunkManager::span, (manager, index, file_size), span),
    ensures
        chunk.index == index,
        chunk.data@ == data@,
        chunk.size == data@.len(),
        chunk.offset == index * manager.size(),
        matches,
        span.0 == index * manager.size(),
        span.0 + span.1 <= file_size || span.1 == 0,
        span.1 <= manager.size(),
        span.0 + manager.size() <= file_size ==> span.1 == manager.size(),
        span.0 < file_size < span.0 + manager.size() ==> span.0 + span.1 == file_size,
{
}

/// A chunk that sets out is under way, one that is forgotten has not arrived, and nothing else
/// changes. Exactly those are given up that failed as often as is allowed, in order.
pub proof fn chunks_set_out_and_are_forgotten(
    sending: &mut ChunkTracker,
    forgetting: &mut ChunkTracker,
    index: u32,
    other: u32,
    tracker: &ChunkTracker,
    lost: Vec<u32>,
)
    requires
        call_ensures(ChunkTracker::mark_in_flight, (sending, index), ()),
        call_ensures(ChunkTracker::forget_completed, (forgetting, index), ()),
        call_ensures(ChunkTracker::permanently_failed, (tracker,), lost),
        tracker@.failed.dom().finite(),
    ensures
        final(sending)@.in_flight.contains(index),
        other != index ==> final(sending)@.in_flight.contains(other)
            == old(sending)@.in_flight.contains(other),
        final(sending)@.completed == old(sending)@.completed,
        final(sending)@.failed == old(sending)@.failed,
        !final(forgetting)@.completed.contains(index),
        other != index ==> final(forgetting)@.completed.contains(other)
            == old(forgetting)@.completed.contains(other),
        final(forgetting)@.failed == old(forgetting)@.failed,
        final(forgetting)@.in_flight == old(forgetting)@.in_flight,
        lost@.contains(other) <==> tracker@.failed.contains_key(other) && tracker@.failed[other]
            >= tracker@.max_retries,
        crate::ordered::increasing_u32(lost@),
{
    let v = tracker@;
    let all = ascending_u32(v.failed.dom());
    let over = |i: u32| v.failed[i] >= v.max_retries;
    crate::ordered::ascending_lists_u32(v.failed.dom());
    crate::ordered::filter_increases_u32(all, over);
    crate::ordered::filter_holds_u32(all, over, other);
}

/// As many chunks are needed as make up the file: with one less some of it would be left out.
pub proof fn count_makes_up_the_file(manager: &ChunkManager, file_size: u64, count: u32)
    requires
        manager.wf(),
        call_ensures(ChunkManager::calculate_chunk_count, (manager, file_size), count),
        chunks_needed(file_size as nat, manager.size() as nat) <= 0xffff_ffff,
        manager.size() > 0,
    ensures
        count * manager.size() >= file_size,
        file_size > 0 ==> (count - 1) * manager.size() < file_size,
        file_size == 0 ==> count == 0,
{
    chunks_needed_cover_the_file(file_size as nat, manager.size() as nat);
}

} // verus!
