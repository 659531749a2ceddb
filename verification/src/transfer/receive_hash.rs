//! The hash of a file whose chunks arrive in any order.

use std::collections::BTreeMap;
use vstd::prelude::*;

use crate::transfer::integrity::{hash_of, FileHasher};
use crate::transfer::options::HashAlgorithm;

verus! {

/// A hash that takes chunks in any order and hashes them in theirs.
pub struct IncrementalReceiveHash {
    next_index: u32,
    pending: BTreeMap<u32, Vec<u8>>,
    hasher: FileHasher,
}

/// A hash that takes chunks in any order, seen as plain values.
#[verifier::ext_equal]
pub struct ReceiveHashView {
    pub algorithm: HashAlgorithm,
    /// The number of the next chunk to hash.
    pub next: u32,
    /// The chunks that came too early.
    pub pending: Map<u32, Seq<u8>>,
    /// What was hashed.
    pub hashed: Seq<u8>,
}

impl View for IncrementalReceiveHash {
    type V = ReceiveHashView;

    closed spec fn view(&self) -> ReceiveHashView {
        ReceiveHashView {
            algorithm: self.hasher@.algorithm,
            next: self.next_index,
            pending: self.pending@.map_values(|d: Vec<u8>| d@),
            hashed: self.hasher@.absorbed,
        }
    }
}

/// The number behind a chunk's, or the greatest there is.
pub open spec fn number_after(i: u32) -> u32 {
    if i == 0xffff_ffff {
        i
    } else {
        (i + 1) as u32
    }
}

/// One chunk further.
pub open spec fn one_further(s: ReceiveHashView) -> ReceiveHashView {
    ReceiveHashView {
        next: number_after(s.next),
        pending: s.pending.remove(s.next),
        hashed: s.hashed + s.pending[s.next],
        ..s
    }
}

/// As far as the chunks that are there lead.
pub open spec fn drained(s: ReceiveHashView) -> ReceiveHashView
    decreases s.pending.dom().len(),
{
    if s.pending.dom().finite() && s.pending.contains_key(s.next) {
        drained(one_further(s))
    } else {
        s
    }
}

/// Whether a chunk is one that the hash has not had.
pub open spec fn is_new(s: ReceiveHashView, index: u32) -> bool {
    index >= s.next && !s.pending.contains_key(index)
}

/// The hash after a chunk arrived. One that it has had is passed over.
pub open spec fn taken(s: ReceiveHashView, index: u32, data: Seq<u8>) -> ReceiveHashView {
    if is_new(s, index) {
        drained(ReceiveHashView { pending: s.pending.insert(index, data), ..s })
    } else {
        s
    }
}

/// How many bytes are hashed when a chunk is taken, as far as that can be counted.
pub open spec fn newly_hashed(s: ReceiveHashView, index: u32, data: Seq<u8>) -> int {
    let grown = taken(s, index, data).hashed.len() - s.hashed.len();
    if grown <= u64::MAX {
        grown
    } else {
        u64::MAX as int
    }
}

impl IncrementalReceiveHash {
    /// The hash works.
    pub closed spec fn wf(&self) -> bool {
        self.hasher.wf()
    }

    /// A hash that has had no chunk.
    pub fn new(algorithm: HashAlgorithm) -> (state: Self)
        ensures
            state.wf(),
            state@ == (ReceiveHashView {
                algorithm,
                next: 0,
                pending: Map::empty(),
                hashed: Seq::empty(),
            }),
    {
        let state = IncrementalReceiveHash {
            next_index: 0,
            pending: BTreeMap::new(),
            hasher: FileHasher::new(algorithm),
        };
        assert(state@.pending =~= Map::empty());
        state
    }

    /// The number of the next chunk to hash.
    pub fn next_index(&self) -> (next: u32)
        ensures
            next == self@.next,
    {
        self.next_index
    }

    /// Whether no chunk waits.
    pub fn is_pending_empty(&self) -> (empty: bool)
        ensures
            empty == (self@.pending.dom().len() == 0),
    {
        assert(self@.pending.dom() =~= self.pending@.dom());
        self.pending.len() == 0
    }

    /// Takes a chunk, and tells how many bytes were hashed on that.
    pub fn record(&mut self, index: u32, data: Vec<u8>) -> (bytes_hashed: u64)
        requires
            old(self).wf(),
        ensures
            final(self).wf(),
            final(self)@ == taken(old(self)@, index, data@),
            bytes_hashed == newly_hashed(old(self)@, index, data@),
    {
        let ghost before = self@;
        if index < self.next_index || self.pending.contains_key(&index) {
            return 0;
        }
        self.pending.insert(index, data);
        let ghost start = ReceiveHashView { pending: before.pending.insert(index, data@), ..before };
        assert(self@.pending =~= start.pending);
        assert(self@ =~= start);
        let mut bytes_hashed: u64 = 0;
        let mut more = true;
        while more
            invariant
                self.wf(),
                self.pending@.dom().finite(),
                drained(self@) == drained(start),
                before.hashed.len() <= self@.hashed.len(),
                bytes_hashed == (if self@.hashed.len() - before.hashed.len() <= u64::MAX {
                    self@.hashed.len() - before.hashed.len()
                } else {
                    u64::MAX as int
                }),
                !more ==> !self@.pending.contains_key(self@.next),
            decreases self.pending@.dom().len(), (if more { 1nat } else { 0 }),
        {
            let ghost now = self@;
            let ghost held = self.pending@;
            let next: u32 = self.next_index;
            match self.pending.remove(&next) {
                Some(data) => {
                    let n: usize = data.len();
                    bytes_hashed = bytes_hashed.saturating_add(n as u64);
                    self.hasher.update(data.as_slice());
                    self.next_index = self.next_index.saturating_add(1);
                    proof {
                        assert(now.pending.dom() =~= held.dom());
                        assert(self.pending@.dom() =~= held.dom().remove(next));
                        assert(self@.pending =~= now.pending.remove(next));
                        assert(self@ =~= one_further(now));
                    }
                },
                None => {
                    more = false;
                    assert(self.pending@ =~= held);
                    assert(self@ =~= now);
                },
            }
        }
        self.pending_is_finite();
        bytes_hashed
    }

    fn pending_is_finite(&self)
        ensures
            self@.pending.dom().finite(),
    {
        let n: usize = self.pending.len();
        assert(self@.pending.dom() =~= self.pending@.dom());
    }

    /// The hash of what was hashed.
    pub fn finalize(self) -> (hash: Vec<u8>)
        requires
            self.wf(),
        ensures
            hash@ == hash_of(self@.algorithm, self@.hashed),
    {
        self.hasher.finalize()
    }

    /// The hash of a file of `chunk_count` chunks, where all of them were hashed.
    pub fn finish(self, chunk_count: u32) -> (hash: Option<Vec<u8>>)
        requires
            self.wf(),
        ensures
            match hash {
                Some(hash) => {
                    &&& self@.next == chunk_count
                    &&& self@.pending.dom().len() == 0
                    &&& hash@ == hash_of(self@.algorithm, self@.hashed)
                },
                None => self@.next != chunk_count || self@.pending.dom().len() != 0,
            },
    {
        if self.next_index == chunk_count && self.is_pending_empty() {
            Some(self.finalize())
        } else {
            None
        }
    }
}

/// The first `n` chunks, one behind the other.
pub open spec fn in_sequence(chunks: Map<u32, Seq<u8>>, n: nat) -> Seq<u8>
    decreases n,
{
    if n == 0 {
        Seq::empty()
    } else {
        in_sequence(chunks, (n - 1) as nat) + chunks[(n - 1) as u32]
    }
}

/// Whether a hash has had exactly these chunks: it has hashed the ones up to the first that
/// is missing, and the others wait.
pub open spec fn has_had(s: ReceiveHashView, chunks: Map<u32, Seq<u8>>) -> bool {
    &&& s.pending.dom().finite()
    &&& forall|i: u32| i < s.next ==> #[trigger] chunks.contains_key(i)
    &&& forall|i: u32| i >= s.next ==> (#[trigger] chunks.contains_key(i) <==> s.pending.contains_key(i))
    &&& forall|i: u32| #[trigger] s.pending.contains_key(i) ==> i >= s.next && s.pending[i] == chunks[i]
    &&& s.hashed == in_sequence(chunks, s.next as nat)
}

proof fn draining_keeps(s: ReceiveHashView, chunks: Map<u32, Seq<u8>>)
    requires
        has_had(s, chunks),
        !chunks.contains_key(0xffff_ffff),
    ensures
        has_had(drained(s), chunks),
        !drained(s).pending.contains_key(drained(s).next),
        drained(s).algorithm == s.algorithm,
    decreases s.pending.dom().len(),
{
    if s.pending.contains_key(s.next) {
        let next = one_further(s);
        assert(chunks.contains_key(s.next));
        assert(next.pending.dom() =~= s.pending.dom().remove(s.next));
        assert forall|i: u32| i < next.next implies #[trigger] chunks.contains_key(i) by {
            if i < s.next {
            }
        }
        assert(next.hashed == in_sequence(chunks, next.next as nat));
        draining_keeps(next, chunks);
    }
}

proof fn in_sequence_ignores_later(chunks: Map<u32, Seq<u8>>, n: nat, index: u32, data: Seq<u8>)
    requires
        n <= index,
    ensures
        in_sequence(chunks.insert(index, data), n) == in_sequence(chunks, n),
    decreases n,
{
    if n > 0 {
        in_sequence_ignores_later(chunks, (n - 1) as nat, index, data);
    }
}

/// Whatever the order in which chunks arrive, the hash has had exactly those that arrived,
/// and a chunk that arrives once more changes nothing. No file has a chunk with the greatest
/// number.
pub proof fn order_of_arrival_does_not_matter(
    s: ReceiveHashView,
    chunks: Map<u32, Seq<u8>>,
    index: u32,
    data: Seq<u8>,
)
    requires
        has_had(s, chunks),
        !s.pending.contains_key(s.next),
        !chunks.contains_key(0xffff_ffff),
        index < 0xffff_ffff,
    ensures
        chunks.contains_key(index) ==> taken(s, index, data) == s,
        !chunks.contains_key(index) ==> has_had(taken(s, index, data), chunks.insert(index, data)),
        !taken(s, index, data).pending.contains_key(taken(s, index, data).next),
        taken(s, index, data).algorithm == s.algorithm,
{
    if !chunks.contains_key(index) {
        assert(index >= s.next);
        let more = chunks.insert(index, data);
        let start = ReceiveHashView { pending: s.pending.insert(index, data), ..s };
        in_sequence_ignores_later(chunks, s.next as nat, index, data);
        assert(start.pending.dom() =~= s.pending.dom().insert(index));
        assert(has_had(start, more)) by {
            assert forall|i: u32| i < start.next implies #[trigger] more.contains_key(i) by {
                assert(chunks.contains_key(i));
            }
            assert forall|i: u32| i >= start.next implies (#[trigger] more.contains_key(i)
                <==> start.pending.contains_key(i)) by {
                assert(chunks.contains_key(i) <==> s.pending.contains_key(i));
            }
        }
        draining_keeps(start, more);
    } else {
        assert(!is_new(s, index));
    }
}

/// Once all chunks of a file have arrived, the hash is that of the file: nothing waits, and
/// what was hashed is the chunks one behind the other.
pub proof fn all_chunks_give_the_hash_of_the_file(
    s: ReceiveHashView,
    chunks: Map<u32, Seq<u8>>,
    chunk_count: u32,
)
    requires
        has_had(s, chunks),
        !s.pending.contains_key(s.next),
        forall|i: u32| #[trigger] chunks.contains_key(i) <==> i < chunk_count,
    ensures
        s.next == chunk_count,
        s.pending.dom().len() == 0,
        s.hashed == in_sequence(chunks, chunk_count as nat),
{
    assert(!chunks.contains_key(s.next)) by {
        assert(s.next >= s.next);
    }
    assert(s.next >= chunk_count);
    if s.next > chunk_count {
        assert(chunks.contains_key(chunk_count));
    }
    assert forall|i: u32| !s.pending.dom().contains(i) by {
        if s.pending.contains_key(i) {
            assert(i >= s.next);
            assert(chunks.contains_key(i));
        }
    }
    assert(s.pending.dom() =~= Set::empty());
}

/// As many bytes count as newly hashed as were added to what was hashed, and none where the chunk
/// is one that the hash has had.
pub proof fn newly_hashed_is_what_was_added(s: ReceiveHashView, index: u32, data: Seq<u8>)
    requires
        taken(s, index, data).hashed.len() <= u64::MAX,
    ensures
        s.hashed.len() <= taken(s, index, data).hashed.len() ==> s.hashed.len() + newly_hashed(
            s,
            index,
            data,
        ) == taken(s, index, data).hashed.len(),
        index < s.next || s.pending.contains_key(index) ==> newly_hashed(s, index, data) == 0
            && taken(s, index, data) == s,
{
}

/// The hash of a file is given only once all of its chunks were hashed and none waits, and is that
/// of what was hashed; a new one has had nothing.
pub proof fn hash_is_given_when_all_was_hashed(
    state: IncrementalReceiveHash,
    chunk_count: u32,
    hash: Option<Vec<u8>>,
    whole: Vec<u8>,
    algorithm: HashAlgorithm,
    fresh: IncrementalReceiveHash,
)
    requires
        state.wf(),
        call_ensures(IncrementalReceiveHash::finish, (state, chunk_count), hash),
        call_ensures(IncrementalReceiveHash::finalize, (state,), whole),
        call_ensures(IncrementalReceiveHash::new, (algorithm,), fresh),
    ensures
        hash is Some <==> state@.next == chunk_count && state@.pending.dom().len() == 0,
        hash matches Some(h) ==> h@ == hash_of(state@.algorithm, state@.hashed),
        whole@ == hash_of(state@.algorithm, state@.hashed),
        fresh@.next == 0 && fresh@.hashed.len() == 0 && fresh@.algorithm == algorithm,
        forall|i: u32| !#[trigger] fresh@.pending.contains_key(i),
{
}

} // verus!
