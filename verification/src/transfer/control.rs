//! The messages that have come in and that nobody has taken yet.

use std::collections::BTreeMap;
use vstd::prelude::*;

use crate::clock::{Duration, Instant};
use crate::node::NodeId;
use crate::ordered::sorted_keys_u128;
use crate::transfer::error::{ErrorView, FileTransferError, TransferSessionId};

verus! {

/// The messages that have come in, by transfer and in the order in which they came.
#[derive(Debug)]
pub struct ControlDispatcher<M> {
    inbox: BTreeMap<u128, Vec<(NodeId, M)>>,
    closed: bool,
}

/// The messages that have come in, seen as plain values.
#[verifier::ext_equal]
#[verifier::reject_recursive_types(M)]
pub struct InboxView<M> {
    pub inbox: Map<u128, Seq<(NodeId, M)>>,
    pub closed: bool,
}

impl<M> View for ControlDispatcher<M> {
    type V = InboxView<M>;

    closed spec fn view(&self) -> InboxView<M> {
        InboxView { inbox: self.inbox@.map_values(|q: Vec<(NodeId, M)>| q@), closed: self.closed }
    }
}

/// The messages of one transfer.
pub open spec fn queue_of<M>(v: InboxView<M>, id: u128) -> Seq<(NodeId, M)> {
    if v.inbox.contains_key(id) {
        v.inbox[id]
    } else {
        Seq::empty()
    }
}

/// Whether the message at `i` is the first that a test takes.
pub open spec fn is_first_taken<M, F: Fn(NodeId, &M) -> bool>(
    queue: Seq<(NodeId, M)>,
    matcher: F,
    i: int,
) -> bool {
    &&& 0 <= i < queue.len()
    &&& call_ensures(matcher, (queue[i].0, &queue[i].1), true)
    &&& none_taken(queue.take(i), matcher)
}

/// Whether a test takes none of the messages.
pub open spec fn none_taken<M, F: Fn(NodeId, &M) -> bool>(queue: Seq<(NodeId, M)>, matcher: F) -> bool {
    forall|j: int|
        0 <= j < queue.len() ==> call_ensures(
            matcher,
            ((#[trigger] queue[j]).0, &queue[j].1),
            false,
        )
}

/// The messages without one.
pub open spec fn without_message<M>(v: InboxView<M>, id: u128, i: int) -> InboxView<M> {
    InboxView { inbox: v.inbox.insert(id, v.inbox[id].remove(i)), ..v }
}

/// What somebody who waits for a message does next.
#[derive(Debug, PartialEq, Eq)]
pub enum Waiting {
    /// Wait so long for another message, at most.
    Sleep(Duration),
    /// Stop waiting.
    GiveUp(FileTransferError),
}

impl<M> ControlDispatcher<M> {
    /// Nothing has come in.
    pub fn new() -> (dispatcher: Self)
        ensures
            dispatcher@ == (InboxView::<M> { inbox: Map::empty(), closed: false }),
    {
        let dispatcher = ControlDispatcher { inbox: BTreeMap::new(), closed: false };
        assert(dispatcher@.inbox =~= Map::empty());
        dispatcher
    }

    /// A message came in.
    pub fn push(&mut self, session_id: TransferSessionId, sender: NodeId, message: M)
        ensures
            final(self)@ == (InboxView {
                inbox: old(self)@.inbox.insert(
                    session_id.id,
                    queue_of(old(self)@, session_id.id).push((sender, message)),
                ),
                ..old(self)@
            }),
    {
        let ghost before = self@;
        let mut queue = match self.inbox.remove(&session_id.id) {
            Some(queue) => queue,
            None => Vec::new(),
        };
        assert(queue@ =~= queue_of(before, session_id.id));
        queue.push((sender, message));
        self.inbox.insert(session_id.id, queue);
        assert(self@.inbox =~= before.inbox.insert(
            session_id.id,
            queue_of(before, session_id.id).push((sender, message)),
        ));
    }

    /// No more messages will come in.
    pub fn close(&mut self)
        ensures
            final(self)@ == (InboxView { closed: true, ..old(self)@ }),
    {
        self.closed = true;
    }

    /// Takes the first message of a transfer that a test takes.
    pub fn pop_matching<F: Fn(NodeId, &M) -> bool>(
        &mut self,
        session_id: TransferSessionId,
        matcher: &F,
    ) -> (r: Option<(NodeId, M)>)
        requires
            forall|n: NodeId, m: M| #[trigger] call_requires(*matcher, (n, &m)),
        ensures
            match r {
                Some(taken) => exists|i: int| #[trigger]
                    is_first_taken(queue_of(old(self)@, session_id.id), *matcher, i) && taken
                        == queue_of(old(self)@, session_id.id)[i] && final(self)@ == without_message(
                        old(self)@,
                        session_id.id,
                        i,
                    ),
                None => none_taken(queue_of(old(self)@, session_id.id), *matcher) && final(self)@
                    == old(self)@,
            },
    {
        let ghost before = self@;
        let mut queue = match self.inbox.remove(&session_id.id) {
            Some(queue) => queue,
            None => {
                assert(self@.inbox =~= before.inbox);
                return None;
            },
        };
        let ghost all = queue@;
        assert(all == before.inbox[session_id.id]);
        let mut i: usize = 0;
        while i < queue.len()
            invariant
                queue@ == all,
                i <= all.len(),
                forall|n: NodeId, m: M| #[trigger] call_requires(*matcher, (n, &m)),
                forall|j: int|
                    0 <= j < i ==> call_ensures(*matcher, ((#[trigger] all[j]).0, &all[j].1), false),
                before.inbox.contains_key(session_id.id),
                all == before.inbox[session_id.id],
                self@.inbox == before.inbox.remove(session_id.id),
                self@.closed == before.closed,
                before == old(self)@,
            decreases all.len() - i,
        {
            if matcher(queue[i].0, &queue[i].1) {
                let taken = queue.remove(i);
                let ghost rest = self@.inbox;
                self.inbox.insert(session_id.id, queue);
                proof {
                    assert(self@.inbox =~= rest.insert(session_id.id, queue@));
                    let q = all.take(i as int);
                    assert forall|j: int| 0 <= j < q.len() implies call_ensures(
                        *matcher,
                        ((#[trigger] q[j]).0, &q[j].1),
                        false,
                    ) by {
                        assert(q[j] == all[j]);
                    }
                    assert(is_first_taken(queue_of(before, session_id.id), *matcher, i as int));
                    assert(self@.inbox =~= before.inbox.insert(session_id.id, all.remove(i as int)));
                }
                return Some(taken);
            }
            i = i + 1;
        }
        let ghost rest = self@.inbox;
        self.inbox.insert(session_id.id, queue);
        assert(self@.inbox =~= rest.insert(session_id.id, queue@));
        assert(self@.inbox =~= before.inbox);
        None
    }

    /// Takes the first message of any transfer that a test takes. The transfers are gone
    /// through in the order of their identifiers.
    pub fn pop_matching_any<F: Fn(NodeId, &M) -> bool>(&mut self, matcher: &F) -> (r: Option<
        (TransferSessionId, NodeId, M),
    >)
        requires
            forall|n: NodeId, m: M| #[trigger] call_requires(*matcher, (n, &m)),
        ensures
            match r {
                Some((session, sender, message)) => {
                    &&& old(self)@.inbox.contains_key(session.id)
                    &&& exists|i: int| #[trigger]
                        is_first_taken(old(self)@.inbox[session.id], *matcher, i) && (sender, message)
                            == old(self)@.inbox[session.id][i] && final(self)@ == without_message(
                            old(self)@,
                            session.id,
                            i,
                        )
                    &&& forall|id: u128| #[trigger]
                        old(self)@.inbox.contains_key(id) && id < session.id ==> none_taken(
                            old(self)@.inbox[id],
                            *matcher,
                        )
                },
                None => {
                    &&& forall|id: u128| #[trigger]
                        old(self)@.inbox.contains_key(id) ==> none_taken(
                            old(self)@.inbox[id],
                            *matcher,
                        )
                    &&& final(self)@ == old(self)@
                },
            },
    {
        let ghost before = self@;
        let ids = sorted_keys_u128(&self.inbox);
        assert forall|id: u128| before.inbox.contains_key(id) <==> #[trigger] ids@.contains(id) by {
            assert(self.inbox@.contains_key(id) <==> ids@.contains(id));
        }
        let mut i: usize = 0;
        while i < ids.len()
            invariant
                self@ == before,
                before == old(self)@,
                i <= ids@.len(),
                crate::ordered::increasing_u128(ids@),
                forall|id: u128| before.inbox.contains_key(id) <==> #[trigger] ids@.contains(id),
                forall|n: NodeId, m: M| #[trigger] call_requires(*matcher, (n, &m)),
                forall|j: int|
                    0 <= j < i ==> none_taken(before.inbox[#[trigger] ids@[j]], *matcher),
            decreases ids@.len() - i,
        {
            let session = TransferSessionId { id: ids[i] };
            assert(ids@.contains(ids@[i as int]));
            if let Some((sender, message)) = self.pop_matching(session, matcher) {
                proof {
                    assert forall|id: u128| #[trigger]
                        before.inbox.contains_key(id) && id < session.id implies none_taken(
                        before.inbox[id],
                        *matcher,
                    ) by {
                        assert(ids@.contains(id));
                        let j = choose|j: int| 0 <= j < ids@.len() && ids@[j] == id;
                        assert(j < i);
                    }
                }
                return Some((session, sender, message));
            }
            i = i + 1;
        }
        proof {
            assert forall|id: u128| #[trigger] before.inbox.contains_key(id) implies none_taken(
                before.inbox[id],
                *matcher,
            ) by {
                assert(ids@.contains(id));
                let j = choose|j: int| 0 <= j < ids@.len() && ids@[j] == id;
                assert(none_taken(before.inbox[ids@[j]], *matcher));
            }
        }
        None
    }

    /// What somebody who found no message does: no more will come where the channel is
    /// closed, and the wait is over at the deadline.
    pub fn wait_on(&self, now: Instant, deadline: Instant) -> (next: Waiting)
        ensures
            match next {
                Waiting::GiveUp(error) => if self@.closed {
                    error@ == ErrorView::Transport("control channel closed"@)
                } else {
                    now.nanos >= deadline.nanos && error@ == ErrorView::Timeout
                },
                Waiting::Sleep(left) => !self@.closed && now.nanos < deadline.nanos && left.nanos
                    == deadline.nanos - now.nanos,
            },
    {
        if self.closed {
            return Waiting::GiveUp(
                FileTransferError::Transport(String::from_str("control channel closed")),
            );
        }
        if now.nanos >= deadline.nanos {
            return Waiting::GiveUp(FileTransferError::Timeout);
        }
        Waiting::Sleep(Duration { nanos: deadline.nanos - now.nanos })
    }
}

/// A message that came in stays until it is taken: others that come in, for the same
/// transfer or another, leave it where it is.
pub proof fn message_waits_until_taken<M>(
    v: InboxView<M>,
    id: u128,
    i: int,
    other: u128,
    entry: (NodeId, M),
)
    requires
        v.inbox.contains_key(id),
        0 <= i < v.inbox[id].len(),
    ensures
        ({
            let after = v.inbox.insert(other, queue_of(v, other).push(entry));
            after.contains_key(id) && i < after[id].len() && after[id][i] == v.inbox[id][i]
        }),
{
}

/// A message that comes in waits behind those of the same transfer that came before it, and no
/// other transfer sees it.
pub proof fn messages_wait_in_order<M>(
    dispatcher: &mut ControlDispatcher<M>,
    id: TransferSessionId,
    sender: NodeId,
    message: M,
    other: u128,
)
    requires
        call_ensures(ControlDispatcher::<M>::push, (dispatcher, id, sender, message), ()),
    ensures
        ({
            let before = queue_of(old(dispatcher)@, id.id);
            let after = queue_of(final(dispatcher)@, id.id);
            &&& after.len() == before.len() + 1
            &&& after.last().0 == sender
            &&& after.last().1 == message
            &&& after.drop_last() == before
            &&& other != id.id ==> queue_of(final(dispatcher)@, other) == queue_of(
                old(dispatcher)@,
                other,
            )
            &&& final(dispatcher)@.closed == old(dispatcher)@.closed
        }),
{
    let before = queue_of(old(dispatcher)@, id.id);
    let after = queue_of(final(dispatcher)@, id.id);
    assert(after.drop_last() =~= before);
}

/// Taking a message leaves all others where they are, in their order.
pub proof fn taking_leaves_the_others<M>(v: InboxView<M>, id: u128, i: int, j: int, other: u128)
    requires
        v.inbox.contains_key(id),
        0 <= i < v.inbox[id].len(),
        0 <= j < v.inbox[id].len(),
    ensures
        ({
            let after = without_message(v, id, i);
            &&& queue_of(after, id).len() == v.inbox[id].len() - 1
            &&& j < i ==> queue_of(after, id)[j] == v.inbox[id][j]
            &&& j > i ==> queue_of(after, id)[j - 1] == v.inbox[id][j]
            &&& other != id ==> queue_of(after, other) == queue_of(v, other)
            &&& after.closed == v.closed
        }),
{
}

/// The message that is taken is the first that is wanted, and where none is taken none is wanted.
pub proof fn first_wanted_message_is_taken<M, F: Fn(NodeId, &M) -> bool>(
    dispatcher: &mut ControlDispatcher<M>,
    id: TransferSessionId,
    matcher: F,
    r: Option<(NodeId, M)>,
    j: int,
)
    requires
        call_ensures(ControlDispatcher::<M>::pop_matching::<F>, (dispatcher, id, &matcher), r),
        0 <= j < queue_of(old(dispatcher)@, id.id).len(),
    ensures
        r is None ==> call_ensures(
            matcher,
            (queue_of(old(dispatcher)@, id.id)[j].0, &queue_of(old(dispatcher)@, id.id)[j].1),
            false,
        ) && final(dispatcher)@ == old(dispatcher)@,
        r matches Some(taken) ==> exists|i: int|
            0 <= i < queue_of(old(dispatcher)@, id.id).len() && taken == #[trigger] queue_of(
                old(dispatcher)@,
                id.id,
            )[i] && call_ensures(matcher, (taken.0, &taken.1), true) && (j < i ==> call_ensures(
                matcher,
                (queue_of(old(dispatcher)@, id.id)[j].0, &queue_of(old(dispatcher)@, id.id)[j].1),
                false,
            )) && queue_of(final(dispatcher)@, id.id) == queue_of(old(dispatcher)@, id.id).remove(i),
{
    let queue = queue_of(old(dispatcher)@, id.id);
    if r is Some {
        let i = choose|i: int| #[trigger]
            is_first_taken(queue, matcher, i) && r->0 == queue[i] && final(dispatcher)@
                == without_message(old(dispatcher)@, id.id, i);
        if j < i {
            assert(queue.take(i)[j] == queue[j]);
        }
        assert(r->0 == queue[i]);
        assert(old(dispatcher)@.inbox.contains_key(id.id));
        assert(queue_of(final(dispatcher)@, id.id) =~= queue.remove(i));
    }
}

/// Who waits for a message sleeps just until the time that it has is up, and gives up then, or at
/// once where no message can come any more.
pub proof fn waiting_ends_in_time<M>(
    dispatcher: &ControlDispatcher<M>,
    now: Instant,
    deadline: Instant,
    next: Waiting,
)
    requires
        call_ensures(ControlDispatcher::<M>::wait_on, (dispatcher, now, deadline), next),
    ensures
        next is Sleep <==> !dispatcher@.closed && now.nanos < deadline.nanos,
        next matches Waiting::Sleep(left) ==> now.nanos + left.nanos == deadline.nanos,
        next matches Waiting::GiveUp(e) ==> (e@ is Timeout <==> !dispatcher@.closed) && (
        e@ is Transport <==> dispatcher@.closed),
{
}

} // verus!
