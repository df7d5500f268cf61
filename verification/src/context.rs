//! The bounded conversational memory: an ordered window of the most recent
//! successful exchanges, included in every new request.
//!
//! The window holds at most `capacity` exchanges. Pushing at capacity evicts
//! the oldest entry first, so the window always keeps the most recent
//! exchanges in oldest-first order. Pushing is the only mutation.

use vstd::prelude::*;

use crate::message::{Message, Role, msg_view};

verus! {

/// One stored exchange: the input line and the raw backend reply it earned.
/// Only successfully parsed exchanges are ever stored.
#[derive(Clone, Debug)]
pub struct Exchange {
    pub request: Vec<u8>,
    pub reply: Vec<u8>,
}

/// An exchange as seen by contracts: the pair of its byte strings.
pub open spec fn exchange_view(e: Exchange) -> (Seq<u8>, Seq<u8>) {
    (e.request@, e.reply@)
}

/// Bounded FIFO history of prior exchanges.
#[derive(Debug)]
pub struct ContextWindow {
    pub entries: Vec<Exchange>,
    pub capacity: usize,
}

/// What one push leaves in a window that held `w`: the oldest entry is
/// evicted first when the window is full, then the new exchange is appended.
/// A window of capacity zero stores nothing.
pub open spec fn push_spec(
    w: Seq<(Seq<u8>, Seq<u8>)>,
    cap: nat,
    x: (Seq<u8>, Seq<u8>),
) -> Seq<(Seq<u8>, Seq<u8>)> {
    if cap == 0 {
        Seq::empty()
    } else if w.len() < cap {
        w.push(x)
    } else {
        w.drop_first().push(x)
    }
}

/// What a sequence of pushes leaves in the window, oldest-first.
pub open spec fn push_all_spec(
    w: Seq<(Seq<u8>, Seq<u8>)>,
    cap: nat,
    xs: Seq<(Seq<u8>, Seq<u8>)>,
) -> Seq<(Seq<u8>, Seq<u8>)>
    decreases xs.len(),
{
    if xs.len() == 0 {
        w
    } else {
        push_all_spec(push_spec(w, cap, xs[0]), cap, xs.drop_first())
    }
}

impl View for ContextWindow {
    type V = Seq<(Seq<u8>, Seq<u8>)>;

    open spec fn view(&self) -> Seq<(Seq<u8>, Seq<u8>)> {
        self.entries@.map_values(|e: Exchange| exchange_view(e))
    }
}

impl ContextWindow {
    /// The window never exceeds its capacity.
    pub open spec fn wf(self) -> bool {
        self@.len() <= self.capacity
    }

    /// An empty window that will retain at most `capacity` exchanges.
    pub fn new(capacity: usize) -> (w: ContextWindow)
        ensures
            w.wf(),
            w.capacity == capacity,
            w@ == Seq::<(Seq<u8>, Seq<u8>)>::empty(),
    {
        let w = ContextWindow { entries: Vec::new(), capacity };
        proof {
            assert(w@ =~= Seq::<(Seq<u8>, Seq<u8>)>::empty());
        }
        w
    }

    /// How many exchanges the window currently holds.
    pub fn len(&self) -> (n: usize)
        ensures
            n == self@.len(),
    {
        self.entries.len()
    }

    /// Remember an exchange, evicting the oldest one first if the window is
    /// at capacity.
    pub fn push(&mut self, e: Exchange)
        requires
            old(self).wf(),
        ensures
            final(self).wf(),
            final(self).capacity == old(self).capacity,
            final(self)@ == push_spec(old(self)@, old(self).capacity as nat, exchange_view(e)),
    {
        if self.capacity == 0 {
            proof {
                assert(final(self)@ =~= push_spec(
                    old(self)@,
                    old(self).capacity as nat,
                    exchange_view(e),
                ));
            }
            return;
        }
        if self.entries.len() >= self.capacity {
            self.entries.remove(0);
        }
        self.entries.push(e);
        proof {
            assert(final(self)@ =~= push_spec(
                old(self)@,
                old(self).capacity as nat,
                exchange_view(e),
            ));
        }
    }

    /// The stored exchanges replayed as alternating `User`/`Assistant`
    /// messages, oldest first — the order the backend last saw them.
    pub fn to_messages(&self) -> (msgs: Vec<Message>)
        ensures
            msgs@.len() == 2 * self@.len(),
            forall|i: int|
                #![trigger self@[i]]
                0 <= i < self@.len() ==> msg_view(msgs@[2 * i]) == (Role::User, self@[i].0)
                    && msg_view(msgs@[2 * i + 1]) == (Role::Assistant, self@[i].1),
    {
        let mut msgs: Vec<Message> = Vec::new();
        let mut i: usize = 0;
        while i < self.entries.len()
            invariant
                i <= self.entries.len(),
                msgs@.len() == 2 * i,
                forall|j: int|
                    #![trigger self@[j]]
                    0 <= j < i ==> msg_view(msgs@[2 * j]) == (Role::User, self@[j].0)
                        && msg_view(msgs@[2 * j + 1]) == (Role::Assistant, self@[j].1),
            decreases self.entries.len() - i,
        {
            let request = self.entries[i].request.clone();
            let reply = self.entries[i].reply.clone();
            proof {
                assert(request@ =~= self.entries[i as int].request@);
                assert(reply@ =~= self.entries[i as int].reply@);
            }
            msgs.push(Message { role: Role::User, content: request });
            msgs.push(Message { role: Role::Assistant, content: reply });
            i = i + 1;
        }
        msgs
    }
}

/// The window retains at most `cap` exchanges, and always the most recent
/// ones in oldest-first order: starting from any well-formed window `w`,
/// pushing the exchanges `xs` in order leaves exactly the last
/// `min(cap, w.len() + xs.len())` of `w + xs`. In particular, after more
/// successful exchanges than the capacity, the window holds the last `cap`
/// of them, oldest first.
pub proof fn lemma_window_retains_recent(
    w: Seq<(Seq<u8>, Seq<u8>)>,
    cap: nat,
    xs: Seq<(Seq<u8>, Seq<u8>)>,
)
    requires
        w.len() <= cap,
    ensures
        push_all_spec(w, cap, xs) == (w + xs).subrange(
            if w.len() + xs.len() >= cap { w.len() + xs.len() - cap } else { 0 },
            (w.len() + xs.len()) as int,
        ),
        xs.len() >= cap ==> push_all_spec(w, cap, xs) == xs.subrange(
            xs.len() - cap,
            xs.len() as int,
        ),
    decreases xs.len(),
{
    let total = w.len() + xs.len();
    let lo: int = if total >= cap { total - cap } else { 0 };
    if xs.len() == 0 {
        assert(push_all_spec(w, cap, xs) =~= (w + xs).subrange(lo, total as int));
    } else {
        let x0 = xs[0];
        let rest = xs.drop_first();
        let w1 = push_spec(w, cap, x0);
        assert(w1.len() <= cap);
        lemma_window_retains_recent(w1, cap, rest);
        let total1 = w1.len() + rest.len();
        let lo1: int = if total1 >= cap { total1 - cap } else { 0 };
        if cap == 0 {
            assert(w1 + rest =~= rest);
            assert(push_all_spec(w, cap, xs) =~= (w + xs).subrange(lo, total as int));
        } else if w.len() < cap {
            assert(w1 + rest =~= w + xs);
            assert(push_all_spec(w, cap, xs) =~= (w + xs).subrange(lo, total as int));
        } else {
            // w is full: the first entry of w is evicted before x0 lands.
            assert(w1 + rest =~= (w + xs).drop_first());
            assert(push_all_spec(w, cap, xs) =~= (w + xs).subrange(lo, total as int));
        }
    }
    if xs.len() >= cap {
        assert((w + xs).subrange(lo, total as int) =~= xs.subrange(
            xs.len() - cap,
            xs.len() as int,
        ));
    }
}

} // verus!
