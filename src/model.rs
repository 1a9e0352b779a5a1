//! Spec-level model of the scheduler: which stream is picked next, and
//! what a drain pass sends.

use vstd::prelude::*;
use crate::frame::{flow_len, Frame};
use crate::store::Key;

verus! {

/// The queue's head is a data frame with more than `limit` bytes of payload.
pub open spec fn blocks(q: Seq<Frame>, limit: nat) -> bool {
    q.len() > 0 && q[0] is Data && flow_len(q[0]) > limit
}

/// The scheduler's lists and the streams' queues: send list, capacity
/// list, queue of each stream by key.
pub type Snapshot = (Seq<Key>, Seq<Key>, Seq<Seq<Frame>>);

/// Stream selection with window `eff`: take candidates from the capacity
/// list while the window is open and that list is not empty, else from the
/// send list. A candidate whose head is blocked joins `blocked`. Gives the
/// chosen stream, if any, the send list left over, and the capacity list
/// with the blocked candidates at its tail.
pub open spec fn select(send: Seq<Key>, cap: Seq<Key>, blocked: Seq<Key>, qs: Seq<Seq<Frame>>, eff: nat)
    -> (Option<Key>, Seq<Key>, Seq<Key>)
    decreases send.len() + cap.len(),
{
    if eff > 0 && cap.len() > 0 {
        if blocks(qs[cap[0] as int], eff) {
            select(send, cap.drop_first(), blocked.push(cap[0]), qs, eff)
        } else {
            (Some(cap[0]), send, cap.drop_first() + blocked)
        }
    } else if send.len() > 0 {
        if blocks(qs[send[0] as int], eff) {
            select(send.drop_first(), cap, blocked.push(send[0]), qs, eff)
        } else {
            (Some(send[0]), send.drop_first(), cap + blocked)
        }
    } else {
        (None, send, cap + blocked)
    }
}

/// One pick: the frame sent, if any, and the state after it. The chosen
/// stream gives up its head frame and goes to the tail of the send list
/// when it still holds frames.
pub open spec fn step(st: Snapshot, eff: nat) -> (Option<Frame>, Snapshot) {
    let qs = st.2;
    let sel = select(st.0, st.1, Seq::empty(), qs, eff);
    match sel.0 {
        None => (None, (sel.1, sel.2, qs)),
        Some(k) => {
            let tail = qs[k as int].drop_first();
            let send = if tail.len() > 0 { sel.1.push(k) } else { sel.1 };
            (Some(qs[k as int][0]), (send, sel.2, qs.update(k as int, tail)))
        },
    }
}

/// Capacity-unblock priority: while the window is open, a stream at the
/// head of the capacity list whose head frame now fits is served before
/// any stream of the send list.
pub proof fn lemma_capacity_first(st: Snapshot, eff: nat)
    requires
        eff > 0,
        st.1.len() > 0,
        !blocks(st.2[st.1[0] as int], eff),
    ensures
        step(st, eff).0 == Some(st.2[st.1[0] as int][0]),
{
}

/// Up to `n` successful picks from `st`: the frames sent and the state
/// before the next pick.
pub open spec fn run(st: Snapshot, eff: nat, n: nat) -> (Seq<Frame>, Snapshot)
    decreases n,
{
    if n == 0 {
        (Seq::empty(), st)
    } else {
        let prev = run(st, eff, (n - 1) as nat);
        let next = step(prev.1, eff);
        match next.0 {
            Some(f) => (prev.0.push(f), next.1),
            None => prev,
        }
    }
}

/// The frames among `sent` that came from stream `k`, in order; `origin`
/// gives the stream of each sent frame.
pub open spec fn taken_from(sent: Seq<Frame>, origin: Seq<Key>, k: Key) -> Seq<Frame>
    decreases origin.len(),
{
    if origin.len() == 0 || sent.len() == 0 {
        Seq::empty()
    } else if origin.last() == k {
        taken_from(sent.drop_last(), origin.drop_last(), k).push(sent.last())
    } else {
        taken_from(sent.drop_last(), origin.drop_last(), k)
    }
}

/// Once a pick finds nothing to send, further picks change nothing.
pub proof fn lemma_run_stable(st: Snapshot, eff: nat, m: nat, n: nat)
    requires
        m <= n,
        step(run(st, eff, m).1, eff).0 is None,
    ensures
        run(st, eff, n) == run(st, eff, m),
    decreases n,
{
    if n > m {
        lemma_run_stable(st, eff, m, (n - 1) as nat);
    }
}

/// Capacity-unblock priority over a drain pass: while the window is open
/// and the head frame of every stream on the capacity list fits, the first
/// picks take one frame from each of those streams, in list order, before
/// any stream of the send list is served.
pub proof fn lemma_capacity_drained_first(st: Snapshot, eff: nat, n: nat)
    requires
        eff > 0,
        n <= st.1.len(),
        st.1.no_duplicates(),
        forall|i: int| 0 <= i < st.1.len() ==> #[trigger] st.1[i] < st.2.len(),
        forall|i: int| 0 <= i < st.1.len() ==> !blocks(st.2[#[trigger] st.1[i] as int], eff),
    ensures
        run(st, eff, n).0 == Seq::new(n, |i: int| st.2[st.1[i] as int][0]),
        run(st, eff, n).1.1 == st.1.skip(n as int),
        run(st, eff, n).1.2.len() == st.2.len(),
        forall|j: int| n <= j < st.1.len() ==>
            run(st, eff, n).1.2[#[trigger] st.1[j] as int] == st.2[st.1[j] as int],
    decreases n,
{
    if n == 0 {
        assert(st.1.skip(0) =~= st.1);
        assert(Seq::new(0, |i: int| st.2[st.1[i] as int][0]) =~= Seq::<Frame>::empty());
    } else {
        let m = (n - 1) as nat;
        lemma_capacity_drained_first(st, eff, m);
        let prev = run(st, eff, m);
        let c = prev.1.1;
        let k = st.1[m as int];
        assert(c[0] == k);
        assert(prev.1.2[k as int] == st.2[k as int]);
        assert(c.drop_first() + Seq::<Key>::empty() =~= st.1.skip(n as int));
        let sel = select(prev.1.0, c, Seq::empty(), prev.1.2, eff);
        assert(sel.0 == Some(k));
        assert(prev.0.push(st.2[k as int][0]) =~= Seq::new(n, |i: int| st.2[st.1[i] as int][0]));
        assert forall|j: int| n <= j < st.1.len() implies
            run(st, eff, n).1.2[#[trigger] st.1[j] as int] == st.2[st.1[j] as int] by {
            assert(st.1[j] != k);
            assert(prev.1.2[st.1[j] as int] == st.2[st.1[j] as int]);
        }
    }
}

} // verus!
