//! Grouping the message log into exchanges for the maintainers' pages.

use vstd::prelude::*;

verus! {

/// What the grouping needs of a logged message: its id, and the id of the message it
/// answers, if any.
#[derive(Clone, Copy, Debug, PartialEq, Eq, Structural)]
pub struct MessageLink {
    pub id: u128,
    pub initial_message_id: Option<u128>,
}

/// A message that answers none, with the positions of the replies to it.
pub struct Exchange {
    pub first: usize,
    pub responses: Vec<usize>,
}

/// Positions of the messages that answer none, in log order.
pub open spec fn starts(log: Seq<MessageLink>) -> Seq<nat>
    decreases log.len(),
{
    if log.len() == 0 {
        Seq::empty()
    } else {
        let s = starts(log.drop_last());
        if log.last().initial_message_id is None {
            s.push((log.len() - 1) as nat)
        } else {
            s
        }
    }
}

/// Positions of the replies to `id`, latest position first. The log runs newest
/// first, so this puts the replies in the order they were sent.
pub open spec fn replies(log: Seq<MessageLink>, id: u128) -> Seq<nat>
    decreases log.len(),
{
    if log.len() == 0 {
        Seq::empty()
    } else {
        let r = replies(log.drop_last(), id);
        if log.last().initial_message_id == Some(id) {
            seq![(log.len() - 1) as nat] + r
        } else {
            r
        }
    }
}

/// An earlier exchange has the same id, and so has taken its replies.
pub open spec fn claimed_before(log: Seq<MessageLink>, k: int) -> bool {
    exists|k2: int| 0 <= k2 < k && log[starts(log)[k2] as int].id == log[starts(log)[k]
        as int].id
}

/// The replies that exchange `k` shows.
pub open spec fn exchange_replies(log: Seq<MessageLink>, k: int) -> Seq<nat> {
    if claimed_before(log, k) {
        Seq::empty()
    } else {
        replies(log, log[starts(log)[k] as int].id)
    }
}

proof fn lemma_starts_bounded(log: Seq<MessageLink>)
    ensures
        forall|k: int| 0 <= k < starts(log).len() ==> #[trigger] starts(log)[k] < log.len(),
    decreases log.len(),
{
    if log.len() > 0 {
        let p = log.drop_last();
        lemma_starts_bounded(p);
        let sp = starts(p);
        assert forall|k: int| 0 <= k < starts(log).len() implies #[trigger] starts(log)[k]
            < log.len() by {
            if k < sp.len() {
                assert(starts(log)[k] == sp[k]);
            }
        }
    }
}

fn replies_to(log: &Vec<MessageLink>, id: u128) -> (r: Vec<usize>)
    ensures
        r@.map_values(|p: usize| p as nat) == replies(log@, id),
{
    let mut out: Vec<usize> = Vec::new();
    let mut j: usize = 0;
    assert(log@.subrange(0, 0) == Seq::<MessageLink>::empty());
    while j < log.len()
        invariant
            j <= log@.len(),
            out@.map_values(|p: usize| p as nat) == replies(log@.subrange(0, j as int), id),
        decreases log@.len() - j,
    {
        let ghost before = out@;
        assert(log@.subrange(0, j + 1).drop_last() == log@.subrange(0, j as int));
        assert(log@.subrange(0, j + 1).last() == log@[j as int]);
        if log[j].initial_message_id == Some(id) {
            out.insert(0, j);
            assert(out@.map_values(|p: usize| p as nat) =~= seq![j as nat] + before.map_values(
                |p: usize| p as nat,
            ));
        }
        j += 1;
    }
    assert(log@.subrange(0, log@.len() as int) == log@);
    out
}

/// The message log grouped into exchanges: one for each message that answers none, in
/// log order, with the replies to it. Replies to an id go to the first exchange with
/// that id.
pub fn group_exchanges(log: &Vec<MessageLink>) -> (r: Vec<Exchange>)
    ensures
        r@.len() == starts(log@).len(),
        forall|k: int|
            0 <= k < r@.len() ==> #[trigger] r@[k].first == starts(log@)[k] && r@[k].responses@.map_values(
                |p: usize| p as nat,
            ) == exchange_replies(log@, k),
{
    let mut firsts: Vec<usize> = Vec::new();
    let mut i: usize = 0;
    assert(log@.subrange(0, 0) == Seq::<MessageLink>::empty());
    while i < log.len()
        invariant
            i <= log@.len(),
            firsts@.map_values(|p: usize| p as nat) == starts(log@.subrange(0, i as int)),
        decreases log@.len() - i,
    {
        let ghost before = firsts@;
        assert(log@.subrange(0, i + 1).drop_last() == log@.subrange(0, i as int));
        assert(log@.subrange(0, i + 1).last() == log@[i as int]);
        if log[i].initial_message_id.is_none() {
            firsts.push(i);
            assert(firsts@.map_values(|p: usize| p as nat) =~= before.map_values(
                |p: usize| p as nat,
            ).push(i as nat));
        }
        i += 1;
    }
    assert(log@.subrange(0, log@.len() as int) == log@);
    let ghost s = starts(log@);
    proof {
        lemma_starts_bounded(log@);
        assert forall|k: int| 0 <= k < firsts@.len() implies (#[trigger] firsts@[k]) as nat == s[k] by {
            assert(firsts@.map_values(|p: usize| p as nat)[k] == firsts@[k] as nat);
        }
    }
    let mut out: Vec<Exchange> = Vec::new();
    let mut k: usize = 0;
    while k < firsts.len()
        invariant
            k <= firsts@.len() == s.len(),
            s == starts(log@),
            forall|m: int| 0 <= m < firsts@.len() ==> (#[trigger] firsts@[m]) as nat == s[m],
            forall|m: int| 0 <= m < s.len() ==> #[trigger] s[m] < log@.len(),
            out@.len() == k,
            forall|m: int|
                0 <= m < k ==> #[trigger] out@[m].first == s[m] && out@[m].responses@.map_values(
                    |p: usize| p as nat,
                ) == exchange_replies(log@, m),
        decreases firsts@.len() - k,
    {
        let first = firsts[k];
        assert(s[k as int] < log@.len());
        let id = log[first].id;
        let mut taken = false;
        let mut m: usize = 0;
        while m < k
            invariant
                m <= k < firsts@.len() == s.len(),
                s == starts(log@),
                first as nat == s[k as int],
                id == log@[s[k as int] as int].id,
                forall|q: int| 0 <= q < firsts@.len() ==> (#[trigger] firsts@[q]) as nat == s[q],
                forall|q: int| 0 <= q < s.len() ==> #[trigger] s[q] < log@.len(),
                taken == exists|q: int| 0 <= q < m && log@[s[q] as int].id == id,
            decreases k - m,
        {
            assert(s[m as int] < log@.len());
            if log[firsts[m]].id == id {
                taken = true;
            }
            m += 1;
        }
        assert(taken == claimed_before(log@, k as int));
        let responses = if taken {
            Vec::new()
        } else {
            replies_to(log, id)
        };
        proof {
            if taken {
                assert(responses@.map_values(|p: usize| p as nat) =~= Seq::<nat>::empty());
            }
        }
        out.push(Exchange { first, responses });
        k += 1;
    }
    out
}

} // verus!
