//! Session requests this node forwarded to the primary, and their nonces.

use vstd::prelude::*;

use crate::channel::{lemma_lane_after, lemma_offers_after, outcome_of, SendOutcome, SendRefusal, Sender};
use crate::lists::{lemma_filter_is_subsequence, split_where};

verus! {

/// The primary's verdict on a forwarded request.
#[derive(Debug)]
pub struct ForwardResult {
    pub nonce: u128,
    pub client: u128,
    /// What the verdict says, as it was framed.
    pub verdict: Vec<u8>,
}

/// A forwarded request that waits for its verdict.
pub struct ForwardEntry {
    pub nonce: u128,
    pub client: u128,
    pub reply: Sender<ForwardResult>,
}

impl ForwardEntry {
    /// The entry waits under this pair.
    pub open spec fn is_under(self, nonce: u128, client: u128) -> bool {
        self.nonce == nonce && self.client == client
    }
}

/// Forwarded requests by nonce and client. The client is part of the key: a
/// verdict for a client the nonce was never parked for finds nothing, and
/// leaves what is parked in place.
pub struct ForwardTable {
    pub entries: Vec<ForwardEntry>,
}

/// The entries that wait under another pair.
pub open spec fn entries_but(entries: Seq<ForwardEntry>, nonce: u128, client: u128) -> Seq<ForwardEntry> {
    entries.filter(|entry: ForwardEntry| !entry.is_under(nonce, client))
}

/// The entries once a request waits under the pair.
pub open spec fn entries_with(entries: Seq<ForwardEntry>, nonce: u128, client: u128, reply: Sender<ForwardResult>) -> Seq<
    ForwardEntry,
> {
    entries_but(entries, nonce, client).push(ForwardEntry { nonce, client, reply })
}

/// Something waits under the pair.
pub open spec fn waits(entries: Seq<ForwardEntry>, nonce: u128, client: u128) -> bool {
    exists|i: int| #![trigger entries[i]] 0 <= i < entries.len() && entries[i].is_under(nonce, client)
}

/// What waited under the pair was taken out, or nothing did.
pub open spec fn is_taken_out(entries: Seq<ForwardEntry>, nonce: u128, client: u128, reply: Option<Sender<ForwardResult>>) -> bool {
    match reply {
        Some(reply) => exists|i: int|
            #![trigger entries[i]]
            0 <= i < entries.len() && entries[i] == (ForwardEntry { nonce, client, reply }),
        None => !waits(entries, nonce, client),
    }
}

/// No pair waits twice.
pub open spec fn pairs_distinct(entries: Seq<ForwardEntry>) -> bool {
    forall|i: int, j: int|
        #![trigger entries[i], entries[j]]
        0 <= i < j < entries.len() ==> !entries[i].is_under(entries[j].nonce, entries[j].client)
}

proof fn lemma_but_distinct(entries: Seq<ForwardEntry>, nonce: u128, client: u128)
    requires
        pairs_distinct(entries),
    ensures
        pairs_distinct(entries_but(entries, nonce, client)),
        !waits(entries_but(entries, nonce, client), nonce, client),
    decreases entries.len(),
{
    reveal(Seq::filter);
    if entries.len() > 0 {
        let fewer = entries.drop_last();
        assert forall|i: int, j: int| #![trigger fewer[i], fewer[j]] 0 <= i < j < fewer.len() implies !fewer[i].is_under(
            fewer[j].nonce,
            fewer[j].client,
        ) by {
            assert(entries[i] == fewer[i] && entries[j] == fewer[j]);
        }
        lemma_but_distinct(fewer, nonce, client);
        let kept = entries_but(fewer, nonce, client);
        lemma_filter_is_subsequence(fewer, |entry: ForwardEntry| !entry.is_under(nonce, client));
        let last = entries.last();
        if !last.is_under(nonce, client) {
            let more = entries_but(entries, nonce, client);
            assert(more =~= kept.push(last));
            assert forall|i: int, j: int| #![trigger more[i], more[j]] 0 <= i < j < more.len() implies !more[i].is_under(
                more[j].nonce,
                more[j].client,
            ) by {
                if j < kept.len() {
                    assert(more[i] == kept[i] && more[j] == kept[j]);
                } else {
                    assert(more[i] == kept[i]);
                    let k = choose|k: int| #![trigger fewer[k]] 0 <= k < fewer.len() && fewer[k] == kept[i];
                    assert(entries[k] == kept[i]);
                    assert(entries[entries.len() - 1] == last);
                }
            }
            assert(!waits(more, nonce, client)) by {
                if waits(more, nonce, client) {
                    let k = choose|k: int| #![trigger more[k]] 0 <= k < more.len() && more[k].is_under(nonce, client);
                    if k < kept.len() {
                        assert(kept[k] == more[k]);
                    }
                }
            }
        }
    }
}

impl ForwardTable {
    pub open spec fn wf(&self) -> bool {
        pairs_distinct(self.entries@)
    }

    pub fn new() -> (table: ForwardTable)
        ensures
            table.wf(),
            table.entries@.len() == 0,
    {
        ForwardTable { entries: Vec::new() }
    }

    /// Take out what waits under the pair.
    pub fn take(&mut self, nonce: u128, client: u128) -> (reply: Option<Sender<ForwardResult>>)
        requires
            old(self).wf(),
        ensures
            final(self).wf(),
            final(self).entries@ == entries_but(old(self).entries@, nonce, client),
            !waits(final(self).entries@, nonce, client),
            is_taken_out(old(self).entries@, nonce, client, reply),
    {
        let ghost before = self.entries@;
        let ghost other = |entry: ForwardEntry| !entry.is_under(nonce, client);
        let is_other = |entry: &ForwardEntry| -> (b: bool)
            ensures
                b == !entry.is_under(nonce, client),
        {
            !(entry.nonce == nonce && entry.client == client)
        };
        let mut entries: Vec<ForwardEntry> = Vec::new();
        std::mem::swap(&mut entries, &mut self.entries);
        let (kept, mut found): (Vec<ForwardEntry>, Vec<ForwardEntry>) = split_where(entries, is_other, Ghost(other));
        self.entries = kept;
        proof {
            lemma_but_distinct(before, nonce, client);
            assert(self.entries@ == entries_but(before, nonce, client));
            lemma_filter_is_subsequence(before, |entry: ForwardEntry| !other(entry));
        }
        match found.pop() {
            Some(entry) => {
                proof {
                    assert(entry.is_under(nonce, client));
                }
                Some(entry.reply)
            },
            None => {
                proof {
                    if waits(before, nonce, client) {
                        let k = choose|k: int| #![trigger before[k]] 0 <= k < before.len() && before[k].is_under(nonce, client);
                        assert(!other(before[k]));
                    }
                }
                None
            },
        }
    }

    /// Park a forwarded request until its verdict comes; one that waited under
    /// the pair is dropped.
    pub fn park(&mut self, nonce: u128, client: u128, reply: Sender<ForwardResult>)
        requires
            old(self).wf(),
        ensures
            final(self).wf(),
            final(self).entries@ == entries_with(old(self).entries@, nonce, client, reply),
    {
        let _replaced: Option<Sender<ForwardResult>> = self.take(nonce, client);
        let ghost kept = self.entries@;
        self.entries.push(ForwardEntry { nonce, client, reply });
        proof {
            let more = self.entries@;
            assert forall|i: int, j: int| #![trigger more[i], more[j]] 0 <= i < j < more.len() implies !more[i].is_under(
                more[j].nonce,
                more[j].client,
            ) by {
                assert(more[i] == kept[i]);
                if j < kept.len() {
                    assert(more[j] == kept[j]);
                }
            }
        }
    }

    /// Hand a verdict to the request that waits for it. The lane it waited on
    /// comes back, if one did; a waiter that is gone is no fault.
    pub fn deliver(&mut self, result: ForwardResult) -> (answered: Option<Sender<ForwardResult>>)
        requires
            old(self).wf(),
        ensures
            final(self).wf(),
            final(self).entries@ == entries_but(old(self).entries@, result.nonce, result.client),
            is_answered(old(self).entries@, result, answered),
    {
        match self.take(result.nonce, result.client) {
            Some(mut reply) => {
                let ghost before = reply;
                let outcome: Result<(), SendRefusal<ForwardResult>> = reply.try_send(result);
                proof {
                    let entries = old(self).entries@;
                    let i = choose|i: int|
                        #![trigger entries[i]]
                        0 <= i < entries.len() && entries[i] == (ForwardEntry {
                            nonce: result.nonce,
                            client: result.client,
                            reply: before,
                        });
                    assert(reply == entries[i].reply.offered(result, outcome_of(outcome)));
                }
                Some(reply)
            },
            None => None,
        }
    }
}

/// The lane that waited under a verdict's pair was offered that verdict, or
/// nothing waited under it.
pub open spec fn is_answered(entries: Seq<ForwardEntry>, result: ForwardResult, answered: Option<Sender<ForwardResult>>) -> bool {
    match answered {
        Some(lane) => exists|i: int, outcome: SendOutcome|
            {
                &&& 0 <= i < entries.len()
                &&& entries[i].is_under(result.nonce, result.client)
                &&& lane == #[trigger] entries[i].reply.offered(result, outcome)
            },
        None => !waits(entries, result.nonce, result.client),
    }
}

/// A verdict for another pair leaves a parked request where it is.
pub proof fn law_foreign_verdict_evicts_nothing(entries: Seq<ForwardEntry>, entry: int, nonce: u128, client: u128)
    requires
        0 <= entry < entries.len(),
        !entries[entry].is_under(nonce, client),
    ensures
        entries_but(entries, nonce, client).contains(entries[entry]),
{
    let other = |entry: ForwardEntry| !entry.is_under(nonce, client);
    lemma_filter_is_subsequence(entries, other);
    assert(other(entries[entry]));
}

/// Values the counter half of a nonce can take.
pub const NONCE_SPAN: u128 = 0x1_0000_0000_0000_0000;

/// The counter after `counter`: it skips zero when it wraps, since a zero
/// nonce is refused everywhere.
pub open spec fn nonce_after(counter: u64) -> u64 {
    if counter == u64::MAX {
        1
    } else {
        (counter + 1) as u64
    }
}

/// The nonce of a counter on a replica: the replica rides the high half.
pub open spec fn nonce_of(replica: u8, counter: u64) -> int {
    replica * NONCE_SPAN + counter
}

/// A fresh nonce for a forward.
pub fn next_nonce(counter: &mut u64, replica: u8) -> (nonce: u128)
    ensures
        *final(counter) == nonce_after(*old(counter)),
        nonce == nonce_of(replica, *final(counter)),
{
    *counter = if *counter == u64::MAX {
        1
    } else {
        *counter + 1
    };
    replica as u128 * NONCE_SPAN + *counter as u128
}

/// The low half of an incarnation; zero where there is none.
pub open spec fn seed_of(incarnation: Option<u128>) -> int {
    match incarnation {
        Some(incarnation) => incarnation as int % NONCE_SPAN as int,
        None => 0,
    }
}

/// Where the counter starts: the low half of this boot's incarnation, so that
/// one boot never repeats another's nonces; zero where there is none.
pub fn forward_nonce_seed(incarnation: Option<u128>) -> (seed: u64)
    ensures
        seed == seed_of(incarnation),
{
    match incarnation {
        Some(incarnation) => (incarnation % NONCE_SPAN) as u64,
        None => 0,
    }
}

/// A nonce is never zero, and no two replicas mint the same one.
pub proof fn law_nonces_keep_replicas_apart(left: u8, left_counter: u64, right: u8, right_counter: u64)
    ensures
        nonce_of(left, nonce_after(left_counter)) != 0,
        nonce_of(left, left_counter) == nonce_of(right, right_counter) ==> left == right && left_counter == right_counter,
{
}

/// A counter that has not wrapped never repeats a nonce.
pub proof fn law_nonces_increase(replica: u8, counter: u64)
    requires
        counter < u64::MAX,
    ensures
        nonce_of(replica, nonce_after(counter)) > nonce_of(replica, counter),
{
}

/// What is parked under a pair is what the pair's verdict finds: the lane it
/// waits on is the very one that is answered, with that verdict, and nothing
/// waits under the pair afterwards. What waited under it before is gone, and
/// what waits under any other pair stays.
pub proof fn law_parked_forward_gets_its_verdict(
    entries: Seq<ForwardEntry>,
    nonce: u128,
    client: u128,
    reply: Sender<ForwardResult>,
    result: ForwardResult,
    answered: Option<Sender<ForwardResult>>,
)
    requires
        pairs_distinct(entries),
        result.nonce == nonce,
        result.client == client,
        is_answered(entries_with(entries, nonce, client, reply), result, answered),
    ensures
        answered is Some,
        answered->0.offers().len() == reply.offers().len() + 1,
        answered->0.offers().last().0 == result,
        answered->0.lane() == reply.lane(),
        !waits(entries_but(entries_with(entries, nonce, client, reply), nonce, client), nonce, client),
{
    let more = entries_with(entries, nonce, client, reply);
    let kept = entries_but(entries, nonce, client);
    lemma_but_distinct(entries, nonce, client);
    let last = kept.len() as int;
    assert(more[last].is_under(nonce, client));
    assert forall|i: int| #![trigger more[i]] 0 <= i < more.len() && more[i].is_under(nonce, client) implies i == last by {
        if i < last {
            assert(kept[i] == more[i]);
        }
    }
    if answered is None {
        assert(waits(more, nonce, client));
    } else {
        let (i, outcome) = choose|i: int, outcome: SendOutcome|
            {
                &&& 0 <= i < more.len()
                &&& more[i].is_under(result.nonce, result.client)
                &&& answered->0 == #[trigger] more[i].reply.offered(result, outcome)
            };
        let _ = more[i];
        lemma_offers_after(reply, result, outcome);
        lemma_lane_after(reply, result, outcome);
    }
    assert forall|i: int, j: int| #![trigger more[i], more[j]] 0 <= i < j < more.len() implies !more[i].is_under(
        more[j].nonce,
        more[j].client,
    ) by {
        assert(more[i] == kept[i]);
        if j < kept.len() {
            assert(more[j] == kept[j]);
        }
    }
    lemma_but_distinct(more, nonce, client);
}

/// Taking out a pair finds exactly what waits under it: something where
/// something does, nothing where nothing does.
pub proof fn law_taking_finds_what_waits(
    entries: Seq<ForwardEntry>,
    nonce: u128,
    client: u128,
    reply: Option<Sender<ForwardResult>>,
    index: int,
)
    requires
        pairs_distinct(entries),
        is_taken_out(entries, nonce, client, reply),
        0 <= index < entries.len(),
    ensures
        entries[index].nonce == nonce && entries[index].client == client ==> reply == Some(entries[index].reply),
        reply is None ==> entries[index].nonce != nonce || entries[index].client != client,
{
    let _ = entries[index];
    if reply is Some {
        let i = choose|i: int|
            #![trigger entries[i]]
            0 <= i < entries.len() && entries[i] == (ForwardEntry { nonce, client, reply: reply->0 });
        let _ = entries[i];
    }
}

/// The counter starts at the low half of the boot's incarnation, and the
/// replica and the counter can be read back from a nonce.
pub proof fn law_nonce_holds_replica_and_counter(replica: u8, counter: u64, incarnation: u128)
    ensures
        nonce_of(replica, counter) / NONCE_SPAN as int == replica,
        nonce_of(replica, counter) % NONCE_SPAN as int == counter,
        0 <= seed_of(Some(incarnation)) <= u64::MAX,
        (incarnation - seed_of(Some(incarnation))) % NONCE_SPAN as int == 0,
        incarnation <= u64::MAX ==> seed_of(Some(incarnation)) == incarnation,
        seed_of(None) == 0,
{
}

} // verus!
