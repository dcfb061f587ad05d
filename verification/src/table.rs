//! The rendezvous table: a shared mapping from key to the one pending entry
//! for that key.
//!
//! The table is the sole authority on whether anyone is waiting on a key: an
//! entry exists for a key exactly when one caller has offered that key and no
//! second caller has yet arrived. Its abstract view is a map from key to the
//! first arrival's payload; the producer half parked in each entry is opaque
//! and does not appear in the view.

use vstd::prelude::*;

use crate::signal;
use crate::transform;

verus! {

/// One pending rendezvous: the key, the first arrival's payload, and the
/// producer half of the completion signal that releases the suspended first
/// caller.
struct Pending {
    key: Vec<u8>,
    first_payload: Vec<u8>,
    producer: tokio::sync::oneshot::Sender<Vec<u8>>,
}

/// Every key occurs at most once among the entries.
spec fn distinct_keys(s: Seq<Pending>) -> bool {
    forall|i: int, j: int| 0 <= i < j < s.len() ==> s[i].key@ != s[j].key@
}

/// The map that a sequence of entries denotes: each entry's key bound to its
/// first payload, later entries taking precedence (with distinct keys there
/// is no precedence to resolve).
spec fn map_of(s: Seq<Pending>) -> Map<Seq<u8>, Seq<u8>>
    decreases s.len(),
{
    if s.len() == 0 {
        Map::empty()
    } else {
        map_of(s.drop_last()).insert(s.last().key@, s.last().first_payload@)
    }
}

/// A key is in the denoted map exactly when some entry carries it.
proof fn lemma_dom_key(s: Seq<Pending>, k: Seq<u8>)
    ensures
        map_of(s).dom().contains(k) <==> exists|i: int| 0 <= i < s.len() && s[i].key@ == k,
    decreases s.len(),
{
    if s.len() == 0 {
    } else {
        let dl = s.drop_last();
        lemma_dom_key(dl, k);
        assert(forall|i: int| 0 <= i < dl.len() ==> dl[i] == s[i]);
        if s[s.len() - 1].key@ == k {
            assert(map_of(s).dom().contains(k));
        } else if map_of(dl).dom().contains(k) {
            let i = choose|i: int| 0 <= i < dl.len() && dl[i].key@ == k;
            assert(s[i].key@ == k);
        } else {
            assert forall|i: int| 0 <= i < s.len() implies s[i].key@ != k by {
                if i < s.len() - 1 {
                    assert(dl[i] == s[i]);
                }
            }
        }
    }
}

/// With distinct keys, the entry carrying a key determines the key's value in
/// the denoted map.
proof fn lemma_map_of_value(s: Seq<Pending>, i: int)
    requires
        distinct_keys(s),
        0 <= i < s.len(),
    ensures
        map_of(s).dom().contains(s[i].key@),
        map_of(s)[s[i].key@] == s[i].first_payload@,
    decreases s.len(),
{
    let dl = s.drop_last();
    if i == s.len() - 1 {
    } else {
        assert(forall|j: int| 0 <= j < dl.len() ==> dl[j] == s[j]);
        lemma_map_of_value(dl, i);
        assert(s.last().key@ != s[i].key@);
    }
}

/// With distinct keys, the denoted map has exactly one binding per entry.
proof fn lemma_map_of_card(s: Seq<Pending>)
    requires
        distinct_keys(s),
    ensures
        map_of(s).dom().finite(),
        map_of(s).dom().len() == s.len(),
    decreases s.len(),
{
    if s.len() == 0 {
        assert(map_of(s).dom() =~= Set::<Seq<u8>>::empty());
    } else {
        let dl = s.drop_last();
        assert(forall|j: int| 0 <= j < dl.len() ==> dl[j] == s[j]);
        lemma_map_of_card(dl);
        lemma_dom_key(dl, s.last().key@);
        assert(!map_of(dl).dom().contains(s.last().key@));
        assert(map_of(s).dom() =~= map_of(dl).dom().insert(s.last().key@));
    }
}

/// Removing the entry that carries a key removes exactly that key's binding
/// from the denoted map.
proof fn lemma_map_of_remove(s: Seq<Pending>, i: int)
    requires
        distinct_keys(s),
        0 <= i < s.len(),
    ensures
        map_of(s.remove(i)) == map_of(s).remove(s[i].key@),
    decreases s.len(),
{
    let k = s[i].key@;
    let dl = s.drop_last();
    s.remove_ensures(i);
    assert(forall|j: int| 0 <= j < dl.len() ==> dl[j] == s[j]);
    if i == s.len() - 1 {
        assert(s.remove(i) =~= dl);
        lemma_dom_key(dl, k);
        assert(!map_of(dl).dom().contains(k));
        assert(map_of(dl).insert(k, s.last().first_payload@).remove(k) =~= map_of(dl));
    } else {
        let r = s.remove(i);
        assert(r.last() == s.last());
        assert(r.drop_last() =~= dl.remove(i));
        lemma_map_of_remove(dl, i);
        assert(map_of(r) == map_of(dl).remove(k).insert(s.last().key@, s.last().first_payload@));
        assert(s.last().key@ != k);
        assert(map_of(dl).remove(k).insert(s.last().key@, s.last().first_payload@) =~= map_of(
            dl,
        ).insert(s.last().key@, s.last().first_payload@).remove(k));
    }
}

/// What one call of `offer` came to.
pub enum OfferOutcome {
    /// The caller is the first arrival for its key: an entry was parked and
    /// the caller's task must now await this consumer half — a cooperative
    /// suspension — and settle what it resolves to with
    /// `signal::settle_wait`.
    Suspended(tokio::sync::oneshot::Receiver<Vec<u8>>),
    /// The caller completed a pairing: the first arrival's payload, marked
    /// with the initiating role.
    Paired(Vec<u8>),
    /// A partner was found, but its consumer half was already gone; the
    /// pairing window has closed and the entry is discarded.
    DeliveryFailed,
}

/// The shared mapping from key to pending entry, the sole authority on
/// whether anyone is waiting on a key.
pub struct RendezvousTable {
    entries: Vec<Pending>,
}

impl View for RendezvousTable {
    type V = Map<Seq<u8>, Seq<u8>>;

    closed spec fn view(&self) -> Map<Seq<u8>, Seq<u8>> {
        map_of(self.entries@)
    }
}

impl RendezvousTable {
    /// The table's invariant: every key occurs at most once among the
    /// pending entries.
    pub closed spec fn wf(self) -> bool {
        distinct_keys(self.entries@)
    }

    /// The pending keys, in the table's own order.
    pub closed spec fn pending_keys(self) -> Seq<Seq<u8>> {
        self.entries@.map_values(|e: Pending| e.key@)
    }

    /// An empty table: nobody waits on any key.
    pub fn new() -> (r: RendezvousTable)
        ensures
            r.wf(),
            r@ == Map::<Seq<u8>, Seq<u8>>::empty(),
    {
        let t = RendezvousTable { entries: Vec::new() };
        t
    }

    /// The index of the entry for `key`, if one is pending.
    fn find_index(&self, key: &Vec<u8>) -> (r: Option<usize>)
        ensures
            r matches Some(i) ==> i < self.entries@.len() && self.entries@[i as int].key@
                == key@,
            r is None ==> forall|i: int|
                0 <= i < self.entries@.len() ==> self.entries@[i].key@ != key@,
    {
        let mut i: usize = 0;
        while i < self.entries.len()
            invariant
                i <= self.entries@.len(),
                forall|j: int| 0 <= j < i ==> self.entries@[j].key@ != key@,
            decreases self.entries@.len() - i,
        {
            if bytes_eq(&self.entries[i].key, key) {
                return Some(i);
            }
            i += 1;
        }
        None
    }

    /// Submits `payload` under `key`. The first arrival for a key parks its
    /// payload and is told to wait; a second arrival removes the entry (so a
    /// later caller starts a fresh rendezvous), receives the parked payload
    /// marked with the initiating role, and attempts to deliver its own
    /// payload, marked with the responding role, to the suspended first
    /// caller. Whether that delivery is accepted depends on whether the
    /// first caller still waits.
    pub fn offer(&mut self, key: Vec<u8>, payload: Vec<u8>) -> (r: OfferOutcome)
        requires
            old(self).wf(),
            key@.len() > 0,
        ensures
            final(self).wf(),
            !old(self)@.dom().contains(key@) ==> {
                &&& r is Suspended
                &&& final(self)@ == old(self)@.insert(key@, payload@)
            },
            old(self)@.dom().contains(key@) ==> {
                &&& final(self)@ == old(self)@.remove(key@)
                &&& (r is Paired || r is DeliveryFailed)
                &&& (r matches OfferOutcome::Paired(reply) ==> reply@ == transform::marked_first(
                    old(self)@[key@],
                ))
            },
    {
        let found = self.find_index(&key);
        match found {
            Some(i) => {
                proof {
                    lemma_map_of_value(self.entries@, i as int);
                    lemma_map_of_remove(self.entries@, i as int);
                    self.entries@.remove_ensures(i as int);
                }
                let entry = self.entries.remove(i);
                proof {
                    assert(distinct_keys(self.entries@));
                }
                let reply = transform::mark_first_payload(&entry.first_payload);
                let to_first = transform::mark_second_payload(&payload);
                let sent = signal::try_deliver(entry.producer, to_first);
                settle_delivery(sent, reply)
            },
            None => {
                proof {
                    lemma_dom_key(self.entries@, key@);
                }
                let (tx, rx) = signal::signal_channel();
                let entry = Pending { key, first_payload: payload, producer: tx };
                self.entries.push(entry);
                proof {
                    let s = old(self).entries@;
                    assert(self.entries@.drop_last() =~= s);
                    assert(distinct_keys(self.entries@));
                }
                OfferOutcome::Suspended(rx)
            },
        }
    }

    /// Removes and discards any entry for `key` without delivering a value;
    /// a caller suspended on that entry observes abandonment and fails with
    /// `PartnerUnavailable`. Returns whether an entry was present.
    pub fn remove(&mut self, key: &Vec<u8>) -> (r: bool)
        requires
            old(self).wf(),
        ensures
            final(self).wf(),
            r == old(self)@.dom().contains(key@),
            final(self)@ == old(self)@.remove(key@),
    {
        let found = self.find_index(key);
        match found {
            Some(i) => {
                proof {
                    lemma_dom_key(self.entries@, key@);
                    lemma_map_of_remove(self.entries@, i as int);
                    self.entries@.remove_ensures(i as int);
                }
                let _evicted = self.entries.remove(i);
                proof {
                    assert(distinct_keys(self.entries@));
                }
                true
            },
            None => {
                proof {
                    lemma_dom_key(self.entries@, key@);
                    assert(old(self)@.remove(key@) =~= old(self)@);
                }
                false
            },
        }
    }

    /// Removes and discards every entry, abandoning every suspended caller as
    /// `remove` does. Returns the number of entries evicted: the exact prior
    /// pending count.
    pub fn clear(&mut self) -> (r: usize)
        requires
            old(self).wf(),
        ensures
            final(self).wf(),
            r == old(self)@.dom().len(),
            final(self)@ == Map::<Seq<u8>, Seq<u8>>::empty(),
    {
        proof {
            lemma_map_of_card(self.entries@);
        }
        let n = self.entries.len();
        self.entries.clear();
        n
    }

    /// A point-in-time snapshot of the pending keys; duplicates never occur,
    /// by the table's invariant.
    pub fn list_keys(&self) -> (r: Vec<Vec<u8>>)
        requires
            self.wf(),
        ensures
            r@.len() == self@.dom().len(),
            forall|i: int| 0 <= i < r@.len() ==> r@[i]@ == self.pending_keys()[i],
            forall|i: int| 0 <= i < r@.len() ==> self@.dom().contains(#[trigger] r@[i]@),
            forall|k: Seq<u8>| #[trigger] self@.dom().contains(k) ==> exists|i: int|
                0 <= i < r@.len() && r@[i]@ == k,
    {
        let mut out: Vec<Vec<u8>> = Vec::new();
        let mut i: usize = 0;
        while i < self.entries.len()
            invariant
                i <= self.entries@.len(),
                out@.len() == i,
                forall|j: int| 0 <= j < i ==> out@[j]@ == self.entries@[j].key@,
            decreases self.entries@.len() - i,
        {
            let k = copy_bytes(&self.entries[i].key);
            out.push(k);
            i += 1;
        }
        proof {
            lemma_map_of_card(self.entries@);
            assert forall|j: int| 0 <= j < out@.len() implies self@.dom().contains(
                #[trigger] out@[j]@,
            ) by {
                lemma_map_of_value(self.entries@, j);
            }
            assert forall|k: Seq<u8>| #[trigger] self@.dom().contains(k) implies exists|j: int|
                0 <= j < out@.len() && out@[j]@ == k by {
                lemma_dom_key(self.entries@, k);
                let j = choose|j: int|
                    0 <= j < self.entries@.len() && self.entries@[j].key@ == k;
                assert(out@[j]@ == k);
            }
        }
        out
    }
}

/// At most one entry exists per key at any instant: among the pending keys
/// of a well-formed table every key occurs once, the table's map view is
/// finite, and it has exactly one binding per pending entry — the map is the
/// sole authority on whether anyone is waiting on a key.
pub proof fn lemma_one_entry_per_key(t: &RendezvousTable)
    requires
        t.wf(),
    ensures
        forall|i: int, j: int|
            0 <= i < j < t.pending_keys().len() ==> t.pending_keys()[i] != t.pending_keys()[j],
        t@.dom().finite(),
        t@.dom().len() == t.pending_keys().len(),
{
    lemma_map_of_card(t.entries@);
}

/// Sequential pairing: a first offer for a vacant key `k` parks payload `p1`,
/// so the table's view gains exactly the binding from `k` to `p1`; a second
/// offer for `k` then observes exactly `p1` — by `offer`'s contract the
/// second caller is handed `p1` marked with the initiating role and the
/// suspended first caller is sent the second payload marked with the
/// responding role — and the view returns to its prior state.
pub proof fn lemma_sequential_pairing(m: Map<Seq<u8>, Seq<u8>>, k: Seq<u8>, p1: Seq<u8>)
    requires
        !m.dom().contains(k),
    ensures
        m.insert(k, p1).dom().contains(k),
        m.insert(k, p1)[k] == p1,
        transform::marked_first(m.insert(k, p1)[k]) == transform::marked_first(p1),
        m.insert(k, p1).remove(k) == m,
{
    assert(m.insert(k, p1).remove(k) =~= m);
}

/// Clearing is idempotent: a cleared table's view is the empty map, whose
/// domain holds no key and has cardinality zero, so a second `clear` evicts
/// nothing, returns zero, and leaves the view empty.
pub proof fn lemma_clear_idempotent(m: Map<Seq<u8>, Seq<u8>>)
    requires
        m == Map::<Seq<u8>, Seq<u8>>::empty(),
    ensures
        m.dom().len() == 0,
        forall|k: Seq<u8>| !(#[trigger] m.dom().contains(k)),
{
    assert(m.dom() =~= Set::<Seq<u8>>::empty());
}

/// Decides the second caller's outcome from the delivery attempt: an
/// accepted delivery completes the pairing and hands back the counterpart
/// payload; a rejected one means the first caller's consumer half was
/// already gone.
pub fn settle_delivery(sent: bool, reply: Vec<u8>) -> (r: OfferOutcome)
    ensures
        sent ==> r == OfferOutcome::Paired(reply),
        !sent ==> r == OfferOutcome::DeliveryFailed,
{
    if sent {
        OfferOutcome::Paired(reply)
    } else {
        OfferOutcome::DeliveryFailed
    }
}

/// Whether two byte strings are equal.
fn bytes_eq(a: &Vec<u8>, b: &Vec<u8>) -> (r: bool)
    ensures
        r == (a@ == b@),
{
    if a.len() != b.len() {
        return false;
    }
    let mut j: usize = 0;
    while j < a.len()
        invariant
            j <= a@.len(),
            a@.len() == b@.len(),
            forall|k: int| 0 <= k < j ==> a@[k] == b@[k],
        decreases a@.len() - j,
    {
        if a[j] != b[j] {
            return false;
        }
        j += 1;
    }
    proof {
        assert(a@ =~= b@);
    }
    true
}

/// A copy of a byte string.
fn copy_bytes(src: &Vec<u8>) -> (r: Vec<u8>)
    ensures
        r@ == src@,
{
    let mut out: Vec<u8> = Vec::new();
    let mut j: usize = 0;
    while j < src.len()
        invariant
            j <= src@.len(),
            out@ == src@.subrange(0, j as int),
        decreases src@.len() - j,
    {
        let b = src[j];
        out.push(b);
        proof {
            assert(out@ =~= src@.subrange(0, j + 1));
        }
        j += 1;
    }
    proof {
        assert(src@.subrange(0, src@.len() as int) =~= src@);
    }
    out
}

} // verus!
