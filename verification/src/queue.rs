//! The in-memory message queue: an ordering sequence of ids in arrival
//! order plus a lookup map from id to record.
//!
//! The queue's mathematical model is the pair of [`MessageQueue::order`],
//! the ids still eligible for dequeueing in FIFO order, and
//! [`MessageQueue::msgs`], the map from id to tracked record. Every
//! operation's contract is stated over that pair.

use vstd::prelude::*;
use std::collections::VecDeque;
use crate::types::MessageStatus;
use crate::types::QueuedMessage;
use crate::types::QueuedMessageView;

verus! {

/// The mathematical values of a sequence of stored records.
pub open spec fn views_of(s: Seq<QueuedMessage>) -> Seq<QueuedMessageView> {
    s.map_values(|m: QueuedMessage| m@)
}

/// True if some record in `s` carries `id`.
pub open spec fn seq_has_id(s: Seq<QueuedMessageView>, id: u128) -> bool {
    exists|i: int| 0 <= i < s.len() && s[i].id == id
}

/// The index of the record carrying `id`; meaningful when ids are unique.
pub open spec fn seq_id_index(s: Seq<QueuedMessageView>, id: u128) -> int {
    choose|i: int| 0 <= i < s.len() && s[i].id == id
}

/// The record value after a status update: the new status and error text
/// replace the old, and a transition into `Failed` counts one more attempt.
pub open spec fn updated_record(
    m: QueuedMessageView,
    st: crate::types::MessageStatusView,
    err: Option<Seq<char>>,
) -> QueuedMessageView {
    QueuedMessageView {
        id: m.id,
        message: m.message,
        status: st,
        queued_at: m.queued_at,
        attempts: if st is Failed {
            (m.attempts + 1) as u32
        } else {
            m.attempts
        },
        last_error: err,
    }
}

/// No two records in `s` carry the same id.
pub open spec fn unique_ids(s: Seq<QueuedMessageView>) -> bool {
    forall|i: int, j: int|
        #![trigger s[i], s[j]]
        0 <= i < j < s.len() ==> s[i].id != s[j].id
}

proof fn lemma_unique_index(s: Seq<QueuedMessageView>, id: u128, i: int)
    requires
        unique_ids(s),
        0 <= i < s.len(),
        s[i].id == id,
    ensures
        seq_has_id(s, id),
        seq_id_index(s, id) == i,
{
    assert(seq_has_id(s, id));
    let j = seq_id_index(s, id);
    assert(0 <= j < s.len() && s[j].id == id);
    if i < j {
        assert(s[i].id != s[j].id);
    } else if j < i {
        assert(s[j].id != s[i].id);
    }
}

/// The first index at or after `i` in the ordering sequence whose id still
/// refers to a `Pending` record; what a dequeue starting at `i` would find.
pub open spec fn first_pending_from(q: MessageQueue, i: int) -> Option<int>
    decreases q.order().len() - i,
{
    if i < 0 || i >= q.order().len() {
        None
    } else if q.pending_at(i) {
        Some(i)
    } else {
        first_pending_from(q, i + 1)
    }
}

/// The index of the earliest id in the ordering sequence whose record is
/// still `Pending`: the one dequeue returns.
pub open spec fn first_pending(q: MessageQueue) -> Option<int> {
    first_pending_from(q, 0)
}

proof fn lemma_first_pending_skip(q: MessageQueue, i: int, j: int)
    requires
        0 <= i <= j <= q.order().len(),
        forall|k: int| i <= k < j ==> !q.pending_at(k),
    ensures
        first_pending_from(q, i) == first_pending_from(q, j),
    decreases j - i,
{
    if i < j {
        assert(!q.pending_at(i));
        lemma_first_pending_skip(q, i + 1, j);
    }
}

proof fn lemma_first_pending_found(q: MessageQueue, j: int)
    requires
        0 <= j < q.order().len(),
        q.pending_at(j),
        forall|k: int| 0 <= k < j ==> !q.pending_at(k),
    ensures
        first_pending(q) == Some(j),
{
    lemma_first_pending_skip(q, 0, j);
}

proof fn lemma_first_pending_none(q: MessageQueue)
    requires
        forall|k: int| 0 <= k < q.order().len() ==> !q.pending_at(k),
    ensures
        first_pending(q) is None,
{
    lemma_first_pending_skip(q, 0, q.order().len() as int);
}

/// Every record in the lookup map carries the id it is stored under.
pub proof fn lemma_msgs_key_id(q: MessageQueue, id: u128)
    requires
        q.msgs().contains_key(id),
    ensures
        q.msgs()[id].id == id,
{
    let i = seq_id_index(q.records(), id);
    assert(0 <= i < q.records().len() && q.records()[i].id == id);
}

proof fn lemma_fp_from_props(q: MessageQueue, i: int)
    requires
        0 <= i,
    ensures
        first_pending_from(q, i) matches Some(j) ==> (i <= j < q.order().len() && q.pending_at(j)),
    decreases q.order().len() - i,
{
    if i < q.order().len() && !q.pending_at(i) {
        lemma_fp_from_props(q, i + 1);
    }
}

/// What dequeue acts on is a real position whose record is still pending.
pub proof fn lemma_first_pending_props(q: MessageQueue)
    ensures
        first_pending(q) matches Some(j) ==> (0 <= j < q.order().len() && q.pending_at(j)),
{
    lemma_fp_from_props(q, 0);
}

/// Dequeueing is FIFO among the still-pending ids: whenever the id at
/// position `a` of the ordering sequence is still `Pending`, what dequeue
/// finds is at a position no later than `a`, and is itself still `Pending`.
/// Ids whose status has moved on are skipped, never returned.
pub proof fn lemma_dequeue_fifo(q: MessageQueue, a: int)
    requires
        0 <= a < q.order().len(),
        q.pending_at(a),
    ensures
        first_pending(q) matches Some(j) && 0 <= j <= a && q.pending_at(j) && (forall|k: int|
            0 <= k < j ==> !q.pending_at(k)),
{
    lemma_first_pending_from_le(q, 0, a);
}

proof fn lemma_first_pending_from_le(q: MessageQueue, i: int, a: int)
    requires
        0 <= i <= a < q.order().len(),
        q.pending_at(a),
    ensures
        first_pending_from(q, i) matches Some(j) && i <= j <= a && q.pending_at(j) && (forall|
            k: int,
        | i <= k < j ==> !q.pending_at(k)),
    decreases a - i,
{
    if q.pending_at(i) {
    } else {
        lemma_first_pending_from_le(q, i + 1, a);
    }
}

/// A status update into `Failed` increases the attempt count by exactly
/// one; any other transition leaves it unchanged. Every other field of the
/// message besides status and error text is untouched.
pub proof fn lemma_update_attempts(
    m: QueuedMessageView,
    st: crate::types::MessageStatusView,
    err: Option<Seq<char>>,
)
    requires
        m.attempts < u32::MAX,
    ensures
        st is Failed ==> updated_record(m, st, err).attempts == m.attempts + 1,
        !(st is Failed) ==> updated_record(m, st, err).attempts == m.attempts,
        updated_record(m, st, err).id == m.id,
        updated_record(m, st, err).message == m.message,
        updated_record(m, st, err).queued_at == m.queued_at,
{
}

/// Relies on std::time::SystemTime::now for the current wall-clock time,
/// reported in whole seconds since the Unix epoch. Nothing is assumed of
/// the value: callers state what holds for every reading.
#[verifier::external_body]
pub(crate) fn now_unix_secs() -> u64 {
    match std::time::SystemTime::now().duration_since(std::time::UNIX_EPOCH) {
        Ok(d) => d.as_secs(),
        Err(_) => 0,
    }
}

/// Seconds elapsed since `queued_at` at wall-clock time `now`; a record
/// stamped in the future counts as age zero.
pub open spec fn age_secs(now: u64, queued_at: u64) -> u64 {
    if now >= queued_at {
        (now - queued_at) as u64
    } else {
        0
    }
}

/// The pruning threshold in seconds.
pub open spec fn cutoff_of(max_age_hours: u64) -> u64 {
    (max_age_hours * 3600) as u64
}

/// Whether a pruning pass at time `now` keeps a record: young enough, or
/// protected because it is still in flight (`Pending` or `Proving`).
pub open spec fn kept_record(m: QueuedMessageView, max_age_hours: u64, now: u64) -> bool {
    age_secs(now, m.queued_at) < cutoff_of(max_age_hours) || m.status.is_in_flight()
}

/// The ordering-sequence filter a pruning pass applies: an id survives
/// exactly when its record does.
pub open spec fn keeps_id(msgs: Map<u128, QueuedMessageView>, max_age_hours: u64, now: u64) -> (
    spec_fn(u128) -> bool) {
    |id: u128| msgs.contains_key(id) && kept_record(msgs[id], max_age_hours, now)
}

/// How a pruning pass at wall-clock time `now` relates the queue before
/// (`pre`) and after (`post`): exactly the kept records survive, unchanged,
/// and the ordering sequence is stripped of the pruned ids in place.
pub open spec fn pruned_with(
    pre: MessageQueue,
    post: MessageQueue,
    max_age_hours: u64,
    now: u64,
) -> bool {
    &&& (forall|id: u128|
        #![trigger post.msgs().contains_key(id)]
        post.msgs().contains_key(id) <==> (pre.msgs().contains_key(id) && kept_record(
            pre.msgs()[id],
            max_age_hours,
            now,
        )))
    &&& (forall|id: u128|
        post.msgs().contains_key(id) ==> #[trigger] post.msgs()[id] == pre.msgs()[id])
    &&& post.order() == pre.order().filter(keeps_id(pre.msgs(), max_age_hours, now))
}

/// Pruning never removes a record that is still in flight (`Pending` or
/// `Proving`), regardless of age; it always removes a record that is not
/// in flight once its age has reached the threshold; and every survivor
/// is unchanged.
pub proof fn lemma_prune_protects(
    pre: MessageQueue,
    post: MessageQueue,
    max_age_hours: u64,
    now: u64,
    id: u128,
)
    requires
        pruned_with(pre, post, max_age_hours, now),
        pre.msgs().contains_key(id),
    ensures
        pre.msgs()[id].status.is_in_flight() ==> post.msgs().contains_key(id) && post.msgs()[id]
            == pre.msgs()[id],
        (!pre.msgs()[id].status.is_in_flight() && age_secs(now, pre.msgs()[id].queued_at)
            >= cutoff_of(max_age_hours)) ==> !post.msgs().contains_key(id),
{
}

/// Ordered store of in-flight messages: ids in arrival order plus a lookup
/// map from id to full record.
pub struct MessageQueue {
    /// Ids still eligible for dequeueing, front first.
    pending: VecDeque<u128>,
    /// All tracked records, in insertion order, with unique ids.
    entries: Vec<QueuedMessage>,
}

impl MessageQueue {
    /// The tracked records in insertion order.
    pub closed spec fn records(&self) -> Seq<QueuedMessageView> {
        views_of(self.entries@)
    }

    /// The ordering sequence: ids still eligible for dequeueing, in FIFO
    /// order.
    pub closed spec fn order(&self) -> Seq<u128> {
        self.pending@
    }

    /// The lookup map from id to tracked record.
    pub closed spec fn msgs(&self) -> Map<u128, QueuedMessageView> {
        Map::new(
            |id: u128| seq_has_id(self.records(), id),
            |id: u128| self.records()[seq_id_index(self.records(), id)],
        )
    }

    /// Well-formedness: ids are unique, and every id in the ordering
    /// sequence is tracked in the lookup map.
    pub closed spec fn wf(&self) -> bool {
        &&& unique_ids(self.records())
        &&& forall|i: int|
            0 <= i < self.order().len() ==> seq_has_id(self.records(), #[trigger] self.order()[i])
    }

    /// Each record of a well-formed queue is the map's value under its id.
    proof fn lemma_record_lookup(&self, i: int)
        requires
            self.wf(),
            0 <= i < self.records().len(),
        ensures
            self.msgs().contains_key(self.records()[i].id),
            self.msgs()[self.records()[i].id] == self.records()[i],
    {
        lemma_unique_index(self.records(), self.records()[i].id, i);
    }

    /// Creates an empty queue.
    pub fn new() -> (q: Self)
        ensures
            q.wf(),
            q.order() == Seq::<u128>::empty(),
            q.msgs() == Map::<u128, QueuedMessageView>::empty(),
    {
        let q = MessageQueue { pending: VecDeque::new(), entries: Vec::new() };
        proof {
            assert(q.records() =~= Seq::<QueuedMessageView>::empty());
            assert(q.msgs() =~= Map::<u128, QueuedMessageView>::empty());
            assert(q.order() =~= Seq::<u128>::empty());
        }
        q
    }

    /// The position of `id` among the stored records, if it is tracked.
    fn find_index(&self, id: u128) -> (r: Option<usize>)
        ensures
            match r {
                Some(i) => i < self.records().len() && self.records()[i as int].id == id,
                None => !seq_has_id(self.records(), id),
            },
    {
        let n = self.entries.len();
        let mut i: usize = 0;
        while i < n
            invariant
                n == self.records().len(),
                i <= n,
                forall|k: int| 0 <= k < i ==> (#[trigger] self.records()[k]).id != id,
            decreases n - i,
        {
            if self.entries[i].id == id {
                return Some(i);
            }
            i += 1;
        }
        None
    }

    /// Appends the message's id to the back of the ordering sequence and
    /// inserts the record into the lookup map. Never fails.
    pub fn enqueue(&mut self, message: QueuedMessage)
        requires
            old(self).wf(),
        ensures
            final(self).wf(),
            final(self).order() == old(self).order().push(message.id),
            final(self).msgs() == old(self).msgs().insert(message.id, message@),
    {
        let ghost old_recs = self.records();
        let ghost mview = message@;
        let id = message.id;
        let ghost mid = id;
        match self.find_index(id) {
            Some(i) => {
                let _replaced = self.entries.remove(i);
                self.entries.insert(i, message);
                proof {
                    assert(self.records() =~= old_recs.update(i as int, mview));
                    self.lemma_msgs_after_update(old(self), i as int, mid, mview);
                }
            }
            None => {
                self.entries.push(message);
                proof {
                    assert(self.records() =~= old_recs.push(mview));
                    assert(unique_ids(self.records()));
                    assert forall|x: u128| true implies (seq_has_id(self.records(), x) <==> (
                    seq_has_id(old_recs, x) || x == mid)) by {
                        if seq_has_id(self.records(), x) {
                            let k = choose|k: int|
                                0 <= k < self.records().len() && self.records()[k].id == x;
                            if k < old_recs.len() {
                                assert(old_recs[k].id == x);
                                assert(seq_has_id(old_recs, x));
                            } else {
                                assert(x == mid);
                            }
                        }
                        if seq_has_id(old_recs, x) {
                            let k = choose|k: int| 0 <= k < old_recs.len() && old_recs[k].id == x;
                            assert(self.records()[k].id == x);
                            assert(seq_has_id(self.records(), x));
                        }
                        if x == mid {
                            assert(self.records()[old_recs.len() as int].id == mid);
                            assert(seq_has_id(self.records(), x));
                        }
                    }
                    assert forall|id: u128| seq_has_id(self.records(), id) implies self.msgs()[id]
                        == old(self).msgs().insert(mid, mview)[id] by {
                        if id == mid {
                            lemma_unique_index(self.records(), mid, old_recs.len() as int);
                        } else {
                            let k = seq_id_index(self.records(), id);
                            assert(0 <= k < self.records().len() && self.records()[k].id == id);
                            assert(k < old_recs.len());
                            lemma_unique_index(old_recs, id, k);
                            lemma_unique_index(self.records(), id, k);
                        }
                    }
                    assert(self.msgs() =~= old(self).msgs().insert(mid, mview));
                }
            }
        }
        self.pending.push_back(id);
        proof {
            assert(final(self).order() =~= old(self).order().push(mid));
            assert forall|i: int| 0 <= i < self.order().len() implies seq_has_id(
                self.records(),
                #[trigger] self.order()[i],
            ) by {
                if i < old(self).order().len() {
                    assert(seq_has_id(old(self).records(), old(self).order()[i]));
                    let k = seq_id_index(old(self).records(), self.order()[i]);
                    assert(0 <= k < old(self).records().len());
                    assert(self.records()[k].id == self.order()[i] || self.records()[k].id == mid);
                    if self.records()[k].id != self.order()[i] {
                        assert(self.msgs().contains_key(self.order()[i]));
                    }
                } else {
                    assert(self.msgs().contains_key(mid));
                }
            }
        }
    }

    /// Returns a copy of the record stored under `id`, or nothing if the id
    /// is not tracked.
    pub fn get_message(&self, id: &u128) -> (r: Option<QueuedMessage>)
        requires
            self.wf(),
        ensures
            r is Some <==> self.msgs().contains_key(*id),
            r matches Some(m) ==> m@ == self.msgs()[*id],
    {
        match self.find_index(*id) {
            Some(i) => {
                let m = self.entries[i].clone();
                proof {
                    self.lemma_record_lookup(i as int);
                }
                Some(m)
            }
            None => None,
        }
    }

    /// Replaces the stored status and error text of the record under `id`;
    /// a transition into `Failed` also counts one more attempt. No-op when
    /// the id is unknown.
    pub fn update_status(&mut self, id: u128, status: MessageStatus, error: Option<String>)
        requires
            old(self).wf(),
            old(self).msgs().contains_key(id) && status@ is Failed ==> old(self).msgs()[id].attempts
                < u32::MAX,
        ensures
            final(self).wf(),
            final(self).order() == old(self).order(),
            old(self).msgs().contains_key(id) ==> final(self).msgs() == old(self).msgs().insert(
                id,
                updated_record(old(self).msgs()[id], status@, error.deep_view()),
            ),
            !old(self).msgs().contains_key(id) ==> final(self).msgs() == old(self).msgs(),
    {
        let ghost old_recs = self.records();
        match self.find_index(id) {
            Some(i) => {
                proof {
                    self.lemma_record_lookup(i as int);
                }
                let e = self.entries.remove(i);
                let new_attempts = if status.is_failed() {
                    e.attempts + 1
                } else {
                    e.attempts
                };
                let e2 = QueuedMessage {
                    id: e.id,
                    message: e.message,
                    status,
                    queued_at: e.queued_at,
                    attempts: new_attempts,
                    last_error: error,
                };
                let ghost e2view = e2@;
                self.entries.insert(i, e2);
                proof {
                    assert(self.records() =~= old_recs.update(i as int, e2view));
                    assert(e2view == updated_record(old(self).msgs()[id], status@, error.deep_view()));
                    self.lemma_msgs_after_update(old(self), i as int, id, e2view);
                    assert(self.order() == old(self).order());
                    assert forall|k: int|
                        0 <= k < self.order().len() implies seq_has_id(
                        self.records(),
                        #[trigger] self.order()[k],
                    ) by {
                        assert(seq_has_id(old(self).records(), old(self).order()[k]));
                        assert(self.msgs().contains_key(self.order()[k]));
                    }
                }
            }
            None => {
            }
        }
    }

    /// True when the id at position `i` of the ordering sequence refers to
    /// a tracked record that is still `Pending`.
    pub open spec fn pending_at(self, i: int) -> bool {
        &&& self.msgs().contains_key(self.order()[i])
        &&& self.msgs()[self.order()[i]].status is Pending
    }

    /// The position in the ordering sequence that dequeue would act on.
    fn first_pending_index(&self) -> (r: Option<usize>)
        requires
            self.wf(),
        ensures
            match r {
                Some(j) => j < self.order().len() && self.pending_at(j as int) && first_pending(
                    *self,
                ) == Some(j as int),
                None => first_pending(*self) is None,
            },
    {
        let n = self.pending.len();
        let mut j: usize = 0;
        while j < n
            invariant
                self.wf(),
                j <= n,
                n == self.order().len(),
                forall|k: int| 0 <= k < j ==> !self.pending_at(k),
            decreases n - j,
        {
            let id = self.pending[j];
            let idx = self.find_index(id);
            proof {
                assert(seq_has_id(self.records(), self.order()[j as int]));
                if idx is None {
                    assert(false);
                }
            }
            let i = idx.unwrap();
            proof {
                self.lemma_record_lookup(i as int);
            }
            if self.entries[i].status.is_pending() {
                proof {
                    lemma_first_pending_found(*self, j as int);
                }
                return Some(j);
            }
            j += 1;
        }
        proof {
            lemma_first_pending_none(*self);
        }
        None
    }

    /// Pops ids from the front of the ordering sequence, permanently
    /// discarding every id whose record is no longer `Pending`, until a
    /// still-pending record is found. That record is returned as a copy and
    /// left in the lookup map with unchanged status; if none is found the
    /// ordering sequence is exhausted and nothing is returned.
    pub fn dequeue(&mut self) -> (r: Option<QueuedMessage>)
        requires
            old(self).wf(),
        ensures
            final(self).wf(),
            final(self).msgs() == old(self).msgs(),
            r is Some <==> first_pending(*old(self)) is Some,
            r matches Some(m) ==> (first_pending(*old(self)) matches Some(j) && m@ == old(
                self,
            ).msgs()[old(self).order()[j]] && final(self).order() == old(self).order().skip(j + 1)),
            r is None ==> final(self).order() == Seq::<u128>::empty(),
    {
        match self.first_pending_index() {
            Some(j) => {
                let id = self.pending[j];
                let idx = self.find_index(id);
                proof {
                    assert(seq_has_id(self.records(), self.order()[j as int]));
                    if idx is None {
                        assert(false);
                    }
                }
                let i = idx.unwrap();
                proof {
                    self.lemma_record_lookup(i as int);
                }
                let m = self.entries[i].clone();
                let n = self.pending.len();
                proof {
                    assert(j < n);
                }
                let tail = self.pending.split_off(j + 1);
                self.pending = tail;
                proof {
                    assert(self.records() == old(self).records());
                    assert(self.msgs() =~= old(self).msgs());
                    assert(self.order() =~= old(self).order().skip(j + 1));
                    assert forall|k: int|
                        0 <= k < self.order().len() implies seq_has_id(
                        self.records(),
                        #[trigger] self.order()[k],
                    ) by {
                        assert(self.order()[k] == old(self).order()[k + j + 1]);
                        assert(seq_has_id(old(self).records(), old(self).order()[k + j + 1]));
                    }
                }
                Some(m)
            }
            None => {
                self.pending.clear();
                proof {
                    assert(self.msgs() =~= old(self).msgs());
                    assert(self.order() =~= Seq::<u128>::empty());
                }
                None
            }
        }
    }

    /// One pruning pass taken at wall-clock time `now` (in seconds since
    /// the Unix epoch): removes every record whose age has reached the
    /// `max_age_hours` threshold unless it is still in flight, stripping
    /// pruned ids from the ordering sequence in the same pass.
    pub fn prune_at(&mut self, max_age_hours: u64, now: u64)
        requires
            old(self).wf(),
            max_age_hours * 3600 <= u64::MAX,
        ensures
            final(self).wf(),
            pruned_with(*old(self), *final(self), max_age_hours, now),
    {
        let cutoff = max_age_hours * 3600;
        let n = self.entries.len();
        let ghost recs = self.records();
        let mut kept: Vec<QueuedMessage> = Vec::new();
        let mut k: usize = 0;
        while k < n
            invariant
                k <= n,
                n == recs.len(),
                recs == self.records(),
                self.wf(),
                cutoff == cutoff_of(max_age_hours),
                unique_ids(views_of(kept@)),
                forall|i: int|
                    0 <= i < kept@.len() ==> exists|g: int|
                        0 <= g < k && recs[g] == (#[trigger] views_of(kept@)[i]) && kept_record(
                            recs[g],
                            max_age_hours,
                            now,
                        ),
                forall|g: int|
                    0 <= g < k && kept_record(#[trigger] recs[g], max_age_hours, now)
                        ==> seq_has_id(views_of(kept@), recs[g].id),
            decreases n - k,
        {
            let e = &self.entries[k];
            let age: u64 = if now >= e.queued_at {
                now - e.queued_at
            } else {
                0
            };
            if age < cutoff || e.status.is_in_flight() {
                let ghost kv0 = views_of(kept@);
                kept.push(e.clone());
                proof {
                    assert(views_of(kept@) =~= kv0.push(recs[k as int]));
                    assert forall|p: int, q: int|
                        #![trigger views_of(kept@)[p], views_of(kept@)[q]]
                        0 <= p < q < views_of(kept@).len() implies views_of(kept@)[p].id
                        != views_of(kept@)[q].id by {
                        if q < kv0.len() {
                        } else {
                            if views_of(kept@)[p].id == recs[k as int].id {
                                let g = choose|g: int|
                                    0 <= g < k && recs[g] == kv0[p] && kept_record(
                                        recs[g],
                                        max_age_hours,
                                        now,
                                    );
                                assert(recs[g].id == recs[k as int].id);
                            }
                        }
                    }
                    assert forall|g: int|
                        0 <= g < k + 1 && kept_record(
                            #[trigger] recs[g],
                            max_age_hours,
                            now,
                        ) implies seq_has_id(views_of(kept@), recs[g].id) by {
                        if g < k {
                            let i = choose|i: int| 0 <= i < kv0.len() && kv0[i].id == recs[g].id;
                            assert(views_of(kept@)[i].id == recs[g].id);
                        } else {
                            assert(views_of(kept@)[kv0.len() as int].id == recs[k as int].id);
                        }
                    }
                }
            }
            k += 1;
        }
        let ghost kv = views_of(kept@);
        let ghost pre = *old(self);
        self.entries = kept;
        proof {
            assert(self.records() == kv);
            assert forall|id: u128| true implies (seq_has_id(kv, id) <==> (pre.msgs().contains_key(
                id,
            ) && kept_record(pre.msgs()[id], max_age_hours, now))) by {
                if seq_has_id(kv, id) {
                    let i = choose|i: int| 0 <= i < kv.len() && kv[i].id == id;
                    let g = choose|g: int|
                        0 <= g < n && recs[g] == kv[i] && kept_record(recs[g], max_age_hours, now);
                    lemma_unique_index(recs, id, g);
                    assert(pre.msgs()[id] == recs[g]);
                }
                if pre.msgs().contains_key(id) && kept_record(pre.msgs()[id], max_age_hours, now) {
                    let g = seq_id_index(recs, id);
                    assert(0 <= g < recs.len() && recs[g].id == id);
                    assert(pre.msgs()[id] == recs[g]);
                    assert(seq_has_id(kv, recs[g].id));
                }
            }
            assert forall|id: u128| seq_has_id(kv, id) implies self.msgs()[id] == pre.msgs()[id] by {
                let i = seq_id_index(kv, id);
                assert(0 <= i < kv.len() && kv[i].id == id);
                assert(self.msgs()[id] == kv[i]);
                let g = choose|g: int|
                    0 <= g < n && recs[g] == kv[i] && kept_record(recs[g], max_age_hours, now);
                lemma_unique_index(recs, id, g);
                assert(pre.msgs()[id] == recs[g]);
            }
        }
        let m_len = self.pending.len();
        let ghost pred = keeps_id(pre.msgs(), max_age_hours, now);
        let mut new_pending: VecDeque<u128> = VecDeque::new();
        let mut t: usize = 0;
        while t < m_len
            invariant
                t <= m_len,
                m_len == pre.order().len(),
                self.pending@ == pre.order(),
                self.records() == kv,
                unique_ids(kv),
                forall|id: u128|
                    #![trigger seq_has_id(kv, id)]
                    seq_has_id(kv, id) <==> pred(id),
                new_pending@ == pre.order().take(t as int).filter(pred),
            decreases m_len - t,
        {
            let id = self.pending[t];
            let found = match self.find_index(id) {
                Some(_) => true,
                None => false,
            };
            proof {
                assert(found == seq_has_id(kv, id));
                reveal(Seq::filter);
                assert(pre.order().take(t + 1).drop_last() =~= pre.order().take(t as int));
                assert(pre.order().take(t + 1).last() == pre.order()[t as int]);
            }
            if found {
                new_pending.push_back(id);
            }
            t += 1;
        }
        self.pending = new_pending;
        proof {
            assert(pre.order().take(m_len as int) =~= pre.order());
            assert(self.order() == pre.order().filter(pred));
            assert forall|i: int|
                0 <= i < self.order().len() implies seq_has_id(
                self.records(),
                #[trigger] self.order()[i],
            ) by {
                pre.order().lemma_filter_pred(pred, i);
                assert(pred(self.order()[i]));
            }
        }
    }

    /// Removes every record older than `max_age_hours` hours at the present
    /// moment, except records still in flight (`Pending` or `Proving`),
    /// which are kept regardless of age; a pruned id is stripped from the
    /// ordering sequence and the lookup map in the same pass.
    pub fn prune_old_messages(&mut self, max_age_hours: u64)
        requires
            old(self).wf(),
            max_age_hours * 3600 <= u64::MAX,
        ensures
            final(self).wf(),
            exists|now: u64| pruned_with(*old(self), *final(self), max_age_hours, now),
    {
        let now = now_unix_secs();
        self.prune_at(max_age_hours, now);
    }

    /// After replacing the record at index `i` (whose id is `mid`) with a
    /// record carrying the same id, the map is the old map with `mid`
    /// rebound.
    proof fn lemma_msgs_after_update(
        &self,
        prev: &MessageQueue,
        i: int,
        mid: u128,
        mview: QueuedMessageView,
    )
        requires
            prev.wf(),
            0 <= i < prev.records().len(),
            prev.records()[i].id == mid,
            mview.id == mid,
            self.records() == prev.records().update(i, mview),
        ensures
            unique_ids(self.records()),
            self.msgs() == prev.msgs().insert(mid, mview),
    {
        let old_recs = prev.records();
        let new_recs = self.records();
        assert(new_recs.len() == old_recs.len());
        assert forall|p: int, q: int| #![trigger new_recs[p], new_recs[q]]
            0 <= p < q < new_recs.len() implies new_recs[p].id != new_recs[q].id by {
            assert(old_recs[p].id != old_recs[q].id);
            assert(new_recs[p].id == old_recs[p].id);
            assert(new_recs[q].id == old_recs[q].id);
        }
        assert forall|id: u128| true implies (seq_has_id(new_recs, id) <==> seq_has_id(
            old_recs,
            id,
        )) by {
            if seq_has_id(new_recs, id) {
                let k = choose|k: int| 0 <= k < new_recs.len() && new_recs[k].id == id;
                assert(old_recs[k].id == id);
            }
            if seq_has_id(old_recs, id) {
                let k = choose|k: int| 0 <= k < old_recs.len() && old_recs[k].id == id;
                assert(new_recs[k].id == id);
            }
        }
        assert forall|id: u128| seq_has_id(new_recs, id) implies self.msgs()[id]
            == prev.msgs().insert(mid, mview)[id] by {
            if id == mid {
                lemma_unique_index(new_recs, mid, i);
            } else {
                let k = seq_id_index(new_recs, id);
                assert(0 <= k < new_recs.len() && new_recs[k].id == id);
                assert(k != i);
                lemma_unique_index(new_recs, id, k);
                lemma_unique_index(old_recs, id, k);
            }
        }
        assert(self.msgs() =~= prev.msgs().insert(mid, mview));
    }
}

} // verus!
