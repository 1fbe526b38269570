//! The searchable part of an audit trail: for each logged decision, its id,
//! its timestamp and the action that was chosen, in the order of logging.

use vstd::prelude::*;
use crate::types::{TernaryAction, Timestamp};

verus! {

/// What an audit trail is searched by, for one logged decision.
#[derive(Debug, Clone, Copy, PartialEq, Eq, Structural)]
pub struct DecisionRecord {
    /// Decision id.
    pub id: u64,
    /// When the decision was taken.
    pub timestamp: Timestamp,
    /// The chosen action.
    pub action: TernaryAction,
}

/// The indices of the records of `s` that satisfy `p`, in increasing order.
pub open spec fn indices_where(s: Seq<DecisionRecord>, p: spec_fn(DecisionRecord) -> bool) -> Seq<
    usize,
>
    decreases s.len(),
{
    if s.len() == 0 {
        Seq::empty()
    } else {
        let rest = indices_where(s.drop_last(), p);
        if p(s.last()) {
            rest.push((s.len() - 1) as usize)
        } else {
            rest
        }
    }
}

/// The records with action `a`.
pub open spec fn has_action(a: TernaryAction) -> spec_fn(DecisionRecord) -> bool {
    |r: DecisionRecord| r.action == a
}

/// The records taken within `[start_ms, end_ms]`.
pub open spec fn within_time(start_ms: u64, end_ms: u64) -> spec_fn(DecisionRecord) -> bool {
    |r: DecisionRecord| start_ms <= r.timestamp <= end_ms
}

/// A record has an action exactly when its action is that one; it lies in a
/// time range exactly when its timestamp lies between the two ends, both
/// included.
pub proof fn lemma_record_predicates(r: DecisionRecord, a: TernaryAction, start_ms: u64, end_ms: u64)
    ensures
        has_action(a)(r) <==> r.action == a,
        within_time(start_ms, end_ms)(r) <==> start_ms <= r.timestamp && r.timestamp <= end_ms,
{
}

/// The number of records of `s` with action `a`.
pub open spec fn count_action(s: Seq<DecisionRecord>, a: TernaryAction) -> nat {
    indices_where(s, has_action(a)).len()
}

/// `i` is the position of the first record of `s` with the given id.
pub open spec fn is_first_with_id(s: Seq<DecisionRecord>, id: u64, i: int) -> bool {
    &&& 0 <= i < s.len()
    &&& s[i].id == id
    &&& forall|j: int| 0 <= j < i ==> s[j].id != id
}

/// The position of the first record of `s` with the given id, if any.
pub open spec fn first_with_id(s: Seq<DecisionRecord>, id: u64) -> Option<int> {
    if exists|i: int| 0 <= i < s.len() && s[i].id == id {
        Some(choose|i: int| is_first_with_id(s, id, i))
    } else {
        None
    }
}

/// Where some record has the given id, a first such record exists.
pub proof fn lemma_first_with_id_exists(s: Seq<DecisionRecord>, id: u64, i: int)
    requires
        0 <= i < s.len(),
        s[i].id == id,
    ensures
        exists|k: int| is_first_with_id(s, id, k),
    decreases i,
{
    if exists|j: int| 0 <= j < i && s[j].id == id {
        let j = choose|j: int| 0 <= j < i && s[j].id == id;
        lemma_first_with_id_exists(s, id, j);
    } else {
        assert(is_first_with_id(s, id, i));
    }
}

/// A position that is first with an id is the one `first_with_id` names.
pub proof fn lemma_first_with_id(s: Seq<DecisionRecord>, id: u64, i: int)
    requires
        is_first_with_id(s, id, i),
    ensures
        first_with_id(s, id) == Some(i),
{
    let c = choose|c: int| is_first_with_id(s, id, c);
    assert(is_first_with_id(s, id, c));
    if c < i {
        assert(s[c].id != id);
    } else if c > i {
        assert(s[i].id != id);
    }
}

/// The indices that `indices_where` gives are those, and only those, of the
/// records that satisfy the predicate, in strictly increasing order.
pub proof fn lemma_indices_where(s: Seq<DecisionRecord>, p: spec_fn(DecisionRecord) -> bool)
    requires
        s.len() <= usize::MAX,
    ensures
        indices_where(s, p).len() <= s.len(),
        forall|k: int|
            0 <= k < indices_where(s, p).len() ==> #[trigger] indices_where(s, p)[k] < s.len()
                && p(s[indices_where(s, p)[k] as int]),
        forall|k: int, l: int|
            0 <= k < l < indices_where(s, p).len() ==> indices_where(s, p)[k] < indices_where(
                s,
                p,
            )[l],
        forall|x: int|
            0 <= x < s.len() && #[trigger] p(s[x]) ==> indices_where(s, p).contains(x as usize),
    decreases s.len(),
{
    if s.len() > 0 {
        let t = s.drop_last();
        lemma_indices_where(t, p);
        let rest = indices_where(t, p);
        assert forall|x: int| 0 <= x < s.len() && #[trigger] p(s[x]) implies indices_where(
            s,
            p,
        ).contains(x as usize) by {
            if x < s.len() - 1 {
                assert(t[x] == s[x]);
                assert(rest.contains(x as usize));
                let w = choose|w: int| 0 <= w < rest.len() && rest[w] == x as usize;
                assert(indices_where(s, p)[w] == x as usize);
            } else {
                assert(indices_where(s, p)[rest.len() as int] == x as usize);
            }
        }
        assert forall|k: int|
            0 <= k < indices_where(s, p).len() implies #[trigger] indices_where(s, p)[k] < s.len()
            && p(s[indices_where(s, p)[k] as int]) by {
            if k < rest.len() {
                assert(indices_where(s, p)[k] == rest[k]);
                assert(t[rest[k] as int] == s[rest[k] as int]);
            }
        }
    }
}

/// The number of records with a given action never exceeds the number of
/// records.
pub proof fn lemma_count_action_bound(s: Seq<DecisionRecord>, a: TernaryAction)
    requires
        s.len() <= usize::MAX,
    ensures
        count_action(s, a) <= s.len(),
{
    lemma_indices_where(s, has_action(a));
}

/// Every logged decision is counted under exactly one action: the three
/// counts of an action distribution add up to the number of decisions.
pub proof fn lemma_counts_total(s: Seq<DecisionRecord>)
    ensures
        count_action(s, TernaryAction::Negative) + count_action(s, TernaryAction::Neutral)
            + count_action(s, TernaryAction::Positive) == s.len(),
    decreases s.len(),
{
    if s.len() > 0 {
        lemma_counts_total(s.drop_last());
    }
}

/// Logging a decision adds one to the count of its own action and leaves the
/// other counts as they were.
pub proof fn lemma_log_counts(s: Seq<DecisionRecord>, r: DecisionRecord, a: TernaryAction)
    ensures
        count_action(s.push(r), a) == count_action(s, a) + (if r.action == a {
            1int
        } else {
            0int
        }),
{
    assert(s.push(r).drop_last() == s);
}

/// Looking a decision up by id after logging it: a new id is found at the
/// position just logged; an id logged before keeps its earliest position.
pub proof fn lemma_log_then_find(s: Seq<DecisionRecord>, r: DecisionRecord)
    ensures
        first_with_id(s, r.id) is None ==> first_with_id(s.push(r), r.id) == Some(s.len() as int),
        first_with_id(s, r.id) is Some ==> first_with_id(s.push(r), r.id) == first_with_id(s, r.id),
{
    let t = s.push(r);
    assert forall|j: int| 0 <= j < s.len() implies t[j] == s[j] by {}
    if first_with_id(s, r.id) is None {
        assert forall|j: int| 0 <= j < s.len() implies t[j].id != r.id by {
            if t[j].id == r.id {
                assert(s[j].id == r.id);
            }
        }
        lemma_first_with_id(t, r.id, s.len() as int);
    } else {
        let w = choose|w: int| 0 <= w < s.len() && s[w].id == r.id;
        lemma_first_with_id_exists(s, r.id, w);
        let c = choose|c: int| is_first_with_id(s, r.id, c);
        assert(is_first_with_id(t, r.id, c));
        lemma_first_with_id(t, r.id, c);
    }
}

/// The searchable index of an audit trail, in the order decisions were logged.
#[derive(Debug)]
pub struct DecisionIndex {
    records: Vec<DecisionRecord>,
}

impl View for DecisionIndex {
    type V = Seq<DecisionRecord>;

    closed spec fn view(&self) -> Seq<DecisionRecord> {
        self.records@
    }
}

impl DecisionIndex {
    /// Create an empty index.
    pub fn new() -> (r: Self)
        ensures
            r@ == Seq::<DecisionRecord>::empty(),
    {
        DecisionIndex { records: Vec::new() }
    }

    /// Record one more decision, after all earlier ones.
    pub fn log(&mut self, id: u64, timestamp: Timestamp, action: TernaryAction)
        ensures
            final(self)@ == old(self)@.push(DecisionRecord { id, timestamp, action }),
    {
        self.records.push(DecisionRecord { id, timestamp, action });
    }

    /// Number of logged decisions.
    pub fn len(&self) -> (r: usize)
        ensures
            r == self@.len(),
    {
        self.records.len()
    }

    /// Whether nothing has been logged.
    pub fn is_empty(&self) -> (r: bool)
        ensures
            r <==> self@.len() == 0,
    {
        self.records.len() == 0
    }

    /// The record at position `i`.
    pub fn get(&self, i: usize) -> (r: DecisionRecord)
        requires
            i < self@.len(),
        ensures
            r == self@[i as int],
    {
        self.records[i]
    }

    /// The position of the first decision logged with the given id.
    pub fn position_of_id(&self, id: u64) -> (r: Option<usize>)
        ensures
            r matches Some(i) ==> is_first_with_id(self@, id, i as int),
            r matches Some(i) ==> first_with_id(self@, id) == Some(i as int),
            r is None <==> forall|j: int| 0 <= j < self@.len() ==> self@[j].id != id,
            r is None ==> first_with_id(self@, id) is None,
    {
        let n = self.records.len();
        let mut i: usize = 0;
        while i < n
            invariant
                n == self@.len(),
                i <= n,
                forall|j: int| 0 <= j < i ==> self@[j].id != id,
            decreases n - i,
        {
            if self.records[i].id == id {
                proof {
                    lemma_first_with_id(self@, id, i as int);
                }
                return Some(i);
            }
            i = i + 1;
        }
        None
    }

    /// How many logged decisions chose each action, in the order Negative,
    /// Neutral, Positive.
    pub fn action_distribution(&self) -> (r: [(TernaryAction, usize); 3])
        ensures
            r@[0] == (TernaryAction::Negative, count_action(self@, TernaryAction::Negative) as usize),
            r@[1] == (TernaryAction::Neutral, count_action(self@, TernaryAction::Neutral) as usize),
            r@[2] == (TernaryAction::Positive, count_action(self@, TernaryAction::Positive) as usize),
            count_action(self@, TernaryAction::Negative) <= usize::MAX,
            count_action(self@, TernaryAction::Neutral) <= usize::MAX,
            count_action(self@, TernaryAction::Positive) <= usize::MAX,
    {
        let n = self.records.len();
        let mut neg: usize = 0;
        let mut neu: usize = 0;
        let mut pos: usize = 0;
        let mut i: usize = 0;
        while i < n
            invariant
                n == self@.len(),
                i <= n,
                neg == count_action(self@.take(i as int), TernaryAction::Negative),
                neu == count_action(self@.take(i as int), TernaryAction::Neutral),
                pos == count_action(self@.take(i as int), TernaryAction::Positive),
            decreases n - i,
        {
            let ghost s = self@;
            assert(s.take(i + 1).drop_last() == s.take(i as int));
            proof {
                lemma_counts_total(s.take(i as int));
            }
            match self.records[i].action {
                TernaryAction::Negative => neg = neg + 1,
                TernaryAction::Neutral => neu = neu + 1,
                TernaryAction::Positive => pos = pos + 1,
            }
            i = i + 1;
        }
        assert(self@.take(n as int) == self@);
        [
            (TernaryAction::Negative, neg),
            (TernaryAction::Neutral, neu),
            (TernaryAction::Positive, pos),
        ]
    }

    /// The positions, in logging order, of the decisions that chose `action`.
    pub fn positions_with_action(&self, action: TernaryAction) -> (r: Vec<usize>)
        ensures
            r@ == indices_where(self@, has_action(action)),
            forall|k: int|
                0 <= k < r@.len() ==> #[trigger] r@[k] < self@.len() && self@[r@[k] as int].action
                    == action,
            forall|k: int, l: int| 0 <= k < l < r@.len() ==> r@[k] < r@[l],
            forall|x: int|
                0 <= x < self@.len() && #[trigger] self@[x].action == action ==> r@.contains(
                    x as usize,
                ),
    {
        let n = self.records.len();
        let mut r: Vec<usize> = Vec::new();
        let mut i: usize = 0;
        while i < n
            invariant
                n == self@.len(),
                i <= n,
                r@ == indices_where(self@.take(i as int), has_action(action)),
            decreases n - i,
        {
            let ghost s = self@;
            assert(s.take(i + 1).drop_last() == s.take(i as int));
            if self.records[i].action == action {
                r.push(i);
            }
            i = i + 1;
        }
        assert(self@.take(n as int) == self@);
        proof {
            lemma_indices_where(self@, has_action(action));
            assert forall|x: int|
                0 <= x < self@.len() && #[trigger] self@[x].action == action implies r@.contains(
                x as usize,
            ) by {
                assert(has_action(action)(self@[x]));
            }
        }
        r
    }

    /// The positions, in logging order, of the decisions taken within
    /// `[start_ms, end_ms]` (both ends included).
    pub fn positions_in_time_range(&self, start_ms: Timestamp, end_ms: Timestamp) -> (r: Vec<usize>)
        ensures
            r@ == indices_where(self@, within_time(start_ms, end_ms)),
            forall|k: int|
                0 <= k < r@.len() ==> #[trigger] r@[k] < self@.len() && start_ms <= self@[r@[k]
                    as int].timestamp <= end_ms,
            forall|k: int, l: int| 0 <= k < l < r@.len() ==> r@[k] < r@[l],
            forall|x: int|
                0 <= x < self@.len() && start_ms <= #[trigger] self@[x].timestamp <= end_ms
                    ==> r@.contains(x as usize),
    {
        let n = self.records.len();
        let mut r: Vec<usize> = Vec::new();
        let mut i: usize = 0;
        while i < n
            invariant
                n == self@.len(),
                i <= n,
                r@ == indices_where(self@.take(i as int), within_time(start_ms, end_ms)),
            decreases n - i,
        {
            let ghost s = self@;
            assert(s.take(i + 1).drop_last() == s.take(i as int));
            let ts = self.records[i].timestamp;
            if ts >= start_ms && ts <= end_ms {
                r.push(i);
            }
            i = i + 1;
        }
        assert(self@.take(n as int) == self@);
        proof {
            lemma_indices_where(self@, within_time(start_ms, end_ms));
            assert forall|x: int|
                0 <= x < self@.len() && start_ms <= #[trigger] self@[x].timestamp
                    <= end_ms implies r@.contains(x as usize) by {
                assert(within_time(start_ms, end_ms)(self@[x]));
            }
        }
        r
    }
}

} // verus!

verus! {

/// An audit trail: the logged items in logging order, each with the record it
/// is searched by.
#[derive(Debug)]
pub struct DecisionLog<T> {
    index: DecisionIndex,
    items: Vec<T>,
}

impl Clone for DecisionIndex {
    fn clone(&self) -> (r: Self)
        ensures
            r@ == self@,
    {
        let records = self.records.clone();
        assert forall|i: int| 0 <= i < records@.len() implies records@[i] == self.records@[i] by {
            assert(cloned::<DecisionRecord>(self.records[i], records[i]));
        }
        assert(records@ == self.records@);
        DecisionIndex { records }
    }
}

impl<T: Clone> Clone for DecisionLog<T> {
    fn clone(&self) -> (r: Self)
        ensures
            r.records() == self.records(),
            r.logged().len() == self.logged().len(),
            forall|i: int| 0 <= i < self.logged().len() ==> cloned::<T>(self.logged()[i], r.logged()[i]),
    {
        proof {
            use_type_invariant(self);
        }
        DecisionLog { index: self.index.clone(), items: self.items.clone() }
    }
}

impl<T> DecisionLog<T> {
    #[verifier::type_invariant]
    closed spec fn well_formed(&self) -> bool {
        self.index@.len() == self.items@.len()
    }

    /// The records of the logged decisions, in logging order.
    pub closed spec fn records(&self) -> Seq<DecisionRecord> {
        self.index@
    }

    /// The logged items, in logging order.
    pub closed spec fn logged(&self) -> Seq<T> {
        self.items@
    }

    /// The items of the log at the given positions.
    pub open spec fn items_at(&self, positions: Seq<usize>) -> Seq<T> {
        positions.map_values(|i: usize| self.logged()[i as int])
    }

    /// The items at a list of positions are one item per position: the item
    /// logged at that position.
    pub proof fn lemma_items_at(&self, positions: Seq<usize>)
        ensures
            self.items_at(positions).len() == positions.len(),
            forall|k: int|
                0 <= k < positions.len() ==> #[trigger] self.items_at(positions)[k]
                    == self.logged()[positions[k] as int],
    {
    }

    /// Create an empty log.
    pub fn new() -> (r: Self)
        ensures
            r.records() == Seq::<DecisionRecord>::empty(),
            r.logged() == Seq::<T>::empty(),
    {
        DecisionLog { index: DecisionIndex::new(), items: Vec::new() }
    }

    /// Log one more item with its id, timestamp and action, after all
    /// earlier ones.
    pub fn log(&mut self, id: u64, timestamp: Timestamp, action: TernaryAction, item: T)
        ensures
            final(self).records() == old(self).records().push(
                DecisionRecord { id, timestamp, action },
            ),
            final(self).logged() == old(self).logged().push(item),
    {
        proof {
            use_type_invariant(&*self);
        }
        let mut taken = DecisionLog::new();
        std::mem::swap(self, &mut taken);
        let DecisionLog { mut index, mut items } = taken;
        index.log(id, timestamp, action);
        items.push(item);
        *self = DecisionLog { index, items };
    }

    /// Number of logged items.
    pub fn len(&self) -> (r: usize)
        ensures
            r == self.logged().len(),
            r == self.records().len(),
    {
        proof {
            use_type_invariant(self);
        }
        self.items.len()
    }

    /// Whether nothing has been logged.
    pub fn is_empty(&self) -> (r: bool)
        ensures
            r <==> self.logged().len() == 0,
    {
        self.items.len() == 0
    }

    /// All logged items, in logging order.
    pub fn items(&self) -> (r: &[T])
        ensures
            r@ == self.logged(),
    {
        self.items.as_slice()
    }

    /// The item of the first decision logged with the given id.
    pub fn get_by_id(&self, id: u64) -> (r: Option<&T>)
        ensures
            r matches Some(x) ==> exists|i: int|
                is_first_with_id(self.records(), id, i) && *x == self.logged()[i],
            r is None <==> first_with_id(self.records(), id) is None,
    {
        proof {
            use_type_invariant(self);
        }
        match self.index.position_of_id(id) {
            Some(i) => Some(&self.items[i]),
            None => None,
        }
    }

    /// The items, in logging order, of the decisions that chose `action`.
    pub fn filter_by_action(&self, action: TernaryAction) -> (r: Vec<&T>)
        ensures
            r@.map_values(|x: &T| *x) == self.items_at(
                indices_where(self.records(), has_action(action)),
            ),
            r@.len() == count_action(self.records(), action),
            forall|k: int|
                0 <= k < r@.len() ==> *#[trigger] r@[k] == self.logged()[indices_where(
                    self.records(),
                    has_action(action),
                )[k] as int],
    {
        proof {
            use_type_invariant(self);
        }
        let positions = self.index.positions_with_action(action);
        // Being the length of a vector, this bounds the number of records.
        let _len: usize = self.items.len();
        proof {
            lemma_indices_where(self.records(), has_action(action));
        }
        self.gather(&positions)
    }

    /// The items, in logging order, of the decisions taken within
    /// `[start_ms, end_ms]` (both ends included).
    pub fn filter_by_time(&self, start_ms: Timestamp, end_ms: Timestamp) -> (r: Vec<&T>)
        ensures
            r@.map_values(|x: &T| *x) == self.items_at(
                indices_where(self.records(), within_time(start_ms, end_ms)),
            ),
            r@.len() == indices_where(self.records(), within_time(start_ms, end_ms)).len(),
            forall|k: int|
                0 <= k < r@.len() ==> *#[trigger] r@[k] == self.logged()[indices_where(
                    self.records(),
                    within_time(start_ms, end_ms),
                )[k] as int],
    {
        proof {
            use_type_invariant(self);
        }
        let positions = self.index.positions_in_time_range(start_ms, end_ms);
        // Being the length of a vector, this bounds the number of records.
        let _len: usize = self.items.len();
        proof {
            lemma_indices_where(self.records(), within_time(start_ms, end_ms));
        }
        self.gather(&positions)
    }

    /// How many logged decisions chose each action, in the order Negative,
    /// Neutral, Positive.
    pub fn action_distribution(&self) -> (r: [(TernaryAction, usize); 3])
        ensures
            r@[0] == (TernaryAction::Negative, count_action(
                self.records(),
                TernaryAction::Negative,
            ) as usize),
            r@[1] == (TernaryAction::Neutral, count_action(
                self.records(),
                TernaryAction::Neutral,
            ) as usize),
            r@[2] == (TernaryAction::Positive, count_action(
                self.records(),
                TernaryAction::Positive,
            ) as usize),
    {
        self.index.action_distribution()
    }

    /// The items at the given positions, in the order of the positions.
    fn gather(&self, positions: &Vec<usize>) -> (r: Vec<&T>)
        requires
            forall|k: int| 0 <= k < positions@.len() ==> #[trigger] positions@[k] < self.logged().len(),
        ensures
            r@.map_values(|x: &T| *x) == self.items_at(positions@),
            r@.len() == positions@.len(),
            forall|k: int| 0 <= k < r@.len() ==> *#[trigger] r@[k] == self.logged()[positions@[k] as int],
    {
        let n = positions.len();
        let mut r: Vec<&T> = Vec::new();
        let mut k: usize = 0;
        while k < n
            invariant
                n == positions@.len(),
                k <= n,
                forall|l: int| 0 <= l < n ==> #[trigger] positions@[l] < self.logged().len(),
                r@.map_values(|x: &T| *x) == self.items_at(positions@.take(k as int)),
                r@.len() == k,
                forall|l: int| 0 <= l < k ==> *#[trigger] r@[l] == self.logged()[positions@[l] as int],
            decreases n - k,
        {
            let p = positions[k];
            let ghost before = r@;
            r.push(&self.items[p]);
            assert(positions@.take(k + 1) == positions@.take(k as int).push(p));
            assert(r@.map_values(|x: &T| *x) == before.map_values(|x: &T| *x).push(
                self.logged()[p as int],
            ));
            assert(self.items_at(positions@.take(k + 1)) == self.items_at(
                positions@.take(k as int),
            ).push(self.logged()[p as int]));
            k = k + 1;
        }
        assert(positions@.take(n as int) == positions@);
        r
    }
}

} // verus!
