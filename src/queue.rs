use crate::track::{snapshot_entries, snapshot_key_at, snapshot_keys, snapshot_len, FxIndexMap, Track, TrackId};
use std::collections::HashMap;
use vstd::prelude::*;

verus! {

broadcast use vstd::std_specs::hash::group_hash_axioms;

/// The view order: storage positions held in an `imbl` persistent vector,
/// opaque to proofs and read or changed only through the wrappers below.
#[verifier::external_body]
pub struct ViewOrder {
    inner: imbl::Vector<usize>,
}

/// The elements of a persistent vector of storage positions, in order.
pub uninterp spec fn order_items(v: ViewOrder) -> Seq<usize>;

/// Relies on imbl::Vector::new: a vector with no elements.
#[verifier::external_body]
fn order_new() -> (r: ViewOrder)
    ensures
        order_items(r) == Seq::<usize>::empty(),
{
    ViewOrder { inner: imbl::Vector::new() }
}

/// Relies on imbl::Vector::len: the number of elements.
#[verifier::external_body]
fn order_len(v: &ViewOrder) -> (r: usize)
    ensures
        r == order_items(*v).len(),
{
    v.inner.len()
}

/// Relies on imbl::Vector::get: the element at an index, or nothing out of bounds.
#[verifier::external_body]
fn order_get(v: &ViewOrder, i: usize) -> (r: Option<usize>)
    ensures
        i < order_items(*v).len() ==> r == Some(order_items(*v)[i as int]),
        i >= order_items(*v).len() ==> r is None,
{
    v.inner.get(i).copied()
}

/// Relies on imbl::Vector::push_back: appends one element at the end.
#[verifier::external_body]
fn order_push_back(v: &mut ViewOrder, x: usize)
    ensures
        order_items(*final(v)) == order_items(*old(v)).push(x),
{
    v.inner.push_back(x)
}

/// Relies on imbl::Vector::swap: exchanges the elements at two indices, which
/// must be in bounds.
#[verifier::external_body]
fn order_swap(v: &mut ViewOrder, i: usize, j: usize)
    requires
        i < order_items(*old(v)).len(),
        j < order_items(*old(v)).len(),
    ensures
        order_items(*final(v)) == swap_at(order_items(*old(v)), i as int, j as int),
{
    v.inner.swap(i, j)
}

/// Relies on rand::random_range: a number drawn uniformly from `0..=upper`.
#[verifier::external_body]
fn draw_index(upper: usize) -> (r: usize)
    ensures
        r <= upper,
{
    rand::random_range(0..=upper)
}

/// `s` with the elements at `i` and `j` exchanged.
pub open spec fn swap_at<A>(s: Seq<A>, i: int, j: int) -> Seq<A> {
    s.update(i, s[j]).update(j, s[i])
}

/// Draws for a Fisher–Yates shuffle of `n` elements: draw `i` lies in `0..=i`.
pub open spec fn valid_draws(d: Seq<usize>, n: nat) -> bool {
    d.len() == n && forall|i: int| 0 <= i < n ==> #[trigger] d[i] <= i
}

/// The Fisher–Yates passes for indices `k - 1` down to `0`: each swaps the
/// element at `i` with the one at draw `i`.
pub open spec fn shuffled_from<A>(s: Seq<A>, d: Seq<usize>, k: nat) -> Seq<A>
    decreases k,
{
    if k == 0 {
        s
    } else {
        shuffled_from(swap_at(s, k - 1, d[k - 1] as int), d, (k - 1) as nat)
    }
}

/// The Fisher–Yates permutation of `s` chosen by draws `d`.
pub open spec fn fisher_yates<A>(s: Seq<A>, d: Seq<usize>) -> Seq<A> {
    shuffled_from(s, d, s.len())
}

/// The indices of `s` that hold `id`, ascending.
pub open spec fn positions_of(s: Seq<TrackId>, id: TrackId) -> Seq<usize>
    decreases s.len(),
{
    if s.len() == 0 {
        Seq::empty()
    } else {
        let r = positions_of(s.drop_last(), id);
        if s.last() == id {
            r.push((s.len() - 1) as usize)
        } else {
            r
        }
    }
}

/// The positions of `ps`, in order, whose stored track is not `id`.
pub open spec fn kept_positions(ps: Seq<usize>, store: Seq<TrackId>, id: TrackId) -> Seq<usize>
    decreases ps.len(),
{
    if ps.len() == 0 {
        ps
    } else {
        let r = kept_positions(ps.drop_last(), store, id);
        if store[ps.last() as int] == id {
            r
        } else {
            r.push(ps.last())
        }
    }
}

/// Where the cursor stands once every occurrence of `id` is removed: on the
/// same entry if it stays, else on the next remaining one, wrapping to the
/// first; unset when nothing remains.
pub open spec fn cursor_after_removal(
    ps: Seq<usize>,
    store: Seq<TrackId>,
    id: TrackId,
    c: Option<int>,
) -> Option<int> {
    match c {
        None => None,
        Some(c) => {
            let n = kept_positions(ps, store, id).len();
            let m = kept_positions(ps.take(c), store, id).len();
            if m < n {
                Some(m as int)
            } else if n > 0 {
                Some(0)
            } else {
                None
            }
        },
    }
}

/// The view index the cursor moves to on `next`: the successor, or the first
/// entry when there is none.
pub open spec fn next_cursor(c: Option<int>, n: nat) -> int {
    match c {
        Some(c) => if c + 1 < n {
            c + 1
        } else {
            0
        },
        None => 0,
    }
}

/// The cursor after `t` calls of `next` from view index `c`.
pub open spec fn cursor_after(c: int, n: nat, t: nat) -> int
    decreases t,
{
    if t == 0 {
        c
    } else {
        next_cursor(Some(cursor_after(c, n, (t - 1) as nat)), n)
    }
}

/// Playback order: tracks kept at stable storage positions, a view order that
/// lists the positions in play order, a cursor on the view, and a reverse
/// index from each track to the positions that hold it.
pub struct Queue {
    slots: Vec<TrackId>,
    order: ViewOrder,
    curr: Option<usize>,
    tracks: HashMap<TrackId, Vec<usize>>,
}

impl Queue {
    /// Every track ever placed in the queue, by storage position.
    pub closed spec fn storage(&self) -> Seq<TrackId> {
        self.slots@
    }

    /// The storage positions in view (play) order.
    pub closed spec fn positions(&self) -> Seq<usize> {
        order_items(self.order)
    }

    /// The view index of the cursor, when set.
    pub closed spec fn cursor(&self) -> Option<int> {
        match self.curr {
            Some(c) => Some(c as int),
            None => None,
        }
    }

    /// The tracks in play order.
    pub open spec fn view(&self) -> Seq<TrackId> {
        self.positions().map_values(|p: usize| self.storage()[p as int])
    }

    /// The storage position under the cursor, when set.
    pub open spec fn current_slot(&self) -> Option<int> {
        match self.cursor() {
            Some(c) => Some(self.positions()[c] as int),
            None => None,
        }
    }

    /// The cursor once `curr` has healed it: an unset cursor on a non-empty
    /// queue stands on the first entry.
    pub open spec fn healed_cursor(&self) -> Option<int> {
        if self.cursor() is None && self.view().len() > 0 {
            Some(0int)
        } else {
            self.cursor()
        }
    }

    /// What `curr` returns.
    pub open spec fn spec_curr(&self) -> Option<TrackId> {
        match self.healed_cursor() {
            Some(c) => Some(self.view()[c]),
            None => None,
        }
    }

    /// What `peek_next` returns: the entry after the cursor's, if any.
    pub open spec fn spec_peek_next(&self) -> Option<TrackId> {
        match self.cursor() {
            Some(c) => if c + 1 < self.view().len() {
                Some(self.view()[c + 1])
            } else {
                None
            },
            None => None,
        }
    }

    pub closed spec fn wf(&self) -> bool {
        &&& forall|k: int|
            0 <= k < order_items(self.order).len() ==> #[trigger] order_items(self.order)[k]
                < self.slots@.len()
        &&& order_items(self.order).no_duplicates()
        &&& self.curr matches Some(c) ==> c < order_items(self.order).len()
        &&& forall|id: TrackId| #[trigger]
            self.tracks@.contains_key(id) <==> self.view().contains(id)
        &&& forall|id: TrackId| #[trigger]
            self.tracks@.contains_key(id) ==> self.tracks@[id]@ == positions_of(self.slots@, id)
    }

    /// What well-formedness gives callers: the cursor, when set, is an index
    /// of the view, and the view order lists distinct storage positions.
    pub proof fn lemma_wf(&self)
        requires
            self.wf(),
        ensures
            self.cursor() matches Some(c) ==> 0 <= c < self.view().len(),
            self.positions().no_duplicates(),
            forall|k: int|
                0 <= k < self.positions().len() ==> #[trigger] self.positions()[k]
                    < self.storage().len(),
    {
    }

    /// Builds the queue in library order, with the cursor on the first track
    /// when there is one.
    pub fn new(library: &FxIndexMap<TrackId, Track>) -> (q: Queue)
        ensures
            q.wf(),
            q.view() == snapshot_keys(*library),
            q.storage() == snapshot_keys(*library),
            q.cursor() == (if snapshot_keys(*library).len() > 0 {
                Some(0int)
            } else {
                None
            }),
    {
        let n = snapshot_len(library);
        let ghost keys = snapshot_keys(*library);
        let mut slots: Vec<TrackId> = Vec::new();
        let mut order = order_new();
        let mut tracks: HashMap<TrackId, Vec<usize>> = HashMap::new();
        let mut i: usize = 0;
        while i < n
            invariant
                n == snapshot_entries(*library).len(),
                keys == snapshot_keys(*library),
                i <= n,
                slots@ == keys.take(i as int),
                order_items(order) == Seq::new(i as nat, |k: int| k as usize),
                forall|id: TrackId| #[trigger] tracks@.contains_key(id) <==> slots@.contains(id),
                forall|id: TrackId| #[trigger]
                    tracks@.contains_key(id) ==> tracks@[id]@ == positions_of(slots@, id),
            decreases n - i,
        {
            let k = match snapshot_key_at(library, i) {
                Some(k) => k,
                None => {
                    proof {
                        assert(false);
                    }
                    0
                },
            };
            assert(k == keys[i as int]);
            order_push_back(&mut order, i);
            let prev = tracks.remove(&k);
            let mut v: Vec<usize> = match prev {
                Some(v) => v,
                None => Vec::new(),
            };
            proof {
                if !slots@.contains(k) {
                    lemma_positions_absent(slots@, k);
                }
            }
            v.push(i);
            tracks.insert(k, v);
            let ghost before = slots@;
            slots.push(k);
            proof {
                assert(slots@.drop_last() =~= before);
                assert(slots@ =~= keys.take(i + 1));
                assert forall|id: TrackId| #[trigger]
                    tracks@.contains_key(id) implies tracks@[id]@ == positions_of(slots@, id) by {
                    assert(positions_of(slots@, id) == (if id == k {
                        positions_of(before, id).push(i)
                    } else {
                        positions_of(before, id)
                    }));
                }
                assert forall|id: TrackId| #[trigger]
                    tracks@.contains_key(id) <==> slots@.contains(id) by {
                    if slots@.contains(id) && id != k {
                        let w = choose|w: int| 0 <= w < slots@.len() && slots@[w] == id;
                        assert(before[w] == id);
                    }
                    if before.contains(id) {
                        let w = choose|w: int| 0 <= w < before.len() && before[w] == id;
                        assert(slots@[w] == id);
                    }
                    if id == k {
                        assert(slots@[i as int] == id);
                    }
                }
                assert(order_items(order) =~= Seq::new((i + 1) as nat, |k: int| k as usize));
            }
            i = i + 1;
        }
        let q = Queue { slots, order, curr: if n > 0 { Some(0) } else { None }, tracks };
        proof {
            assert(slots@ =~= keys);
            assert(q.view() =~= keys);
            assert(order_items(q.order).no_duplicates());
        }
        q
    }

    /// The track under the cursor. An unset cursor on a non-empty queue is
    /// first moved to the first entry.
    pub fn curr(&mut self) -> (r: Option<TrackId>)
        requires
            old(self).wf(),
        ensures
            final(self).wf(),
            final(self).storage() == old(self).storage(),
            final(self).positions() == old(self).positions(),
            final(self).cursor() == old(self).healed_cursor(),
            old(self).cursor() is Some || old(self).view().len() == 0 ==> *final(self) == *old(
                self
            ),
            r == old(self).spec_curr(),
            r is Some <==> old(self).view().len() > 0,
    {
        let n = order_len(&self.order);
        if self.curr.is_none() {
            if n == 0 {
                return None;
            }
            self.curr = Some(0);
        }
        let c = match self.curr {
            Some(c) => c,
            None => 0,
        };
        self.track_at(c)
    }

    /// Moves the cursor to the next entry of the view, wrapping to the first
    /// after the last; returns the track now under it.
    pub fn next(&mut self) -> (r: Option<TrackId>)
        requires
            old(self).wf(),
        ensures
            final(self).wf(),
            final(self).storage() == old(self).storage(),
            final(self).positions() == old(self).positions(),
            old(self).view().len() == 0 ==> r is None && *final(self) == *old(self),
            old(self).view().len() > 0 ==> final(self).cursor() == Some(
                next_cursor(old(self).cursor(), old(self).view().len()),
            ) && r == Some(
                old(self).view()[next_cursor(old(self).cursor(), old(self).view().len())],
            ),
    {
        let n = order_len(&self.order);
        if n == 0 {
            return None;
        }
        let c: usize = match self.curr {
            Some(c) => if c + 1 < n {
                c + 1
            } else {
                0
            },
            None => 0,
        };
        self.curr = Some(c);
        self.track_at(c)
    }

    /// The successor of the cursor's entry in the view, without moving the
    /// cursor; nothing after the last entry or with no cursor.
    pub fn peek_next(&self) -> (r: Option<TrackId>)
        requires
            self.wf(),
        ensures
            r == self.spec_peek_next(),
    {
        match self.curr {
            Some(c) => {
                let n = order_len(&self.order);
                if c + 1 < n {
                    self.track_at(c + 1)
                } else {
                    None
                }
            },
            None => None,
        }
    }

    /// The track at an index of the view.
    pub fn track_at(&self, index: usize) -> (r: Option<TrackId>)
        requires
            self.wf(),
        ensures
            r == (if index < self.view().len() {
                Some(self.view()[index as int])
            } else {
                None::<TrackId>
            }),
    {
        match order_get(&self.order, index) {
            Some(p) => Some(self.slots[p]),
            None => None,
        }
    }

    /// Removes every occurrence of a track from the view and returns the
    /// storage positions that held it, or nothing when the track is not in
    /// the queue. A cursor on a removed entry moves to the next remaining
    /// entry, wrapping to the first, and is unset when the queue empties.
    pub fn remove_by_uuid(&mut self, uuid: TrackId) -> (r: Option<Vec<usize>>)
        requires
            old(self).wf(),
        ensures
            final(self).wf(),
            final(self).storage() == old(self).storage(),
            r is None <==> !old(self).view().contains(uuid),
            r is None ==> final(self).positions() == old(self).positions() && final(self).cursor()
                == old(self).cursor(),
            r matches Some(ps) ==> {
                &&& ps@ == positions_of(old(self).storage(), uuid)
                &&& final(self).positions() == kept_positions(
                    old(self).positions(),
                    old(self).storage(),
                    uuid,
                )
                &&& final(self).cursor() == cursor_after_removal(
                    old(self).positions(),
                    old(self).storage(),
                    uuid,
                    old(self).cursor(),
                )
            },
    {
        let removed = self.tracks.remove(&uuid);
        let ps = match removed {
            Some(ps) => ps,
            None => {
                return None;
            },
        };
        let ghost start = order_items(self.order);
        let ghost store = self.slots@;
        let n = order_len(&self.order);
        let mut kept = order_new();
        let mut before_cursor: Option<usize> = None;
        let mut k: usize = 0;
        while k < n
            invariant
                k <= n,
                n == start.len(),
                start == order_items(self.order),
                store == self.slots@,
                forall|t: int| 0 <= t < start.len() ==> #[trigger] start[t] < store.len(),
                order_items(kept) == kept_positions(start.take(k as int), store, uuid),
                self.curr == old(self).curr,
                before_cursor == (match self.curr {
                    Some(c) => if c < k {
                        Some(kept_positions(start.take(c as int), store, uuid).len() as usize)
                    } else {
                        None::<usize>
                    },
                    None => None::<usize>,
                }),
            decreases n - k,
        {
            if self.curr == Some(k) {
                before_cursor = Some(order_len(&kept));
                proof {
                    lemma_kept_len(start.take(k as int), store, uuid);
                }
            }
            let p = match order_get(&self.order, k) {
                Some(p) => p,
                None => {
                    proof {
                        assert(false);
                    }
                    0
                },
            };
            if self.slots[p] != uuid {
                order_push_back(&mut kept, p);
            }
            proof {
                assert(start.take(k + 1).drop_last() =~= start.take(k as int));
            }
            k = k + 1;
        }
        let m = order_len(&kept);
        self.curr = match before_cursor {
            Some(b) => if b < m {
                Some(b)
            } else if m > 0 {
                Some(0)
            } else {
                None
            },
            None => None,
        };
        self.order = kept;
        proof {
            assert(start.take(n as int) =~= start);
            lemma_kept_contains(start, store, uuid);
            lemma_kept_no_dup(start, store, uuid);
            let after = order_items(self.order);
            assert forall|t: int| 0 <= t < after.len() implies #[trigger] after[t] < store.len() by {
                assert(after.contains(after[t]));
                let w = choose|w: int| 0 <= w < start.len() && start[w] == after[t];
            }
            assert(ps@ == positions_of(store, uuid));
            assert(after == kept_positions(start, store, uuid));
            if let Some(c) = old(self).curr {
                lemma_kept_len(start.take(c as int), store, uuid);
                assert(before_cursor == Some(
                    kept_positions(start.take(c as int), store, uuid).len() as usize,
                ));
            }
            assert(self.cursor() == cursor_after_removal(start, store, uuid, old(self).cursor()));
            assert forall|id: TrackId| #[trigger]
                self.tracks@.contains_key(id) <==> self.view().contains(id) by {
                lemma_view_contains(start, store, id);
                lemma_view_contains(after, store, id);
                if self.view().contains(id) {
                    let p = choose|p: usize| after.contains(p) && store[p as int] == id;
                    assert(start.contains(p));
                }
                if self.tracks@.contains_key(id) {
                    let p = choose|p: usize| start.contains(p) && store[p as int] == id;
                    assert(after.contains(p));
                }
            }
        }
        Some(ps)
    }

    /// Applies Fisher–Yates with the given draws to the view order; the cursor
    /// stays on the same storage position.
    pub fn shuffle_with(&mut self, draws: &Vec<usize>)
        requires
            old(self).wf(),
            valid_draws(draws@, old(self).view().len()),
        ensures
            final(self).wf(),
            final(self).storage() == old(self).storage(),
            final(self).positions() == fisher_yates(old(self).positions(), draws@),
            final(self).current_slot() == old(self).current_slot(),
    {
        let n = order_len(&self.order);
        let ghost start = order_items(self.order);
        let mut k: usize = n;
        while k > 0
            invariant
                self.wf(),
                k <= n,
                n == order_items(self.order).len(),
                n == start.len(),
                valid_draws(draws@, n as nat),
                self.slots@ == old(self).slots@,
                shuffled_from(order_items(self.order), draws@, k as nat) == shuffled_from(
                    start,
                    draws@,
                    n as nat,
                ),
                self.current_slot() == old(self).current_slot(),
                start == old(self).positions(),
            decreases k,
        {
            k = k - 1;
            let j = draws[k];
            assert(draws@[k as int] <= k);
            let ghost before = order_items(self.order);
            let ghost old_view = self.view();
            if j != k {
                order_swap(&mut self.order, k, j);
                if self.curr == Some(k) {
                    self.curr = Some(j);
                } else if self.curr == Some(j) {
                    self.curr = Some(k);
                }
                proof {
                    lemma_swap_keeps(before, k as int, j as int);
                    assert(self.view() =~= swap_at(old_view, k as int, j as int));
                    lemma_swap_keeps(old_view, k as int, j as int);
                }
            } else {
                assert(swap_at(before, k as int, j as int) =~= before);
            }
        }
        proof {
            assert(fisher_yates(start, draws@) == shuffled_from(start, draws@, n as nat));
        }
    }

    /// Shuffles the view order with Fisher–Yates, drawing each index from the
    /// random source; the cursor stays on the same storage position.
    pub fn shuffle(&mut self)
        requires
            old(self).wf(),
        ensures
            final(self).wf(),
            final(self).storage() == old(self).storage(),
            exists|d: Seq<usize>|
                valid_draws(d, old(self).view().len()) && final(self).positions() == fisher_yates(
                    old(self).positions(),
                    d,
                ),
            final(self).current_slot() == old(self).current_slot(),
    {
        let n = order_len(&self.order);
        let mut draws: Vec<usize> = Vec::new();
        let mut i: usize = 0;
        while i < n
            invariant
                i <= n,
                draws@.len() == i,
                forall|t: int| 0 <= t < i ==> #[trigger] draws@[t] <= t,
            decreases n - i,
        {
            let j = draw_index(i);
            draws.push(j);
            i = i + 1;
        }
        self.shuffle_with(&draws);
    }
}

proof fn lemma_positions_absent(s: Seq<TrackId>, id: TrackId)
    requires
        !s.contains(id),
    ensures
        positions_of(s, id) == Seq::<usize>::empty(),
    decreases s.len(),
{
    if s.len() > 0 {
        assert(!s.drop_last().contains(id)) by {
            if s.drop_last().contains(id) {
                let w = choose|w: int| 0 <= w < s.drop_last().len() && s.drop_last()[w] == id;
                assert(s[w] == id);
            }
        }
        lemma_positions_absent(s.drop_last(), id);
        assert(s[s.len() - 1] != id);
    }
}

proof fn lemma_kept_contains(ps: Seq<usize>, store: Seq<TrackId>, id: TrackId)
    ensures
        forall|p: usize| #[trigger]
            kept_positions(ps, store, id).contains(p) <==> ps.contains(p) && store[p as int] != id,
    decreases ps.len(),
{
    if ps.len() > 0 {
        let init = ps.drop_last();
        lemma_kept_contains(init, store, id);
        let r = kept_positions(init, store, id);
        assert forall|p: usize| #[trigger]
            kept_positions(ps, store, id).contains(p) <==> ps.contains(p) && store[p as int]
                != id by {
            if ps.contains(p) && p != ps.last() {
                let w = choose|w: int| 0 <= w < ps.len() && ps[w] == p;
                assert(init[w] == p);
            }
            if init.contains(p) {
                let w = choose|w: int| 0 <= w < init.len() && init[w] == p;
                assert(ps[w] == p);
            }
            if store[ps.last() as int] != id {
                assert(r.push(ps.last())[r.len() as int] == ps.last());
                if r.contains(p) {
                    let w = choose|w: int| 0 <= w < r.len() && r[w] == p;
                    assert(r.push(ps.last())[w] == p);
                }
                if r.push(ps.last()).contains(p) && p != ps.last() {
                    let w = choose|w: int| 0 <= w < r.len() + 1 && r.push(ps.last())[w] == p;
                    assert(r[w] == p);
                }
            }
            assert(ps[ps.len() - 1] == ps.last());
        }
    }
}

proof fn lemma_kept_len(ps: Seq<usize>, store: Seq<TrackId>, id: TrackId)
    ensures
        kept_positions(ps, store, id).len() <= ps.len(),
    decreases ps.len(),
{
    if ps.len() > 0 {
        lemma_kept_len(ps.drop_last(), store, id);
    }
}

proof fn lemma_kept_no_dup(ps: Seq<usize>, store: Seq<TrackId>, id: TrackId)
    requires
        ps.no_duplicates(),
    ensures
        kept_positions(ps, store, id).no_duplicates(),
    decreases ps.len(),
{
    if ps.len() > 0 {
        let init = ps.drop_last();
        assert(init.no_duplicates());
        lemma_kept_no_dup(init, store, id);
        lemma_kept_contains(init, store, id);
        let r = kept_positions(init, store, id);
        if store[ps.last() as int] != id {
            assert(!init.contains(ps.last()));
            assert(!r.contains(ps.last()));
            let t = r.push(ps.last());
            assert forall|a: int, b: int| 0 <= a < t.len() && 0 <= b < t.len() && a != b implies t[a]
                != t[b] by {
                if a < r.len() && b == r.len() {
                    assert(r.contains(t[a]));
                }
                if b < r.len() && a == r.len() {
                    assert(r.contains(t[b]));
                }
            }
        }
    }
}

proof fn lemma_view_contains(ps: Seq<usize>, store: Seq<TrackId>, id: TrackId)
    requires
        forall|t: int| 0 <= t < ps.len() ==> #[trigger] ps[t] < store.len(),
    ensures
        ps.map_values(|p: usize| store[p as int]).contains(id) <==> exists|p: usize|
            ps.contains(p) && store[p as int] == id,
{
    let v = ps.map_values(|p: usize| store[p as int]);
    if v.contains(id) {
        let w = choose|w: int| 0 <= w < v.len() && v[w] == id;
        assert(ps.contains(ps[w]));
    }
    if exists|p: usize| ps.contains(p) && store[p as int] == id {
        let p = choose|p: usize| ps.contains(p) && store[p as int] == id;
        let w = choose|w: int| 0 <= w < ps.len() && ps[w] == p;
        assert(v[w] == id);
    }
}

proof fn lemma_swap_keeps<A>(s: Seq<A>, i: int, j: int)
    requires
        0 <= i < s.len(),
        0 <= j < s.len(),
    ensures
        swap_at(s, i, j).len() == s.len(),
        forall|x: A| #[trigger] swap_at(s, i, j).contains(x) <==> s.contains(x),
        s.no_duplicates() ==> swap_at(s, i, j).no_duplicates(),
{
    let t = swap_at(s, i, j);
    assert forall|x: A| #[trigger] t.contains(x) <==> s.contains(x) by {
        if t.contains(x) {
            let w = choose|w: int| 0 <= w < t.len() && t[w] == x;
            let v = if w == i {
                j
            } else if w == j {
                i
            } else {
                w
            };
            assert(s[v] == x);
        }
        if s.contains(x) {
            let w = choose|w: int| 0 <= w < s.len() && s[w] == x;
            let v = if w == i {
                j
            } else if w == j {
                i
            } else {
                w
            };
            assert(t[v] == x);
        }
    }
}

/// Some call among the first `n` calls of `next` from view index `c` lands on
/// view index `p`.
pub open spec fn cycle_reaches(c: int, n: nat, p: int) -> bool {
    exists|t: nat| 1 <= t <= n && #[trigger] cursor_after(c, n, t) == p
}

/// Repeated `next` on a non-empty queue walks the view as a cycle: after `t`
/// calls from view index `c` the cursor is at `(c + t) mod n`, so the first
/// `n` calls visit every entry exactly once and the `n`-th is back at `c`.
pub proof fn lemma_next_cycle(c: int, n: nat)
    requires
        n > 0,
        0 <= c < n,
    ensures
        forall|t: nat| #[trigger] cursor_after(c, n, t) == (c + t) % (n as int),
        cursor_after(c, n, n) == c,
        forall|t1: nat, t2: nat|
            1 <= t1 < t2 <= n ==> #[trigger] cursor_after(c, n, t1) != #[trigger] cursor_after(
                c,
                n,
                t2,
            ),
        forall|p: int| 0 <= p < n ==> #[trigger] cycle_reaches(c, n, p),
{
    assert forall|t: nat| #[trigger] cursor_after(c, n, t) == (c + t) % (n as int) by {
        lemma_cursor_after_mod(c, n, t);
    }
    assert forall|p: int| 0 <= p < n implies #[trigger] cycle_reaches(c, n, p) by {
        let t: nat = if p > c {
            (p - c) as nat
        } else {
            (p - c + n) as nat
        };
        lemma_cursor_after_mod(c, n, t);
        if p > c {
            vstd::arithmetic::div_mod::lemma_small_mod(p as nat, n);
        } else {
            vstd::arithmetic::div_mod::lemma_mod_add_multiples_vanish(p, n as int);
            vstd::arithmetic::div_mod::lemma_small_mod(p as nat, n);
        }
        assert(cursor_after(c, n, t) == p);
    }
    vstd::arithmetic::div_mod::lemma_mod_add_multiples_vanish(c, n as int);
    vstd::arithmetic::div_mod::lemma_small_mod(c as nat, n);
    assert forall|t1: nat, t2: nat| 1 <= t1 < t2 <= n implies #[trigger] cursor_after(c, n, t1)
        != #[trigger] cursor_after(c, n, t2) by {
        let m = n as int;
        let a = c + t1;
        let b = c + t2;
        vstd::arithmetic::div_mod::lemma_fundamental_div_mod(a, m);
        vstd::arithmetic::div_mod::lemma_fundamental_div_mod(b, m);
        if a % m == b % m {
            let q = b / m - a / m;
            assert(b - a == m * q) by (nonlinear_arith)
                requires
                    a == m * (a / m) + a % m,
                    b == m * (b / m) + b % m,
                    a % m == b % m,
                    q == b / m - a / m,
            ;
            assert(false) by (nonlinear_arith)
                requires
                    0 < b - a < m,
                    b - a == m * q,
            ;
        }
    }
}

proof fn lemma_cursor_after_mod(c: int, n: nat, t: nat)
    requires
        n > 0,
        0 <= c < n,
    ensures
        cursor_after(c, n, t) == (c + t) % (n as int),
    decreases t,
{
    let m = n as int;
    if t == 0 {
        vstd::arithmetic::div_mod::lemma_small_mod(c as nat, n);
    } else {
        lemma_cursor_after_mod(c, n, (t - 1) as nat);
        let prev = (c + t - 1) % m;
        vstd::arithmetic::div_mod::lemma_mod_bound(c + t - 1, m);
        vstd::arithmetic::div_mod::lemma_add_mod_noop(c + t - 1, 1, m);
        if n == 1 {
            vstd::arithmetic::div_mod::lemma_mod_self_0(1);
            vstd::arithmetic::div_mod::lemma_small_mod(0, 1);
        } else {
            vstd::arithmetic::div_mod::lemma_small_mod(1, n);
            if prev + 1 < m {
                vstd::arithmetic::div_mod::lemma_small_mod((prev + 1) as nat, n);
            } else {
                vstd::arithmetic::div_mod::lemma_mod_self_0(m);
            }
        }
    }
}

proof fn lemma_shuffled_fixes<A>(s: Seq<A>, d: Seq<usize>, k: nat)
    requires
        k <= s.len(),
        k <= d.len(),
        forall|i: int| 0 <= i < k ==> #[trigger] d[i] <= i,
    ensures
        shuffled_from(s, d, k).len() == s.len(),
        forall|p: int| k <= p < s.len() ==> #[trigger] shuffled_from(s, d, k)[p] == s[p],
        forall|x: A| #[trigger] shuffled_from(s, d, k).contains(x) <==> s.contains(x),
        s.no_duplicates() ==> shuffled_from(s, d, k).no_duplicates(),
    decreases k,
{
    if k > 0 {
        let i = k - 1;
        let t = swap_at(s, i, d[i] as int);
        lemma_swap_keeps(s, i, d[i] as int);
        lemma_shuffled_fixes(t, d, (k - 1) as nat);
    }
}

proof fn lemma_shuffled_injective<A>(s: Seq<A>, d1: Seq<usize>, d2: Seq<usize>, k: nat, w: int)
    requires
        s.no_duplicates(),
        k <= s.len(),
        k <= d1.len(),
        k <= d2.len(),
        forall|i: int| 0 <= i < k ==> #[trigger] d1[i] <= i,
        forall|i: int| 0 <= i < k ==> #[trigger] d2[i] <= i,
        0 <= w < k,
        d1[w] != d2[w],
    ensures
        shuffled_from(s, d1, k) != shuffled_from(s, d2, k),
    decreases k,
{
    let i = k - 1;
    let t1 = swap_at(s, i, d1[i] as int);
    let t2 = swap_at(s, i, d2[i] as int);
    lemma_swap_keeps(s, i, d1[i] as int);
    lemma_swap_keeps(s, i, d2[i] as int);
    if d1[i] != d2[i] {
        lemma_shuffled_fixes(t1, d1, i as nat);
        lemma_shuffled_fixes(t2, d2, i as nat);
        assert(t1[i] != t2[i]);
        assert(shuffled_from(s, d1, k)[i] != shuffled_from(s, d2, k)[i]);
    } else {
        assert(t1 == t2);
        lemma_shuffled_injective(t1, d1, d2, i as nat, w);
    }
}

/// On a non-empty queue with its cursor set, whatever shuffles came before,
/// repeated `next` visits the view as a cycle of the queue's length: each of
/// the first `n` calls lands on a different entry, together they cover every
/// entry (each duplicate occurrence once), and the `n`-th call is back where
/// the cursor started. `cursor_after` follows `next`'s own contract, which
/// moves the cursor to `next_cursor` of the current one.
pub proof fn lemma_queue_cycle(q: Queue)
    requires
        q.wf(),
        q.view().len() > 0,
        q.cursor() is Some,
    ensures
        ({
            let c = q.cursor()->0;
            let n = q.view().len();
            &&& 0 <= c < n
            &&& cursor_after(c, n, n) == c
            &&& forall|t: nat| 1 <= t <= n ==> 0 <= #[trigger] cursor_after(c, n, t) < n
            &&& forall|t1: nat, t2: nat|
                1 <= t1 < t2 <= n ==> #[trigger] cursor_after(c, n, t1) != #[trigger] cursor_after(
                    c,
                    n,
                    t2,
                )
            &&& forall|p: int| 0 <= p < n ==> #[trigger] cycle_reaches(c, n, p)
        }),
{
    q.lemma_wf();
    let c = q.cursor()->0;
    let n = q.view().len();
    lemma_next_cycle(c, n);
    assert forall|t: nat| 1 <= t <= n implies 0 <= #[trigger] cursor_after(c, n, t) < n by {
        vstd::arithmetic::div_mod::lemma_mod_bound(c + t, n as int);
    }
}

/// Shuffling a queue: the new view order is the Fisher–Yates arrangement of
/// the old one, which holds distinct storage positions, so distinct draw
/// sequences give distinct orders and every order is an arrangement of the
/// same positions; uniform draws give every arrangement equally often.
pub proof fn lemma_queue_shuffle(q: Queue, d1: Seq<usize>, d2: Seq<usize>)
    requires
        q.wf(),
        valid_draws(d1, q.view().len()),
        valid_draws(d2, q.view().len()),
    ensures
        fisher_yates(q.positions(), d1).len() == q.positions().len(),
        fisher_yates(q.positions(), d1).no_duplicates(),
        forall|p: usize| #[trigger]
            fisher_yates(q.positions(), d1).contains(p) <==> q.positions().contains(p),
        d1 != d2 ==> fisher_yates(q.positions(), d1) != fisher_yates(q.positions(), d2),
{
    q.lemma_wf();
    lemma_shuffle_injective(q.positions(), d1, d2);
}

/// Fisher–Yates is a bijection from draw sequences to arrangements: for
/// distinct elements every valid draw sequence gives an arrangement of the
/// same elements, and distinct draw sequences give distinct arrangements.
/// There are `n!` valid draw sequences and `n!` arrangements, so uniform
/// draws give every arrangement with the same probability.
pub proof fn lemma_shuffle_injective<A>(s: Seq<A>, d1: Seq<usize>, d2: Seq<usize>)
    requires
        s.no_duplicates(),
        valid_draws(d1, s.len()),
        valid_draws(d2, s.len()),
    ensures
        fisher_yates(s, d1).len() == s.len(),
        fisher_yates(s, d1).no_duplicates(),
        forall|x: A| #[trigger] fisher_yates(s, d1).contains(x) <==> s.contains(x),
        d1 != d2 ==> fisher_yates(s, d1) != fisher_yates(s, d2),
{
    lemma_shuffled_fixes(s, d1, s.len());
    if d1 != d2 {
        if forall|i: int| 0 <= i < s.len() ==> d1[i] == d2[i] {
            assert(d1 =~= d2);
        }
        let w = choose|w: int| 0 <= w < s.len() && d1[w] != d2[w];
        lemma_shuffled_injective(s, d1, d2, s.len(), w);
    }
}

} // verus!
