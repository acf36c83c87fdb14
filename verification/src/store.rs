//! The state store and merger.
//!
//! The store is the authoritative mapping from pool identifier to the pair of
//! that pool's latest state and its metadata. It is created empty, populated
//! by the first update, and then mutated once per dequeued update by
//! [`Store::merge`], which applies a whole update in one exclusive critical
//! section: callers reach the store through `&mut`, so a concurrent reader can
//! observe the mapping before or after a merge, never between its steps.

use vstd::prelude::*;

use crate::kv;
use crate::update::PoolComponent;
use crate::update::PoolComponentView;
use crate::update::Update;
use crate::update::UpdateView;

verus! {

/// One stored pool: its identifier, latest state and metadata.
pub struct PoolEntry<S> {
    pub id: String,
    pub state: S,
    pub comp: PoolComponent,
}

/// The mathematical value of a [`PoolEntry`].
pub struct PoolEntryView<S> {
    pub id: Seq<char>,
    pub state: S,
    pub comp: PoolComponentView,
}

impl<S> View for PoolEntry<S> {
    type V = PoolEntryView<S>;

    open spec fn view(&self) -> PoolEntryView<S> {
        PoolEntryView { id: self.id@, state: self.state, comp: self.comp@ }
    }
}

/// The mathematical values of a vector of entries, in order.
pub open spec fn entries_of<S>(s: Seq<PoolEntry<S>>) -> Seq<PoolEntryView<S>> {
    s.map_values(|e: PoolEntry<S>| e@)
}

/// Entries as key/value pairs: identifier on the left, state and metadata on
/// the right.
pub open spec fn entry_pairs<S>(es: Seq<PoolEntryView<S>>) -> Seq<
    (Seq<char>, (S, PoolComponentView)),
> {
    es.map_values(|e: PoolEntryView<S>| (e.id, (e.state, e.comp)))
}

/// The authoritative mapping from pool identifier to (state, metadata).
pub struct Store<S> {
    entries: Vec<PoolEntry<S>>,
}

impl<S> Store<S> {
    /// The stored entries in scan order.
    pub closed spec fn entries_view(&self) -> Seq<PoolEntryView<S>> {
        entries_of(self.entries@)
    }

    /// The pool identifiers in scan order.
    pub open spec fn order(&self) -> Seq<Seq<char>> {
        kv::keys(entry_pairs(self.entries_view()))
    }

    /// Pool identifiers are unique.
    pub open spec fn wf(&self) -> bool {
        kv::unique_keys(entry_pairs(self.entries_view()))
    }
}

impl<S> View for Store<S> {
    type V = Map<Seq<char>, (S, PoolComponentView)>;

    open spec fn view(&self) -> Map<Seq<char>, (S, PoolComponentView)> {
        kv::to_map(entry_pairs(self.entries_view()))
    }
}

/// The mapping after one update merges into `m`:
/// every stored pool with a fresh state in `u.states` has its state replaced
/// and its metadata kept; every pool of `u.new_pairs` that also has a state in
/// `u.states` is inserted, overwriting any stored entry; `u.removed_pairs`
/// is not applied.
pub open spec fn spec_merge<S>(
    m: Map<Seq<char>, (S, PoolComponentView)>,
    u: UpdateView<S>,
) -> Map<Seq<char>, (S, PoolComponentView)> {
    let refreshed = Map::<Seq<char>, (S, PoolComponentView)>::new(
        |k: Seq<char>| m.contains_key(k),
        |k: Seq<char>|
            if u.states.contains_key(k) {
                (u.states[k], m[k].1)
            } else {
                m[k]
            },
    );
    let inserted = Map::<Seq<char>, (S, PoolComponentView)>::new(
        |k: Seq<char>| u.new_pairs.contains_key(k) && u.states.contains_key(k),
        |k: Seq<char>| (u.states[k], u.new_pairs[k]),
    );
    refreshed.union_prefer_right(inserted)
}

/// The mapping after a sequence of updates merges in order.
pub open spec fn spec_apply<S>(
    m: Map<Seq<char>, (S, PoolComponentView)>,
    us: Seq<UpdateView<S>>,
) -> Map<Seq<char>, (S, PoolComponentView)>
    decreases us.len(),
{
    if us.len() == 0 {
        m
    } else {
        spec_merge(spec_apply(m, us.drop_last()), us.last())
    }
}

impl<S: Copy> Store<S> {
    /// The empty store.
    pub fn new() -> (s: Self)
        ensures
            s.wf(),
            s@ == Map::<Seq<char>, (S, PoolComponentView)>::empty(),
            s.entries_view() == Seq::<PoolEntryView<S>>::empty(),
    {
        let s = Store { entries: Vec::new() };
        proof {
            assert(s.entries_view() =~= Seq::<PoolEntryView<S>>::empty());
            assert(entry_pairs(s.entries_view()) =~= Seq::<
                (Seq<char>, (S, PoolComponentView)),
            >::empty());
            assert(s@ =~= Map::<Seq<char>, (S, PoolComponentView)>::empty());
        }
        s
    }

    /// How many pools are stored.
    pub fn entry_count(&self) -> (n: usize)
        ensures
            n == self.entries_view().len(),
    {
        self.entries.len()
    }

    /// The entry at a position of the scan order.
    pub fn entry_at(&self, i: usize) -> (e: &PoolEntry<S>)
        requires
            i < self.entries_view().len(),
        ensures
            e@ == self.entries_view()[i as int],
    {
        &self.entries[i]
    }

    /// The position of the entry with the given identifier, if any.
    fn find_entry_index(&self, id: &String) -> (r: Option<usize>)
        ensures
            match r {
                Some(i) => i < self.entries_view().len() && self.entries_view()[i as int].id
                    == id@,
                None => forall|i: int|
                    0 <= i < self.entries_view().len() ==> (#[trigger] self.entries_view()[i]).id
                        != id@,
            },
    {
        let n = self.entries.len();
        let mut i: usize = 0;
        while i < n
            invariant
                i <= n,
                n == self.entries@.len(),
                forall|j: int| 0 <= j < i ==> (#[trigger] entries_of(self.entries@)[j]).id != id@,
            decreases n - i,
        {
            if self.entries[i].id.eq(id) {
                return Some(i);
            }
            i += 1;
        }
        None
    }

    /// The stored state of a pool.
    pub fn get_state(&self, id: &String) -> (r: Option<S>)
        requires
            self.wf(),
        ensures
            match r {
                Some(s) => self@.contains_key(id@) && self@[id@].0 == s,
                None => !self@.contains_key(id@),
            },
    {
        let r = self.find_entry_index(id);
        proof {
            kv::lemma_to_map_domain(entry_pairs(self.entries_view()), id@);
        }
        match r {
            Some(i) => {
                proof {
                    kv::lemma_to_map_index(entry_pairs(self.entries_view()), i as int);
                }
                Some(self.entries[i].state)
            },
            None => None,
        }
    }

    /// The stored metadata of a pool.
    pub fn get_component<'a>(&'a self, id: &String) -> (r: Option<&'a PoolComponent>)
        requires
            self.wf(),
        ensures
            match r {
                Some(c) => self@.contains_key(id@) && self@[id@].1 == c@,
                None => !self@.contains_key(id@),
            },
    {
        let r = self.find_entry_index(id);
        proof {
            kv::lemma_to_map_domain(entry_pairs(self.entries_view()), id@);
        }
        match r {
            Some(i) => {
                proof {
                    kv::lemma_to_map_index(entry_pairs(self.entries_view()), i as int);
                }
                Some(&self.entries[i].comp)
            },
            None => None,
        }
    }

    /// Merges one update as a single critical section: states of stored pools
    /// are replaced in place, pools appearing in both `new_pairs` and `states`
    /// are inserted, and `removed_pairs` is ignored.
    pub fn merge(&mut self, u: &Update<S>)
        requires
            old(self).wf(),
            u.wf(),
        ensures
            final(self).wf(),
            final(self)@ == spec_merge(old(self)@, u@),
    {
        let ghost m0 = self@;
        let ghost target = spec_merge(m0, u@);
        let ghost cp = crate::update::component_pairs(u.new_pairs@);
        let mut out: Vec<PoolEntry<S>> = Vec::new();
        let n = self.entries.len();
        let mut i: usize = 0;
        while i < n
            invariant
                *self == *old(self),
                self.wf(),
                u.wf(),
                m0 == self@,
                target == spec_merge(m0, u@),
                i <= n,
                n == self.entries@.len(),
                out@.len() == i,
                forall|j: int|
                    0 <= j < i ==> (#[trigger] entries_of(out@)[j]).id == self.entries_view()[j].id,
                forall|j: int|
                    0 <= j < i ==> target.contains_key((#[trigger] entries_of(out@)[j]).id) && (
                    entries_of(out@)[j].state,
                    entries_of(out@)[j].comp,
                    ) == target[entries_of(out@)[j].id],
            decreases n - i,
        {
            proof {
                kv::lemma_to_map_index(entry_pairs(self.entries_view()), i as int);
                assert(entry_pairs(self.entries_view())[i as int] == (
                    self.entries_view()[i as int].id,
                    (self.entries_view()[i as int].state, self.entries_view()[i as int].comp),
                ));
            }
            let id = self.entries[i].id.clone();
            let entry = match u.find_state(&id) {
                Some(s) => {
                    match u.find_new_pair(&id) {
                        Some(c) => PoolEntry { id, state: s, comp: c.clone() },
                        None => PoolEntry { id, state: s, comp: self.entries[i].comp.clone() },
                    }
                },
                None => PoolEntry {
                    id,
                    state: self.entries[i].state,
                    comp: self.entries[i].comp.clone(),
                },
            };
            let ghost out_prev = out@;
            let ghost eview = entry@;
            proof {
                assert(eview.id == self.entries_view()[i as int].id);
                assert(target.contains_key(eview.id) && (eview.state, eview.comp)
                    == target[eview.id]);
            }
            out.push(entry);
            proof {
                assert(entries_of(out@) =~= entries_of(out_prev).push(eview));
            }
            i += 1;
        }
        // Append the genuinely new pools: those of `new_pairs` that carry a
        // state and are not stored yet.
        let m = u.new_pairs.len();
        let mut j: usize = 0;
        proof {
            assert(kv::unique_keys(entry_pairs(entries_of(out@)))) by {
                assert forall|a: int, b: int|
                    0 <= a < b < entries_of(out@).len() implies (#[trigger] entry_pairs(
                    entries_of(out@),
                )[a]).0 != (#[trigger] entry_pairs(entries_of(out@))[b]).0 by {
                    assert((entry_pairs(self.entries_view())[a]).0 == self.entries_view()[a].id);
                    assert((entry_pairs(self.entries_view())[b]).0 == self.entries_view()[b].id);
                }
            }
        }
        while j < m
            invariant
                *self == *old(self),
                self.wf(),
                u.wf(),
                m0 == self@,
                target == spec_merge(m0, u@),
                cp == crate::update::component_pairs(u.new_pairs@),
                n == self.entries@.len(),
                j <= m,
                m == u.new_pairs@.len(),
                out@.len() >= n,
                kv::unique_keys(entry_pairs(entries_of(out@))),
                forall|idx: int|
                    0 <= idx < n ==> (#[trigger] entries_of(out@)[idx]).id == self.entries_view()[idx].id,
                forall|idx: int|
                    0 <= idx < out@.len() ==> target.contains_key(
                        (#[trigger] entries_of(out@)[idx]).id,
                    ) && (entries_of(out@)[idx].state, entries_of(out@)[idx].comp)
                        == target[entries_of(out@)[idx].id],
                forall|idx: int|
                    n <= idx < out@.len() ==> !m0.contains_key(
                        (#[trigger] entries_of(out@)[idx]).id,
                    ) && exists|jp: int|
                        0 <= jp < j && (#[trigger] cp[jp]).0 == entries_of(out@)[idx].id,
                forall|jp: int|
                    0 <= jp < j && target.contains_key((#[trigger] cp[jp]).0) && !m0.contains_key(
                        cp[jp].0,
                    ) ==> exists|idx: int|
                        0 <= idx < out@.len() && (#[trigger] entries_of(out@)[idx]).id == cp[jp].0,
            decreases m - j,
        {
            let id = u.new_pairs[j].0.clone();
            proof {
                assert(cp[j as int].0 == id@);
            }
            match self.find_entry_index(&id) {
                Some(present) => {
                    proof {
                        assert((entry_pairs(self.entries_view())[present as int]).0
                            == id@);
                        kv::lemma_to_map_domain(entry_pairs(self.entries_view()), id@);
                        assert(m0.contains_key(id@));
                    }
                },
                None => {
                    proof {
                        kv::lemma_to_map_domain(entry_pairs(self.entries_view()), id@);
                        assert forall|idx: int|
                            0 <= idx < self.entries_view().len() implies (
                        #[trigger] entry_pairs(self.entries_view())[idx]).0 != id@ by {
                            assert(entry_pairs(self.entries_view())[idx].0 == self.entries_view()[idx].id);
                        }
                        assert(!m0.contains_key(id@));
                    }
                    match u.find_state(&id) {
                        Some(s) => {
                            proof {
                                kv::lemma_to_map_index(cp, j as int);
                            }
                            let comp = u.new_pairs[j].1.clone();
                            let entry = PoolEntry { id, state: s, comp };
                            let ghost out_prev = out@;
                            let ghost eview = entry@;
                            proof {
                                assert(eview.id == cp[j as int].0);
                                assert(target.contains_key(eview.id) && (eview.state, eview.comp)
                                    == target[eview.id]);
                                assert forall|idx: int|
                                    0 <= idx < out_prev.len() implies (#[trigger] entries_of(
                                    out_prev,
                                )[idx]).id != eview.id by {
                                    if idx < n {
                                        kv::lemma_to_map_domain(
                                            entry_pairs(self.entries_view()),
                                            entries_of(out_prev)[idx].id,
                                        );
                                        assert((entry_pairs(self.entries_view())[idx]).0
                                            == self.entries_view()[idx].id);
                                    }
                                }
                            }
                            out.push(entry);
                            proof {
                                assert(entries_of(out@) =~= entries_of(out_prev).push(eview));
                                assert(entry_pairs(entries_of(out@)) =~= entry_pairs(
                                    entries_of(out_prev),
                                ).push((eview.id, (eview.state, eview.comp))));
                                assert(kv::unique_keys(entry_pairs(entries_of(out@)))) by {
                                    assert forall|a: int, b: int|
                                        0 <= a < b < entry_pairs(entries_of(out@)).len() implies (
                                    #[trigger] entry_pairs(entries_of(out@))[a]).0 != (
                                    #[trigger] entry_pairs(entries_of(out@))[b]).0 by {
                                        if b == entry_pairs(entries_of(out@)).len() - 1 {
                                            assert((entries_of(out_prev)[a]).id
                                                != eview.id);
                                        }
                                    }
                                }
                                assert(entries_of(out@)[out@.len() - 1] == eview);
                                assert forall|jp2: int|
                                    0 <= jp2 < j as int + 1 && target.contains_key(
                                        (#[trigger] cp[jp2]).0,
                                    ) && !m0.contains_key(cp[jp2].0) implies exists|idx: int|
                                    0 <= idx < out@.len() && (#[trigger] entries_of(out@)[idx]).id
                                        == cp[jp2].0 by {
                                    if jp2 == j as int {
                                        assert(entries_of(out@)[out@.len() - 1].id == cp[jp2].0);
                                    } else {
                                        let idx0 = choose|idx: int|
                                            0 <= idx < out_prev.len() && (#[trigger] entries_of(
                                                out_prev,
                                            )[idx]).id == cp[jp2].0;
                                        assert(entries_of(out@)[idx0].id == cp[jp2].0);
                                    }
                                }
                            }
                        },
                        None => {},
                    }
                },
            }
            j += 1;
        }
        proof {
            assert forall|k: Seq<char>| target.contains_key(k) implies exists|idx: int|
                0 <= idx < entries_of(out@).len() && (#[trigger] entries_of(out@)[idx]).id
                    == k by {
                if m0.contains_key(k) {
                    kv::lemma_to_map_domain(entry_pairs(self.entries_view()), k);
                    let a = choose|a: int|
                        0 <= a < entry_pairs(self.entries_view()).len() && (
                        #[trigger] entry_pairs(self.entries_view())[a]).0 == k;
                    assert(entry_pairs(self.entries_view())[a].0 == self.entries_view()[a].id);
                    assert(entries_of(out@)[a].id == k);
                } else {
                    kv::lemma_to_map_domain(cp, k);
                    let jp = choose|jp: int|
                        0 <= jp < cp.len() && (#[trigger] cp[jp]).0 == k;
                    assert(target.contains_key(cp[jp].0) && !m0.contains_key(cp[jp].0));
                    let idx = choose|idx: int|
                        0 <= idx < out@.len() && (#[trigger] entries_of(out@)[idx]).id == cp[jp].0;
                    assert(entries_of(out@)[idx].id == k);
                }
            }
            assert forall|idx: int|
                0 <= idx < entry_pairs(entries_of(out@)).len() implies target.contains_key(
                (#[trigger] entry_pairs(entries_of(out@))[idx]).0,
            ) && entry_pairs(entries_of(out@))[idx].1 == target[entry_pairs(
                entries_of(out@),
            )[idx].0] by {
                assert(entry_pairs(entries_of(out@))[idx] == (
                    entries_of(out@)[idx].id,
                    (entries_of(out@)[idx].state, entries_of(out@)[idx].comp),
                ));
            }
            assert forall|k: Seq<char>| target.contains_key(k) implies exists|idx: int|
                0 <= idx < entry_pairs(entries_of(out@)).len() && (#[trigger] entry_pairs(
                entries_of(out@),
            )[idx]).0 == k by {
                let idx = choose|idx: int|
                    0 <= idx < entries_of(out@).len() && (#[trigger] entries_of(out@)[idx]).id == k;
                assert((entry_pairs(entries_of(out@))[idx]).0 == k);
            }
            kv::lemma_to_map_eq(entry_pairs(entries_of(out@)), target);
        }
        self.entries = out;
    }

    /// Merges a sequence of updates in order.
    pub fn apply_updates(&mut self, updates: &Vec<Update<S>>)
        requires
            old(self).wf(),
            forall|i: int| 0 <= i < updates@.len() ==> (#[trigger] updates@[i]).wf(),
        ensures
            final(self).wf(),
            final(self)@ == spec_apply(
                old(self)@,
                updates@.map_values(|u: Update<S>| u@),
            ),
    {
        let ghost uviews = updates@.map_values(|u: Update<S>| u@);
        let n = updates.len();
        let mut i: usize = 0;
        while i < n
            invariant
                i <= n,
                n == updates@.len(),
                uviews == updates@.map_values(|u: Update<S>| u@),
                forall|k: int| 0 <= k < updates@.len() ==> (#[trigger] updates@[k]).wf(),
                self.wf(),
                self@ == spec_apply(old(self)@, uviews.subrange(0, i as int)),
            decreases n - i,
        {
            self.merge(&updates[i]);
            proof {
                assert(uviews.subrange(0, i as int + 1).drop_last() =~= uviews.subrange(
                    0,
                    i as int,
                ));
                assert(uviews.subrange(0, i as int + 1).last() == uviews[i as int]);
            }
            i += 1;
        }
        proof {
            assert(uviews.subrange(0, n as int) =~= uviews);
        }
    }
}

/// Merging the same update twice leaves the store as after merging it once:
/// states are replaced per pool, never accumulated.
pub proof fn lemma_merge_idempotent<S>(
    m: Map<Seq<char>, (S, PoolComponentView)>,
    u: UpdateView<S>,
)
    ensures
        spec_merge(spec_merge(m, u), u) == spec_merge(m, u),
{
    assert(spec_merge(spec_merge(m, u), u) =~= spec_merge(m, u));
}

/// Every entry of a merged store is one of three consistent combinations: the
/// inserted pair from this update, the fresh state of this update joined with
/// the metadata already stored, or the untouched prior entry. State and
/// metadata can never pair up across any other boundary.
pub proof fn lemma_merge_entry_sources<S>(
    m: Map<Seq<char>, (S, PoolComponentView)>,
    u: UpdateView<S>,
    k: Seq<char>,
)
    ensures
        spec_merge(m, u).contains_key(k) <==> (m.contains_key(k) || (u.new_pairs.contains_key(k)
            && u.states.contains_key(k))),
        spec_merge(m, u).contains_key(k) ==> {
            let e = spec_merge(m, u)[k];
            ||| (u.new_pairs.contains_key(k) && u.states.contains_key(k) && e == (
                u.states[k],
                u.new_pairs[k],
            ))
            ||| (m.contains_key(k) && u.states.contains_key(k) && !u.new_pairs.contains_key(k)
                && e == (u.states[k], m[k].1))
            ||| (m.contains_key(k) && !u.states.contains_key(k) && e == m[k])
        },
{
}

/// Bootstrapping an empty store keeps exactly the pools that appear in both
/// `new_pairs` and `states`, each with that state and that metadata; a pool
/// with metadata but no matching state is dropped, never partially stored.
pub proof fn lemma_bootstrap_contents<S>(u: UpdateView<S>, k: Seq<char>)
    ensures
        spec_merge(Map::<Seq<char>, (S, PoolComponentView)>::empty(), u).contains_key(k) <==> (
        u.new_pairs.contains_key(k) && u.states.contains_key(k)),
        u.new_pairs.contains_key(k) && u.states.contains_key(k) ==> spec_merge(
            Map::<Seq<char>, (S, PoolComponentView)>::empty(),
            u,
        )[k] == (u.states[k], u.new_pairs[k]),
{
    lemma_merge_entry_sources(Map::<Seq<char>, (S, PoolComponentView)>::empty(), u, k);
}

/// Updates merge strictly in sequence order, so the last update's states win:
/// after the third of three updates merges, every pool the third update
/// carries a state for holds exactly that state.
pub proof fn lemma_fifo_merge_order<S>(
    m: Map<Seq<char>, (S, PoolComponentView)>,
    u1: UpdateView<S>,
    u2: UpdateView<S>,
    u3: UpdateView<S>,
    k: Seq<char>,
)
    ensures
        spec_apply(m, seq![u1, u2, u3]) == spec_merge(spec_merge(spec_merge(m, u1), u2), u3),
        u3.states.contains_key(k) && spec_apply(m, seq![u1, u2, u3]).contains_key(k)
            ==> spec_apply(m, seq![u1, u2, u3])[k].0 == u3.states[k],
{
    reveal_with_fuel(spec_apply, 5);
    let us = seq![u1, u2, u3];
    assert(us.drop_last() =~= seq![u1, u2]);
    assert(seq![u1, u2].drop_last() =~= seq![u1]);
    assert(seq![u1].drop_last() =~= Seq::<UpdateView<S>>::empty());
    assert(spec_apply(m, seq![u1, u2, u3]) == spec_merge(
        spec_merge(spec_merge(m, u1), u2),
        u3,
    ));
    lemma_merge_entry_sources(spec_merge(spec_merge(m, u1), u2), u3, k);
}

} // verus!
