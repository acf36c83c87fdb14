//! Block updates and pool metadata.
//!
//! An update is one batch of changes attributable to a block of the feed:
//! newly created pools (`new_pairs`), fresh states for known pools (`states`),
//! and pools the feed considers gone (`removed_pairs`). Pool identifiers are
//! opaque strings and are unique within each mapping.

use vstd::prelude::*;

use crate::address::normalize_address;
use crate::address::normalized;
use crate::kv;

verus! {

/// Pool metadata: the ordered addresses of the constituent tokens and a
/// protocol tag. Stable for the lifetime of a pool identifier.
#[derive(Debug, PartialEq, Eq)]
pub struct PoolComponent {
    pub tokens: Vec<String>,
    pub protocol: String,
}

/// The mathematical value of a [`PoolComponent`].
pub struct PoolComponentView {
    pub tokens: Seq<Seq<char>>,
    pub protocol: Seq<char>,
}

impl View for PoolComponent {
    type V = PoolComponentView;

    open spec fn view(&self) -> PoolComponentView {
        PoolComponentView { tokens: self.tokens.deep_view(), protocol: self.protocol@ }
    }
}

impl Clone for PoolComponent {
    fn clone(&self) -> (r: Self)
        ensures
            r@ == self@,
    {
        let mut tokens: Vec<String> = Vec::new();
        let n = self.tokens.len();
        let mut i: usize = 0;
        while i < n
            invariant
                i <= n,
                n == self.tokens@.len(),
                tokens@.len() == i,
                forall|j: int| 0 <= j < i ==> tokens@[j]@ == (#[trigger] self.tokens@[j])@,
            decreases n - i,
        {
            tokens.push(self.tokens[i].clone());
            i += 1;
        }
        let r = PoolComponent { tokens, protocol: self.protocol.clone() };
        proof {
            assert(r@.tokens =~= self@.tokens);
        }
        r
    }
}

/// Whether a component lists a token with the given normalized address.
pub open spec fn component_lists(c: PoolComponentView, addr: Seq<char>) -> bool {
    exists|i: int| 0 <= i < c.tokens.len() && normalized(#[trigger] c.tokens[i]) == addr
}

/// Decides whether a component lists a token whose normalized address equals
/// `addr` (itself already normalized).
pub fn component_contains(comp: &PoolComponent, addr: &String) -> (r: bool)
    ensures
        r == component_lists(comp@, addr@),
{
    let n = comp.tokens.len();
    let mut i: usize = 0;
    while i < n
        invariant
            i <= n,
            n == comp.tokens@.len(),
            forall|j: int| 0 <= j < i ==> normalized((#[trigger] comp.tokens@[j])@) != addr@,
        decreases n - i,
    {
        let na = normalize_address(comp.tokens[i].as_str());
        if na.eq(addr) {
            proof {
                assert(normalized(comp.tokens@[i as int]@) == addr@);
                assert(comp@.tokens[i as int] == comp.tokens@[i as int]@);
            }
            return true;
        }
        i += 1;
    }
    proof {
        assert forall|i: int| 0 <= i < comp@.tokens.len() implies normalized(
            #[trigger] comp@.tokens[i],
        ) != addr@ by {
            assert(comp@.tokens[i] == comp.tokens@[i]@);
        }
    }
    false
}

/// One batch of changes from the feed, keyed by pool identifier.
pub struct Update<S> {
    /// The position of this batch in the feed's ordering.
    pub block_number: u64,
    /// Pools created in this block, with their metadata.
    pub new_pairs: Vec<(String, PoolComponent)>,
    /// Fresh states for pools, new or already known.
    pub states: Vec<(String, S)>,
    /// Pools the feed considers gone. Received, but never applied to the
    /// store by the merger.
    pub removed_pairs: Vec<(String, PoolComponent)>,
}

/// The mathematical value of an [`Update`]: its three mappings as finite maps.
pub struct UpdateView<S> {
    pub block_number: u64,
    pub new_pairs: Map<Seq<char>, PoolComponentView>,
    pub states: Map<Seq<char>, S>,
    pub removed_pairs: Map<Seq<char>, PoolComponentView>,
}

/// The key/value pairs of a component vector, as mathematical values.
pub open spec fn component_pairs(s: Seq<(String, PoolComponent)>) -> Seq<
    (Seq<char>, PoolComponentView),
> {
    s.map_values(|p: (String, PoolComponent)| (p.0@, p.1@))
}

/// The key/value pairs of a state vector, as mathematical values.
pub open spec fn state_pairs<S>(s: Seq<(String, S)>) -> Seq<(Seq<char>, S)> {
    s.map_values(|p: (String, S)| (p.0@, p.1))
}

impl<S> View for Update<S> {
    type V = UpdateView<S>;

    open spec fn view(&self) -> UpdateView<S> {
        UpdateView {
            block_number: self.block_number,
            new_pairs: kv::to_map(component_pairs(self.new_pairs@)),
            states: kv::to_map(state_pairs(self.states@)),
            removed_pairs: kv::to_map(component_pairs(self.removed_pairs@)),
        }
    }
}

impl<S> Update<S> {
    /// Pool identifiers are unique within each of the three mappings.
    pub open spec fn wf(&self) -> bool {
        &&& kv::unique_keys(component_pairs(self.new_pairs@))
        &&& kv::unique_keys(state_pairs(self.states@))
        &&& kv::unique_keys(component_pairs(self.removed_pairs@))
    }
}

/// An update that changes nothing: block number zero and all mappings empty.
pub open spec fn is_degenerate<S>(u: UpdateView<S>) -> bool {
    &&& u.block_number == 0
    &&& u.new_pairs == Map::<Seq<char>, PoolComponentView>::empty()
    &&& u.states == Map::<Seq<char>, S>::empty()
    &&& u.removed_pairs == Map::<Seq<char>, PoolComponentView>::empty()
}

impl<S: Copy> Update<S> {
    /// The fresh state this update carries for the given pool, if any.
    pub fn find_state(&self, id: &String) -> (r: Option<S>)
        requires
            self.wf(),
        ensures
            match r {
                Some(s) => self@.states.contains_key(id@) && self@.states[id@] == s,
                None => !self@.states.contains_key(id@),
            },
    {
        let r = kv::find_index(&self.states, id);
        proof {
            kv::lemma_to_map_domain(state_pairs(self.states@), id@);
        }
        match r {
            Some(i) => {
                proof {
                    kv::lemma_to_map_index(state_pairs(self.states@), i as int);
                    assert(state_pairs(self.states@)[i as int] == (
                        self.states@[i as int].0@,
                        self.states@[i as int].1,
                    ));
                }
                Some(self.states[i].1)
            },
            None => {
                proof {
                    assert forall|i: int|
                        0 <= i < state_pairs(self.states@).len() implies (#[trigger] state_pairs(
                        self.states@,
                    )[i]).0 != id@ by {
                        assert(state_pairs(self.states@)[i].0 == (#[trigger] self.states@[i]).0@);
                    }
                }
                None
            },
        }
    }

    /// The metadata this update carries for the given newly created pool, if
    /// any.
    pub fn find_new_pair<'a>(&'a self, id: &String) -> (r: Option<&'a PoolComponent>)
        requires
            self.wf(),
        ensures
            match r {
                Some(c) => self@.new_pairs.contains_key(id@) && self@.new_pairs[id@] == c@,
                None => !self@.new_pairs.contains_key(id@),
            },
    {
        let r = kv::find_index(&self.new_pairs, id);
        proof {
            kv::lemma_to_map_domain(component_pairs(self.new_pairs@), id@);
        }
        match r {
            Some(i) => {
                proof {
                    kv::lemma_to_map_index(component_pairs(self.new_pairs@), i as int);
                    assert(component_pairs(self.new_pairs@)[i as int] == (
                        self.new_pairs@[i as int].0@,
                        self.new_pairs@[i as int].1@,
                    ));
                }
                Some(&self.new_pairs[i].1)
            },
            None => {
                proof {
                    assert forall|i: int|
                        0 <= i < component_pairs(self.new_pairs@).len() implies (
                    #[trigger] component_pairs(self.new_pairs@)[i]).0 != id@ by {
                        assert(component_pairs(self.new_pairs@)[i].0 == (
                        #[trigger] self.new_pairs@[i]).0@);
                    }
                }
                None
            },
        }
    }
}

} // verus!
