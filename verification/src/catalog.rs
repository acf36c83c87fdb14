//! The token catalog.
//!
//! Built once during initialization from the externally supplied token list,
//! immutable thereafter, and looked up by normalized address. When the list
//! names the same normalized address twice, the first occurrence wins.

use vstd::prelude::*;

use crate::address::normalize_address;
use crate::address::normalized;
use crate::kv;

verus! {

/// Token metadata: its address, display symbol and decimal places.
#[derive(Debug, PartialEq, Eq)]
pub struct Token {
    pub address: String,
    pub symbol: String,
    pub decimals: u32,
}

/// The mathematical value of a [`Token`].
pub struct TokenView {
    pub address: Seq<char>,
    pub symbol: Seq<char>,
    pub decimals: u32,
}

impl View for Token {
    type V = TokenView;

    open spec fn view(&self) -> TokenView {
        TokenView { address: self.address@, symbol: self.symbol@, decimals: self.decimals }
    }
}

impl Clone for Token {
    fn clone(&self) -> (r: Self)
        ensures
            r@ == self@,
    {
        Token {
            address: self.address.clone(),
            symbol: self.symbol.clone(),
            decimals: self.decimals,
        }
    }
}

/// The mapping a token list denotes: each token keyed by its normalized
/// address, the first occurrence of an address winning.
pub open spec fn spec_catalog(ts: Seq<TokenView>) -> Map<Seq<char>, TokenView>
    decreases ts.len(),
{
    if ts.len() == 0 {
        Map::empty()
    } else {
        let m = spec_catalog(ts.drop_last());
        let k = normalized(ts.last().address);
        if m.contains_key(k) {
            m
        } else {
            m.insert(k, ts.last())
        }
    }
}

/// The immutable mapping from normalized address to token metadata.
pub struct TokenCatalog {
    entries: Vec<(String, Token)>,
}

/// The key/value pairs of the catalog, as mathematical values.
pub open spec fn catalog_pairs(s: Seq<(String, Token)>) -> Seq<(Seq<char>, TokenView)> {
    s.map_values(|p: (String, Token)| (p.0@, p.1@))
}

impl TokenCatalog {
    /// The pairs held, in insertion order.
    pub closed spec fn pairs(&self) -> Seq<(Seq<char>, TokenView)> {
        catalog_pairs(self.entries@)
    }

    /// Normalized addresses are unique.
    pub open spec fn wf(&self) -> bool {
        kv::unique_keys(self.pairs())
    }
}

impl View for TokenCatalog {
    type V = Map<Seq<char>, TokenView>;

    open spec fn view(&self) -> Map<Seq<char>, TokenView> {
        kv::to_map(self.pairs())
    }
}

impl TokenCatalog {
    /// Builds the catalog from the supplied token list, keying each token by
    /// its normalized address and keeping the first occurrence of an address.
    pub fn build(tokens: &Vec<Token>) -> (c: TokenCatalog)
        ensures
            c.wf(),
            c@ == spec_catalog(tokens@.map_values(|t: Token| t@)),
    {
        let ghost tviews = tokens@.map_values(|t: Token| t@);
        let mut c = TokenCatalog { entries: Vec::new() };
        proof {
            assert(c.pairs() =~= Seq::<(Seq<char>, TokenView)>::empty());
            assert(c@ =~= Map::<Seq<char>, TokenView>::empty());
            assert(tviews.subrange(0, 0) =~= Seq::<TokenView>::empty());
        }
        let n = tokens.len();
        let mut i: usize = 0;
        while i < n
            invariant
                i <= n,
                n == tokens@.len(),
                tviews == tokens@.map_values(|t: Token| t@),
                c.wf(),
                c@ == spec_catalog(tviews.subrange(0, i as int)),
            decreases n - i,
        {
            let key = normalize_address(tokens[i].address.as_str());
            let ghost pairs_prev = c.pairs();
            match kv::find_index(&c.entries, &key) {
                Some(witness) => {
                    proof {
                        assert(c.pairs()[witness as int].0 == key@);
                        kv::lemma_to_map_domain(c.pairs(), key@);
                        assert(c@.contains_key(key@));
                        assert(tviews.subrange(0, i as int + 1).last() == tviews[i as int]);
                        assert(normalized(tviews[i as int].address) == key@);
                        assert(tviews.subrange(0, i as int + 1).drop_last() =~= tviews.subrange(
                            0,
                            i as int,
                        ));
                    }
                },
                None => {
                    proof {
                        kv::lemma_to_map_domain(c.pairs(), key@);
                        assert forall|j: int| 0 <= j < c.pairs().len() implies (
                        #[trigger] c.pairs()[j]).0 != key@ by {
                            assert(c.pairs()[j].0 == c.entries@[j].0@);
                        }
                        assert(!c@.contains_key(key@));
                    }
                    let token = tokens[i].clone();
                    c.entries.push((key, token));
                    proof {
                        assert(c.pairs() =~= pairs_prev.push(
                            (c.entries@.last().0@, c.entries@.last().1@),
                        ));
                        kv::lemma_to_map_push(
                            pairs_prev,
                            (c.entries@.last().0@, c.entries@.last().1@),
                        );
                        assert(tviews.subrange(0, i as int + 1).last() == tviews[i as int]);
                        assert(normalized(tviews[i as int].address) == key@);
                        assert(tviews.subrange(0, i as int + 1).drop_last() =~= tviews.subrange(
                            0,
                            i as int,
                        ));
                    }
                },
            }
            i += 1;
        }
        proof {
            assert(tviews.subrange(0, n as int) =~= tviews);
        }
        c
    }

    /// Looks a token up by its normalized address.
    pub fn lookup<'a>(&'a self, normalized_address: &String) -> (r: Option<&'a Token>)
        requires
            self.wf(),
        ensures
            match r {
                Some(t) => self@.contains_key(normalized_address@) && t@
                    == self@[normalized_address@],
                None => !self@.contains_key(normalized_address@),
            },
    {
        let r = kv::find_index(&self.entries, normalized_address);
        proof {
            kv::lemma_to_map_domain(self.pairs(), normalized_address@);
        }
        match r {
            Some(i) => {
                proof {
                    kv::lemma_to_map_index(self.pairs(), i as int);
                }
                Some(&self.entries[i].1)
            },
            None => {
                proof {
                    assert forall|j: int| 0 <= j < self.pairs().len() implies (
                    #[trigger] self.pairs()[j]).0 != normalized_address@ by {
                        assert(self.pairs()[j].0 == self.entries@[j].0@);
                    }
                }
                None
            },
        }
    }

    /// How many tokens the catalog holds.
    pub fn token_count(&self) -> (n: usize)
        ensures
            n == self.pairs().len(),
    {
        self.entries.len()
    }
}

} // verus!
