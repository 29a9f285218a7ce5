//! The registry state: the ownership map (token id to owner), the metadata
//! store, and the owner index (owner to the set of owned token ids), with
//! the well-formedness invariant that keeps the three consistent, the
//! data-driven role gate, and the read-only query surface.

use vstd::prelude::*;
use vstd::string::StringExecFns;

use crate::kvlist::{
    find_idx, kv_distinct, kv_map, lemma_kv_dom, lemma_kv_index, lemma_kv_len, units_sum,
};
use crate::metadata::{clone_metadata, meta_units, MetaV, TokenMetadata};

verus! {

/// The outcome of a rejected registry operation; every failure leaves the
/// registry exactly as it was.
#[derive(Clone, Copy, PartialEq, Eq, Debug, Structural)]
pub enum RegistryError {
    /// The caller does not pass the role gate.
    Authorization,
    /// A mint targets a token id that already exists.
    Conflict,
    /// The targeted token does not exist, or its recorded owner is not the
    /// expected one.
    NotFound,
    /// A classification tag lies outside the closed enumeration.
    Validation,
    /// The attached budget does not cover the measured storage growth.
    Budget,
}

/// A token: its current owner. The id is the key under which it is stored.
pub struct Token {
    pub owner_id: String,
}

/// A token as the query surface reports it: id, owner and metadata.
pub struct JsonToken {
    pub token_id: String,
    pub owner_id: String,
    pub metadata: TokenMetadata,
}

/// No string occurs at two positions.
pub open spec fn seq_distinct(s: Seq<Seq<char>>) -> bool {
    forall|i: int, j: int| #![trigger s[i], s[j]] 0 <= i < j < s.len() ==> s[i] != s[j]
}

/// The registry: a deployer identity (the bootstrap admin) and the three
/// stores. All mutation goes through the registry operations, which demand
/// and preserve `wf`.
pub struct Contract {
    /// The deployer: the one identity whose admin role is not data-driven.
    pub owner_id: String,
    /// Ownership map: token id to token record.
    pub tokens_by_id: Vec<(String, Token)>,
    /// Metadata store: token id to metadata record.
    pub token_metadata_by_id: Vec<(String, TokenMetadata)>,
    /// Owner index: owner to the ids of the tokens it owns.
    pub tokens_per_owner: Vec<(String, Vec<String>)>,
}

impl Contract {
    pub open spec fn owner_pairs(self) -> Seq<(Seq<char>, Seq<char>)> {
        self.tokens_by_id@.map_values(|p: (String, Token)| (p.0@, p.1.owner_id@))
    }

    pub open spec fn meta_pairs(self) -> Seq<(Seq<char>, MetaV)> {
        self.token_metadata_by_id@.map_values(|p: (String, TokenMetadata)| (p.0@, p.1@))
    }

    pub open spec fn index_pairs(self) -> Seq<(Seq<char>, Seq<Seq<char>>)> {
        self.tokens_per_owner@.map_values(|p: (String, Vec<String>)| (p.0@, p.1.deep_view()))
    }

    /// The ownership map: token id to owner.
    pub open spec fn owners(self) -> Map<Seq<char>, Seq<char>> {
        kv_map(self.owner_pairs())
    }

    /// The metadata store: token id to metadata.
    pub open spec fn metas(self) -> Map<Seq<char>, MetaV> {
        kv_map(self.meta_pairs())
    }

    /// The owner index: owner to owned token ids.
    pub open spec fn owner_index(self) -> Map<Seq<char>, Seq<Seq<char>>> {
        kv_map(self.index_pairs())
    }

    /// Each store's keys are unique.
    pub open spec fn keys_ok(self) -> bool {
        &&& kv_distinct(self.owner_pairs())
        &&& kv_distinct(self.meta_pairs())
        &&& kv_distinct(self.index_pairs())
    }

    /// Every token has metadata and every metadata record a token.
    pub open spec fn doms_ok(self) -> bool {
        self.metas().dom() == self.owners().dom()
    }

    /// One owner's index entry: non-empty, duplicate-free, and every listed
    /// id is a token this owner holds.
    pub open spec fn entry_ok(self, o: Seq<char>) -> bool {
        &&& self.owner_index()[o].len() > 0
        &&& seq_distinct(self.owner_index()[o])
        &&& forall|k: int|
            0 <= k < self.owner_index()[o].len() ==> self.owners().contains_key(
                #[trigger] self.owner_index()[o][k],
            ) && self.owners()[self.owner_index()[o][k]] == o
    }

    /// Bidirectional consistency of ownership map and owner index.
    pub open spec fn index_ok(self) -> bool {
        &&& forall|o: Seq<char>| #[trigger]
            self.owner_index().contains_key(o) ==> self.entry_ok(o)
        &&& forall|t: Seq<char>| #[trigger]
            self.owners().contains_key(t) ==> self.owner_index().contains_key(self.owners()[t])
                && self.owner_index()[self.owners()[t]].contains(t)
    }

    /// The registry's invariant; every operation demands and preserves it.
    pub open spec fn wf(self) -> bool {
        &&& self.keys_ok()
        &&& self.doms_ok()
        &&& self.index_ok()
    }

    /// Total storage units held: each ownership record costs its id plus
    /// its owner, each metadata record its id plus its fields. The owner
    /// index is derived bookkeeping and is not metered.
    pub open spec fn usage(self) -> int {
        units_sum(self.owner_pairs(), |o: Seq<char>| o.len() as int) + units_sum(
            self.meta_pairs(),
            |m: MetaV| meta_units(m),
        )
    }

    /// The data-driven admin rule: an identity is an admin when it is the
    /// deployer, or when it owns a token whose classification tag is the
    /// privileged one.
    pub open spec fn is_admin_spec(self, id: Seq<char>) -> bool {
        id == self.owner_id@ || exists|t: Seq<char>|
            #[trigger] self.owners().contains_key(t) && self.owners()[t] == id
                && self.metas()[t].user_type == Some("admin"@)
    }

    /// An empty registry whose bootstrap admin is `owner_id`.
    pub fn new_default_meta(owner_id: String) -> (r: Contract)
        ensures
            r.wf(),
            r.owner_id == owner_id,
            r.owners() == Map::<Seq<char>, Seq<char>>::empty(),
            r.metas() == Map::<Seq<char>, MetaV>::empty(),
            r.owner_index() == Map::<Seq<char>, Seq<Seq<char>>>::empty(),
            r.usage() == 0,
    {
        let r = Contract {
            owner_id,
            tokens_by_id: Vec::new(),
            token_metadata_by_id: Vec::new(),
            tokens_per_owner: Vec::new(),
        };
        proof {
            assert(r.owners().dom() =~= r.metas().dom());
        }
        r
    }

    /// The role gate. Walks only the caller's own index entry, not the
    /// whole registry.
    pub fn verify_admin_token(&self, account_id: &String) -> (r: bool)
        requires
            self.wf(),
        ensures
            r == self.is_admin_spec(account_id@),
    {
        if *account_id == self.owner_id {
            return true;
        }
        let found = find_idx(&self.tokens_per_owner, account_id);
        match found {
            None => {
                proof {
                    if self.is_admin_spec(account_id@) {
                        let t = choose|t: Seq<char>|
                            self.owners().contains_key(t) && self.owners()[t] == account_id@
                                && self.metas()[t].user_type == Some("admin"@);
                        lemma_kv_dom(self.index_pairs(), account_id@);
                        let i = choose|i: int|
                            0 <= i < self.index_pairs().len() && self.index_pairs()[i].0
                                == account_id@;
                        assert(self.tokens_per_owner@[i].0@ == account_id@);
                    }
                }
                false
            },
            Some(i) => {
                proof {
                    lemma_kv_index(self.index_pairs(), i as int);
                }
                let n = self.tokens_per_owner[i].1.len();
                let mut k: usize = 0;
                while k < n
                    invariant
                        self.wf(),
                        account_id@ != self.owner_id@,
                        i < self.tokens_per_owner@.len(),
                        self.tokens_per_owner@[i as int].0@ == account_id@,
                        self.owner_index().contains_key(account_id@),
                        self.owner_index()[account_id@] == self.tokens_per_owner@[
                            i as int
                        ].1.deep_view(),
                        n == self.tokens_per_owner@[i as int].1.len(),
                        k <= n,
                        forall|k2: int|
                            0 <= k2 < k ==> self.metas()[
                                #[trigger] self.owner_index()[account_id@][k2]
                            ].user_type != Some("admin"@),
                    decreases n - k,
                {
                    let tid = &self.tokens_per_owner[i].1[k];
                    proof {
                        assert(self.entry_ok(account_id@));
                        assert(self.owner_index()[account_id@][k as int] == tid@);
                        assert(self.owners().contains_key(tid@));
                        assert(self.metas().contains_key(tid@));
                        lemma_kv_dom(self.meta_pairs(), tid@);
                    }
                    let mj = find_idx(&self.token_metadata_by_id, tid);
                    match mj {
                        Some(j) => {
                            proof {
                                lemma_kv_index(self.meta_pairs(), j as int);
                            }
                            match &self.token_metadata_by_id[j].1.user_type {
                                Some(ut) => {
                                    if *ut == String::from_str("admin") {
                                        proof {
                                            assert(self.owners()[tid@] == account_id@);
                                            assert(self.metas()[tid@].user_type == Some(
                                                "admin"@,
                                            ));
                                        }
                                        return true;
                                    }
                                },
                                None => {},
                            }
                        },
                        None => {
                            proof {
                                let jj = choose|jj: int|
                                    0 <= jj < self.meta_pairs().len() && self.meta_pairs()[jj].0
                                        == tid@;
                                assert(self.token_metadata_by_id@[jj].0@ == tid@);
                            }
                            return false;
                        },
                    }
                    k += 1;
                }
                proof {
                    if self.is_admin_spec(account_id@) {
                        let t = choose|t: Seq<char>|
                            self.owners().contains_key(t) && self.owners()[t] == account_id@
                                && self.metas()[t].user_type == Some("admin"@);
                        assert(self.owner_index()[account_id@].contains(t));
                        let k2 = choose|k2: int|
                            0 <= k2 < self.owner_index()[account_id@].len()
                                && self.owner_index()[account_id@][k2] == t;
                        assert(self.metas()[self.owner_index()[account_id@][k2]].user_type
                            != Some("admin"@));
                    }
                }
                false
            },
        }
    }

    /// Number of tokens in the registry.
    pub fn nft_total_supply(&self) -> (r: u128)
        requires
            self.wf(),
        ensures
            r == self.owners().dom().len(),
            r == self.tokens_by_id@.len(),
    {
        proof {
            lemma_kv_len(self.owner_pairs());
        }
        self.tokens_by_id.len() as u128
    }

    /// Number of tokens one owner holds.
    pub fn nft_supply_for_owner(&self, account_id: &String) -> (r: u128)
        requires
            self.wf(),
        ensures
            r == if self.owner_index().contains_key(account_id@) {
                self.owner_index()[account_id@].len() as int
            } else {
                0
            },
    {
        let found = find_idx(&self.tokens_per_owner, account_id);
        match found {
            Some(i) => {
                proof {
                    lemma_kv_index(self.index_pairs(), i as int);
                }
                self.tokens_per_owner[i].1.len() as u128
            },
            None => {
                proof {
                    lemma_kv_dom(self.index_pairs(), account_id@);
                    if self.owner_index().contains_key(account_id@) {
                        let i = choose|i: int|
                            0 <= i < self.index_pairs().len() && self.index_pairs()[i].0
                                == account_id@;
                        assert(self.tokens_per_owner@[i].0@ == account_id@);
                    }
                }
                0
            },
        }
    }

    /// Builds the reported form of the token stored at `pos`.
    fn json_token_at(&self, pos: usize) -> (r: JsonToken)
        requires
            self.wf(),
            pos < self.tokens_by_id@.len(),
        ensures
            r.token_id@ == self.owner_pairs()[pos as int].0,
            r.owner_id@ == self.owner_pairs()[pos as int].1,
            r.metadata@ == self.metas()[self.owner_pairs()[pos as int].0],
    {
        let entry = &self.tokens_by_id[pos];
        proof {
            lemma_kv_index(self.owner_pairs(), pos as int);
            lemma_kv_dom(self.meta_pairs(), entry.0@);
        }
        let mj = find_idx(&self.token_metadata_by_id, &entry.0);
        proof {
            if mj is None {
                assert(self.owners().contains_key(entry.0@));
                assert(self.metas().contains_key(entry.0@));
                let jj = choose|jj: int|
                    0 <= jj < self.meta_pairs().len() && self.meta_pairs()[jj].0 == entry.0@;
                assert(self.token_metadata_by_id@[jj].0@ == entry.0@);
                assert(false);
            }
        }
        let j = match mj {
            Some(j) => j,
            None => 0,
        };
        proof {
            lemma_kv_index(self.meta_pairs(), j as int);
        }
        JsonToken {
            token_id: entry.0.clone(),
            owner_id: entry.1.owner_id.clone(),
            metadata: clone_metadata(&self.token_metadata_by_id[j].1),
        }
    }

    /// Enumerates tokens, `from_index` first, at most `limit` of them.
    pub fn nft_tokens(&self, from_index: Option<u128>, limit: Option<u64>) -> (r: Vec<JsonToken>)
        requires
            self.wf(),
        ensures
            r@.len() == page_len(
                self.tokens_by_id@.len() as int,
                start_of(from_index),
                limit_of(limit, self.tokens_by_id@.len() as int),
            ),
            forall|k: int|
                0 <= k < r@.len() ==> {
                    let p = self.owner_pairs()[start_of(from_index) + k];
                    (#[trigger] r@[k]).token_id@ == p.0 && r@[k].owner_id@ == p.1
                        && r@[k].metadata@ == self.metas()[p.0]
                },
    {
        let total = self.tokens_by_id.len();
        let start_u: u128 = match from_index {
            Some(s) => s,
            None => 0,
        };
        if start_u >= total as u128 {
            let r: Vec<JsonToken> = Vec::new();
            return r;
        }
        let start = start_u as usize;
        let avail = total - start;
        let take: usize = match limit {
            Some(l) => {
                if (l as u128) < (avail as u128) {
                    l as usize
                } else {
                    avail
                }
            },
            None => avail,
        };
        let mut r: Vec<JsonToken> = Vec::new();
        let mut k: usize = 0;
        while k < take
            invariant
                self.wf(),
                start + take <= total,
                total == self.tokens_by_id@.len(),
                k <= take,
                r@.len() == k,
                forall|k2: int|
                    0 <= k2 < k ==> {
                        let p = self.owner_pairs()[start + k2];
                        (#[trigger] r@[k2]).token_id@ == p.0 && r@[k2].owner_id@ == p.1
                            && r@[k2].metadata@ == self.metas()[p.0]
                    },
            decreases take - k,
        {
            let jt = self.json_token_at(start + k);
            r.push(jt);
            k += 1;
        }
        r
    }

    /// Enumerates one owner's tokens, `from_index` first in its index
    /// entry, at most `limit` of them.
    pub fn nft_tokens_for_owner(
        &self,
        account_id: &String,
        from_index: Option<u128>,
        limit: Option<u64>,
    ) -> (r: Vec<JsonToken>)
        requires
            self.wf(),
        ensures
            r@.len() == page_len(
                owned_len(*self, account_id@),
                start_of(from_index),
                limit_of(limit, owned_len(*self, account_id@)),
            ),
            forall|k: int|
                0 <= k < r@.len() ==> {
                    let t = self.owner_index()[account_id@][start_of(from_index) + k];
                    (#[trigger] r@[k]).token_id@ == t && r@[k].owner_id@ == account_id@
                        && r@[k].metadata@ == self.metas()[t]
                },
    {
        let found = find_idx(&self.tokens_per_owner, account_id);
        let i = match found {
            Some(i) => i,
            None => {
                proof {
                    lemma_kv_dom(self.index_pairs(), account_id@);
                    if self.owner_index().contains_key(account_id@) {
                        let i = choose|i: int|
                            0 <= i < self.index_pairs().len() && self.index_pairs()[i].0
                                == account_id@;
                        assert(self.tokens_per_owner@[i].0@ == account_id@);
                    }
                }
                let r: Vec<JsonToken> = Vec::new();
                return r;
            },
        };
        proof {
            lemma_kv_index(self.index_pairs(), i as int);
        }
        let total = self.tokens_per_owner[i].1.len();
        let start_u: u128 = match from_index {
            Some(s) => s,
            None => 0,
        };
        if start_u >= total as u128 {
            let r: Vec<JsonToken> = Vec::new();
            return r;
        }
        let start = start_u as usize;
        let avail = total - start;
        let take: usize = match limit {
            Some(l) => {
                if (l as u128) < (avail as u128) {
                    l as usize
                } else {
                    avail
                }
            },
            None => avail,
        };
        let mut r: Vec<JsonToken> = Vec::new();
        let mut k: usize = 0;
        while k < take
            invariant
                self.wf(),
                i < self.tokens_per_owner@.len(),
                self.tokens_per_owner@[i as int].0@ == account_id@,
                self.owner_index().contains_key(account_id@),
                self.owner_index()[account_id@] == self.tokens_per_owner@[i as int].1.deep_view(),
                start + take <= total,
                total == self.tokens_per_owner@[i as int].1.len(),
                k <= take,
                r@.len() == k,
                forall|k2: int|
                    0 <= k2 < k ==> {
                        let t = self.owner_index()[account_id@][start + k2];
                        (#[trigger] r@[k2]).token_id@ == t && r@[k2].owner_id@ == account_id@
                            && r@[k2].metadata@ == self.metas()[t]
                    },
            decreases take - k,
        {
            let tid = &self.tokens_per_owner[i].1[start + k];
            proof {
                assert(self.entry_ok(account_id@));
                assert(self.owner_index()[account_id@][start + k as int] == tid@);
                assert(self.owners().contains_key(tid@));
                assert(self.metas().contains_key(tid@));
                lemma_kv_dom(self.meta_pairs(), tid@);
            }
            let mj = find_idx(&self.token_metadata_by_id, tid);
            match mj {
                Some(j) => {
                    proof {
                        lemma_kv_index(self.meta_pairs(), j as int);
                    }
                    let jt = JsonToken {
                        token_id: tid.clone(),
                        owner_id: account_id.clone(),
                        metadata: clone_metadata(&self.token_metadata_by_id[j].1),
                    };
                    r.push(jt);
                },
                None => {
                    proof {
                        let jj = choose|jj: int|
                            0 <= jj < self.meta_pairs().len() && self.meta_pairs()[jj].0 == tid@;
                        assert(self.token_metadata_by_id@[jj].0@ == tid@);
                        assert(false);
                    }
                },
            }
            k += 1;
        }
        r
    }
}

/// How many ids an owner's index entry holds; zero when there is none.
pub open spec fn owned_len(s: Contract, o: Seq<char>) -> int {
    if s.owner_index().contains_key(o) {
        s.owner_index()[o].len() as int
    } else {
        0
    }
}

/// Where a page starts.
pub open spec fn start_of(from_index: Option<u128>) -> int {
    match from_index {
        Some(s) => s as int,
        None => 0,
    }
}

/// How many entries a page may hold.
pub open spec fn limit_of(limit: Option<u64>, total: int) -> int {
    match limit {
        Some(l) => l as int,
        None => total,
    }
}

/// Length of the page beginning at `start` in `total` entries.
pub open spec fn page_len(total: int, start: int, lim: int) -> int {
    if start >= total {
        0
    } else if lim < total - start {
        lim
    } else {
        total - start
    }
}

} // verus!
