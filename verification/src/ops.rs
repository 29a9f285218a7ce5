//! The registry operations: mint, modify and transfer, each admin-gated,
//! all-or-nothing, and reconciled against the caller's attached budget
//! before any state is committed.

use vstd::arithmetic::div_mod::{lemma_fundamental_div_mod, lemma_mod_bound};
use vstd::arithmetic::mul::lemma_mul_inequality;
use vstd::prelude::*;
use vstd::string::{StrSliceExecFns, StringExecFns};

use crate::events::{EventLog, EventLogVariant, NftMintLog};
use crate::kvlist::{
    find_idx, find_pos, kv_distinct, lemma_kv_dom, lemma_kv_index, lemma_kv_push, lemma_kv_remove,
    lemma_units_sum_push, lemma_units_sum_remove,
};
use crate::metadata::{
    measure_metadata, measure_overlaid, meta_units, overlay, overlay_spec, user_type_from_tag,
    valid_tag_field, MetaV, TokenMetadata,
};
use crate::registry::{seq_distinct, Contract, RegistryError, Token};

verus! {

/// Cost, in budget units, of one storage unit. A fixed external constant.
pub const STORAGE_PRICE_PER_UNIT: u128 = 10_000_000_000_000_000_000;

/// What a successful mint hands back: the unused part of the attached
/// budget, and the creation event record for the host's event sink.
pub struct MintOutcome {
    pub refund: u128,
    pub log: EventLog,
}

/// The metadata a mint stores: `issued_at` defaults to the mint timestamp
/// when the caller did not supply it.
pub open spec fn stored_mint_meta(m: MetaV, now: u64) -> MetaV {
    if m.issued_at is None {
        MetaV { issued_at: Some(now), ..m }
    } else {
        m
    }
}

/// Storage growth of a mint: one ownership record (id and owner) and one
/// metadata record (id and fields).
pub open spec fn mint_growth(id: Seq<char>, receiver: Seq<char>, m: MetaV) -> int {
    2 * id.len() + receiver.len() + meta_units(m)
}

/// Why a mint is rejected, or `None` when it must succeed. The checks run
/// in this order: role gate, id conflict, tag validation, budget.
pub open spec fn mint_error(
    s: Contract,
    caller: Seq<char>,
    now: u64,
    attached: u128,
    id: Seq<char>,
    m: MetaV,
    receiver: Seq<char>,
) -> Option<RegistryError> {
    if !s.is_admin_spec(caller) {
        Some(RegistryError::Authorization)
    } else if s.owners().contains_key(id) {
        Some(RegistryError::Conflict)
    } else if !valid_tag_field(m.user_type) {
        Some(RegistryError::Validation)
    } else if (attached as int) < mint_growth(id, receiver, stored_mint_meta(m, now)) * (
    STORAGE_PRICE_PER_UNIT as int) {
        Some(RegistryError::Budget)
    } else {
        None
    }
}

/// Why a modify is rejected, or `None` when it must succeed. The checks
/// run in this order: role gate, existence, tag validation, budget.
pub open spec fn modify_error(
    s: Contract,
    caller: Seq<char>,
    now: u64,
    attached: u128,
    id: Seq<char>,
    patch: MetaV,
) -> Option<RegistryError> {
    if !s.is_admin_spec(caller) {
        Some(RegistryError::Authorization)
    } else if !s.metas().contains_key(id) {
        Some(RegistryError::NotFound)
    } else if !valid_tag_field(patch.user_type) {
        Some(RegistryError::Validation)
    } else if (attached as int) < modify_growth(s, id, patch, now) * (STORAGE_PRICE_PER_UNIT as int) {
        Some(RegistryError::Budget)
    } else {
        None
    }
}

/// Storage growth of a modify: how much the overlaid record exceeds the
/// stored one; nothing is charged when the record shrinks.
pub open spec fn modify_growth(s: Contract, id: Seq<char>, patch: MetaV, now: u64) -> int {
    let cur = s.metas()[id];
    let new = overlay_spec(cur, patch, now);
    if meta_units(new) > meta_units(cur) {
        meta_units(new) - meta_units(cur)
    } else {
        0
    }
}

/// Storage growth of a transfer: how much the new owner's name exceeds the
/// old one's in the ownership record; nothing is charged when it shrinks.
pub open spec fn transfer_growth(sender: Seq<char>, receiver: Seq<char>) -> int {
    if receiver.len() > sender.len() {
        receiver.len() - sender.len()
    } else {
        0
    }
}

/// Why a transfer is rejected, or `None` when it must succeed. The checks
/// run in this order: role gate, existence, recorded owner, budget.
pub open spec fn transfer_error(
    s: Contract,
    caller: Seq<char>,
    attached: u128,
    sender: Seq<char>,
    receiver: Seq<char>,
    id: Seq<char>,
) -> Option<RegistryError> {
    if !s.is_admin_spec(caller) {
        Some(RegistryError::Authorization)
    } else if !s.owners().contains_key(id) {
        Some(RegistryError::NotFound)
    } else if s.owners()[id] != sender {
        Some(RegistryError::NotFound)
    } else if (attached as int) < transfer_growth(sender, receiver) * (STORAGE_PRICE_PER_UNIT as int) {
        Some(RegistryError::Budget)
    } else {
        None
    }
}

/// Deciding `growth * price <= attached` by one division.
proof fn lemma_budget_check(attached: u128, growth: u128)
    ensures
        (growth <= attached / STORAGE_PRICE_PER_UNIT) <==> ((growth as int) * (
        STORAGE_PRICE_PER_UNIT as int) <= attached as int),
{
    let a = attached as int;
    let g = growth as int;
    let p = STORAGE_PRICE_PER_UNIT as int;
    lemma_fundamental_div_mod(a, p);
    lemma_mod_bound(a, p);
    if g <= a / p {
        lemma_mul_inequality(g, a / p, p);
    } else {
        lemma_mul_inequality(a / p + 1, g, p);
    }
}

impl Contract {
    /// Adds a token id to an owner's index entry, creating the entry when
    /// the owner had none.
    pub fn internal_add_token_to_owner(&mut self, account_id: &String, token_id: &String)
        requires
            kv_distinct(old(self).index_pairs()),
            old(self).owner_index().contains_key(account_id@) ==> !old(self).owner_index()[
                account_id@
            ].contains(token_id@),
        ensures
            final(self).owner_id == old(self).owner_id,
            final(self).tokens_by_id == old(self).tokens_by_id,
            final(self).token_metadata_by_id == old(self).token_metadata_by_id,
            kv_distinct(final(self).index_pairs()),
            final(self).owner_index() == if old(self).owner_index().contains_key(account_id@) {
                old(self).owner_index().insert(
                    account_id@,
                    old(self).owner_index()[account_id@].push(token_id@),
                )
            } else {
                old(self).owner_index().insert(account_id@, seq![token_id@])
            },
    {
        let found = find_idx(&self.tokens_per_owner, account_id);
        match found {
            Some(i) => {
                let ghost ip = self.index_pairs();
                let ghost oldlist = self.owner_index()[account_id@];
                proof {
                    lemma_kv_index(ip, i as int);
                    lemma_kv_remove(ip, i as int);
                }
                let mut entry = self.tokens_per_owner.remove(i);
                proof {
                    assert(self.index_pairs() =~= ip.remove(i as int));
                }
                entry.1.push(token_id.clone());
                let ghost newlist = entry.1.deep_view();
                proof {
                    assert(newlist =~= oldlist.push(token_id@));
                }
                self.tokens_per_owner.push(entry);
                proof {
                    assert(self.index_pairs() =~= ip.remove(i as int).push((
                        account_id@,
                        newlist,
                    )));
                    lemma_kv_push(ip.remove(i as int), (account_id@, newlist));
                    assert(self.owner_index() =~= old(self).owner_index().insert(
                        account_id@,
                        oldlist.push(token_id@),
                    ));
                    assert forall|j: int| 0 <= j < ip.remove(i as int).len() implies (
                    #[trigger] ip.remove(i as int)[j].0) != account_id@ by {
                        let j0: int = if j < i {
                            j
                        } else {
                            j + 1
                        };
                        assert(ip.remove(i as int)[j] == ip[j0]);
                        assert(ip[j0].0 != ip[i as int].0);
                    }
                    assert forall|p: int, q: int|
                        0 <= p < q < self.index_pairs().len() implies (
                    #[trigger] self.index_pairs()[p].0) != (
                    #[trigger] self.index_pairs()[q].0) by {
                        if q == self.index_pairs().len() - 1 {
                            assert(self.index_pairs()[p] == ip.remove(i as int)[p]);
                        } else {
                            assert(self.index_pairs()[p] == ip.remove(i as int)[p]);
                            assert(self.index_pairs()[q] == ip.remove(i as int)[q]);
                        }
                    }
                }
            },
            None => {
                let ghost ip = self.index_pairs();
                let mut l: Vec<String> = Vec::new();
                l.push(token_id.clone());
                proof {
                    assert(l.deep_view() =~= seq![token_id@]);
                }
                self.tokens_per_owner.push((account_id.clone(), l));
                proof {
                    lemma_kv_dom(ip, account_id@);
                    assert(self.index_pairs() =~= ip.push((account_id@, seq![token_id@])));
                    lemma_kv_push(ip, (account_id@, seq![token_id@]));
                    assert forall|p: int, q: int|
                        0 <= p < q < self.index_pairs().len() implies (
                    #[trigger] self.index_pairs()[p].0) != (
                    #[trigger] self.index_pairs()[q].0) by {
                        if q == self.index_pairs().len() - 1 {
                            assert(self.index_pairs()[p] == ip[p]);
                            assert(ip[p].0 != account_id@);
                        } else {
                            assert(self.index_pairs()[p] == ip[p]);
                            assert(self.index_pairs()[q] == ip[q]);
                        }
                    }
                }
            },
        }
    }

    /// Removes a token id from an owner's index entry, dropping the entry
    /// when it would become empty.
    pub fn internal_remove_token_from_owner(&mut self, account_id: &String, token_id: &String)
        requires
            kv_distinct(old(self).index_pairs()),
            old(self).owner_index().contains_key(account_id@),
            old(self).owner_index()[account_id@].contains(token_id@),
            seq_distinct(old(self).owner_index()[account_id@]),
        ensures
            final(self).owner_id == old(self).owner_id,
            final(self).tokens_by_id == old(self).tokens_by_id,
            final(self).token_metadata_by_id == old(self).token_metadata_by_id,
            kv_distinct(final(self).index_pairs()),
            final(self).owner_index() == if old(self).owner_index()[account_id@].len() == 1 {
                old(self).owner_index().remove(account_id@)
            } else {
                old(self).owner_index().insert(
                    account_id@,
                    old(self).owner_index()[account_id@].remove(
                        old(self).owner_index()[account_id@].index_of(token_id@),
                    ),
                )
            },
    {
        let ghost ip = self.index_pairs();
        let ghost oldlist = self.owner_index()[account_id@];
        let found = find_idx(&self.tokens_per_owner, account_id);
        proof {
            if found is None {
                lemma_kv_dom(ip, account_id@);
                let i = choose|i: int| 0 <= i < ip.len() && ip[i].0 == account_id@;
                assert(self.tokens_per_owner@[i].0@ == account_id@);
            }
        }
        let i = match found {
            Some(i) => i,
            None => 0,
        };
        proof {
            lemma_kv_index(ip, i as int);
            lemma_kv_remove(ip, i as int);
        }
        let mut entry = self.tokens_per_owner.remove(i);
        proof {
            assert(self.index_pairs() =~= ip.remove(i as int));
            assert forall|j: int| 0 <= j < ip.remove(i as int).len() implies (
            #[trigger] ip.remove(i as int)[j].0) != account_id@ by {
                let j0: int = if j < i {
                    j
                } else {
                    j + 1
                };
                assert(ip.remove(i as int)[j] == ip[j0]);
                assert(ip[j0].0 != ip[i as int].0);
            }
        }
        let posopt = find_pos(&entry.1, token_id);
        proof {
            if posopt is None {
                let k = choose|k: int| 0 <= k < oldlist.len() && oldlist[k] == token_id@;
                assert(entry.1@[k]@ == token_id@);
            }
        }
        let pos = match posopt {
            Some(p) => p,
            None => 0,
        };
        proof {
            assert(oldlist[pos as int] == token_id@);
            let io = oldlist.index_of(token_id@);
            assert(0 <= io < oldlist.len() && oldlist[io] == token_id@);
            assert(io == pos as int);
        }
        let _removed = entry.1.remove(pos);
        let ghost newlist = entry.1.deep_view();
        proof {
            assert(newlist =~= oldlist.remove(pos as int));
        }
        if entry.1.len() > 0 {
            self.tokens_per_owner.push(entry);
            proof {
                assert(self.index_pairs() =~= ip.remove(i as int).push((account_id@, newlist)));
                lemma_kv_push(ip.remove(i as int), (account_id@, newlist));
                assert(oldlist.len() != 1);
                assert(self.owner_index() =~= old(self).owner_index().insert(
                    account_id@,
                    oldlist.remove(oldlist.index_of(token_id@)),
                ));
                assert forall|p: int, q: int|
                    0 <= p < q < self.index_pairs().len() implies (
                #[trigger] self.index_pairs()[p].0) != (#[trigger] self.index_pairs()[q].0) by {
                    if q == self.index_pairs().len() - 1 {
                        assert(self.index_pairs()[p] == ip.remove(i as int)[p]);
                    } else {
                        assert(self.index_pairs()[p] == ip.remove(i as int)[p]);
                        assert(self.index_pairs()[q] == ip.remove(i as int)[q]);
                    }
                }
            }
        } else {
            proof {
                assert(newlist.len() == 0);
                assert(oldlist.len() == 1);
                assert(self.owner_index() =~= old(self).owner_index().remove(account_id@));
            }
        }
    }
}

} // verus!

verus! {

impl Contract {
    /// Mint: create a token with its metadata and hand it to `receiver_id`.
    /// Admin-gated, all-or-nothing, and reconciled against the attached
    /// budget before any state is committed. On success the ownership map
    /// gains the token, the metadata store gains the record (with
    /// `issued_at` defaulted to `now`), the receiver's index entry gains
    /// the id, and the caller gets back the unused part of the budget and
    /// the creation event record.
    pub fn nft_mint(
        &mut self,
        caller: &String,
        now: u64,
        attached: u128,
        token_id: String,
        metadata: TokenMetadata,
        receiver_id: String,
    ) -> (r: Result<MintOutcome, RegistryError>)
        requires
            old(self).wf(),
        ensures
            final(self).wf(),
            final(self).owner_id == old(self).owner_id,
            ({
                let err = mint_error(
                    *old(self),
                    caller@,
                    now,
                    attached,
                    token_id@,
                    metadata@,
                    receiver_id@,
                );
                match r {
                    Result::Err(e) => err == Some(e) && *final(self) == *old(self),
                    Result::Ok(out) => {
                        let sm = stored_mint_meta(metadata@, now);
                        let growth = mint_growth(token_id@, receiver_id@, sm);
                        &&& err is None
                        &&& final(self).owners() == old(self).owners().insert(
                            token_id@,
                            receiver_id@,
                        )
                        &&& final(self).metas() == old(self).metas().insert(token_id@, sm)
                        &&& final(self).owner_index() == (if old(
                            self,
                        ).owner_index().contains_key(receiver_id@) {
                            old(self).owner_index().insert(
                                receiver_id@,
                                old(self).owner_index()[receiver_id@].push(token_id@),
                            )
                        } else {
                            old(self).owner_index().insert(receiver_id@, seq![token_id@])
                        })
                        &&& final(self).usage() == old(self).usage() + growth
                        &&& out.refund == attached - growth * (STORAGE_PRICE_PER_UNIT as int)
                        &&& out.log.standard@ == "nep171"@
                        &&& out.log.version@ == "nft-1.0.0"@
                        &&& (match out.log.event {
                            EventLogVariant::NftMint(logs) => logs@.len() == 1 && logs@[0].owner_id@
                                == receiver_id@ && logs@[0].token_ids@.len() == 1
                                && logs@[0].token_ids@[0]@ == token_id@ && logs@[0].memo is None,
                        })
                    },
                }
            }),
    {
        let ghost s0 = *old(self);
        let ghost m0 = metadata@;
        if !self.verify_admin_token(caller) {
            return Result::Err(RegistryError::Authorization);
        }
        let dup = find_idx(&self.tokens_by_id, &token_id);
        proof {
            lemma_kv_dom(self.owner_pairs(), token_id@);
        }
        match dup {
            Some(i) => {
                proof {
                    assert(self.owner_pairs()[i as int].0 == token_id@);
                }
                return Result::Err(RegistryError::Conflict);
            },
            None => {},
        }
        let mut metadata = metadata;
        if metadata.issued_at.is_none() {
            metadata.issued_at = Some(now);
        }
        proof {
            assert(metadata@ =~= stored_mint_meta(m0, now));
        }
        match &metadata.user_type {
            Some(ut) => {
                if user_type_from_tag(ut).is_none() {
                    return Result::Err(RegistryError::Validation);
                }
            },
            None => {},
        }
        let idl = token_id.as_str().unicode_len() as u128;
        let rl = receiver_id.as_str().unicode_len() as u128;
        let mu = measure_metadata(&metadata);
        let growth = idl + idl + rl + mu;
        proof {
            assert(growth == mint_growth(token_id@, receiver_id@, stored_mint_meta(m0, now)));
            lemma_budget_check(attached, growth);
        }
        if !(growth <= attached / STORAGE_PRICE_PER_UNIT) {
            return Result::Err(RegistryError::Budget);
        }
        let cost = growth * STORAGE_PRICE_PER_UNIT;
        let refund = attached - cost;

        let ghost op0 = self.owner_pairs();
        let ghost mp0 = self.meta_pairs();
        self.tokens_by_id.push((token_id.clone(), Token { owner_id: receiver_id.clone() }));
        proof {
            assert(self.owner_pairs() =~= op0.push((token_id@, receiver_id@)));
            lemma_kv_push(op0, (token_id@, receiver_id@));
            lemma_units_sum_push(op0, (token_id@, receiver_id@), |o: Seq<char>| o.len() as int);
            assert forall|p: int, q: int|
                0 <= p < q < self.owner_pairs().len() implies (
            #[trigger] self.owner_pairs()[p].0) != (#[trigger] self.owner_pairs()[q].0) by {
                if q == self.owner_pairs().len() - 1 {
                    assert(self.owner_pairs()[p] == op0[p]);
                    assert(op0[p].0 == s0.tokens_by_id@[p].0@);
                } else {
                    assert(self.owner_pairs()[p] == op0[p]);
                    assert(self.owner_pairs()[q] == op0[q]);
                }
            }
        }
        proof {
            lemma_kv_dom(mp0, token_id@);
            assert(s0.metas().dom() == s0.owners().dom());
            assert(!s0.metas().contains_key(token_id@));
        }
        self.token_metadata_by_id.push((token_id.clone(), metadata));
        proof {
            assert(self.meta_pairs() =~= mp0.push((token_id@, stored_mint_meta(m0, now))));
            lemma_kv_push(mp0, (token_id@, stored_mint_meta(m0, now)));
            lemma_units_sum_push(
                mp0,
                (token_id@, stored_mint_meta(m0, now)),
                |m: MetaV| meta_units(m),
            );
            assert forall|p: int, q: int|
                0 <= p < q < self.meta_pairs().len() implies (#[trigger] self.meta_pairs()[p].0)
                != (#[trigger] self.meta_pairs()[q].0) by {
                if q == self.meta_pairs().len() - 1 {
                    assert(self.meta_pairs()[p] == mp0[p]);
                    assert(mp0[p].0 == s0.token_metadata_by_id@[p].0@);
                } else {
                    assert(self.meta_pairs()[p] == mp0[p]);
                    assert(self.meta_pairs()[q] == mp0[q]);
                }
            }
        }
        proof {
            if self.owner_index().contains_key(receiver_id@) {
                assert(s0.entry_ok(receiver_id@));
                if self.owner_index()[receiver_id@].contains(token_id@) {
                    let k = choose|k: int|
                        0 <= k < s0.owner_index()[receiver_id@].len()
                            && s0.owner_index()[receiver_id@][k] == token_id@;
                    assert(s0.owners().contains_key(s0.owner_index()[receiver_id@][k]));
                }
            }
        }
        self.internal_add_token_to_owner(&receiver_id, &token_id);
        proof {
            assert(self.owners() == s0.owners().insert(token_id@, receiver_id@));
            assert(self.metas() == s0.metas().insert(token_id@, stored_mint_meta(m0, now)));
            assert(self.metas().dom() =~= self.owners().dom());
            lemma_mint_index_wf(s0, *self, token_id@, receiver_id@);
        }
        let mut token_ids: Vec<String> = Vec::new();
        token_ids.push(token_id);
        let mut logs: Vec<NftMintLog> = Vec::new();
        logs.push(NftMintLog { owner_id: receiver_id, token_ids, memo: None });
        let log = EventLog {
            standard: String::from_str("nep171"),
            version: String::from_str("nft-1.0.0"),
            event: EventLogVariant::NftMint(logs),
        };
        Result::Ok(MintOutcome { refund, log })
    }
}

/// After a mint's three store updates, the owner index is still consistent
/// with the ownership map.
proof fn lemma_mint_index_wf(s0: Contract, s1: Contract, tid: Seq<char>, recv: Seq<char>)
    requires
        s0.wf(),
        !s0.owners().contains_key(tid),
        s1.owners() == s0.owners().insert(tid, recv),
        s1.owner_index() == (if s0.owner_index().contains_key(recv) {
            s0.owner_index().insert(recv, s0.owner_index()[recv].push(tid))
        } else {
            s0.owner_index().insert(recv, seq![tid])
        }),
    ensures
        s1.index_ok(),
{
    assert forall|o: Seq<char>| #[trigger] s1.owner_index().contains_key(o) implies s1.entry_ok(
        o,
    ) by {
        if o == recv {
            if s0.owner_index().contains_key(recv) {
                assert(s0.entry_ok(recv));
                let l0 = s0.owner_index()[recv];
                let l1 = s1.owner_index()[recv];
                assert(l1 == l0.push(tid));
                assert forall|k: int|
                    0 <= k < l1.len() implies s1.owners().contains_key(#[trigger] l1[k])
                        && s1.owners()[l1[k]] == o by {
                    if k < l0.len() {
                        assert(l1[k] == l0[k]);
                        assert(s0.owners().contains_key(l0[k]) && s0.owners()[l0[k]] == recv);
                        assert(l0[k] != tid);
                    } else {
                        assert(l1[k] == tid);
                    }
                }
                assert forall|p: int, q: int|
                    0 <= p < q < l1.len() implies (#[trigger] l1[p]) != (#[trigger] l1[q]) by {
                    if q == l1.len() - 1 {
                        assert(l1[p] == l0[p]);
                        assert(s0.owners().contains_key(l0[p]));
                        assert(l0[p] != tid);
                    } else {
                        assert(l1[p] == l0[p]);
                        assert(l1[q] == l0[q]);
                    }
                }
            } else {
                let l1 = s1.owner_index()[recv];
                assert(l1 == seq![tid]);
                assert(l1.len() == 1);
                assert(l1[0] == tid);
            }
        } else {
            assert(s0.owner_index().contains_key(o));
            assert(s0.entry_ok(o));
            let l = s1.owner_index()[o];
            assert(l == s0.owner_index()[o]);
            assert forall|k: int|
                0 <= k < l.len() implies s1.owners().contains_key(#[trigger] l[k])
                    && s1.owners()[l[k]] == o by {
                assert(s0.owners().contains_key(l[k]) && s0.owners()[l[k]] == o);
                assert(l[k] != tid);
            }
        }
    }
    assert forall|t: Seq<char>| #[trigger] s1.owners().contains_key(t) implies s1.owner_index().contains_key(
        s1.owners()[t],
    ) && s1.owner_index()[s1.owners()[t]].contains(t) by {
        if t == tid {
            assert(s1.owners()[t] == recv);
            if s0.owner_index().contains_key(recv) {
                let l0 = s0.owner_index()[recv];
                assert(s1.owner_index()[recv][l0.len() as int] == tid);
            } else {
                assert(s1.owner_index()[recv][0] == tid);
            }
        } else {
            assert(s0.owners().contains_key(t));
            let o = s0.owners()[t];
            assert(s1.owners()[t] == o);
            assert(s0.owner_index().contains_key(o));
            assert(s0.owner_index()[o].contains(t));
            let k = choose|k: int|
                0 <= k < s0.owner_index()[o].len() && s0.owner_index()[o][k] == t;
            if o == recv && s0.owner_index().contains_key(recv) {
                assert(s1.owner_index()[o][k] == t);
            } else {
                assert(s1.owner_index()[o] == s0.owner_index()[o]);
            }
        }
    }
}

} // verus!

verus! {

impl Contract {
    /// Modify: overlay a metadata patch onto a stored record. Admin-gated,
    /// all-or-nothing, and reconciled against the attached budget before
    /// the record is replaced. `issued_at` is set exactly once, at mint,
    /// and is never changed here; ownership map and owner index are not
    /// touched. On success the caller gets back the unused budget.
    pub fn nft_modify_token(
        &mut self,
        caller: &String,
        now: u64,
        attached: u128,
        token_id: String,
        new_metadata: TokenMetadata,
    ) -> (r: Result<u128, RegistryError>)
        requires
            old(self).wf(),
        ensures
            final(self).wf(),
            final(self).owner_id == old(self).owner_id,
            ({
                let err = modify_error(
                    *old(self),
                    caller@,
                    now,
                    attached,
                    token_id@,
                    new_metadata@,
                );
                match r {
                    Result::Err(e) => err == Some(e) && *final(self) == *old(self),
                    Result::Ok(refund) => {
                        let newm = overlay_spec(
                            old(self).metas()[token_id@],
                            new_metadata@,
                            now,
                        );
                        &&& err is None
                        &&& final(self).metas() == old(self).metas().insert(token_id@, newm)
                        &&& final(self).metas()[token_id@].issued_at == old(self).metas()[
                            token_id@
                        ].issued_at
                        &&& final(self).owners() == old(self).owners()
                        &&& final(self).owner_index() == old(self).owner_index()
                        &&& final(self).usage() == old(self).usage() + meta_units(newm)
                            - meta_units(old(self).metas()[token_id@])
                        &&& refund == attached - modify_growth(
                            *old(self),
                            token_id@,
                            new_metadata@,
                            now,
                        ) * (STORAGE_PRICE_PER_UNIT as int)
                    },
                }
            }),
    {
        let ghost s0 = *old(self);
        if !self.verify_admin_token(caller) {
            return Result::Err(RegistryError::Authorization);
        }
        let found = find_idx(&self.token_metadata_by_id, &token_id);
        proof {
            lemma_kv_dom(self.meta_pairs(), token_id@);
        }
        let j = match found {
            Some(j) => {
                proof {
                    assert(self.meta_pairs()[j as int].0 == token_id@);
                }
                j
            },
            None => {
                return Result::Err(RegistryError::NotFound);
            },
        };
        match &new_metadata.user_type {
            Some(ut) => {
                if user_type_from_tag(ut).is_none() {
                    return Result::Err(RegistryError::Validation);
                }
            },
            None => {},
        }
        proof {
            lemma_kv_index(self.meta_pairs(), j as int);
        }
        let cur_units = measure_metadata(&self.token_metadata_by_id[j].1);
        let new_units = measure_overlaid(&self.token_metadata_by_id[j].1, &new_metadata, now);
        let growth = if new_units > cur_units {
            new_units - cur_units
        } else {
            0
        };
        proof {
            assert(self.token_metadata_by_id@[j as int].1@ == s0.metas()[token_id@]);
            assert(growth == modify_growth(s0, token_id@, new_metadata@, now));
            lemma_budget_check(attached, growth);
        }
        if !(growth <= attached / STORAGE_PRICE_PER_UNIT) {
            return Result::Err(RegistryError::Budget);
        }
        let cost = growth * STORAGE_PRICE_PER_UNIT;
        let refund = attached - cost;

        let ghost mp0 = self.meta_pairs();
        let entry = self.token_metadata_by_id.remove(j);
        proof {
            assert(self.meta_pairs() =~= mp0.remove(j as int));
            lemma_kv_remove(mp0, j as int);
            lemma_units_sum_remove(mp0, j as int, |m: MetaV| meta_units(m));
            assert forall|j2: int| 0 <= j2 < mp0.remove(j as int).len() implies (
            #[trigger] mp0.remove(j as int)[j2].0) != token_id@ by {
                let j0: int = if j2 < j {
                    j2
                } else {
                    j2 + 1
                };
                assert(mp0.remove(j as int)[j2] == mp0[j0]);
                assert(mp0[j0].0 != mp0[j as int].0);
            }
        }
        let newm = overlay(entry.1, new_metadata, now);
        self.token_metadata_by_id.push((entry.0, newm));
        proof {
            let ghost nv = overlay_spec(s0.metas()[token_id@], new_metadata@, now);
            assert(self.meta_pairs() =~= mp0.remove(j as int).push((token_id@, nv)));
            lemma_kv_push(mp0.remove(j as int), (token_id@, nv));
            lemma_units_sum_push(mp0.remove(j as int), (token_id@, nv), |m: MetaV| meta_units(m));
            assert(self.metas() =~= s0.metas().insert(token_id@, nv));
            assert forall|p: int, q: int|
                0 <= p < q < self.meta_pairs().len() implies (#[trigger] self.meta_pairs()[p].0)
                != (#[trigger] self.meta_pairs()[q].0) by {
                if q == self.meta_pairs().len() - 1 {
                    assert(self.meta_pairs()[p] == mp0.remove(j as int)[p]);
                } else {
                    assert(self.meta_pairs()[p] == mp0.remove(j as int)[p]);
                    assert(self.meta_pairs()[q] == mp0.remove(j as int)[q]);
                }
            }
            assert(self.owners() == s0.owners());
            assert(self.owner_index() == s0.owner_index());
            assert(self.metas().dom() =~= self.owners().dom());
            assert forall|o: Seq<char>| #[trigger]
                self.owner_index().contains_key(o) implies self.entry_ok(o) by {
                assert(s0.entry_ok(o));
            }
        }
        Result::Ok(refund)
    }
}

} // verus!

verus! {

impl Contract {
    /// Transfer: re-record a token under a new owner and move its id
    /// between the two index entries, indivisibly. Admin-gated (transfer
    /// is not owner-authorized in this design), all-or-nothing, and
    /// reconciled against the attached budget before any state is
    /// committed. The memo is carried for the host's event sink and not
    /// interpreted. On success the caller gets back the unused budget.
    pub fn internal_transfer(
        &mut self,
        caller: &String,
        attached: u128,
        sender_id: &String,
        receiver_id: &String,
        token_id: &String,
        memo: Option<String>,
    ) -> (r: Result<u128, RegistryError>)
        requires
            old(self).wf(),
        ensures
            final(self).wf(),
            final(self).owner_id == old(self).owner_id,
            ({
                let err = transfer_error(
                    *old(self),
                    caller@,
                    attached,
                    sender_id@,
                    receiver_id@,
                    token_id@,
                );
                match r {
                    Result::Err(e) => err == Some(e) && *final(self) == *old(self),
                    Result::Ok(refund) => {
                        &&& err is None
                        &&& final(self).owners() == old(self).owners().insert(
                            token_id@,
                            receiver_id@,
                        )
                        &&& final(self).metas() == old(self).metas()
                        &&& final(self).owner_index() == transfer_index(
                            *old(self),
                            sender_id@,
                            receiver_id@,
                            token_id@,
                        )
                        &&& final(self).owner_index().contains_key(receiver_id@)
                        &&& final(self).owner_index()[receiver_id@].contains(token_id@)
                        &&& (sender_id@ != receiver_id@ && final(self).owner_index().contains_key(
                            sender_id@,
                        ) ==> !final(self).owner_index()[sender_id@].contains(token_id@))
                        &&& (sender_id@ != receiver_id@ && old(self).owner_index()[sender_id@].len()
                            == 1 ==> !final(self).owner_index().contains_key(sender_id@))
                        &&& final(self).usage() == old(self).usage() + receiver_id@.len()
                            - sender_id@.len()
                        &&& refund == attached - transfer_growth(sender_id@, receiver_id@) * (
                        STORAGE_PRICE_PER_UNIT as int)
                    },
                }
            }),
    {
        let ghost s0 = *old(self);
        if !self.verify_admin_token(caller) {
            return Result::Err(RegistryError::Authorization);
        }
        let found = find_idx(&self.tokens_by_id, token_id);
        proof {
            lemma_kv_dom(self.owner_pairs(), token_id@);
        }
        let i = match found {
            Some(i) => {
                proof {
                    assert(self.owner_pairs()[i as int].0 == token_id@);
                }
                i
            },
            None => {
                return Result::Err(RegistryError::NotFound);
            },
        };
        proof {
            lemma_kv_index(self.owner_pairs(), i as int);
        }
        if !(self.tokens_by_id[i].1.owner_id == *sender_id) {
            return Result::Err(RegistryError::NotFound);
        }
        let sl = sender_id.as_str().unicode_len() as u128;
        let rl = receiver_id.as_str().unicode_len() as u128;
        let growth = if rl > sl {
            rl - sl
        } else {
            0
        };
        proof {
            assert(growth == transfer_growth(sender_id@, receiver_id@));
            lemma_budget_check(attached, growth);
        }
        if !(growth <= attached / STORAGE_PRICE_PER_UNIT) {
            return Result::Err(RegistryError::Budget);
        }
        let cost = growth * STORAGE_PRICE_PER_UNIT;
        let refund = attached - cost;

        // Re-record ownership.
        let ghost op0 = self.owner_pairs();
        let entry = self.tokens_by_id.remove(i);
        proof {
            assert(self.owner_pairs() =~= op0.remove(i as int));
            lemma_kv_remove(op0, i as int);
            lemma_units_sum_remove(op0, i as int, |o: Seq<char>| o.len() as int);
            assert forall|j2: int| 0 <= j2 < op0.remove(i as int).len() implies (
            #[trigger] op0.remove(i as int)[j2].0) != token_id@ by {
                let j0: int = if j2 < i {
                    j2
                } else {
                    j2 + 1
                };
                assert(op0.remove(i as int)[j2] == op0[j0]);
                assert(op0[j0].0 != op0[i as int].0);
            }
        }
        self.tokens_by_id.push((entry.0, Token { owner_id: receiver_id.clone() }));
        proof {
            assert(self.owner_pairs() =~= op0.remove(i as int).push((token_id@, receiver_id@)));
            lemma_kv_push(op0.remove(i as int), (token_id@, receiver_id@));
            lemma_units_sum_push(
                op0.remove(i as int),
                (token_id@, receiver_id@),
                |o: Seq<char>| o.len() as int,
            );
            assert(self.owners() =~= s0.owners().insert(token_id@, receiver_id@));
            assert forall|p: int, q: int|
                0 <= p < q < self.owner_pairs().len() implies (
            #[trigger] self.owner_pairs()[p].0) != (#[trigger] self.owner_pairs()[q].0) by {
                if q == self.owner_pairs().len() - 1 {
                    assert(self.owner_pairs()[p] == op0.remove(i as int)[p]);
                } else {
                    assert(self.owner_pairs()[p] == op0.remove(i as int)[p]);
                    assert(self.owner_pairs()[q] == op0.remove(i as int)[q]);
                }
            }
        }
        // Move the id between the two index entries.
        proof {
            assert(s0.owners().contains_key(token_id@) && s0.owners()[token_id@] == sender_id@);
            assert(s0.owner_index().contains_key(sender_id@));
            assert(s0.owner_index()[sender_id@].contains(token_id@));
            assert(s0.entry_ok(sender_id@));
            assert(self.owner_index() == s0.owner_index());
        }
        self.internal_remove_token_from_owner(sender_id, token_id);
        proof {
            let l0 = s0.owner_index()[sender_id@];
            let io = l0.index_of(token_id@);
            let k0 = choose|k: int| 0 <= k < l0.len() && l0[k] == token_id@;
            assert(l0[k0] == token_id@);
            assert(0 <= io < l0.len() && l0[io] == token_id@);
            if self.owner_index().contains_key(receiver_id@) {
                if receiver_id@ == sender_id@ {
                    assert(l0.len() != 1);
                    assert(self.owner_index()[receiver_id@] == l0.remove(io));
                    if self.owner_index()[receiver_id@].contains(token_id@) {
                        let k = choose|k: int|
                            0 <= k < l0.remove(io).len() && l0.remove(io)[k] == token_id@;
                        let kk: int = if k < io {
                            k
                        } else {
                            k + 1
                        };
                        assert(l0.remove(io)[k] == l0[kk]);
                        assert(l0[kk] != l0[io]);
                    }
                } else {
                    assert(s0.owner_index().contains_key(receiver_id@));
                    assert(self.owner_index()[receiver_id@] == s0.owner_index()[receiver_id@]);
                    assert(s0.entry_ok(receiver_id@));
                    if self.owner_index()[receiver_id@].contains(token_id@) {
                        let k = choose|k: int|
                            0 <= k < s0.owner_index()[receiver_id@].len() && s0.owner_index()[
                                receiver_id@
                            ][k] == token_id@;
                        assert(s0.owners()[s0.owner_index()[receiver_id@][k]] == receiver_id@);
                    }
                }
            }
        }
        let ghost smid = *self;
        self.internal_add_token_to_owner(receiver_id, token_id);
        proof {
            assert(self.owner_index() == transfer_index(s0, sender_id@, receiver_id@, token_id@));
            assert(self.owners() == s0.owners().insert(token_id@, receiver_id@));
            assert(self.metas() == s0.metas());
            assert(self.metas().dom() =~= self.owners().dom());
            lemma_transfer_index_wf(s0, *self, token_id@, sender_id@, receiver_id@);
            // The receiver's entry now lists the id; the sender's no longer does.
            if smid.owner_index().contains_key(receiver_id@) {
                let b = smid.owner_index()[receiver_id@];
                assert(self.owner_index()[receiver_id@][b.len() as int] == token_id@);
            } else {
                assert(self.owner_index()[receiver_id@][0] == token_id@);
            }
            if sender_id@ != receiver_id@ && self.owner_index().contains_key(sender_id@) {
                let l0 = s0.owner_index()[sender_id@];
                let io = l0.index_of(token_id@);
                assert(self.owner_index()[sender_id@] == l0.remove(io));
                assert(l0.len() != 1);
                if self.owner_index()[sender_id@].contains(token_id@) {
                    let k = choose|k: int|
                        0 <= k < l0.remove(io).len() && l0.remove(io)[k] == token_id@;
                    let kk: int = if k < io {
                        k
                    } else {
                        k + 1
                    };
                    assert(l0.remove(io)[k] == l0[kk]);
                    assert(l0[kk] != l0[io]);
                }
            }
        }
        Result::Ok(refund)
    }
}

/// The owner index after a transfer: the id leaves the sender's entry
/// (which disappears when it empties) and joins the receiver's (created
/// when absent).
pub open spec fn transfer_index(
    s0: Contract,
    sender: Seq<char>,
    recv: Seq<char>,
    tid: Seq<char>,
) -> Map<Seq<char>, Seq<Seq<char>>> {
    let l0 = s0.owner_index()[sender];
    let afterrm = if l0.len() == 1 {
        s0.owner_index().remove(sender)
    } else {
        s0.owner_index().insert(sender, l0.remove(l0.index_of(tid)))
    };
    if afterrm.contains_key(recv) {
        afterrm.insert(recv, afterrm[recv].push(tid))
    } else {
        afterrm.insert(recv, seq![tid])
    }
}

/// After a transfer's three store updates, the owner index is still
/// consistent with the ownership map.
#[verifier::rlimit(50)]
proof fn lemma_transfer_index_wf(
    s0: Contract,
    s1: Contract,
    tid: Seq<char>,
    sender: Seq<char>,
    recv: Seq<char>,
)
    requires
        s0.wf(),
        s0.owners().contains_key(tid),
        s0.owners()[tid] == sender,
        s1.owners() == s0.owners().insert(tid, recv),
        s1.owner_index() == transfer_index(s0, sender, recv, tid),
    ensures
        s1.index_ok(),
{
    let l0 = s0.owner_index()[sender];
    assert(s0.owner_index().contains_key(sender));
    assert(l0.contains(tid));
    assert(s0.entry_ok(sender));
    let io = l0.index_of(tid);
    let kw = choose|k: int| 0 <= k < l0.len() && l0[k] == tid;
    assert(l0[kw] == tid);
    assert(0 <= io < l0.len() && l0[io] == tid);
    let lrm = l0.remove(io);
    assert forall|k: int|
        0 <= k < lrm.len() implies (#[trigger] lrm[k]) != tid && s0.owners().contains_key(lrm[k])
            && s0.owners()[lrm[k]] == sender by {
        let k0: int = if k < io {
            k
        } else {
            k + 1
        };
        assert(lrm[k] == l0[k0]);
        assert(s0.owners().contains_key(l0[k0]) && s0.owners()[l0[k0]] == sender);
        assert(l0[k0] != l0[io]);
    }
    assert forall|p: int, q: int|
        0 <= p < q < lrm.len() implies (#[trigger] lrm[p]) != (#[trigger] lrm[q]) by {
        let p0: int = if p < io {
            p
        } else {
            p + 1
        };
        let q0: int = if q < io {
            q
        } else {
            q + 1
        };
        assert(lrm[p] == l0[p0]);
        assert(lrm[q] == l0[q0]);
        assert(l0[p0] != l0[q0]);
    }
    let afterrm = if l0.len() == 1 {
        s0.owner_index().remove(sender)
    } else {
        s0.owner_index().insert(sender, lrm)
    };
    assert forall|o: Seq<char>| #[trigger] afterrm.contains_key(o) implies afterrm[o].len() > 0
        && seq_distinct(afterrm[o]) && (forall|k: int|
        0 <= k < afterrm[o].len() ==> s0.owners().contains_key(#[trigger] afterrm[o][k])
            && s0.owners()[afterrm[o][k]] == o && afterrm[o][k] != tid) by {
        if o == sender {
            assert(l0.len() != 1);
            assert(afterrm[o] == lrm);
            assert(lrm.len() > 0);
        } else {
            assert(s0.owner_index().contains_key(o));
            assert(afterrm[o] == s0.owner_index()[o]);
            assert(s0.entry_ok(o));
            assert forall|k: int|
                0 <= k < afterrm[o].len() implies s0.owners().contains_key(
                #[trigger] afterrm[o][k]) && s0.owners()[afterrm[o][k]] == o && afterrm[o][k]
                != tid by {
                assert(s0.owners().contains_key(s0.owner_index()[o][k]));
                assert(s0.owners()[s0.owner_index()[o][k]] == o);
                if afterrm[o][k] == tid {
                    assert(s0.owners()[tid] == o);
                }
            }
        }
    }
    assert forall|o: Seq<char>| #[trigger] s1.owner_index().contains_key(o) implies s1.entry_ok(
        o,
    ) by {
        let l = s1.owner_index()[o];
        if o == recv {
            if afterrm.contains_key(recv) {
                let b = afterrm[recv];
                assert(l == b.push(tid));
                assert forall|p: int, q: int|
                    0 <= p < q < l.len() implies (#[trigger] l[p]) != (#[trigger] l[q]) by {
                    if q == l.len() - 1 {
                        assert(l[p] == b[p]);
                        assert(b[p] != tid);
                    } else {
                        assert(l[p] == b[p]);
                        assert(l[q] == b[q]);
                    }
                }
                assert forall|k: int|
                    0 <= k < l.len() implies s1.owners().contains_key(#[trigger] l[k])
                        && s1.owners()[l[k]] == o by {
                    if k < b.len() {
                        assert(l[k] == b[k]);
                        assert(b[k] != tid);
                        assert(s0.owners().contains_key(b[k]) && s0.owners()[b[k]] == recv);
                    } else {
                        assert(l[k] == tid);
                    }
                }
            } else {
                assert(l == seq![tid]);
                assert(l.len() == 1);
                assert(l[0] == tid);
            }
        } else {
            assert(afterrm.contains_key(o));
            assert(l == afterrm[o]);
            assert forall|k: int|
                0 <= k < l.len() implies s1.owners().contains_key(#[trigger] l[k])
                    && s1.owners()[l[k]] == o by {
                assert(s0.owners().contains_key(afterrm[o][k]));
                assert(s0.owners()[afterrm[o][k]] == o);
                assert(afterrm[o][k] != tid);
            }
        }
    }
    assert forall|t: Seq<char>| #[trigger] s1.owners().contains_key(t) implies s1.owner_index().contains_key(
        s1.owners()[t],
    ) && s1.owner_index()[s1.owners()[t]].contains(t) by {
        if t == tid {
            assert(s1.owners()[tid] == recv);
            if afterrm.contains_key(recv) {
                let b = afterrm[recv];
                assert(s1.owner_index()[recv][b.len() as int] == tid);
            } else {
                assert(s1.owner_index()[recv][0] == tid);
            }
        } else {
            assert(s0.owners().contains_key(t));
            let o = s0.owners()[t];
            assert(s1.owners()[t] == o);
            assert(s0.owner_index().contains_key(o));
            assert(s0.owner_index()[o].contains(t));
            let k = choose|k: int|
                0 <= k < s0.owner_index()[o].len() && s0.owner_index()[o][k] == t;
            assert(s0.owner_index()[o][k] == t);
            if o == sender {
                assert(l0[k] == t);
                assert(k != io);
                if l0.len() == 1 {
                    assert(k == 0 && io == 0);
                }
                let k2: int = if k < io {
                    k
                } else {
                    k - 1
                };
                assert(lrm[k2] == l0[k]);
                assert(afterrm.contains_key(sender));
                assert(afterrm[sender] == lrm);
                if recv == sender {
                    assert(s1.owner_index()[sender] == lrm.push(tid));
                    assert(s1.owner_index()[sender][k2] == t);
                } else {
                    assert(s1.owner_index()[sender] == lrm);
                }
            } else {
                assert(afterrm.contains_key(o));
                assert(afterrm[o] == s0.owner_index()[o]);
                if o == recv {
                    assert(s1.owner_index()[recv] == afterrm[recv].push(tid));
                    assert(s1.owner_index()[recv][k] == t);
                } else {
                    assert(s1.owner_index()[o] == s0.owner_index()[o]);
                }
            }
        }
    }
}

} // verus!

