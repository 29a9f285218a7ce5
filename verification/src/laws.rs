//! Registry-wide laws: statements that relate several operations or hold
//! of every well-formed state, proved once and for all.

use vstd::prelude::*;

use crate::metadata::{overlay_spec, valid_tag_field, MetaV};
use crate::ops::{
    mint_error, mint_growth, modify_error, stored_mint_meta, transfer_error,
    STORAGE_PRICE_PER_UNIT,
};
use crate::registry::{Contract, RegistryError};

verus! {

/// In every well-formed state the owner index and the ownership map agree:
/// an owner has an index entry exactly when it owns at least one token, and
/// an id is listed under an owner exactly when the ownership map records
/// that owner for it. Every operation preserves `wf`, so this holds in
/// every state reachable from a fresh registry by mint, modify and
/// transfer.
pub proof fn law_index_matches_ownership(s: Contract)
    requires
        s.wf(),
    ensures
        forall|o: Seq<char>|
            #[trigger] s.owner_index().contains_key(o) <==> exists|t: Seq<char>|
                #[trigger] s.owners().contains_key(t) && s.owners()[t] == o,
        forall|o: Seq<char>, t: Seq<char>|
            s.owner_index().contains_key(o) ==> ((#[trigger] s.owner_index()[o].contains(t))
                <==> (s.owners().contains_key(t) && s.owners()[t] == o)),
{
    assert forall|o: Seq<char>| #[trigger]
        s.owner_index().contains_key(o) implies exists|t: Seq<char>|
        #[trigger] s.owners().contains_key(t) && s.owners()[t] == o by {
        assert(s.entry_ok(o));
        let t = s.owner_index()[o][0];
        assert(s.owners().contains_key(t) && s.owners()[t] == o);
    }
    assert forall|o: Seq<char>, t: Seq<char>|
        s.owner_index().contains_key(o) && #[trigger] s.owner_index()[o].contains(t) implies
        s.owners().contains_key(t) && s.owners()[t] == o by {
        assert(s.entry_ok(o));
        let k = choose|k: int|
            0 <= k < s.owner_index()[o].len() && s.owner_index()[o][k] == t;
        assert(s.owners().contains_key(s.owner_index()[o][k]));
    }
}

/// Minting an id that already exists is rejected as a conflict, whatever
/// metadata, receiver or budget come with it; by `nft_mint`'s contract the
/// rejected call leaves the registry exactly as it was. In particular a
/// second mint of the same id right after a successful first one fails
/// this way and leaves the post-first-mint state intact.
pub proof fn law_mint_conflict(
    s: Contract,
    caller: Seq<char>,
    now: u64,
    attached: u128,
    id: Seq<char>,
    m: MetaV,
    receiver: Seq<char>,
)
    requires
        s.is_admin_spec(caller),
        s.owners().contains_key(id),
    ensures
        mint_error(s, caller, now, attached, id, m, receiver) == Some(RegistryError::Conflict),
{
}

/// A patch changes exactly the fields it carries: every absent field is
/// left as stored; `issued_at` is set exactly once, at creation, and is
/// never changed, whatever the patch carries; and `updated_at` becomes
/// the patch's value when supplied and the operation's timestamp
/// otherwise.
pub proof fn law_overlay_untouched_fields(cur: MetaV, patch: MetaV, now: u64)
    ensures
        patch.title is None ==> overlay_spec(cur, patch, now).title == cur.title,
        patch.description is None ==> overlay_spec(cur, patch, now).description
            == cur.description,
        patch.media is None ==> overlay_spec(cur, patch, now).media == cur.media,
        patch.media_hash is None ==> overlay_spec(cur, patch, now).media_hash == cur.media_hash,
        patch.copies is None ==> overlay_spec(cur, patch, now).copies == cur.copies,
        overlay_spec(cur, patch, now).issued_at == cur.issued_at,
        patch.expires_at is None ==> overlay_spec(cur, patch, now).expires_at == cur.expires_at,
        patch.starts_at is None ==> overlay_spec(cur, patch, now).starts_at == cur.starts_at,
        patch.extra is None ==> overlay_spec(cur, patch, now).extra == cur.extra,
        patch.reference is None ==> overlay_spec(cur, patch, now).reference == cur.reference,
        patch.reference_hash is None ==> overlay_spec(cur, patch, now).reference_hash
            == cur.reference_hash,
        patch.user_type is None ==> overlay_spec(cur, patch, now).user_type == cur.user_type,
        patch.organization is None ==> overlay_spec(cur, patch, now).organization
            == cur.organization,
        overlay_spec(cur, patch, now).updated_at == if patch.updated_at is Some {
            patch.updated_at
        } else {
            Some(now)
        },
{
}

/// A caller that fails the role gate is turned away from every mutating
/// operation, always with the authorization failure; by each operation's
/// contract the rejected call changes nothing.
pub proof fn law_non_admin_rejected(
    s: Contract,
    caller: Seq<char>,
    now: u64,
    attached: u128,
    id: Seq<char>,
    m: MetaV,
    sender: Seq<char>,
    receiver: Seq<char>,
)
    requires
        !s.is_admin_spec(caller),
    ensures
        mint_error(s, caller, now, attached, id, m, receiver) == Some(
            RegistryError::Authorization,
        ),
        modify_error(s, caller, now, attached, id, m) == Some(RegistryError::Authorization),
        transfer_error(s, caller, attached, sender, receiver, id) == Some(
            RegistryError::Authorization,
        ),
{
}

/// A classification tag outside the closed enumeration is rejected as a
/// validation failure, on mint and on modify alike; by the operations'
/// contracts nothing is written.
pub proof fn law_invalid_tag_rejected(
    s: Contract,
    caller: Seq<char>,
    now: u64,
    attached: u128,
    id: Seq<char>,
    m: MetaV,
    receiver: Seq<char>,
)
    requires
        s.is_admin_spec(caller),
        !valid_tag_field(m.user_type),
    ensures
        !s.owners().contains_key(id) ==> mint_error(s, caller, now, attached, id, m, receiver)
            == Some(RegistryError::Validation),
        s.metas().contains_key(id) ==> modify_error(s, caller, now, attached, id, m) == Some(
            RegistryError::Validation,
        ),
{
}

/// The accountant's verdict on a mint: too small a budget is rejected as a
/// budget failure (and by `nft_mint`'s contract nothing is written), while
/// a sufficient one succeeds and exactly the excess over the measured cost
/// comes back.
pub proof fn law_mint_budget(
    s: Contract,
    caller: Seq<char>,
    now: u64,
    attached: u128,
    id: Seq<char>,
    m: MetaV,
    receiver: Seq<char>,
)
    requires
        s.is_admin_spec(caller),
        !s.owners().contains_key(id),
        valid_tag_field(m.user_type),
    ensures
        (attached as int) < mint_growth(id, receiver, stored_mint_meta(m, now)) * (
        STORAGE_PRICE_PER_UNIT as int) ==> mint_error(s, caller, now, attached, id, m, receiver)
            == Some(RegistryError::Budget),
        (attached as int) >= mint_growth(id, receiver, stored_mint_meta(m, now)) * (
        STORAGE_PRICE_PER_UNIT as int) ==> mint_error(s, caller, now, attached, id, m, receiver)
            is None,
{
}

} // verus!
