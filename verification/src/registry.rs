//! The kitty registry itself: the asset store, the bounded per-account
//! ownership index, the global count, and the five operations that mutate
//! them (mint, set price, transfer, buy, breed). Every operation either
//! commits completely or reports an error and changes nothing.

use vstd::prelude::*;

use crate::codec::{compute_kitty_id, kitty_bytes};
use crate::dna::{blend_dna, blended_dna, gen_dna, gen_gender, generated_dna, generated_gender, lemma_blend_identical};
use crate::hashing::blake2_256_of;
use crate::ledger::Ledger;
use crate::types::{AccountId, Balance, Dna, Error, Event, Gender, Kitty, KittyId, RandomContext};

verus! {

/// Whether no two stored kitties share an identifier.
pub open spec fn ids_unique(s: Seq<(KittyId, Kitty)>) -> bool {
    forall|i: int, j: int| 0 <= i < j < s.len() ==> (#[trigger] s[i].0)@ != (#[trigger] s[j].0)@
}

/// Whether a kitty with identifier bytes `idb` is stored.
pub open spec fn seq_has_kitty(s: Seq<(KittyId, Kitty)>, idb: Seq<u8>) -> bool {
    exists|i: int| 0 <= i < s.len() && (#[trigger] s[i].0)@ == idb
}

/// The index of the kitty with identifier bytes `idb` (meaningful only when
/// one is stored).
pub open spec fn kitty_index(s: Seq<(KittyId, Kitty)>, idb: Seq<u8>) -> int {
    choose|i: int| 0 <= i < s.len() && (#[trigger] s[i].0)@ == idb
}

/// The stored kitty with identifier bytes `idb`.
pub open spec fn seq_kitty_of(s: Seq<(KittyId, Kitty)>, idb: Seq<u8>) -> Kitty {
    s[kitty_index(s, idb)].1
}

/// Whether no two ownership-index entries name the same account.
pub open spec fn owners_unique(s: Seq<(AccountId, Vec<KittyId>)>) -> bool {
    forall|i: int, j: int| 0 <= i < j < s.len() ==> (#[trigger] s[i].0) != (#[trigger] s[j].0)
}

/// Whether the ownership index has an entry for `a`.
pub open spec fn seq_has_owner(s: Seq<(AccountId, Vec<KittyId>)>, a: AccountId) -> bool {
    exists|i: int| 0 <= i < s.len() && (#[trigger] s[i].0) == a
}

/// The index of the entry for `a` (meaningful only when one exists).
pub open spec fn owner_index(s: Seq<(AccountId, Vec<KittyId>)>, a: AccountId) -> int {
    choose|i: int| 0 <= i < s.len() && (#[trigger] s[i].0) == a
}

/// The identifiers `a` owns: empty for an account without an entry.
pub open spec fn seq_owned_of(s: Seq<(AccountId, Vec<KittyId>)>, a: AccountId) -> Seq<KittyId> {
    if seq_has_owner(s, a) {
        s[owner_index(s, a)].1@
    } else {
        Seq::empty()
    }
}

/// Whether a list of identifiers holds one with bytes `idb`.
pub open spec fn id_list_contains(ids: Seq<KittyId>, idb: Seq<u8>) -> bool {
    exists|k: int| 0 <= k < ids.len() && (#[trigger] ids[k])@ == idb
}

/// The position of the identifier with bytes `idb` in a list (meaningful only
/// when the list holds one).
pub open spec fn id_list_index(ids: Seq<KittyId>, idb: Seq<u8>) -> int {
    choose|k: int| 0 <= k < ids.len() && (#[trigger] ids[k])@ == idb
}

/// Whether a list of identifiers holds no identifier twice.
pub open spec fn id_list_unique(ids: Seq<KittyId>) -> bool {
    forall|p: int, q: int| 0 <= p < q < ids.len() ==> (#[trigger] ids[p])@ != (#[trigger] ids[q])@
}

/// Whether every identifier in an ownership-index entry names a stored kitty
/// whose owner is the entry's account.
pub open spec fn entry_matches_store(
    kitties: Seq<(KittyId, Kitty)>,
    a: AccountId,
    ids: Seq<KittyId>,
) -> bool {
    forall|k: int|
        0 <= k < ids.len() ==> seq_has_kitty(kitties, (#[trigger] ids[k])@) && seq_kitty_of(
            kitties,
            ids[k]@,
        ).owner == a
}

pub proof fn lemma_kitty_index_is_lookup(s: Seq<(KittyId, Kitty)>, i: int)
    requires
        ids_unique(s),
        0 <= i < s.len(),
    ensures
        seq_has_kitty(s, s[i].0@),
        kitty_index(s, s[i].0@) == i,
        seq_kitty_of(s, s[i].0@) == s[i].1,
{
    assert(seq_has_kitty(s, s[i].0@));
    let k = kitty_index(s, s[i].0@);
    assert(0 <= k < s.len() && s[k].0@ == s[i].0@);
    if k != i {
        assert(false);
    }
}

pub proof fn lemma_owner_index_is_lookup(s: Seq<(AccountId, Vec<KittyId>)>, i: int)
    requires
        owners_unique(s),
        0 <= i < s.len(),
    ensures
        seq_has_owner(s, s[i].0),
        owner_index(s, s[i].0) == i,
        seq_owned_of(s, s[i].0) == s[i].1@,
{
    assert(seq_has_owner(s, s[i].0));
    let k = owner_index(s, s[i].0);
    assert(0 <= k < s.len() && s[k].0 == s[i].0);
    if k != i {
        assert(false);
    }
}

/// After a kitty at `i` is overwritten keeping its identifier, every other
/// identifier resolves as before.
proof fn lemma_kitty_other_same(
    s: Seq<(KittyId, Kitty)>,
    t: Seq<(KittyId, Kitty)>,
    i: int,
    idb: Seq<u8>,
)
    requires
        ids_unique(s),
        ids_unique(t),
        s.len() == t.len(),
        0 <= i < s.len(),
        forall|k: int| 0 <= k < s.len() ==> (#[trigger] t[k].0)@ == s[k].0@,
        forall|k: int| 0 <= k < s.len() && k != i ==> #[trigger] t[k] == s[k],
        idb != s[i].0@,
    ensures
        seq_has_kitty(t, idb) == seq_has_kitty(s, idb),
        seq_has_kitty(s, idb) ==> seq_kitty_of(t, idb) == seq_kitty_of(s, idb),
{
    if seq_has_kitty(s, idb) {
        let k = kitty_index(s, idb);
        assert(0 <= k < s.len() && s[k].0@ == idb);
        assert(k != i);
        lemma_kitty_index_is_lookup(t, k);
        lemma_kitty_index_is_lookup(s, k);
    } else {
        if seq_has_kitty(t, idb) {
            let k = kitty_index(t, idb);
            assert(0 <= k < t.len() && t[k].0@ == idb);
            assert(s[k].0@ == idb);
        }
    }
}

/// Overwriting the kitty at `i` with one of the same identifier changes that
/// identifier's kitty alone.
pub proof fn lemma_kitty_update(s: Seq<(KittyId, Kitty)>, i: int, p: (KittyId, Kitty))
    requires
        ids_unique(s),
        0 <= i < s.len(),
        p.0@ == s[i].0@,
    ensures
        ids_unique(s.update(i, p)),
        seq_has_kitty(s.update(i, p), p.0@),
        kitty_index(s.update(i, p), p.0@) == i,
        seq_kitty_of(s.update(i, p), p.0@) == p.1,
        forall|idb: Seq<u8>|
            idb != p.0@ ==> #[trigger] seq_has_kitty(s.update(i, p), idb) == seq_has_kitty(s, idb),
        forall|idb: Seq<u8>|
            idb != p.0@ && seq_has_kitty(s, idb) ==> #[trigger] seq_kitty_of(s.update(i, p), idb)
                == seq_kitty_of(s, idb),
{
    let t = s.update(i, p);
    assert(forall|k: int| 0 <= k < s.len() ==> (#[trigger] t[k].0)@ == s[k].0@);
    lemma_kitty_index_is_lookup(t, i);
    assert forall|idb: Seq<u8>| idb != p.0@ implies #[trigger] seq_has_kitty(t, idb)
        == seq_has_kitty(s, idb) by {
        lemma_kitty_other_same(s, t, i, idb);
    }
    assert forall|idb: Seq<u8>| idb != p.0@ && seq_has_kitty(s, idb) implies #[trigger] seq_kitty_of(
        t,
        idb,
    ) == seq_kitty_of(s, idb) by {
        lemma_kitty_other_same(s, t, i, idb);
    }
}

/// Appending a kitty with a fresh identifier changes that identifier's kitty
/// alone.
pub proof fn lemma_kitty_push(s: Seq<(KittyId, Kitty)>, p: (KittyId, Kitty))
    requires
        ids_unique(s),
        !seq_has_kitty(s, p.0@),
    ensures
        ids_unique(s.push(p)),
        seq_has_kitty(s.push(p), p.0@),
        kitty_index(s.push(p), p.0@) == s.len(),
        seq_kitty_of(s.push(p), p.0@) == p.1,
        forall|idb: Seq<u8>|
            idb != p.0@ ==> #[trigger] seq_has_kitty(s.push(p), idb) == seq_has_kitty(s, idb),
        forall|idb: Seq<u8>|
            idb != p.0@ && seq_has_kitty(s, idb) ==> #[trigger] seq_kitty_of(s.push(p), idb)
                == seq_kitty_of(s, idb),
{
    let t = s.push(p);
    assert(forall|k: int| 0 <= k < s.len() ==> (#[trigger] t[k].0)@ == s[k].0@);
    assert forall|i: int, j: int| 0 <= i < j < t.len() implies (#[trigger] t[i].0)@ != (
    #[trigger] t[j].0)@ by {
        if j == s.len() {
            if s[i].0@ == p.0@ {
                assert(seq_has_kitty(s, p.0@));
            }
        }
    }
    lemma_kitty_index_is_lookup(t, s.len() as int);
    assert forall|idb: Seq<u8>| idb != p.0@ implies #[trigger] seq_has_kitty(t, idb)
        == seq_has_kitty(s, idb) by {
        lemma_kitty_push_other(s, t, p, idb);
    }
    assert forall|idb: Seq<u8>| idb != p.0@ && seq_has_kitty(s, idb) implies #[trigger] seq_kitty_of(
        t,
        idb,
    ) == seq_kitty_of(s, idb) by {
        lemma_kitty_push_other(s, t, p, idb);
    }
}

proof fn lemma_kitty_push_other(
    s: Seq<(KittyId, Kitty)>,
    t: Seq<(KittyId, Kitty)>,
    p: (KittyId, Kitty),
    idb: Seq<u8>,
)
    requires
        ids_unique(s),
        ids_unique(t),
        t == s.push(p),
        idb != p.0@,
    ensures
        seq_has_kitty(t, idb) == seq_has_kitty(s, idb),
        seq_has_kitty(s, idb) ==> seq_kitty_of(t, idb) == seq_kitty_of(s, idb),
{
    if seq_has_kitty(s, idb) {
        let k = kitty_index(s, idb);
        assert(0 <= k < s.len() && s[k].0@ == idb);
        assert(t[k].0@ == idb);
        lemma_kitty_index_is_lookup(t, k);
        lemma_kitty_index_is_lookup(s, k);
    } else {
        if seq_has_kitty(t, idb) {
            let k = kitty_index(t, idb);
            assert(0 <= k < t.len() && t[k].0@ == idb);
            assert(k != s.len());
            assert(s[k].0@ == idb);
        }
    }
}

/// Overwriting the index entry at `i` with one of the same account changes
/// that account's list alone.
pub proof fn lemma_owned_update(
    s: Seq<(AccountId, Vec<KittyId>)>,
    i: int,
    e: (AccountId, Vec<KittyId>),
)
    requires
        owners_unique(s),
        0 <= i < s.len(),
        e.0 == s[i].0,
    ensures
        owners_unique(s.update(i, e)),
        seq_owned_of(s.update(i, e), e.0) == e.1@,
        forall|b: AccountId|
            b != e.0 ==> #[trigger] seq_owned_of(s.update(i, e), b) == seq_owned_of(s, b),
{
    let t = s.update(i, e);
    assert(forall|k: int| 0 <= k < s.len() ==> (#[trigger] t[k].0) == s[k].0);
    lemma_owner_index_is_lookup(t, i);
    assert forall|b: AccountId| b != e.0 implies #[trigger] seq_owned_of(t, b) == seq_owned_of(
        s,
        b,
    ) by {
        if seq_has_owner(s, b) {
            let k = owner_index(s, b);
            assert(0 <= k < s.len() && s[k].0 == b);
            assert(k != i);
            lemma_owner_index_is_lookup(t, k);
            lemma_owner_index_is_lookup(s, k);
        } else {
            if seq_has_owner(t, b) {
                let k = owner_index(t, b);
                assert(0 <= k < t.len() && t[k].0 == b);
                assert(s[k].0 == b);
            }
        }
    }
}

/// Appending an entry for a fresh account changes that account's list alone.
pub proof fn lemma_owned_push(s: Seq<(AccountId, Vec<KittyId>)>, e: (AccountId, Vec<KittyId>))
    requires
        owners_unique(s),
        !seq_has_owner(s, e.0),
    ensures
        owners_unique(s.push(e)),
        seq_owned_of(s.push(e), e.0) == e.1@,
        forall|b: AccountId|
            b != e.0 ==> #[trigger] seq_owned_of(s.push(e), b) == seq_owned_of(s, b),
{
    let t = s.push(e);
    assert(forall|k: int| 0 <= k < s.len() ==> (#[trigger] t[k].0) == s[k].0);
    assert forall|i: int, j: int| 0 <= i < j < t.len() implies (#[trigger] t[i].0) != (
    #[trigger] t[j].0) by {
        if j == s.len() {
            if s[i].0 == e.0 {
                assert(seq_has_owner(s, e.0));
            }
        }
    }
    lemma_owner_index_is_lookup(t, s.len() as int);
    assert forall|b: AccountId| b != e.0 implies #[trigger] seq_owned_of(t, b) == seq_owned_of(
        s,
        b,
    ) by {
        if seq_has_owner(s, b) {
            let k = owner_index(s, b);
            assert(0 <= k < s.len() && s[k].0 == b);
            assert(t[k].0 == b);
            lemma_owner_index_is_lookup(t, k);
            lemma_owner_index_is_lookup(s, k);
        } else {
            if seq_has_owner(t, b) {
                let k = owner_index(t, b);
                assert(0 <= k < t.len() && t[k].0 == b);
                assert(k != s.len());
                assert(s[k].0 == b);
            }
        }
    }
}

/// The dna a mint stores: the supplied one, or the generated one.
pub open spec fn minted_dna(dna: Option<Dna>, ctx: RandomContext) -> Seq<u8> {
    match dna {
        Some(d) => d@,
        None => generated_dna(ctx),
    }
}

/// The gender a mint stores: the supplied one, or the generated one.
pub open spec fn minted_gender(gender: Option<Gender>, ctx: RandomContext) -> Gender {
    match gender {
        Some(g) => g,
        None => generated_gender(ctx),
    }
}

/// The identifier a mint assigns: the content hash of the full record as it
/// is first stored (price not yet set).
pub open spec fn minted_id(
    dna: Option<Dna>,
    gender: Option<Gender>,
    owner: AccountId,
    ctx: RandomContext,
) -> Seq<u8> {
    blake2_256_of(kitty_bytes(minted_dna(dna, ctx), None, minted_gender(gender, ctx), owner))
}

/// The dna a breeding of the two stored parents yields under the supplied
/// randomness: the fresh random mask blended over the parents' dnas.
pub open spec fn bred_dna_of(s: Pallet, p1b: Seq<u8>, p2b: Seq<u8>, ctx: RandomContext) -> Seq<
    u8,
> {
    blended_dna(generated_dna(ctx), s.kitty_of(p1b).dna@, s.kitty_of(p2b).dna@)
}

/// The identifier a breeding assigns to the child: the content hash of the
/// child's record as it is first stored.
pub open spec fn bred_id(
    s: Pallet,
    p1b: Seq<u8>,
    p2b: Seq<u8>,
    owner: AccountId,
    ctx: RandomContext,
) -> Seq<u8> {
    blake2_256_of(kitty_bytes(bred_dna_of(s, p1b, p2b, ctx), None, generated_gender(ctx), owner))
}

/// Appending a kitty with a fresh identifier, and its identifier to its
/// owner's list, keeps the registry well-formed, provided the owner had room.
proof fn lemma_wf_after_mint(s1: Pallet, s2: Pallet, id: KittyId, k: Kitty)
    requires
        s1.wf(),
        !seq_has_kitty(s1.kitties@, id@),
        s2.kitties@ == s1.kitties@.push((id, k)),
        s2.max_kitty_owned == s1.max_kitty_owned,
        owners_unique(s2.kitties_owned@),
        seq_owned_of(s2.kitties_owned@, k.owner) =~= seq_owned_of(s1.kitties_owned@, k.owner).push(
            id,
        ),
        forall|b: AccountId|
            b != k.owner ==> #[trigger] seq_owned_of(s2.kitties_owned@, b) == seq_owned_of(
                s1.kitties_owned@,
                b,
            ),
        seq_owned_of(s1.kitties_owned@, k.owner).len() < s1.max_kitty_owned,
    ensures
        s2.wf(),
{
    lemma_kitty_push(s1.kitties@, (id, k));
    // Each index entry of the new state is bounded, duplicate-free and
    // matches the new store.
    assert forall|i: int| 0 <= i < s2.kitties_owned@.len() implies (
    #[trigger] s2.kitties_owned@[i]).1@.len() <= s2.max_kitty_owned by {
        lemma_owner_index_is_lookup(s2.kitties_owned@, i);
        lemma_mint_entry_facts(s1, s2, id, k, s2.kitties_owned@[i].0);
    }
    assert forall|i: int| 0 <= i < s2.kitties_owned@.len() implies id_list_unique(
        (#[trigger] s2.kitties_owned@[i]).1@,
    ) by {
        lemma_owner_index_is_lookup(s2.kitties_owned@, i);
        lemma_mint_entry_facts(s1, s2, id, k, s2.kitties_owned@[i].0);
    }
    assert forall|i: int| 0 <= i < s2.kitties_owned@.len() implies entry_matches_store(
        s2.kitties@,
        (#[trigger] s2.kitties_owned@[i]).0,
        s2.kitties_owned@[i].1@,
    ) by {
        lemma_owner_index_is_lookup(s2.kitties_owned@, i);
        lemma_mint_entry_facts(s1, s2, id, k, s2.kitties_owned@[i].0);
    }
    // Every kitty of the new store is listed under its owner.
    assert forall|j: int| 0 <= j < s2.kitties@.len() implies id_list_contains(
        seq_owned_of(s2.kitties_owned@, (#[trigger] s2.kitties@[j]).1.owner),
        s2.kitties@[j].0@,
    ) by {
        if j < s1.kitties@.len() {
            let b = s1.kitties@[j].1.owner;
            assert(id_list_contains(seq_owned_of(s1.kitties_owned@, b), s1.kitties@[j].0@));
            let p = id_list_index(seq_owned_of(s1.kitties_owned@, b), s1.kitties@[j].0@);
            if b == k.owner {
                let ids2 = seq_owned_of(s2.kitties_owned@, b);
                assert(ids2[p]@ == s1.kitties@[j].0@);
                assert(id_list_contains(ids2, s2.kitties@[j].0@));
            }
        } else {
            let ids2 = seq_owned_of(s2.kitties_owned@, k.owner);
            assert(ids2[ids2.len() - 1]@ == id@);
            assert(id_list_contains(ids2, id@));
        }
    }
}

/// For any account, after a mint for `k.owner` its list is bounded,
/// duplicate-free and matches the new store.
proof fn lemma_mint_entry_facts(s1: Pallet, s2: Pallet, id: KittyId, k: Kitty, a: AccountId)
    requires
        s1.wf(),
        !seq_has_kitty(s1.kitties@, id@),
        s2.kitties@ == s1.kitties@.push((id, k)),
        s2.max_kitty_owned == s1.max_kitty_owned,
        seq_owned_of(s2.kitties_owned@, k.owner) =~= seq_owned_of(s1.kitties_owned@, k.owner).push(
            id,
        ),
        forall|b: AccountId|
            b != k.owner ==> #[trigger] seq_owned_of(s2.kitties_owned@, b) == seq_owned_of(
                s1.kitties_owned@,
                b,
            ),
        seq_owned_of(s1.kitties_owned@, k.owner).len() < s1.max_kitty_owned,
    ensures
        seq_owned_of(s2.kitties_owned@, a).len() <= s2.max_kitty_owned,
        id_list_unique(seq_owned_of(s2.kitties_owned@, a)),
        entry_matches_store(s2.kitties@, a, seq_owned_of(s2.kitties_owned@, a)),
{
    lemma_kitty_push(s1.kitties@, (id, k));
    let ids1 = seq_owned_of(s1.kitties_owned@, a);
    let ids2 = seq_owned_of(s2.kitties_owned@, a);
    if seq_has_owner(s1.kitties_owned@, a) {
        let j = owner_index(s1.kitties_owned@, a);
        assert(0 <= j < s1.kitties_owned@.len() && s1.kitties_owned@[j].0 == a);
        lemma_owner_index_is_lookup(s1.kitties_owned@, j);
    }
    assert(ids1.len() <= s1.max_kitty_owned && id_list_unique(ids1) && entry_matches_store(
        s1.kitties@,
        a,
        ids1,
    ));
    if id_list_contains(ids1, id@) {
        let p = id_list_index(ids1, id@);
        assert(0 <= p < ids1.len() && ids1[p]@ == id@);
        assert(seq_has_kitty(s1.kitties@, ids1[p]@));
    }
    if a == k.owner {
        assert(ids2 =~= ids1.push(id));
        assert forall|p: int, q: int| 0 <= p < q < ids2.len() implies (#[trigger] ids2[p])@ != (
        #[trigger] ids2[q])@ by {
            if q == ids1.len() {
                if ids1[p]@ == id@ {
                    assert(id_list_contains(ids1, id@));
                }
            }
        }
        assert forall|p: int| 0 <= p < ids2.len() implies seq_has_kitty(
            s2.kitties@,
            (#[trigger] ids2[p])@,
        ) && seq_kitty_of(s2.kitties@, ids2[p]@).owner == a by {
            if p < ids1.len() {
                assert(seq_has_kitty(s1.kitties@, ids1[p]@));
                assert(ids2[p]@ != id@);
            } else {
                assert(ids2[p]@ == id@);
            }
        }
    } else {
        assert(ids2 == ids1);
        assert forall|p: int| 0 <= p < ids2.len() implies seq_has_kitty(
            s2.kitties@,
            (#[trigger] ids2[p])@,
        ) && seq_kitty_of(s2.kitties@, ids2[p]@).owner == a by {
            assert(seq_has_kitty(s1.kitties@, ids1[p]@));
            assert(ids2[p]@ != id@);
        }
    }
}

/// For any account: after a transfer that rewrites the kitty at `ki` to
/// `to`, removes its identifier from `from`'s list by swap-removal at `p`,
/// and appends it to `to`'s list, that account's list is bounded,
/// duplicate-free and matches the new store.
proof fn lemma_transfer_entry_facts(s1: Pallet, s2: Pallet, ki: int, idv2: KittyId, k2: Kitty, a: AccountId)
    requires
        s1.wf(),
        0 <= ki < s1.kitties@.len(),
        idv2@ == s1.kitties@[ki].0@,
        k2.owner != s1.kitties@[ki].1.owner,
        s2.kitties@ == s1.kitties@.update(ki, (idv2, k2)),
        s2.max_kitty_owned == s1.max_kitty_owned,
        owners_unique(s2.kitties_owned@),
        ({
            let from = s1.kitties@[ki].1.owner;
            let ids1f = seq_owned_of(s1.kitties_owned@, from);
            let p = id_list_index(ids1f, idv2@);
            seq_owned_of(s2.kitties_owned@, from) =~= ids1f.update(p, ids1f.last()).drop_last()
        }),
        seq_owned_of(s2.kitties_owned@, k2.owner) =~= seq_owned_of(
            s1.kitties_owned@,
            k2.owner,
        ).push(idv2),
        forall|b: AccountId|
            b != s1.kitties@[ki].1.owner && b != k2.owner ==> #[trigger] seq_owned_of(
                s2.kitties_owned@,
                b,
            ) == seq_owned_of(s1.kitties_owned@, b),
        seq_owned_of(s1.kitties_owned@, k2.owner).len() < s1.max_kitty_owned,
    ensures
        seq_owned_of(s2.kitties_owned@, a).len() <= s2.max_kitty_owned,
        id_list_unique(seq_owned_of(s2.kitties_owned@, a)),
        entry_matches_store(s2.kitties@, a, seq_owned_of(s2.kitties_owned@, a)),
{
    let from = s1.kitties@[ki].1.owner;
    let to = k2.owner;
    let idb = idv2@;
    lemma_kitty_update(s1.kitties@, ki, (idv2, k2));
    lemma_kitty_index_is_lookup(s1.kitties@, ki);
    // What `a` owned before: bounded, duplicate-free, matching the old store.
    let ids1 = seq_owned_of(s1.kitties_owned@, a);
    if seq_has_owner(s1.kitties_owned@, a) {
        let j = owner_index(s1.kitties_owned@, a);
        assert(0 <= j < s1.kitties_owned@.len() && s1.kitties_owned@[j].0 == a);
        lemma_owner_index_is_lookup(s1.kitties_owned@, j);
    }
    assert(ids1.len() <= s1.max_kitty_owned && id_list_unique(ids1) && entry_matches_store(
        s1.kitties@,
        a,
        ids1,
    ));
    // The moved identifier sat in `from`'s old list and in no other.
    if a != from && id_list_contains(ids1, idb) {
        let q = id_list_index(ids1, idb);
        assert(0 <= q < ids1.len() && ids1[q]@ == idb);
        assert(seq_kitty_of(s1.kitties@, idb).owner == a);
        assert(false);
    }
    let ids2 = seq_owned_of(s2.kitties_owned@, a);
    if a == from {
        let ids1f = ids1;
        let n = ids1f.len() as int;
        let p = id_list_index(ids1f, idb);
        assert(id_list_contains(seq_owned_of(s1.kitties_owned@, from), s1.kitties@[ki].0@));
        assert(0 <= p < n && ids1f[p]@ == idb);
        assert(ids2 =~= ids1f.update(p, ids1f.last()).drop_last());
        assert(ids2.len() == n - 1);
        assert(forall|x: int|
            0 <= x < n - 1 ==> #[trigger] ids2[x] == (if x == p {
                ids1f[n - 1]
            } else {
                ids1f[x]
            }));
        // Every surviving position holds an old element from a position
        // other than `p`, so none holds the moved identifier.
        assert forall|x: int| 0 <= x < n - 1 implies ((#[trigger] ids2[x])@ != idb && seq_has_kitty(
            s2.kitties@,
            ids2[x]@,
        ) && seq_kitty_of(s2.kitties@, ids2[x]@).owner == a) by {
            let sx = if x == p {
                n - 1
            } else {
                x
            };
            assert(ids2[x] == ids1f[sx]);
            if ids1f[sx]@ == idb {
                if sx != p {
                    assert(false);
                }
            }
            assert(seq_has_kitty(s1.kitties@, ids1f[sx]@));
        }
        assert forall|x: int, y: int| 0 <= x < y < ids2.len() implies (#[trigger] ids2[x])@ != (
        #[trigger] ids2[y])@ by {
            let sx = if x == p {
                n - 1
            } else {
                x
            };
            let sy = if y == p {
                n - 1
            } else {
                y
            };
            assert(ids2[x] == ids1f[sx] && ids2[y] == ids1f[sy]);
            assert(sx != sy);
        }
    } else if a == to {
        assert(ids2 =~= ids1.push(idv2));
        assert forall|x: int, y: int| 0 <= x < y < ids2.len() implies (#[trigger] ids2[x])@ != (
        #[trigger] ids2[y])@ by {
            if y == ids1.len() {
                if ids1[x]@ == idb {
                    assert(id_list_contains(ids1, idb));
                }
            }
        }
        assert forall|x: int| 0 <= x < ids2.len() implies (seq_has_kitty(
            s2.kitties@,
            (#[trigger] ids2[x])@,
        ) && seq_kitty_of(s2.kitties@, ids2[x]@).owner == a) by {
            if x < ids1.len() {
                assert(ids2[x] == ids1[x]);
                if ids1[x]@ == idb {
                    assert(id_list_contains(ids1, idb));
                }
                assert(seq_has_kitty(s1.kitties@, ids1[x]@));
            } else {
                assert(ids2[x]@ == idb);
            }
        }
    } else {
        assert(ids2 == ids1);
        assert forall|x: int| 0 <= x < ids2.len() implies (seq_has_kitty(
            s2.kitties@,
            (#[trigger] ids2[x])@,
        ) && seq_kitty_of(s2.kitties@, ids2[x]@).owner == a) by {
            if ids1[x]@ == idb {
                assert(id_list_contains(ids1, idb));
            }
            assert(seq_has_kitty(s1.kitties@, ids1[x]@));
        }
    }
}

/// A transfer's combined mutation keeps the registry well-formed.
proof fn lemma_wf_after_transfer(s1: Pallet, s2: Pallet, ki: int, idv2: KittyId, k2: Kitty)
    requires
        s1.wf(),
        0 <= ki < s1.kitties@.len(),
        idv2@ == s1.kitties@[ki].0@,
        k2.owner != s1.kitties@[ki].1.owner,
        s2.kitties@ == s1.kitties@.update(ki, (idv2, k2)),
        s2.max_kitty_owned == s1.max_kitty_owned,
        owners_unique(s2.kitties_owned@),
        ({
            let from = s1.kitties@[ki].1.owner;
            let ids1f = seq_owned_of(s1.kitties_owned@, from);
            let p = id_list_index(ids1f, idv2@);
            seq_owned_of(s2.kitties_owned@, from) =~= ids1f.update(p, ids1f.last()).drop_last()
        }),
        seq_owned_of(s2.kitties_owned@, k2.owner) =~= seq_owned_of(
            s1.kitties_owned@,
            k2.owner,
        ).push(idv2),
        forall|b: AccountId|
            b != s1.kitties@[ki].1.owner && b != k2.owner ==> #[trigger] seq_owned_of(
                s2.kitties_owned@,
                b,
            ) == seq_owned_of(s1.kitties_owned@, b),
        seq_owned_of(s1.kitties_owned@, k2.owner).len() < s1.max_kitty_owned,
    ensures
        s2.wf(),
{
    let from = s1.kitties@[ki].1.owner;
    let to = k2.owner;
    let idb = idv2@;
    lemma_kitty_update(s1.kitties@, ki, (idv2, k2));
    lemma_kitty_index_is_lookup(s1.kitties@, ki);
    assert forall|i: int| 0 <= i < s2.kitties_owned@.len() implies (
    #[trigger] s2.kitties_owned@[i]).1@.len() <= s2.max_kitty_owned by {
        lemma_owner_index_is_lookup(s2.kitties_owned@, i);
        lemma_transfer_entry_facts(s1, s2, ki, idv2, k2, s2.kitties_owned@[i].0);
    }
    assert forall|i: int| 0 <= i < s2.kitties_owned@.len() implies id_list_unique(
        (#[trigger] s2.kitties_owned@[i]).1@,
    ) by {
        lemma_owner_index_is_lookup(s2.kitties_owned@, i);
        lemma_transfer_entry_facts(s1, s2, ki, idv2, k2, s2.kitties_owned@[i].0);
    }
    assert forall|i: int| 0 <= i < s2.kitties_owned@.len() implies entry_matches_store(
        s2.kitties@,
        (#[trigger] s2.kitties_owned@[i]).0,
        s2.kitties_owned@[i].1@,
    ) by {
        lemma_owner_index_is_lookup(s2.kitties_owned@, i);
        lemma_transfer_entry_facts(s1, s2, ki, idv2, k2, s2.kitties_owned@[i].0);
    }
    // Every kitty of the new store is listed under its owner.
    let ids1f = seq_owned_of(s1.kitties_owned@, from);
    let n = ids1f.len() as int;
    let p = id_list_index(ids1f, idb);
    assert(id_list_contains(ids1f, s1.kitties@[ki].0@));
    assert(0 <= p < n && ids1f[p]@ == idb);
    assert forall|j: int| 0 <= j < s2.kitties@.len() implies id_list_contains(
        seq_owned_of(s2.kitties_owned@, (#[trigger] s2.kitties@[j]).1.owner),
        s2.kitties@[j].0@,
    ) by {
        if j == ki {
            let ids2t = seq_owned_of(s2.kitties_owned@, to);
            assert(ids2t[ids2t.len() - 1]@ == idb);
            assert(id_list_contains(ids2t, idb));
        } else {
            let b = s1.kitties@[j].1.owner;
            let kjb = s1.kitties@[j].0@;
            assert(kjb != idb);
            assert(id_list_contains(seq_owned_of(s1.kitties_owned@, b), kjb));
            let q = id_list_index(seq_owned_of(s1.kitties_owned@, b), kjb);
            if b == from {
                assert(0 <= q < n && ids1f[q]@ == kjb);
                assert(q != p);
                let ids2f = seq_owned_of(s2.kitties_owned@, from);
                if q < n - 1 {
                    assert(ids2f[q] == ids1f[q]);
                    assert(id_list_contains(ids2f, kjb));
                } else {
                    assert(p < n - 1);
                    assert(ids2f[p] == ids1f[n - 1]);
                    assert(id_list_contains(ids2f, kjb));
                }
            } else if b == to {
                let ids1t = seq_owned_of(s1.kitties_owned@, to);
                let ids2t = seq_owned_of(s2.kitties_owned@, to);
                assert(0 <= q < ids1t.len() && ids1t[q]@ == kjb);
                assert(ids2t[q] == ids1t[q]);
                assert(id_list_contains(ids2t, kjb));
            }
        }
    }
}

/// Replacing one stored kitty with a record of the same identifier and the
/// same owner (as setting a price does) keeps the registry well-formed.
proof fn lemma_wf_after_record_update(s1: Pallet, s2: Pallet, i: int, p: (KittyId, Kitty))
    requires
        s1.wf(),
        0 <= i < s1.kitties@.len(),
        p.0 == s1.kitties@[i].0,
        p.1.owner == s1.kitties@[i].1.owner,
        s2.kitties@ == s1.kitties@.update(i, p),
        s2.kitties_owned@ == s1.kitties_owned@,
        s2.max_kitty_owned == s1.max_kitty_owned,
    ensures
        s2.wf(),
{
    lemma_kitty_update(s1.kitties@, i, p);
    lemma_kitty_index_is_lookup(s1.kitties@, i);
    assert forall|e: int| 0 <= e < s2.kitties_owned@.len() implies entry_matches_store(
        s2.kitties@,
        (#[trigger] s2.kitties_owned@[e]).0,
        s2.kitties_owned@[e].1@,
    ) by {
        let a = s1.kitties_owned@[e].0;
        let ids = s1.kitties_owned@[e].1@;
        assert(entry_matches_store(s1.kitties@, a, ids));
        assert forall|k: int| 0 <= k < ids.len() implies seq_has_kitty(
            s2.kitties@,
            (#[trigger] ids[k])@,
        ) && seq_kitty_of(s2.kitties@, ids[k]@).owner == a by {
            assert(seq_has_kitty(s1.kitties@, ids[k]@));
            if ids[k]@ == p.0@ {
                assert(seq_kitty_of(s1.kitties@, ids[k]@).owner == a);
            }
        }
    }
    assert forall|k: int| 0 <= k < s2.kitties@.len() implies id_list_contains(
        seq_owned_of(s2.kitties_owned@, (#[trigger] s2.kitties@[k]).1.owner),
        s2.kitties@[k].0@,
    ) by {
        assert(s2.kitties@[k].1.owner == s1.kitties@[k].1.owner);
        assert(s2.kitties@[k].0@ == s1.kitties@[k].0@);
        assert(id_list_contains(
            seq_owned_of(s1.kitties_owned@, s1.kitties@[k].1.owner),
            s1.kitties@[k].0@,
        ));
    }
}

/// In a well-formed registry, every stored kitty's identifier is listed in
/// its owner's ownership-index entry and in no other account's: it appears
/// in exactly one index.
pub proof fn lemma_id_in_exactly_one_index(s: Pallet, idb: Seq<u8>)
    requires
        s.wf(),
        s.has_kitty(idb),
    ensures
        id_list_contains(s.owned_of(s.kitty_of(idb).owner), idb),
        forall|a: AccountId|
            a != s.kitty_of(idb).owner ==> !id_list_contains(#[trigger] s.owned_of(a), idb),
{
    let i = kitty_index(s.kitties@, idb);
    assert(0 <= i < s.kitties@.len() && s.kitties@[i].0@ == idb);
    assert(id_list_contains(seq_owned_of(s.kitties_owned@, s.kitties@[i].1.owner), s.kitties@[i].0@));
    assert forall|a: AccountId| a != s.kitty_of(idb).owner implies !id_list_contains(
        #[trigger] s.owned_of(a),
        idb,
    ) by {
        if id_list_contains(s.owned_of(a), idb) {
            if seq_has_owner(s.kitties_owned@, a) {
                let j = owner_index(s.kitties_owned@, a);
                assert(0 <= j < s.kitties_owned@.len() && s.kitties_owned@[j].0 == a);
                lemma_owner_index_is_lookup(s.kitties_owned@, j);
                let q = id_list_index(s.owned_of(a), idb);
                assert(0 <= q < s.owned_of(a).len() && s.owned_of(a)[q]@ == idb);
                assert(seq_kitty_of(s.kitties@, idb).owner == a);
            }
        }
    }
}

/// No account ever owns more than the configured maximum: the bound holds
/// in every well-formed state, so in every state an operation can produce.
pub proof fn lemma_owned_within_capacity(s: Pallet, a: AccountId)
    requires
        s.wf(),
    ensures
        s.owned_of(a).len() <= s.max_kitty_owned,
{
    if seq_has_owner(s.kitties_owned@, a) {
        let j = owner_index(s.kitties_owned@, a);
        assert(0 <= j < s.kitties_owned@.len() && s.kitties_owned@[j].0 == a);
        lemma_owner_index_is_lookup(s.kitties_owned@, j);
    }
}

/// Breeding two parents with the same dna yields that dna again, whatever
/// mask the randomness source supplies: the blend of identical values is
/// invariant. The mask is the 16-byte digest the dna generator produces.
pub proof fn lemma_breed_identical_parents(s: Pallet, p1b: Seq<u8>, p2b: Seq<u8>, ctx: RandomContext)
    requires
        s.kitty_of(p1b).dna@ == s.kitty_of(p2b).dna@,
        generated_dna(ctx).len() == 16,
    ensures
        bred_dna_of(s, p1b, p2b, ctx) == s.kitty_of(p1b).dna@,
{
    let d = s.kitty_of(p1b).dna@;
    assert(d.len() == 16);
    lemma_blend_identical(generated_dna(ctx), d);
}

/// Compares two identifiers byte for byte.
pub fn id_eq(a: &KittyId, b: &KittyId) -> (r: bool)
    ensures
        r == (a@ == b@),
{
    let mut i: usize = 0;
    while i < 32
        invariant
            i <= 32,
            forall|j: int| 0 <= j < i ==> a@[j] == b@[j],
        decreases 32 - i,
    {
        if a[i] != b[i] {
            return false;
        }
        i = i + 1;
    }
    proof {
        assert(a@ =~= b@);
    }
    true
}

/// The registry: the kitty store, the per-account ownership index, the
/// global count, and the two configured constants.
pub struct Pallet {
    /// Every kitty ever minted, keyed by its identifier, in creation order.
    pub kitties: Vec<(KittyId, Kitty)>,
    /// Per account, the identifiers it owns; never more than
    /// `max_kitty_owned` of them.
    pub kitties_owned: Vec<(AccountId, Vec<KittyId>)>,
    /// How many kitties were ever created; only reassigned, never destroyed.
    pub count_kitties: u64,
    /// The configured cap on how many kitties one account may hold.
    pub max_kitty_owned: u32,
    /// The configured deposit bonded to each owned kitty.
    pub reservation_fee: Balance,
}

impl Pallet {
    /// Well-formedness of the registry:
    /// - no two kitties share an identifier;
    /// - the ownership index has at most one entry per account;
    /// - no entry exceeds the configured capacity, nor lists an identifier
    ///   twice;
    /// - every listed identifier names a stored kitty owned by the entry's
    ///   account, and every stored kitty is listed under its owner.
    pub open spec fn wf(self) -> bool {
        &&& ids_unique(self.kitties@)
        &&& owners_unique(self.kitties_owned@)
        &&& forall|i: int|
            0 <= i < self.kitties_owned@.len() ==> (#[trigger] self.kitties_owned@[i]).1@.len()
                <= self.max_kitty_owned
        &&& forall|i: int|
            0 <= i < self.kitties_owned@.len() ==> id_list_unique(
                (#[trigger] self.kitties_owned@[i]).1@,
            )
        &&& forall|i: int|
            0 <= i < self.kitties_owned@.len() ==> entry_matches_store(
                self.kitties@,
                (#[trigger] self.kitties_owned@[i]).0,
                self.kitties_owned@[i].1@,
            )
        &&& forall|i: int|
            0 <= i < self.kitties@.len() ==> id_list_contains(
                seq_owned_of(self.kitties_owned@, (#[trigger] self.kitties@[i]).1.owner),
                self.kitties@[i].0@,
            )
    }

    /// Whether a kitty with identifier bytes `idb` is stored.
    pub open spec fn has_kitty(self, idb: Seq<u8>) -> bool {
        seq_has_kitty(self.kitties@, idb)
    }

    /// The stored kitty with identifier bytes `idb`.
    pub open spec fn kitty_of(self, idb: Seq<u8>) -> Kitty {
        seq_kitty_of(self.kitties@, idb)
    }

    /// The identifiers `a` owns, in index order.
    pub open spec fn owned_of(self, a: AccountId) -> Seq<KittyId> {
        seq_owned_of(self.kitties_owned@, a)
    }

    /// Whether the kitty with identifier bytes `idb` exists and belongs to
    /// `a`.
    pub open spec fn is_owner(self, a: AccountId, idb: Seq<u8>) -> bool {
        self.has_kitty(idb) && self.kitty_of(idb).owner == a
    }

    /// Invariant tying the registry to the ledger: every account's reserved
    /// balance is exactly the fixed deposit for each kitty it owns, so a
    /// reservation is never double-held or orphaned.
    pub open spec fn deposits_consistent(self, ledger: Ledger) -> bool {
        forall|a: AccountId|
            #[trigger] ledger.reserved_of(a) == self.reservation_fee * self.owned_of(a).len()
    }

    /// Both configured constants are as they were.
    pub open spec fn same_config(self, other: Pallet) -> bool {
        self.max_kitty_owned == other.max_kitty_owned && self.reservation_fee
            == other.reservation_fee
    }

    /// The count is the number of kitties ever created; no kitty is ever
    /// destroyed, so it is the store's length. Every operation keeps this.
    pub open spec fn count_matches_store(self) -> bool {
        self.count_kitties == self.kitties@.len()
    }

    /// A fresh registry with the given capacity and deposit configuration:
    /// no kitties, no index entries, count zero.
    pub fn new(max_kitty_owned: u32, reservation_fee: Balance) -> (p: Pallet)
        ensures
            p.wf(),
            p.count_matches_store(),
            p.kitties@ == Seq::<(KittyId, Kitty)>::empty(),
            p.count_kitties == 0,
            p.max_kitty_owned == max_kitty_owned,
            p.reservation_fee == reservation_fee,
            forall|a: AccountId| #[trigger] p.owned_of(a) == Seq::<KittyId>::empty(),
    {
        Pallet {
            kitties: Vec::new(),
            kitties_owned: Vec::new(),
            count_kitties: 0,
            max_kitty_owned,
            reservation_fee,
        }
    }

    /// The index of the stored kitty with this identifier, if any.
    fn find_kitty(&self, kitty_id: &KittyId) -> (r: Option<usize>)
        ensures
            match r {
                Some(i) => i < self.kitties@.len() && self.kitties@[i as int].0@ == kitty_id@,
                None => !self.has_kitty(kitty_id@),
            },
    {
        let mut i: usize = 0;
        while i < self.kitties.len()
            invariant
                i <= self.kitties@.len(),
                forall|k: int| 0 <= k < i ==> (#[trigger] self.kitties@[k].0)@ != kitty_id@,
            decreases self.kitties@.len() - i,
        {
            if id_eq(&self.kitties[i].0, kitty_id) {
                return Some(i);
            }
            i = i + 1;
        }
        None
    }

    /// The index of the ownership entry for `a`, if any.
    fn find_owner(&self, a: AccountId) -> (r: Option<usize>)
        ensures
            match r {
                Some(i) => i < self.kitties_owned@.len() && self.kitties_owned@[i as int].0 == a,
                None => !seq_has_owner(self.kitties_owned@, a),
            },
    {
        let mut i: usize = 0;
        while i < self.kitties_owned.len()
            invariant
                i <= self.kitties_owned@.len(),
                forall|k: int| 0 <= k < i ==> (#[trigger] self.kitties_owned@[k].0) != a,
            decreases self.kitties_owned@.len() - i,
        {
            if self.kitties_owned[i].0 == a {
                return Some(i);
            }
            i = i + 1;
        }
        None
    }

    /// The position of this identifier in a list of identifiers, if present.
    fn position_of_id(ids: &Vec<KittyId>, kitty_id: &KittyId) -> (r: Option<usize>)
        ensures
            match r {
                Some(k) => k < ids@.len() && ids@[k as int]@ == kitty_id@,
                None => !id_list_contains(ids@, kitty_id@),
            },
    {
        let mut k: usize = 0;
        while k < ids.len()
            invariant
                k <= ids@.len(),
                forall|j: int| 0 <= j < k ==> (#[trigger] ids@[j])@ != kitty_id@,
            decreases ids@.len() - k,
        {
            if id_eq(&ids[k], kitty_id) {
                return Some(k);
            }
            k = k + 1;
        }
        None
    }

    /// How many kitties were ever created.
    pub fn kitty_count(&self) -> (r: u64)
        ensures
            r == self.count_kitties,
    {
        self.count_kitties
    }

    /// The stored kitty with this identifier, if any.
    pub fn get_kitty(&self, kitty_id: &KittyId) -> (r: Option<Kitty>)
        requires
            self.wf(),
        ensures
            match r {
                Some(k) => self.has_kitty(kitty_id@) && k == self.kitty_of(kitty_id@),
                None => !self.has_kitty(kitty_id@),
            },
    {
        match self.find_kitty(kitty_id) {
            Some(i) => {
                proof {
                    lemma_kitty_index_is_lookup(self.kitties@, i as int);
                    assert(self.kitties@[i as int].0@ == kitty_id@);
                }
                Some(self.kitties[i].1)
            }
            None => None,
        }
    }

    /// The identifiers `a` owns, in index order.
    pub fn owned_by(&self, a: AccountId) -> (r: Vec<KittyId>)
        requires
            self.wf(),
        ensures
            r@ == self.owned_of(a),
    {
        match self.find_owner(a) {
            Some(i) => {
                proof {
                    lemma_owner_index_is_lookup(self.kitties_owned@, i as int);
                }
                let ids = &self.kitties_owned[i].1;
                let mut out: Vec<KittyId> = Vec::new();
                let mut k: usize = 0;
                while k < ids.len()
                    invariant
                        k <= ids@.len(),
                        out@ == ids@.subrange(0, k as int),
                    decreases ids@.len() - k,
                {
                    out.push(ids[k]);
                    k = k + 1;
                    proof {
                        assert(out@ =~= ids@.subrange(0, k as int));
                    }
                }
                proof {
                    assert(ids@.subrange(0, ids@.len() as int) =~= ids@);
                }
                out
            }
            None => Vec::new(),
        }
    }

    /// Sets or clears the price of a kitty the sender owns. Fails with
    /// `NotKittyOwner`, changing nothing, when the sender does not own it or
    /// when no such kitty exists. Nothing else changes: not the identifier,
    /// dna, gender or owner of any kitty, and not the ownership index.
    pub fn set_price(&mut self, sender: AccountId, kitty_id: &KittyId, price: Option<Balance>) -> (r:
        Result<Event, Error>)
        requires
            old(self).wf(),
        ensures
            final(self).wf(),
            final(self).same_config(*old(self)),
            old(self).count_matches_store() ==> final(self).count_matches_store(),
            final(self).count_kitties == old(self).count_kitties,
            final(self).kitties_owned@ == old(self).kitties_owned@,
            r is Ok <==> old(self).is_owner(sender, kitty_id@),
            r is Ok ==> r->Ok_0 == Event::PriceSet(sender, *kitty_id, price),
            r is Ok ==> final(self).has_kitty(kitty_id@) && final(self).kitty_of(kitty_id@) == (Kitty {
                price,
                ..old(self).kitty_of(kitty_id@)
            }),
            r is Ok ==> final(self).kitties@ == old(self).kitties@.update(
                kitty_index(old(self).kitties@, kitty_id@),
                (
                    old(self).kitties@[kitty_index(old(self).kitties@, kitty_id@)].0,
                    (Kitty { price, ..old(self).kitty_of(kitty_id@) }),
                ),
            ),
            forall|idb: Seq<u8>| #[trigger] final(self).has_kitty(idb) == old(self).has_kitty(idb),
            forall|idb: Seq<u8>|
                idb != kitty_id@ && old(self).has_kitty(idb) ==> #[trigger] final(self).kitty_of(idb)
                    == old(self).kitty_of(idb),
            r is Err ==> r == Err::<Event, Error>(Error::NotKittyOwner) && *final(self) == *old(
                self,
            ),
    {
        match self.find_kitty(kitty_id) {
            None => Err(Error::NotKittyOwner),
            Some(i) => {
                proof {
                    lemma_kitty_index_is_lookup(self.kitties@, i as int);
                }
                if self.kitties[i].1.owner != sender {
                    return Err(Error::NotKittyOwner);
                }
                let ghost s1 = *self;
                let ghost p = (
                    self.kitties@[i as int].0,
                    Kitty { price, ..self.kitties@[i as int].1 },
                );
                let rec = &mut self.kitties[i];
                rec.1.price = price;
                proof {
                    assert(self.kitties@ == s1.kitties@.update(i as int, p));
                    lemma_kitty_update(s1.kitties@, i as int, p);
                    lemma_wf_after_record_update(s1, *self, i as int, p);
                }
                Ok(Event::PriceSet(sender, *kitty_id, price))
            }
        }
    }

    /// Mints a kitty for `owner`, using the supplied dna and gender or
    /// generating them from the supplied randomness. The fixed deposit is
    /// reserved against the owner, the count rises by one, and the new
    /// record, keyed by its content hash, joins the store and the owner's
    /// index entry. The checks run in order — deposit cover, count overflow,
    /// identifier conflict, capacity — and a failure of any of them reports
    /// its error with nothing changed anywhere.
    pub fn mint(
        &mut self,
        ledger: &mut Ledger,
        owner: AccountId,
        dna: Option<Dna>,
        gender: Option<Gender>,
        ctx: &RandomContext,
    ) -> (r: Result<KittyId, Error>)
        requires
            old(self).wf(),
            old(ledger).wf(),
            old(self).deposits_consistent(*old(ledger)),
        ensures
            final(self).wf(),
            final(ledger).wf(),
            final(self).deposits_consistent(*final(ledger)),
            final(self).same_config(*old(self)),
            old(self).count_matches_store() ==> final(self).count_matches_store(),
            final(ledger).total == old(ledger).total,
            ({
                let free = old(ledger).free_of(owner);
                let fee = old(self).reservation_fee;
                let idb = minted_id(dna, gender, owner, *ctx);
                &&& (r == Err::<KittyId, Error>(Error::ReserveBalanceFailed) <==> free < fee)
                &&& (r == Err::<KittyId, Error>(Error::CountForKittiesOverflow) <==> free >= fee
                    && old(self).count_kitties == u64::MAX)
                &&& (r == Err::<KittyId, Error>(Error::KittyExists) <==> free >= fee && old(
                    self,
                ).count_kitties < u64::MAX && old(self).has_kitty(idb))
                &&& (r == Err::<KittyId, Error>(Error::ExceedMaxKittyOwned) <==> free >= fee && old(
                    self,
                ).count_kitties < u64::MAX && !old(self).has_kitty(idb) && old(self).owned_of(
                    owner,
                ).len() >= old(self).max_kitty_owned)
                &&& (r is Ok <==> free >= fee && old(self).count_kitties < u64::MAX && !old(
                    self,
                ).has_kitty(idb) && old(self).owned_of(owner).len() < old(self).max_kitty_owned)
            }),
            r is Err ==> *final(self) == *old(self) && *final(ledger) == *old(ledger),
            r is Ok ==> ({
                let id = r->Ok_0;
                let k = final(self).kitties@.last().1;
                &&& id@ == minted_id(dna, gender, owner, *ctx)
                &&& k.dna@ == minted_dna(dna, *ctx)
                &&& k.price is None
                &&& k.gender == minted_gender(gender, *ctx)
                &&& k.owner == owner
                &&& !old(self).has_kitty(id@)
                &&& final(self).kitties@ == old(self).kitties@.push((id, k))
                &&& final(self).count_kitties == old(self).count_kitties + 1
                &&& final(self).has_kitty(id@)
                &&& final(self).kitty_of(id@) == k
                &&& final(self).owned_of(owner) =~= old(self).owned_of(owner).push(id)
            }),
            r is Ok ==> forall|b: AccountId|
                b != owner ==> #[trigger] final(self).owned_of(b) == old(self).owned_of(b),
            r is Ok ==> final(ledger).free_of(owner) == old(ledger).free_of(owner) - old(
                self,
            ).reservation_fee,
            r is Ok ==> final(ledger).reserved_of(owner) == old(ledger).reserved_of(owner) + old(
                self,
            ).reservation_fee,
            forall|b: AccountId|
                b != owner ==> #[trigger] final(ledger).free_of(b) == old(ledger).free_of(b),
            forall|b: AccountId|
                b != owner ==> #[trigger] final(ledger).reserved_of(b) == old(ledger).reserved_of(
                    b,
                ),
    {
        let d: Dna = match dna {
            Some(d) => d,
            None => gen_dna(ctx),
        };
        let g: Gender = match gender {
            Some(g) => g,
            None => gen_gender(ctx),
        };
        let kitty = Kitty { dna: d, price: None, gender: g, owner };
        let kitty_id = compute_kitty_id(&kitty);
        proof {
            assert(kitty_id@ == minted_id(dna, gender, owner, *ctx));
        }
        let fee = self.reservation_fee;
        if ledger.free_balance(owner) < fee {
            return Err(Error::ReserveBalanceFailed);
        }
        if self.count_kitties == u64::MAX {
            return Err(Error::CountForKittiesOverflow);
        }
        match self.find_kitty(&kitty_id) {
            Some(_existing) => {
                proof {
                    assert(seq_has_kitty(self.kitties@, kitty_id@));
                }
                return Err(Error::KittyExists);
            }
            None => {}
        }
        let ghost s1 = *self;
        let ghost l1 = *ledger;
        match self.find_owner(owner) {
            Some(oi) => {
                proof {
                    lemma_owner_index_is_lookup(self.kitties_owned@, oi as int);
                }
                if self.kitties_owned[oi].1.len() >= self.max_kitty_owned as usize {
                    return Err(Error::ExceedMaxKittyOwned);
                }
                let _reserved = ledger.reserve(owner, fee);
                let rec = &mut self.kitties_owned[oi];
                rec.1.push(kitty_id);
                proof {
                    assert(self.kitties_owned@ == s1.kitties_owned@.update(
                        oi as int,
                        self.kitties_owned@[oi as int],
                    ));
                    lemma_owned_update(
                        s1.kitties_owned@,
                        oi as int,
                        self.kitties_owned@[oi as int],
                    );
                }
            }
            None => {
                if self.max_kitty_owned == 0 {
                    return Err(Error::ExceedMaxKittyOwned);
                }
                let _reserved = ledger.reserve(owner, fee);
                let mut ids: Vec<KittyId> = Vec::new();
                ids.push(kitty_id);
                proof {
                    lemma_owned_push(s1.kitties_owned@, (owner, ids));
                    assert(seq_owned_of(s1.kitties_owned@, owner) =~= Seq::<KittyId>::empty());
                }
                self.kitties_owned.push((owner, ids));
            }
        }
        self.kitties.push((kitty_id, kitty));
        self.count_kitties = self.count_kitties + 1;
        proof {
            assert(self.owned_of(owner) =~= s1.owned_of(owner).push(kitty_id));
            lemma_wf_after_mint(s1, *self, kitty_id, kitty);
            lemma_kitty_push(s1.kitties@, (kitty_id, kitty));
            assert forall|a: AccountId| #[trigger] ledger.reserved_of(a) == self.reservation_fee
                * self.owned_of(a).len() by {
                if a == owner {
                    let n = s1.owned_of(owner).len();
                    assert(ledger.reserved_of(a) == l1.reserved_of(a) + s1.reservation_fee);
                    assert(l1.reserved_of(a) == s1.reservation_fee * n);
                    assert(self.owned_of(a).len() == n + 1);
                    assert(s1.reservation_fee * (n + 1) == s1.reservation_fee * n
                        + s1.reservation_fee) by (nonlinear_arith);
                }
            }
        }
        Ok(kitty_id)
    }

    /// Moves a kitty, and the deposit bonded to it, to `to`, atomically: the
    /// deposit is reserved against `to` and released to the current owner,
    /// the identifier moves between the two index entries (by swap-removal,
    /// so the old owner's remaining order may change), the record's owner
    /// becomes `to`, and its price resets to none — or an error is reported
    /// and nothing changes anywhere. The checks run in order: existence,
    /// deposit cover, capacity.
    pub fn transfer_kitty_to(&mut self, ledger: &mut Ledger, kitty_id: &KittyId, to: AccountId) -> (r:
        Result<(), Error>)
        requires
            old(self).wf(),
            old(ledger).wf(),
            old(self).deposits_consistent(*old(ledger)),
            old(self).has_kitty(kitty_id@) ==> old(self).kitty_of(kitty_id@).owner != to,
        ensures
            final(self).wf(),
            final(ledger).wf(),
            final(self).deposits_consistent(*final(ledger)),
            final(self).same_config(*old(self)),
            old(self).count_matches_store() ==> final(self).count_matches_store(),
            final(self).count_kitties == old(self).count_kitties,
            final(ledger).total == old(ledger).total,
            ({
                let has = old(self).has_kitty(kitty_id@);
                let fee = old(self).reservation_fee;
                &&& (r == Err::<(), Error>(Error::KittyNotExist) <==> !has)
                &&& (r == Err::<(), Error>(Error::ReserveBalanceFailed) <==> has && old(
                    ledger,
                ).free_of(to) < fee)
                &&& (r == Err::<(), Error>(Error::ExceedMaxKittyOwned) <==> has && old(
                    ledger,
                ).free_of(to) >= fee && old(self).owned_of(to).len() >= old(self).max_kitty_owned)
                &&& (r is Ok <==> has && old(ledger).free_of(to) >= fee && old(self).owned_of(
                    to,
                ).len() < old(self).max_kitty_owned)
            }),
            r is Err ==> *final(self) == *old(self) && *final(ledger) == *old(ledger),
            forall|idb: Seq<u8>| #[trigger] final(self).has_kitty(idb) == old(self).has_kitty(idb),
            forall|idb: Seq<u8>|
                idb != kitty_id@ && old(self).has_kitty(idb) ==> #[trigger] final(self).kitty_of(
                    idb,
                ) == old(self).kitty_of(idb),
            r is Ok ==> ({
                let from = old(self).kitty_of(kitty_id@).owner;
                let ki = kitty_index(old(self).kitties@, kitty_id@);
                let ids1f = old(self).owned_of(from);
                let p = id_list_index(ids1f, kitty_id@);
                let fee = old(self).reservation_fee;
                &&& final(self).kitty_of(kitty_id@) == (Kitty {
                    price: None,
                    owner: to,
                    ..old(self).kitty_of(kitty_id@)
                })
                &&& final(self).kitties@ == old(self).kitties@.update(
                    ki,
                    (
                        old(self).kitties@[ki].0,
                        (Kitty { price: None, owner: to, ..old(self).kitty_of(kitty_id@) }),
                    ),
                )
                &&& final(self).owned_of(from) =~= ids1f.update(p, ids1f.last()).drop_last()
                &&& final(self).owned_of(to) =~= old(self).owned_of(to).push(
                    old(self).kitties@[ki].0,
                )
                &&& final(ledger).free_of(to) == old(ledger).free_of(to) - fee
                &&& final(ledger).reserved_of(to) == old(ledger).reserved_of(to) + fee
                &&& final(ledger).free_of(from) == old(ledger).free_of(from) + fee
                &&& final(ledger).reserved_of(from) == old(ledger).reserved_of(from) - fee
            }),
            r is Ok ==> forall|b: AccountId|
                b != old(self).kitty_of(kitty_id@).owner && b != to
                    ==> #[trigger] final(self).owned_of(b) == old(self).owned_of(b),
            r is Ok ==> forall|b: AccountId|
                b != old(self).kitty_of(kitty_id@).owner && b != to
                    ==> #[trigger] final(ledger).free_of(b) == old(ledger).free_of(b),
            r is Ok ==> forall|b: AccountId|
                b != old(self).kitty_of(kitty_id@).owner && b != to
                    ==> #[trigger] final(ledger).reserved_of(b) == old(ledger).reserved_of(b),
    {
        let fee = self.reservation_fee;
        let ki = match self.find_kitty(kitty_id) {
            None => {
                return Err(Error::KittyNotExist);
            }
            Some(i) => i,
        };
        proof {
            lemma_kitty_index_is_lookup(self.kitties@, ki as int);
        }
        let from = self.kitties[ki].1.owner;
        if ledger.free_balance(to) < fee {
            return Err(Error::ReserveBalanceFailed);
        }
        let to_len: usize = match self.find_owner(to) {
            Some(j) => {
                proof {
                    lemma_owner_index_is_lookup(self.kitties_owned@, j as int);
                }
                self.kitties_owned[j].1.len()
            }
            None => 0,
        };
        if to_len >= self.max_kitty_owned as usize {
            return Err(Error::ExceedMaxKittyOwned);
        }
        let ghost s1 = *self;
        let ghost l1 = *ledger;
        // The deposit moves first: bonded to `to`, released to `from`. The
        // registry invariant guarantees `from` holds at least one full
        // deposit, so exactly the fee comes free again.
        proof {
            assert(l1.reserved_of(from) == s1.reservation_fee * s1.owned_of(from).len());
            assert(id_list_contains(s1.owned_of(from), kitty_id@));
            let q = id_list_index(s1.owned_of(from), kitty_id@);
            assert(0 <= q < s1.owned_of(from).len());
            assert(s1.reservation_fee * s1.owned_of(from).len() >= s1.reservation_fee * 1) by (
            nonlinear_arith)
                requires
                    s1.owned_of(from).len() >= 1,
                    s1.reservation_fee >= 0,
            ;
        }
        let _reserved = ledger.reserve(to, fee);
        ledger.unreserve(from, fee);
        // The identifier leaves `from`'s index entry by swap-removal.
        let fi = match self.find_owner(from) {
            Some(i) => i,
            None => {
                proof {
                    assert(id_list_contains(seq_owned_of(self.kitties_owned@, from), kitty_id@));
                    assert(false);
                }
                return Err(Error::KittyNotExist);
            }
        };
        proof {
            lemma_owner_index_is_lookup(self.kitties_owned@, fi as int);
        }
        let pos = match Self::position_of_id(&self.kitties_owned[fi].1, kitty_id) {
            Some(p) => p,
            None => {
                proof {
                    assert(id_list_contains(seq_owned_of(self.kitties_owned@, from), kitty_id@));
                    assert(false);
                }
                return Err(Error::KittyNotExist);
            }
        };
        let ghost p_spec = id_list_index(s1.owned_of(from), kitty_id@);
        proof {
            assert(s1.owned_of(from)[pos as int]@ == kitty_id@);
            if p_spec != pos as int {
                assert(false);
            }
        }
        let rec = &mut self.kitties_owned[fi];
        let moved_id = rec.1.swap_remove(pos);
        proof {
            assert(self.kitties_owned@ == s1.kitties_owned@.update(
                fi as int,
                self.kitties_owned@[fi as int],
            ));
            lemma_owned_update(s1.kitties_owned@, fi as int, self.kitties_owned@[fi as int]);
        }
        let ghost m1 = *self;
        // The identifier joins `to`'s index entry.
        match self.find_owner(to) {
            Some(j) => {
                proof {
                    lemma_owner_index_is_lookup(self.kitties_owned@, j as int);
                }
                let rec = &mut self.kitties_owned[j];
                rec.1.push(moved_id);
                proof {
                    assert(self.kitties_owned@ == m1.kitties_owned@.update(
                        j as int,
                        self.kitties_owned@[j as int],
                    ));
                    lemma_owned_update(m1.kitties_owned@, j as int, self.kitties_owned@[j as int]);
                }
            }
            None => {
                let mut ids: Vec<KittyId> = Vec::new();
                ids.push(moved_id);
                proof {
                    lemma_owned_push(m1.kitties_owned@, (to, ids));
                    assert(seq_owned_of(m1.kitties_owned@, to) =~= Seq::<KittyId>::empty());
                }
                self.kitties_owned.push((to, ids));
            }
        }
        // The record itself changes owner and is delisted from sale.
        let ghost m2 = *self;
        let rec = &mut self.kitties[ki];
        rec.1.owner = to;
        rec.1.price = None;
        proof {
            assert(self.kitties@ == s1.kitties@.update(ki as int, self.kitties@[ki as int]));
            let idv2 = s1.kitties@[ki as int].0;
            let k2 = self.kitties@[ki as int].1;
            assert(seq_owned_of(self.kitties_owned@, to) =~= seq_owned_of(s1.kitties_owned@, to)
                .push(idv2)) by {
                assert(moved_id@ == idv2@);
                assert(moved_id@ =~= idv2@);
                assert(moved_id == idv2);
                if seq_has_owner(s1.kitties_owned@, to) {
                    let j0 = owner_index(s1.kitties_owned@, to);
                    lemma_owner_index_is_lookup(s1.kitties_owned@, j0);
                }
            }
            lemma_wf_after_transfer(s1, *self, ki as int, idv2, k2);
            lemma_kitty_update(s1.kitties@, ki as int, (idv2, k2));
            // Deposits stay consistent: one kitty and one fee moved from
            // `from` to `to`.
            assert forall|a: AccountId| #[trigger] ledger.reserved_of(a) == self.reservation_fee
                * self.owned_of(a).len() by {
                let fee_s = s1.reservation_fee;
                if a == from {
                    let n = s1.owned_of(from).len();
                    assert(l1.reserved_of(a) == fee_s * n);
                    assert(self.owned_of(a).len() == n - 1);
                    assert(fee_s * (n - 1) == fee_s * n - fee_s) by (nonlinear_arith);
                } else if a == to {
                    let n = s1.owned_of(to).len();
                    assert(l1.reserved_of(a) == fee_s * n);
                    assert(self.owned_of(a).len() == n + 1);
                    assert(fee_s * (n + 1) == fee_s * n + fee_s) by (nonlinear_arith);
                }
            }
        }
        Ok(())
    }

    /// Mints a kitty for `sender` with generated dna and gender, as the
    /// public create operation does, and reports the `Created` notification.
    /// The checks and effects are exactly those of `mint` with nothing
    /// supplied.
    pub fn create_kitty(&mut self, ledger: &mut Ledger, sender: AccountId, ctx: &RandomContext) -> (r:
        Result<Event, Error>)
        requires
            old(self).wf(),
            old(ledger).wf(),
            old(self).deposits_consistent(*old(ledger)),
        ensures
            final(self).wf(),
            final(ledger).wf(),
            final(self).deposits_consistent(*final(ledger)),
            final(self).same_config(*old(self)),
            old(self).count_matches_store() ==> final(self).count_matches_store(),
            final(ledger).total == old(ledger).total,
            ({
                let free = old(ledger).free_of(sender);
                let fee = old(self).reservation_fee;
                let idb = minted_id(None, None, sender, *ctx);
                &&& (r == Err::<Event, Error>(Error::ReserveBalanceFailed) <==> free < fee)
                &&& (r == Err::<Event, Error>(Error::CountForKittiesOverflow) <==> free >= fee
                    && old(self).count_kitties == u64::MAX)
                &&& (r == Err::<Event, Error>(Error::KittyExists) <==> free >= fee && old(
                    self,
                ).count_kitties < u64::MAX && old(self).has_kitty(idb))
                &&& (r == Err::<Event, Error>(Error::ExceedMaxKittyOwned) <==> free >= fee && old(
                    self,
                ).count_kitties < u64::MAX && !old(self).has_kitty(idb) && old(self).owned_of(
                    sender,
                ).len() >= old(self).max_kitty_owned)
                &&& (r is Ok <==> free >= fee && old(self).count_kitties < u64::MAX && !old(
                    self,
                ).has_kitty(idb) && old(self).owned_of(sender).len() < old(self).max_kitty_owned)
            }),
            r is Err ==> *final(self) == *old(self) && *final(ledger) == *old(ledger),
            r is Ok ==> ({
                let id = final(self).kitties@.last().0;
                let k = final(self).kitties@.last().1;
                &&& r->Ok_0 == Event::Created(sender, id)
                &&& id@ == minted_id(None, None, sender, *ctx)
                &&& k.dna@ == generated_dna(*ctx)
                &&& k.price is None
                &&& k.gender == generated_gender(*ctx)
                &&& k.owner == sender
                &&& !old(self).has_kitty(id@)
                &&& final(self).kitties@ == old(self).kitties@.push((id, k))
                &&& final(self).count_kitties == old(self).count_kitties + 1
                &&& final(self).has_kitty(id@)
                &&& final(self).kitty_of(id@) == k
                &&& final(self).owned_of(sender) =~= old(self).owned_of(sender).push(id)
                &&& final(ledger).free_of(sender) == old(ledger).free_of(sender) - old(
                    self,
                ).reservation_fee
                &&& final(ledger).reserved_of(sender) == old(ledger).reserved_of(sender) + old(
                    self,
                ).reservation_fee
            }),
            r is Ok ==> forall|b: AccountId|
                b != sender ==> #[trigger] final(self).owned_of(b) == old(self).owned_of(b),
            forall|b: AccountId|
                b != sender ==> #[trigger] final(ledger).free_of(b) == old(ledger).free_of(b),
            forall|b: AccountId|
                b != sender ==> #[trigger] final(ledger).reserved_of(b) == old(ledger).reserved_of(
                    b,
                ),
    {
        match self.mint(ledger, sender, None, None, ctx) {
            Ok(kitty_id) => Ok(Event::Created(sender, kitty_id)),
            Err(e) => Err(e),
        }
    }

    /// Transfers a kitty the sender owns to another account, moving the
    /// bonded deposit with it and delisting it from sale. The checks run in
    /// order: the sender must own the kitty (`NotKittyOwner`, also for a
    /// kitty that does not exist), the receiver must be another account
    /// (`TransferToSelf`), the receiver must cover the deposit and have
    /// room. Any failure changes nothing anywhere.
    pub fn transfer(&mut self, ledger: &mut Ledger, sender: AccountId, kitty_id: &KittyId, to: AccountId) -> (r:
        Result<Event, Error>)
        requires
            old(self).wf(),
            old(ledger).wf(),
            old(self).deposits_consistent(*old(ledger)),
        ensures
            final(self).wf(),
            final(ledger).wf(),
            final(self).deposits_consistent(*final(ledger)),
            final(self).same_config(*old(self)),
            old(self).count_matches_store() ==> final(self).count_matches_store(),
            final(self).count_kitties == old(self).count_kitties,
            final(ledger).total == old(ledger).total,
            ({
                let owns = old(self).is_owner(sender, kitty_id@);
                let fee = old(self).reservation_fee;
                &&& (r == Err::<Event, Error>(Error::NotKittyOwner) <==> !owns)
                &&& (r == Err::<Event, Error>(Error::TransferToSelf) <==> owns && sender == to)
                &&& (r == Err::<Event, Error>(Error::ReserveBalanceFailed) <==> owns && sender
                    != to && old(ledger).free_of(to) < fee)
                &&& (r == Err::<Event, Error>(Error::ExceedMaxKittyOwned) <==> owns && sender != to
                    && old(ledger).free_of(to) >= fee && old(self).owned_of(to).len() >= old(
                    self,
                ).max_kitty_owned)
                &&& (r is Ok <==> owns && sender != to && old(ledger).free_of(to) >= fee && old(
                    self,
                ).owned_of(to).len() < old(self).max_kitty_owned)
            }),
            r is Err ==> *final(self) == *old(self) && *final(ledger) == *old(ledger),
            forall|idb: Seq<u8>| #[trigger] final(self).has_kitty(idb) == old(self).has_kitty(idb),
            forall|idb: Seq<u8>|
                idb != kitty_id@ && old(self).has_kitty(idb) ==> #[trigger] final(self).kitty_of(
                    idb,
                ) == old(self).kitty_of(idb),
            r is Ok ==> ({
                let ki = kitty_index(old(self).kitties@, kitty_id@);
                let ids1f = old(self).owned_of(sender);
                let p = id_list_index(ids1f, kitty_id@);
                let fee = old(self).reservation_fee;
                &&& r->Ok_0 == Event::Transferred(sender, to, *kitty_id)
                &&& final(self).kitty_of(kitty_id@) == (Kitty {
                    price: None,
                    owner: to,
                    ..old(self).kitty_of(kitty_id@)
                })
                &&& final(self).owned_of(sender) =~= ids1f.update(p, ids1f.last()).drop_last()
                &&& final(self).owned_of(to) =~= old(self).owned_of(to).push(
                    old(self).kitties@[ki].0,
                )
                &&& final(ledger).free_of(to) == old(ledger).free_of(to) - fee
                &&& final(ledger).reserved_of(to) == old(ledger).reserved_of(to) + fee
                &&& final(ledger).free_of(sender) == old(ledger).free_of(sender) + fee
                &&& final(ledger).reserved_of(sender) == old(ledger).reserved_of(sender) - fee
            }),
            r is Ok ==> forall|b: AccountId|
                b != sender && b != to
                    ==> #[trigger] final(self).owned_of(b) == old(self).owned_of(b),
            r is Ok ==> forall|b: AccountId|
                b != sender && b != to
                    ==> #[trigger] final(ledger).free_of(b) == old(ledger).free_of(b),
            r is Ok ==> forall|b: AccountId|
                b != sender && b != to
                    ==> #[trigger] final(ledger).reserved_of(b) == old(ledger).reserved_of(b),
    {
        if !self.is_kitty_owner(sender, kitty_id) {
            return Err(Error::NotKittyOwner);
        }
        if sender == to {
            return Err(Error::TransferToSelf);
        }
        match self.transfer_kitty_to(ledger, kitty_id, to) {
            Ok(()) => Ok(Event::Transferred(sender, to, *kitty_id)),
            Err(e) => Err(e),
        }
    }

    /// Buys a listed kitty. The checks run in order: the kitty must exist
    /// (`KittyNotExist`), the buyer must not already own it
    /// (`BuyerIsKittyOwner`), it must be listed (`KittyNotForSale`), the bid
    /// must strictly exceed the ask (`KittyBidPriceTooLow`), the buyer's
    /// free balance must cover the bid (`NotEnoughBalance`), what remains
    /// after paying must cover the deposit (`ReserveBalanceFailed`), and the
    /// buyer must have room (`ExceedMaxKittyOwned`). On success the bid —
    /// the full bid, which may exceed the ask — moves to the seller, and the
    /// kitty, with its deposit, moves to the buyer and is delisted. Any
    /// failure changes nothing anywhere: no funds and no ownership move.
    pub fn buy_kitty(&mut self, ledger: &mut Ledger, buyer: AccountId, kitty_id: &KittyId, bid_price: Balance) -> (r:
        Result<Event, Error>)
        requires
            old(self).wf(),
            old(ledger).wf(),
            old(self).deposits_consistent(*old(ledger)),
        ensures
            final(self).wf(),
            final(ledger).wf(),
            final(self).deposits_consistent(*final(ledger)),
            final(self).same_config(*old(self)),
            old(self).count_matches_store() ==> final(self).count_matches_store(),
            final(self).count_kitties == old(self).count_kitties,
            final(ledger).total == old(ledger).total,
            ({
                let has = old(self).has_kitty(kitty_id@);
                let k = old(self).kitty_of(kitty_id@);
                let fee = old(self).reservation_fee;
                let free = old(ledger).free_of(buyer);
                &&& (r == Err::<Event, Error>(Error::KittyNotExist) <==> !has)
                &&& (r == Err::<Event, Error>(Error::BuyerIsKittyOwner) <==> has && k.owner
                    == buyer)
                &&& (r == Err::<Event, Error>(Error::KittyNotForSale) <==> has && k.owner != buyer
                    && k.price is None)
                &&& (r == Err::<Event, Error>(Error::KittyBidPriceTooLow) <==> has && k.owner
                    != buyer && (k.price matches Some(ask) && ask >= bid_price))
                &&& (r == Err::<Event, Error>(Error::NotEnoughBalance) <==> has && k.owner != buyer
                    && (k.price matches Some(ask) && ask < bid_price) && free < bid_price)
                &&& (r == Err::<Event, Error>(Error::ReserveBalanceFailed) <==> has && k.owner
                    != buyer && (k.price matches Some(ask) && ask < bid_price) && free >= bid_price
                    && free - bid_price < fee)
                &&& (r == Err::<Event, Error>(Error::ExceedMaxKittyOwned) <==> has && k.owner
                    != buyer && (k.price matches Some(ask) && ask < bid_price) && free >= bid_price
                    && free - bid_price >= fee && old(self).owned_of(buyer).len() >= old(
                    self,
                ).max_kitty_owned)
                &&& (r is Ok <==> has && k.owner != buyer && (k.price matches Some(ask) && ask
                    < bid_price) && free >= bid_price && free - bid_price >= fee && old(
                    self,
                ).owned_of(buyer).len() < old(self).max_kitty_owned)
            }),
            r is Err ==> *final(self) == *old(self) && *final(ledger) == *old(ledger),
            forall|idb: Seq<u8>| #[trigger] final(self).has_kitty(idb) == old(self).has_kitty(idb),
            forall|idb: Seq<u8>|
                idb != kitty_id@ && old(self).has_kitty(idb) ==> #[trigger] final(self).kitty_of(
                    idb,
                ) == old(self).kitty_of(idb),
            r is Ok ==> ({
                let seller = old(self).kitty_of(kitty_id@).owner;
                let ki = kitty_index(old(self).kitties@, kitty_id@);
                let ids1f = old(self).owned_of(seller);
                let p = id_list_index(ids1f, kitty_id@);
                let fee = old(self).reservation_fee;
                &&& r->Ok_0 == Event::Bought(buyer, seller, *kitty_id, bid_price)
                &&& final(self).kitty_of(kitty_id@) == (Kitty {
                    price: None,
                    owner: buyer,
                    ..old(self).kitty_of(kitty_id@)
                })
                &&& final(self).owned_of(seller) =~= ids1f.update(p, ids1f.last()).drop_last()
                &&& final(self).owned_of(buyer) =~= old(self).owned_of(buyer).push(
                    old(self).kitties@[ki].0,
                )
                &&& final(ledger).free_of(buyer) == old(ledger).free_of(buyer) - bid_price - fee
                &&& final(ledger).reserved_of(buyer) == old(ledger).reserved_of(buyer) + fee
                &&& final(ledger).free_of(seller) == old(ledger).free_of(seller) + bid_price + fee
                &&& final(ledger).reserved_of(seller) == old(ledger).reserved_of(seller) - fee
            }),
            r is Ok ==> forall|b: AccountId|
                b != old(self).kitty_of(kitty_id@).owner && b != buyer
                    ==> #[trigger] final(self).owned_of(b) == old(self).owned_of(b),
            r is Ok ==> forall|b: AccountId|
                b != old(self).kitty_of(kitty_id@).owner && b != buyer
                    ==> #[trigger] final(ledger).free_of(b) == old(ledger).free_of(b),
            r is Ok ==> forall|b: AccountId|
                b != old(self).kitty_of(kitty_id@).owner && b != buyer
                    ==> #[trigger] final(ledger).reserved_of(b) == old(ledger).reserved_of(b),
    {
        let ki = match self.find_kitty(kitty_id) {
            None => {
                return Err(Error::KittyNotExist);
            }
            Some(i) => i,
        };
        proof {
            lemma_kitty_index_is_lookup(self.kitties@, ki as int);
        }
        let seller = self.kitties[ki].1.owner;
        if seller == buyer {
            return Err(Error::BuyerIsKittyOwner);
        }
        let ask = match self.kitties[ki].1.price {
            Some(a) => a,
            None => {
                return Err(Error::KittyNotForSale);
            }
        };
        if ask >= bid_price {
            return Err(Error::KittyBidPriceTooLow);
        }
        let free = ledger.free_balance(buyer);
        if free < bid_price {
            return Err(Error::NotEnoughBalance);
        }
        let fee = self.reservation_fee;
        if free - bid_price < fee {
            return Err(Error::ReserveBalanceFailed);
        }
        let buyer_len: usize = match self.find_owner(buyer) {
            Some(j) => {
                proof {
                    lemma_owner_index_is_lookup(self.kitties_owned@, j as int);
                }
                self.kitties_owned[j].1.len()
            }
            None => 0,
        };
        if buyer_len >= self.max_kitty_owned as usize {
            return Err(Error::ExceedMaxKittyOwned);
        }
        let ghost l1 = *ledger;
        // The funds move first; the checks above guarantee the rest of the
        // sequence cannot fail, so the whole purchase is all-or-nothing.
        let _paid = ledger.transfer(buyer, seller, bid_price);
        proof {
            assert forall|a: AccountId| #[trigger] ledger.reserved_of(a) == self.reservation_fee
                * self.owned_of(a).len() by {
                assert(l1.reserved_of(a) == self.reservation_fee * self.owned_of(a).len());
                if a != buyer && a != seller {
                    assert(ledger.reserved_of(a) == l1.reserved_of(a));
                }
            }
        }
        match self.transfer_kitty_to(ledger, kitty_id, buyer) {
            Ok(()) => Ok(Event::Bought(buyer, seller, *kitty_id, bid_price)),
            Err(e) => {
                // The checks above rule out every failure of the move.
                proof {
                    assert(false);
                }
                Err(e)
            }
        }
    }

    /// The dna a breeding of these two parents yields under the supplied
    /// randomness: a fresh random mask blended over the parents' dnas, bit
    /// by bit. Fails with `KittyNotExist` when either parent is missing;
    /// nothing is ever changed.
    pub fn breed_dna(&self, parent1: &KittyId, parent2: &KittyId, ctx: &RandomContext) -> (r:
        Result<Dna, Error>)
        requires
            self.wf(),
        ensures
            r is Ok <==> self.has_kitty(parent1@) && self.has_kitty(parent2@),
            r is Err ==> r == Err::<Dna, Error>(Error::KittyNotExist),
            r is Ok ==> r->Ok_0@ == blended_dna(
                generated_dna(*ctx),
                self.kitty_of(parent1@).dna@,
                self.kitty_of(parent2@).dna@,
            ),
    {
        let i1 = match self.find_kitty(parent1) {
            None => {
                return Err(Error::KittyNotExist);
            }
            Some(i) => i,
        };
        let i2 = match self.find_kitty(parent2) {
            None => {
                return Err(Error::KittyNotExist);
            }
            Some(i) => i,
        };
        proof {
            lemma_kitty_index_is_lookup(self.kitties@, i1 as int);
            lemma_kitty_index_is_lookup(self.kitties@, i2 as int);
        }
        let mask = gen_dna(ctx);
        let dna1 = self.kitties[i1].1.dna;
        let dna2 = self.kitties[i2].1.dna;
        Ok(blend_dna(&mask, &dna1, &dna2))
    }

    /// Breeds a child from two kitties the sender owns. Both ownership
    /// checks come first — `NotKittyOwner`, also for a missing parent,
    /// before any randomness is consumed or state touched — then the child
    /// dna is blended and the child minted under the same deposit, count,
    /// uniqueness and capacity rules as a direct mint. Any failure changes
    /// nothing anywhere.
    pub fn breed_kitty(
        &mut self,
        ledger: &mut Ledger,
        sender: AccountId,
        parent1: &KittyId,
        parent2: &KittyId,
        ctx: &RandomContext,
    ) -> (r: Result<Event, Error>)
        requires
            old(self).wf(),
            old(ledger).wf(),
            old(self).deposits_consistent(*old(ledger)),
        ensures
            final(self).wf(),
            final(ledger).wf(),
            final(self).deposits_consistent(*final(ledger)),
            final(self).same_config(*old(self)),
            old(self).count_matches_store() ==> final(self).count_matches_store(),
            final(ledger).total == old(ledger).total,
            ({
                let owns = old(self).is_owner(sender, parent1@) && old(self).is_owner(
                    sender,
                    parent2@,
                );
                let free = old(ledger).free_of(sender);
                let fee = old(self).reservation_fee;
                let idb = bred_id(*old(self), parent1@, parent2@, sender, *ctx);
                &&& (r == Err::<Event, Error>(Error::NotKittyOwner) <==> !owns)
                &&& (r == Err::<Event, Error>(Error::ReserveBalanceFailed) <==> owns && free < fee)
                &&& (r == Err::<Event, Error>(Error::CountForKittiesOverflow) <==> owns && free
                    >= fee && old(self).count_kitties == u64::MAX)
                &&& (r == Err::<Event, Error>(Error::KittyExists) <==> owns && free >= fee && old(
                    self,
                ).count_kitties < u64::MAX && old(self).has_kitty(idb))
                &&& (r == Err::<Event, Error>(Error::ExceedMaxKittyOwned) <==> owns && free >= fee
                    && old(self).count_kitties < u64::MAX && !old(self).has_kitty(idb) && old(
                    self,
                ).owned_of(sender).len() >= old(self).max_kitty_owned)
                &&& (r is Ok <==> owns && free >= fee && old(self).count_kitties < u64::MAX && !old(
                    self,
                ).has_kitty(idb) && old(self).owned_of(sender).len() < old(self).max_kitty_owned)
            }),
            r is Err ==> *final(self) == *old(self) && *final(ledger) == *old(ledger),
            r is Ok ==> ({
                let id = final(self).kitties@.last().0;
                let k = final(self).kitties@.last().1;
                &&& r->Ok_0 == Event::Created(sender, id)
                &&& id@ == bred_id(*old(self), parent1@, parent2@, sender, *ctx)
                &&& k.dna@ == bred_dna_of(*old(self), parent1@, parent2@, *ctx)
                &&& k.price is None
                &&& k.gender == generated_gender(*ctx)
                &&& k.owner == sender
                &&& !old(self).has_kitty(id@)
                &&& final(self).kitties@ == old(self).kitties@.push((id, k))
                &&& final(self).count_kitties == old(self).count_kitties + 1
                &&& final(self).has_kitty(id@)
                &&& final(self).kitty_of(id@) == k
                &&& final(self).owned_of(sender) =~= old(self).owned_of(sender).push(id)
                &&& final(ledger).free_of(sender) == old(ledger).free_of(sender) - old(
                    self,
                ).reservation_fee
                &&& final(ledger).reserved_of(sender) == old(ledger).reserved_of(sender) + old(
                    self,
                ).reservation_fee
            }),
            r is Ok ==> forall|b: AccountId|
                b != sender ==> #[trigger] final(self).owned_of(b) == old(self).owned_of(b),
            forall|b: AccountId|
                b != sender ==> #[trigger] final(ledger).free_of(b) == old(ledger).free_of(b),
            forall|b: AccountId|
                b != sender ==> #[trigger] final(ledger).reserved_of(b) == old(ledger).reserved_of(
                    b,
                ),
    {
        if !self.is_kitty_owner(sender, parent1) {
            return Err(Error::NotKittyOwner);
        }
        if !self.is_kitty_owner(sender, parent2) {
            return Err(Error::NotKittyOwner);
        }
        let new_dna = match self.breed_dna(parent1, parent2, ctx) {
            Ok(d) => d,
            Err(e) => {
                // Both parents were just confirmed owned, so they exist.
                proof {
                    assert(false);
                }
                return Err(e);
            }
        };
        match self.mint(ledger, sender, Some(new_dna), None, ctx) {
            Ok(kitty_id) => Ok(Event::Created(sender, kitty_id)),
            Err(e) => Err(e),
        }
    }

    /// Whether the kitty exists and `owner` owns it. Absence reads as "not
    /// the owner", since ownership cannot be confirmed then.
    pub fn is_kitty_owner(&self, owner: AccountId, kitty_id: &KittyId) -> (r: bool)
        requires
            self.wf(),
        ensures
            r == self.is_owner(owner, kitty_id@),
    {
        match self.find_kitty(kitty_id) {
            Some(i) => {
                proof {
                    lemma_kitty_index_is_lookup(self.kitties@, i as int);
                }
                self.kitties[i].1.owner == owner
            }
            None => false,
        }
    }
}

} // verus!
