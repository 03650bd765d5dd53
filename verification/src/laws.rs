//! Properties of the contract that span several calls.

use vstd::prelude::*;
use crate::contract::{AIRDROP_ID_OFFSET, AIRDROP_SEED_OFFSET, is_inventory_of, is_random_pie,
    is_random_pizza, item_key, mint_pie_post, mint_pizza_post};
use crate::error::ContractError;
use crate::msg::InventoryResponse;
use crate::response::ContractResponse;
use crate::state::{NftPieData, NftPizzaData, Store, str_bytes};
use crate::storage::is_prefix_listing;
use crate::bytes::{lex_lt, lemma_lex_asymmetric};
use crate::utils::{decimal, law_draw_steps_with_seed};

verus! {

/// An airdrop claim, once recorded, is never removed: no pizza mint and no
/// pie mint takes a claim away.
pub proof fn law_claims_are_kept(
    old: Store,
    new: Store,
    sender: Seq<char>,
    nanos: nat,
    eligible: bool,
    a: Seq<char>,
    b: Seq<char>,
    r: Result<ContractResponse, ContractError>,
    owner: Seq<u8>,
)
    requires
        old.claim_map().contains_key(owner),
        mint_pizza_post(old, new, sender, nanos, eligible, r) || mint_pie_post(
            old,
            new,
            sender,
            nanos,
            a,
            b,
            r,
        ),
    ensures
        new.claim_map().contains_key(owner),
{
}

/// The airdrop is given at most once: after a mint in which the sender was
/// eligible, every later mint by that sender adds exactly one pizza, the one
/// under the id of its own block time.
pub proof fn law_airdrop_at_most_once(
    s0: Store,
    s1: Store,
    s2: Store,
    sender: Seq<char>,
    t1: nat,
    t2: nat,
    eligible2: bool,
    r1: Result<ContractResponse, ContractError>,
    r2: Result<ContractResponse, ContractError>,
)
    requires
        mint_pizza_post(s0, s1, sender, t1, true, r1),
        mint_pizza_post(s1, s2, sender, t2, eligible2, r2),
    ensures
        s1.claim_map().contains_key(str_bytes(sender)),
        s2.pizza_map().dom() == s1.pizza_map().dom().insert(item_key(sender, decimal(t2))),
        s2.claim_map() == s1.claim_map(),
{
}

/// A minted pizza shows in the sender's inventory right after the mint, and
/// so does the airdrop pizza when one was given.
pub proof fn law_minted_pizza_in_inventory(
    old: Store,
    new: Store,
    sender: Seq<char>,
    nanos: nat,
    eligible: bool,
    r: Result<ContractResponse, ContractError>,
    inv: InventoryResponse,
)
    requires
        mint_pizza_post(old, new, sender, nanos, eligible, r),
        is_inventory_of(new, sender, inv),
    ensures
        exists|i: int|
            0 <= i < inv.pizzas@.len() && is_random_pizza(
                #[trigger] inv.pizzas@[i],
                nanos,
                decimal(nanos),
            ),
        !old.claim_map().contains_key(str_bytes(sender)) && eligible ==> exists|i: int|
            0 <= i < inv.pizzas@.len() && is_random_pizza(
                #[trigger] inv.pizzas@[i],
                (nanos + AIRDROP_SEED_OFFSET) as nat,
                decimal((nanos + AIRDROP_ID_OFFSET) as nat),
            ),
{
    let m = new.pizza_map();
    let owner = str_bytes(sender);
    let k1 = item_key(sender, decimal(nanos));
    let ids = inv.pizzas@.map_values(|p: crate::state::NftPizzaData| str_bytes(p.id@));
    assert(m.contains_key((owner, k1.1)));
    let i = choose|i: int| 0 <= i < ids.len() && #[trigger] ids[i] == k1.1;
    assert(m[(owner, ids[i])] == inv.pizzas@[i]);
    if !old.claim_map().contains_key(owner) && eligible {
        let k2 = item_key(sender, decimal((nanos + AIRDROP_ID_OFFSET) as nat));
        assert(m.contains_key((owner, k2.1)));
        let j = choose|j: int| 0 <= j < ids.len() && #[trigger] ids[j] == k2.1;
        assert(m[(owner, ids[j])] == inv.pizzas@[j]);
    }
}

/// After two pizzas are combined, neither shows in the sender's inventory,
/// and the new pie does.
pub proof fn law_combined_pizzas_leave_inventory(
    old: Store,
    new: Store,
    sender: Seq<char>,
    nanos: nat,
    a: Seq<char>,
    b: Seq<char>,
    r: Result<ContractResponse, ContractError>,
    inv: InventoryResponse,
)
    requires
        mint_pie_post(old, new, sender, nanos, a, b, r),
        r is Ok,
        is_inventory_of(new, sender, inv),
    ensures
        forall|i: int|
            0 <= i < inv.pizzas@.len() ==> str_bytes(#[trigger] inv.pizzas@[i].id@) != str_bytes(
                a,
            ) && str_bytes(inv.pizzas@[i].id@) != str_bytes(b),
        exists|i: int|
            0 <= i < inv.pies@.len() && is_random_pie(#[trigger] inv.pies@[i], nanos, decimal(nanos)),
{
    let owner = str_bytes(sender);
    let ids = inv.pizzas@.map_values(|p: crate::state::NftPizzaData| str_bytes(p.id@));
    assert forall|i: int| 0 <= i < inv.pizzas@.len() implies str_bytes(
        #[trigger] inv.pizzas@[i].id@,
    ) != str_bytes(a) && str_bytes(inv.pizzas@[i].id@) != str_bytes(b) by {
        assert(ids[i] == str_bytes(inv.pizzas@[i].id@));
        assert(new.pizza_map().contains_key((owner, ids[i])));
    }
    let kp = item_key(sender, decimal(nanos));
    assert(new.pie_map().contains_key((owner, kp.1)));
    let pie_ids = inv.pies@.map_values(|p: crate::state::NftPieData| str_bytes(p.id@));
    let j = choose|j: int| 0 <= j < pie_ids.len() && #[trigger] pie_ids[j] == kp.1;
    assert(new.pie_map()[(owner, pie_ids[j])] == inv.pies@[j]);
}

/// A prefix listing is unique: two listings of the same owner's entries are
/// the same sequence.
pub proof fn law_listing_is_unique<V>(
    m: Map<(Seq<u8>, Seq<u8>), V>,
    owner: Seq<u8>,
    ids1: Seq<Seq<u8>>,
    vals1: Seq<V>,
    ids2: Seq<Seq<u8>>,
    vals2: Seq<V>,
)
    requires
        is_prefix_listing(m, owner, ids1, vals1),
        is_prefix_listing(m, owner, ids2, vals2),
    ensures
        ids1 == ids2,
        vals1 == vals2,
    decreases ids1.len() + ids2.len(),
{
    if ids1.len() == 0 || ids2.len() == 0 {
        if ids1.len() > 0 {
            assert(m.contains_key((owner, ids1[0])));
        }
        if ids2.len() > 0 {
            assert(m.contains_key((owner, ids2[0])));
        }
        assert(ids1 =~= ids2);
        assert(vals1 =~= vals2);
    } else {
        // The first ids agree: each is the least id of the owner.
        let x = ids1[0];
        let y = ids2[0];
        assert(m.contains_key((owner, x)));
        assert(m.contains_key((owner, y)));
        let i = choose|i: int| 0 <= i < ids2.len() && ids2[i] == x;
        let j = choose|j: int| 0 <= j < ids1.len() && ids1[j] == y;
        if x != y {
            assert(i > 0 && j > 0);
            assert(lex_lt(ids2[0], ids2[i]));
            assert(lex_lt(ids1[0], ids1[j]));
            lemma_lex_asymmetric(x, y);
        }
        let m2 = m.remove((owner, x));
        let t1 = ids1.drop_first();
        let t2 = ids2.drop_first();
        let w1 = vals1.drop_first();
        let w2 = vals2.drop_first();
        assert forall|k: int| 0 <= k < t1.len() implies #[trigger] t1[k] != x by {
            assert(lex_lt(ids1[0], ids1[k + 1]));
            crate::bytes::lemma_lex_irreflexive(x);
        }
        assert forall|k: int| 0 <= k < t2.len() implies #[trigger] t2[k] != x by {
            assert(lex_lt(ids2[0], ids2[k + 1]));
            crate::bytes::lemma_lex_irreflexive(x);
        }
        assert(is_prefix_listing(m2, owner, t1, w1)) by {
            assert forall|p: int, q: int| 0 <= p < q < t1.len() implies lex_lt(#[trigger] t1[p], #[trigger] t1[q]) by {
                assert(lex_lt(ids1[p + 1], ids1[q + 1]));
            }
            assert forall|p: int| 0 <= p < t1.len() implies m2.contains_key((owner, #[trigger] t1[p])) && m2[(owner, t1[p])] == w1[p] by {
                assert(m.contains_key((owner, ids1[p + 1])));
            }
            assert forall|id: Seq<u8>| #[trigger] m2.contains_key((owner, id)) implies exists|p: int| 0 <= p < t1.len() && t1[p] == id by {
                let p = choose|p: int| 0 <= p < ids1.len() && ids1[p] == id;
                assert(p > 0);
                assert(t1[p - 1] == id);
            }
        }
        assert(is_prefix_listing(m2, owner, t2, w2)) by {
            assert forall|p: int, q: int| 0 <= p < q < t2.len() implies lex_lt(#[trigger] t2[p], #[trigger] t2[q]) by {
                assert(lex_lt(ids2[p + 1], ids2[q + 1]));
            }
            assert forall|p: int| 0 <= p < t2.len() implies m2.contains_key((owner, #[trigger] t2[p])) && m2[(owner, t2[p])] == w2[p] by {
                assert(m.contains_key((owner, ids2[p + 1])));
            }
            assert forall|id: Seq<u8>| #[trigger] m2.contains_key((owner, id)) implies exists|p: int| 0 <= p < t2.len() && t2[p] == id by {
                let p = choose|p: int| 0 <= p < ids2.len() && ids2[p] == id;
                assert(p > 0);
                assert(t2[p - 1] == id);
            }
        }
        law_listing_is_unique(m2, owner, t1, w1, t2, w2);
        assert(ids1 =~= seq![x] + t1);
        assert(ids2 =~= seq![x] + t2);
        assert(vals1 =~= seq![vals1[0]] + w1);
        assert(vals2 =~= seq![vals2[0]] + w2);
        assert(vals1[0] == m[(owner, x)]);
        assert(vals2[0] == m[(owner, x)]);
    }
}

/// The attributes of a random pizza depend on the seed alone, not on its id.
pub proof fn law_pizza_traits_depend_on_seed_only(
    p1: NftPizzaData,
    p2: NftPizzaData,
    seed: nat,
    id1: Seq<char>,
    id2: Seq<char>,
)
    requires
        is_random_pizza(p1, seed, id1),
        is_random_pizza(p2, seed, id2),
    ensures
        p1.background == p2.background,
        p1.pizza == p2.pizza,
        p1.topping1 == p2.topping1,
        p1.topping2 == p2.topping2,
        p1.topping3 == p2.topping3,
{
}

/// The pie of a random pie depends on the seed alone, not on its id.
pub proof fn law_pie_depends_on_seed_only(
    p1: NftPieData,
    p2: NftPieData,
    seed: nat,
    id1: Seq<char>,
    id2: Seq<char>,
)
    requires
        is_random_pie(p1, seed, id1),
        is_random_pie(p2, seed, id2),
    ensures
        p1.pie == p2.pie,
{
}

/// The same pizzas cannot be combined twice: once two pizzas have been
/// combined into a pie, combining them again is refused and changes nothing.
pub proof fn law_pizzas_cannot_be_combined_twice(
    s0: Store,
    s1: Store,
    s2: Store,
    sender: Seq<char>,
    t1: nat,
    t2: nat,
    a: Seq<char>,
    b: Seq<char>,
    r1: Result<ContractResponse, ContractError>,
    r2: Result<ContractResponse, ContractError>,
)
    requires
        mint_pie_post(s0, s1, sender, t1, a, b, r1),
        r1 is Ok,
        mint_pie_post(s1, s2, sender, t2, a, b, r2),
    ensures
        r2 matches Err(e) && e is Unauthorized,
        s2.pizza_map() == s1.pizza_map(),
        s2.pie_map() == s1.pie_map(),
        s2.claim_map() == s1.claim_map(),
{
}

/// A sender that has claimed the airdrop, at any time before, gets exactly
/// one pizza from a mint and no airdrop: with `law_claims_are_kept`, once a
/// sender has claimed, every later mint over any history of messages gives
/// it one pizza only (and `airdrop_query_for` asks nothing for it).
pub proof fn law_claimed_sender_gets_no_airdrop(
    old: Store,
    new: Store,
    sender: Seq<char>,
    nanos: nat,
    eligible: bool,
    r: Result<ContractResponse, ContractError>,
)
    requires
        old.claim_map().contains_key(str_bytes(sender)),
        mint_pizza_post(old, new, sender, nanos, eligible, r),
    ensures
        new.pizza_map().dom() == old.pizza_map().dom().insert(item_key(sender, decimal(nanos))),
        new.claim_map() == old.claim_map(),
{
}

/// A pie can be made only of pizzas that the sender holds: where either is
/// missing, the pie mint is refused and nothing changes.
pub proof fn law_missing_pizza_is_refused(
    old: Store,
    new: Store,
    sender: Seq<char>,
    nanos: nat,
    a: Seq<char>,
    b: Seq<char>,
    r: Result<ContractResponse, ContractError>,
)
    requires
        !old.pizza_map().contains_key(item_key(sender, a)) || !old.pizza_map().contains_key(
            item_key(sender, b),
        ),
        mint_pie_post(old, new, sender, nanos, a, b, r),
    ensures
        r matches Err(e) && e is Unauthorized,
        new.pizza_map() == old.pizza_map(),
        new.pie_map() == old.pie_map(),
        new.claim_map() == old.claim_map(),
{
}

/// Combined pizzas are gone: after a pie mint that succeeded, the sender
/// holds neither pizza. With `law_missing_pizza_is_refused`, combining them
/// again is refused until a later mint stores a pizza under one of those
/// keys again.
pub proof fn law_combined_pizzas_are_gone(
    old: Store,
    new: Store,
    sender: Seq<char>,
    nanos: nat,
    a: Seq<char>,
    b: Seq<char>,
    r: Result<ContractResponse, ContractError>,
)
    requires
        mint_pie_post(old, new, sender, nanos, a, b, r),
        r is Ok,
    ensures
        !new.pizza_map().contains_key(item_key(sender, a)),
        !new.pizza_map().contains_key(item_key(sender, b)),
{
}

/// The traits of the pizza drawn from seed `t` come from the five
/// consecutive seeds `t + 10` to `t + 14`, one each, in full: background
/// `1 + (t + 10) % 9`, base `1 + (t + 11) % 7`, toppings
/// `1 + (t + 12) % 8`, `1 + (t + 13) % 8`, `1 + (t + 14) % 8`; so each
/// topping is the one after the topping before it.
pub proof fn law_random_pizza_traits(p: NftPizzaData, t: nat, id: Seq<char>)
    requires
        is_random_pizza(p, t, id),
    ensures
        p.background == 1 + (t + 10) % 9,
        p.pizza == 1 + (t + 11) % 7,
        p.topping1 == 1 + (t + 12) % 8,
        p.topping2 == 1 + (t + 13) % 8,
        p.topping3 == 1 + (t + 14) % 8,
        p.topping2 == p.topping1 % 8 + 1,
        p.topping3 == p.topping2 % 8 + 1,
{
    law_draw_steps_with_seed(t + 12, 1, 9);
    law_draw_steps_with_seed(t + 13, 1, 9);
}

/// The pie drawn from seed `t` is `1 + (t + 5) % 10`: pies minted at
/// consecutive block times have consecutive pies, wrapping from 10 to 1.
pub proof fn law_random_pie(p: NftPieData, t: nat, id: Seq<char>)
    requires
        is_random_pie(p, t, id),
    ensures
        p.pie == 1 + (t + 5) % 10,
{
}

/// Pies drawn from consecutive seeds are consecutive, wrapping from 10
/// to 1.
pub proof fn law_random_pie_steps(p1: NftPieData, p2: NftPieData, t: nat, id1: Seq<char>, id2: Seq<char>)
    requires
        is_random_pie(p1, t, id1),
        is_random_pie(p2, t + 1, id2),
    ensures
        p2.pie == p1.pie % 10 + 1,
{
    law_draw_steps_with_seed(t + 5, 1, 11);
}

} // verus!
