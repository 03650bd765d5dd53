//! The Pizzatown contract: minting pizzas (with a one-time airdrop for
//! holders of a hackathon NFT), combining two pizzas into a pie, and
//! listing an address's NFTs.

use vstd::prelude::*;
use crate::error::ContractError;
use crate::hackathon_nfts::msg::{BalanceResponse, QueryMsg as HackathonQueryMsg};
use crate::msg::{ExecuteMsg, InstantiateMsg, InventoryResponse, QueryMsg};
use crate::response::{ContractResponse, add_attribute, response_attributes,
    response_message_count, response_new};
use crate::state::{NftPieData, NftPizzaData, StorageAction, Store, action_is_valid, claim_effect,
    claims_after, pie_effect, pies_after, pizza_effect, pizzas_after, str_bytes, valid_pie,
    valid_pizza};
use crate::storage::{Key, is_prefix_listing};
use crate::utils::{decimal, generate_id, rand_int_between, spec_rand_between};

verus! {

/// The name under which the contract records its version.
pub const CONTRACT_NAME: &'static str = "pizzatown:pizzatown_nfts";

/// The address named as the contract's owner.
pub const OWNER_ADDR: &'static str = "terra102qww57le570w0p44pw8mm6arlsekrhl7df0nk";

/// The address of the hackathon NFT contract whose holders get the airdrop.
pub const HACKATHON_NFTS_CONTRACT_ADDR: &'static str = "terra1utd7hcq00p0grm08uyg23mdm782726y3euk8pq";

/// The token whose balance decides the airdrop.
pub const AIRDROP_TOKEN_ID: &'static str = "example";

/// How far after the block time the airdrop pizza's id is taken.
pub const AIRDROP_ID_OFFSET: u64 = 9999;

/// How far after the block time the airdrop pizza's attributes are drawn.
pub const AIRDROP_SEED_OFFSET: u64 = 10000;

/// `p` is the pizza with id `id` whose attributes are drawn from `seed`.
pub open spec fn is_random_pizza(p: NftPizzaData, seed: nat, id: Seq<char>) -> bool {
    &&& p.id@ == id
    &&& p.background == spec_rand_between(seed + 10, 1, 10)
    &&& p.pizza == spec_rand_between(seed + 11, 1, 8)
    &&& p.topping1 == spec_rand_between(seed + 12, 1, 9)
    &&& p.topping2 == spec_rand_between(seed + 13, 1, 9)
    &&& p.topping3 == spec_rand_between(seed + 14, 1, 9)
}

/// `p` is the pie with id `id` whose pie is drawn from `seed`.
pub open spec fn is_random_pie(p: NftPieData, seed: nat, id: Seq<char>) -> bool {
    &&& p.id@ == id
    &&& p.pie == spec_rand_between(seed + 5, 1, 11)
}

/// The key under which `owner` holds the item with id `id`.
pub open spec fn item_key(owner: Seq<char>, id: Seq<char>) -> Key {
    (str_bytes(owner), str_bytes(id))
}

/// The response that names `method` and carries no messages.
pub open spec fn is_method_response(r: ContractResponse, method: Seq<char>) -> bool {
    &&& response_message_count(r) == 0
    &&& response_attributes(r) == seq![("method"@, method)]
}

/// A pizza whose attributes are drawn from `seed`.
pub fn create_random_pizza(seed: u64, id: &String) -> (p: NftPizzaData)
    requires
        seed + 14 <= u64::MAX,
    ensures
        is_random_pizza(p, seed as nat, id@),
        valid_pizza(p),
{
    NftPizzaData {
        id: id.clone(),
        background: rand_int_between(seed + 10, 1, 1 + 9),
        pizza: rand_int_between(seed + 11, 1, 1 + 7),
        topping1: rand_int_between(seed + 12, 1, 1 + 8),
        topping2: rand_int_between(seed + 13, 1, 1 + 8),
        topping3: rand_int_between(seed + 14, 1, 1 + 8),
    }
}

/// A pie whose pie is drawn from `seed`.
pub fn create_random_pie(seed: u64, id: &String) -> (p: NftPieData)
    requires
        seed + 5 <= u64::MAX,
    ensures
        is_random_pie(p, seed as nat, id@),
        valid_pie(p),
{
    NftPieData { id: id.clone(), pie: rand_int_between(seed + 5, 1, 1 + 10) }
}

/// Where and what to ask to learn whether an address is owed the airdrop.
pub struct AirdropQuery {
    pub contract_addr: String,
    pub msg: HackathonQueryMsg,
}

/// The balance query that decides whether `owner` is owed the airdrop: the
/// balance of the airdrop token, asked of the hackathon NFT contract.
pub fn airdrop_query(owner: String) -> (q: AirdropQuery)
    ensures
        q.contract_addr@ == HACKATHON_NFTS_CONTRACT_ADDR@,
        q.msg matches HackathonQueryMsg::Balance { owner: o, token_id: t } && o == owner
            && t@ == AIRDROP_TOKEN_ID@,
{
    AirdropQuery {
        contract_addr: HACKATHON_NFTS_CONTRACT_ADDR.to_owned(),
        msg: HackathonQueryMsg::Balance { owner, token_id: AIRDROP_TOKEN_ID.to_owned() },
    }
}

/// Whether the answer to the airdrop query makes its owner eligible: an
/// answer with a balance of exactly one; a failed query (`None`) does not.
pub fn is_airdrop_eligible(answer: Option<BalanceResponse>) -> (r: bool)
    ensures
        r == (answer matches Some(b) && b.balance == 1),
{
    match answer {
        Some(b) => b.balance == 1,
        None => false,
    }
}

/// The airdrop query to make while minting a pizza for `owner`: none once
/// the owner has claimed the airdrop, else the balance query of
/// `airdrop_query`.
pub fn airdrop_query_for(claimed: bool, owner: String) -> (q: Option<AirdropQuery>)
    ensures
        (q is None) == claimed,
        q matches Some(x) ==> x.contract_addr@ == HACKATHON_NFTS_CONTRACT_ADDR@ && (
        x.msg matches HackathonQueryMsg::Balance { owner: o, token_id: t } && o == owner
            && t@ == AIRDROP_TOKEN_ID@),
{
    if claimed {
        None
    } else {
        Some(airdrop_query(owner))
    }
}

/// The storage actions of one message, in the order to carry them out, and
/// the response to give.
pub struct Plan {
    pub actions: Vec<StorageAction>,
    pub response: ContractResponse,
}

/// `a` stores for `owner` the pizza with id `id` drawn from `seed`.
pub open spec fn saves_random_pizza(a: StorageAction, owner: Seq<u8>, seed: nat, id: Seq<char>) -> bool {
    a matches StorageAction::SavePizza { owner: o, pizza } && o@ == owner && is_random_pizza(
        pizza,
        seed,
        id,
    )
}

/// `a` stores for `owner` the pie with id `id` drawn from `seed`.
pub open spec fn saves_random_pie(a: StorageAction, owner: Seq<u8>, seed: nat, id: Seq<char>) -> bool {
    a matches StorageAction::SavePie { owner: o, pie } && o@ == owner && is_random_pie(pie, seed, id)
}

/// `a` removes the pizza of `owner` with id bytes `id`.
pub open spec fn removes_pizza(a: StorageAction, owner: Seq<u8>, id: Seq<u8>) -> bool {
    a matches StorageAction::RemovePizza { owner: o, id: i } && o@ == owner && i@ == id
}

/// `a` records the airdrop claim of `owner`.
pub open spec fn saves_claim(a: StorageAction, owner: Seq<u8>) -> bool {
    a matches StorageAction::SaveClaim { owner: o } && o@ == owner
}

/// Plans a pizza mint for `sender` at block time `nanos`, given whether the
/// sender has claimed the airdrop and whether it is eligible: store the
/// pizza of the block time; when the sender has not claimed and is eligible,
/// also store the airdrop pizza and record the claim.
pub fn mint_pizza_plan(nanos: u64, sender: &String, claimed: bool, eligible: bool) -> (p: Plan)
    requires
        nanos + 14 <= u64::MAX,
        !claimed && eligible ==> nanos + AIRDROP_SEED_OFFSET + 14 <= u64::MAX,
    ensures
        p.actions@.len() == (if !claimed && eligible { 3int } else { 1int }),
        forall|i: int| 0 <= i < p.actions@.len() ==> action_is_valid(#[trigger] p.actions@[i]),
        saves_random_pizza(p.actions@[0], str_bytes(sender@), nanos as nat, decimal(nanos as nat)),
        !claimed && eligible ==> saves_random_pizza(
            p.actions@[1],
            str_bytes(sender@),
            (nanos + AIRDROP_SEED_OFFSET) as nat,
            decimal((nanos + AIRDROP_ID_OFFSET) as nat),
        ) && saves_claim(p.actions@[2], str_bytes(sender@)),
        is_method_response(p.response, "try_mint_pizza"@),
{
    let owner = string_bytes(sender);
    let id = generate_id(nanos);
    let pizza = create_random_pizza(nanos, &id);
    let mut actions: Vec<StorageAction> = Vec::new();
    actions.push(StorageAction::SavePizza { owner: owner.clone(), pizza });
    if !claimed && eligible {
        let airdrop_id = generate_id(nanos + AIRDROP_ID_OFFSET);
        let airdrop = create_random_pizza(nanos + AIRDROP_SEED_OFFSET, &airdrop_id);
        actions.push(StorageAction::SavePizza { owner: owner.clone(), pizza: airdrop });
        actions.push(StorageAction::SaveClaim { owner: owner.clone() });
    }
    proof {
        reveal_strlit("method");
    }
    let response = add_attribute(response_new(), "method", "try_mint_pizza");
    Plan { actions, response }
}

/// Plans combining the pizzas `pizza_a_id` and `pizza_b_id` of `sender`
/// into a pie at block time `nanos`, given whether the sender holds each:
/// refused unless it holds both; else store the pie of the block time and
/// remove both pizzas.
pub fn mint_pie_plan(
    nanos: u64,
    sender: &String,
    pizza_a_id: &String,
    pizza_b_id: &String,
    has_a: bool,
    has_b: bool,
) -> (r: Result<Plan, ContractError>)
    requires
        has_a && has_b ==> nanos + 5 <= u64::MAX,
    ensures
        r is Err <==> !(has_a && has_b),
        r matches Err(e) ==> e is Unauthorized,
        r matches Ok(p) ==> {
            &&& p.actions@.len() == 3
            &&& forall|i: int| 0 <= i < p.actions@.len() ==> action_is_valid(#[trigger] p.actions@[i])
            &&& saves_random_pie(p.actions@[0], str_bytes(sender@), nanos as nat, decimal(nanos as nat))
            &&& removes_pizza(p.actions@[1], str_bytes(sender@), str_bytes(pizza_a_id@))
            &&& removes_pizza(p.actions@[2], str_bytes(sender@), str_bytes(pizza_b_id@))
            &&& is_method_response(p.response, "try_mint_pie"@)
        },
{
    if !has_a || !has_b {
        return Err(ContractError::Unauthorized {});
    }
    let owner = string_bytes(sender);
    let id = generate_id(nanos);
    let pie = create_random_pie(nanos, &id);
    let mut actions: Vec<StorageAction> = Vec::new();
    actions.push(StorageAction::SavePie { owner: owner.clone(), pie });
    actions.push(StorageAction::RemovePizza { owner: owner.clone(), id: string_bytes(pizza_a_id) });
    actions.push(StorageAction::RemovePizza { owner: owner.clone(), id: string_bytes(pizza_b_id) });
    proof {
        reveal_strlit("method");
    }
    let response = add_attribute(response_new(), "method", "try_mint_pie");
    Ok(Plan { actions, response })
}

/// The state `new` and result `r` are those of minting a pizza for `sender`
/// at block time `nanos` in state `old`, where `eligible` is the answer of
/// the airdrop query: the sender's new pizza is stored under the block time's
/// id; when the sender has not claimed the airdrop and is eligible, an
/// airdrop pizza is stored too and the claim recorded; nothing else changes.
pub open spec fn mint_pizza_post(
    old: Store,
    new: Store,
    sender: Seq<char>,
    nanos: nat,
    eligible: bool,
    r: Result<ContractResponse, ContractError>,
) -> bool {
    let owner = str_bytes(sender);
    let k1 = item_key(sender, decimal(nanos));
    let k2 = item_key(sender, decimal((nanos + AIRDROP_ID_OFFSET) as nat));
    let airdrop = !old.claim_map().contains_key(owner) && eligible;
    &&& r matches Ok(resp) && is_method_response(resp, "try_mint_pizza"@)
    &&& new.pizza_map().contains_key(k1)
    &&& is_random_pizza(new.pizza_map()[k1], nanos, decimal(nanos))
    &&& airdrop ==> new.pizza_map().contains_key(k2) && is_random_pizza(
        new.pizza_map()[k2],
        (nanos + AIRDROP_SEED_OFFSET) as nat,
        decimal((nanos + AIRDROP_ID_OFFSET) as nat),
    )
    &&& new.pizza_map().dom() == (if airdrop {
        old.pizza_map().dom().insert(k1).insert(k2)
    } else {
        old.pizza_map().dom().insert(k1)
    })
    &&& forall|k: Key|
        #[trigger] old.pizza_map().contains_key(k) && k != k1 && !(airdrop && k == k2)
            ==> new.pizza_map()[k] == old.pizza_map()[k]
    &&& new.claim_map() == (if airdrop {
        old.claim_map().insert(owner, true)
    } else {
        old.claim_map()
    })
    &&& new.pie_map() == old.pie_map()
    &&& new.version() == old.version()
}

/// The state `new` and result `r` are those of `sender` combining its pizzas
/// `pizza_a_id` and `pizza_b_id` into a pie at block time `nanos` in state
/// `old`: refused, with nothing changed, unless the sender holds both;
/// otherwise both pizzas are removed and a pie is stored under the block
/// time's id.
pub open spec fn mint_pie_post(
    old: Store,
    new: Store,
    sender: Seq<char>,
    nanos: nat,
    pizza_a_id: Seq<char>,
    pizza_b_id: Seq<char>,
    r: Result<ContractResponse, ContractError>,
) -> bool {
    let ka = item_key(sender, pizza_a_id);
    let kb = item_key(sender, pizza_b_id);
    let kp = item_key(sender, decimal(nanos));
    let held = old.pizza_map().contains_key(ka) && old.pizza_map().contains_key(kb);
    &&& (r is Err) <==> !held
    &&& r matches Err(e) ==> {
        &&& e is Unauthorized
        &&& new.pizza_map() == old.pizza_map()
        &&& new.pie_map() == old.pie_map()
    }
    &&& r matches Ok(resp) ==> {
        &&& is_method_response(resp, "try_mint_pie"@)
        &&& new.pizza_map() == old.pizza_map().remove(ka).remove(kb)
        &&& new.pie_map().contains_key(kp)
        &&& is_random_pie(new.pie_map()[kp], nanos, decimal(nanos))
        &&& new.pie_map().dom() == old.pie_map().dom().insert(kp)
        &&& forall|k: Key|
            #[trigger] old.pie_map().contains_key(k) && k != kp ==> new.pie_map()[k]
                == old.pie_map()[k]
    }
    &&& new.claim_map() == old.claim_map()
    &&& new.version() == old.version()
}

/// `r` lists, in ascending byte order of their ids, exactly the pizzas and
/// pies that `address` holds in `store`.
pub open spec fn is_inventory_of(store: Store, address: Seq<char>, r: InventoryResponse) -> bool {
    &&& r.address@ == address
    &&& is_prefix_listing(
        store.pizza_map(),
        str_bytes(address),
        r.pizzas@.map_values(|p: NftPizzaData| str_bytes(p.id@)),
        r.pizzas@,
    )
    &&& is_prefix_listing(
        store.pie_map(),
        str_bytes(address),
        r.pies@.map_values(|p: NftPieData| str_bytes(p.id@)),
        r.pies@,
    )
}

/// The bytes of a string.
fn string_bytes(s: &String) -> (b: Vec<u8>)
    ensures
        b@ == str_bytes(s@),
{
    s.as_str().as_bytes_vec()
}

/// Distinct ids are stored under distinct keys.
pub proof fn lemma_item_key_injective(owner: Seq<char>, a: Seq<char>, b: Seq<char>)
    requires
        a != b,
    ensures
        item_key(owner, a) != item_key(owner, b),
{
    vstd::utf8::encode_utf8_decode_utf8(a);
    vstd::utf8::encode_utf8_decode_utf8(b);
}

/// The answer to setting the contract up: the method and the owner's
/// address, and no messages.
pub fn instantiate_response() -> (r: ContractResponse)
    ensures
        response_message_count(r) == 0,
        response_attributes(r) == seq![("method"@, "instantiate"@), ("owner"@, OWNER_ADDR@)],
{
    proof {
        reveal_strlit("method");
        reveal_strlit("owner");
    }
    let resp = add_attribute(response_new(), "method", "instantiate");
    add_attribute(resp, "owner", OWNER_ADDR)
}

/// Sets the contract up: records its name and `version`, and answers with
/// the method and the owner's address.
pub fn instantiate(store: &mut Store, version: &str, _msg: InstantiateMsg) -> (r: Result<
    ContractResponse,
    ContractError,
>)
    requires
        old(store).wf(),
    ensures
        final(store).wf(),
        r matches Ok(resp) && response_message_count(resp) == 0 && response_attributes(resp)
            == seq![("method"@, "instantiate"@), ("owner"@, OWNER_ADDR@)],
        final(store).version() == Some((CONTRACT_NAME@, version@)),
        final(store).pizza_map() == old(store).pizza_map(),
        final(store).pie_map() == old(store).pie_map(),
        final(store).claim_map() == old(store).claim_map(),
{
    store.set_contract_version(CONTRACT_NAME, version);
    Ok(instantiate_response())
}

/// Mints a pizza for `sender` at block time `nanos`; `eligible` is the
/// answer of the airdrop query for `sender`.
pub fn try_mint_pizza(store: &mut Store, nanos: u64, sender: &String, eligible: bool) -> (r: Result<
    ContractResponse,
    ContractError,
>)
    requires
        old(store).wf(),
        nanos + 14 <= u64::MAX,
        !old(store).claim_map().contains_key(str_bytes(sender@)) && eligible ==> nanos
            + AIRDROP_SEED_OFFSET + 14 <= u64::MAX,
    ensures
        final(store).wf(),
        mint_pizza_post(*old(store), *final(store), sender@, nanos as nat, eligible, r),
{
    let ghost pre = *store;
    let owner = string_bytes(sender);
    let claimed = store.has_claimed(&owner);
    let plan = mint_pizza_plan(nanos, sender, claimed, eligible);
    store.apply_all(&plan.actions);
    proof {
        let acts = plan.actions@;
        let o = str_bytes(sender@);
        let k1 = item_key(sender@, decimal(nanos as nat));
        let k2 = item_key(sender@, decimal((nanos + AIRDROP_ID_OFFSET) as nat));
        let airdrop_due = !claimed && eligible;
        lemma_after_prefix(pre, acts, 1);
        if airdrop_due {
            lemma_after_prefix(pre, acts, 2);
            lemma_after_prefix(pre, acts, 3);
            assert(acts.take(3) =~= acts);
            if decimal(nanos as nat) == decimal((nanos + AIRDROP_ID_OFFSET) as nat) {
                crate::utils::lemma_decimal_injective(nanos as nat, (nanos + AIRDROP_ID_OFFSET) as nat);
            }
            lemma_item_key_injective(sender@, decimal(nanos as nat), decimal((nanos + AIRDROP_ID_OFFSET) as nat));
            assert(store.pizza_map().dom() =~= pre.pizza_map().dom().insert(k1).insert(k2));
        } else {
            assert(acts.take(1) =~= acts);
            assert(store.pizza_map().dom() =~= pre.pizza_map().dom().insert(k1));
        }
    }
    Ok(plan.response)
}

/// Combines the pizzas `pizza_a_id` and `pizza_b_id` of `sender` into a pie
/// at block time `nanos`.
pub fn try_mint_pie(
    store: &mut Store,
    nanos: u64,
    sender: &String,
    pizza_a_id: String,
    pizza_b_id: String,
) -> (r: Result<ContractResponse, ContractError>)
    requires
        old(store).wf(),
        old(store).pizza_map().contains_key(item_key(sender@, pizza_a_id@)) && old(
            store,
        ).pizza_map().contains_key(item_key(sender@, pizza_b_id@)) ==> nanos + 5 <= u64::MAX,
    ensures
        final(store).wf(),
        mint_pie_post(
            *old(store),
            *final(store),
            sender@,
            nanos as nat,
            pizza_a_id@,
            pizza_b_id@,
            r,
        ),
{
    let ghost pre = *store;
    let owner = string_bytes(sender);
    let a = string_bytes(&pizza_a_id);
    let b = string_bytes(&pizza_b_id);
    let has_a = store.has_pizza(&owner, &a);
    let has_b = store.has_pizza(&owner, &b);
    match mint_pie_plan(nanos, sender, &pizza_a_id, &pizza_b_id, has_a, has_b) {
        Err(e) => Err(e),
        Ok(plan) => {
            store.apply_all(&plan.actions);
            proof {
                let acts = plan.actions@;
                lemma_after_prefix(pre, acts, 1);
                lemma_after_prefix(pre, acts, 2);
                lemma_after_prefix(pre, acts, 3);
                assert(acts.take(3) =~= acts);
                let kp = item_key(sender@, decimal(nanos as nat));
                assert(store.pie_map().dom() =~= pre.pie_map().dom().insert(kp));
            }
            Ok(plan.response)
        },
    }
}

/// Carrying out the first `n` actions is carrying out the first `n - 1`,
/// then the `n`-th.
proof fn lemma_after_prefix(s: Store, acts: Seq<StorageAction>, n: int)
    requires
        1 <= n <= acts.len(),
    ensures
        pizzas_after(s.pizza_map(), acts.take(n)) == pizza_effect(
            pizzas_after(s.pizza_map(), acts.take(n - 1)),
            acts[n - 1],
        ),
        pies_after(s.pie_map(), acts.take(n)) == pie_effect(
            pies_after(s.pie_map(), acts.take(n - 1)),
            acts[n - 1],
        ),
        claims_after(s.claim_map(), acts.take(n)) == claim_effect(
            claims_after(s.claim_map(), acts.take(n - 1)),
            acts[n - 1],
        ),
{
    assert(acts.take(n).drop_last() =~= acts.take(n - 1));
    assert(acts.take(n).last() == acts[n - 1]);
    if n == 1 {
        assert(acts.take(0) =~= Seq::<StorageAction>::empty());
    }
}

/// The NFTs that `address` holds.
pub fn query_inventory(store: &Store, address: String) -> (r: InventoryResponse)
    requires
        store.wf(),
    ensures
        is_inventory_of(*store, address@, r),
{
    let owner = string_bytes(&address);
    let pizzas = store.pizzas_of(&owner);
    let pies = store.pies_of(&owner);
    InventoryResponse { address, pizzas, pies }
}

/// Runs a message that changes the state, sent by `sender` at block time
/// `nanos`; `eligible` is the answer of the airdrop query for `sender`.
pub fn execute(store: &mut Store, nanos: u64, sender: &String, msg: ExecuteMsg, eligible: bool) -> (r: Result<
    ContractResponse,
    ContractError,
>)
    requires
        old(store).wf(),
        msg is MintPizza ==> nanos + 14 <= u64::MAX && (!old(store).claim_map().contains_key(
            str_bytes(sender@),
        ) && eligible ==> nanos + AIRDROP_SEED_OFFSET + 14 <= u64::MAX),
        msg matches ExecuteMsg::MintPie { pizza_a_id, pizza_b_id } ==> (old(
            store,
        ).pizza_map().contains_key(item_key(sender@, pizza_a_id@)) && old(
            store,
        ).pizza_map().contains_key(item_key(sender@, pizza_b_id@)) ==> nanos + 5 <= u64::MAX),
    ensures
        final(store).wf(),
        msg is MintPizza ==> mint_pizza_post(
            *old(store),
            *final(store),
            sender@,
            nanos as nat,
            eligible,
            r,
        ),
        msg matches ExecuteMsg::MintPie { pizza_a_id, pizza_b_id } ==> mint_pie_post(
            *old(store),
            *final(store),
            sender@,
            nanos as nat,
            pizza_a_id@,
            pizza_b_id@,
            r,
        ),
{
    match msg {
        ExecuteMsg::MintPizza {} => try_mint_pizza(store, nanos, sender, eligible),
        ExecuteMsg::MintPie { pizza_a_id, pizza_b_id } => try_mint_pie(
            store,
            nanos,
            sender,
            pizza_a_id,
            pizza_b_id,
        ),
    }
}

/// Answers a query.
pub fn query(store: &Store, msg: QueryMsg) -> (r: InventoryResponse)
    requires
        store.wf(),
    ensures
        msg matches QueryMsg::Inventory { address } ==> is_inventory_of(*store, address@, r),
{
    match msg {
        QueryMsg::Inventory { address } => query_inventory(store, address),
    }
}

} // verus!
