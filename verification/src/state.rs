//! The NFT data types and the contract's persistent state: the pizzas and
//! pies of each owner, the owners who have claimed their airdrop, and the
//! contract's version record.

use vstd::prelude::*;
use vstd::utf8::encode_utf8;
use crate::bytes::bytes_eq;
use crate::storage::{Duplicate, Key, Table, is_prefix_listing};

verus! {

/// A pizza NFT: its id and the numbers of its background, base and three
/// toppings.
#[derive(Debug)]
pub struct NftPizzaData {
    pub background: u8,
    pub pizza: u8,
    pub topping1: u8,
    pub topping2: u8,
    pub topping3: u8,
    pub id: String,
}

/// A pie NFT, made from two pizzas: its id and the number of its pie.
#[derive(Debug)]
pub struct NftPieData {
    pub pie: u8,
    pub id: String,
}

impl Duplicate for NftPizzaData {
    fn duplicate(&self) -> (r: Self) {
        NftPizzaData {
            background: self.background,
            pizza: self.pizza,
            topping1: self.topping1,
            topping2: self.topping2,
            topping3: self.topping3,
            id: self.id.clone(),
        }
    }
}

impl Duplicate for NftPieData {
    fn duplicate(&self) -> (r: Self) {
        NftPieData { pie: self.pie, id: self.id.clone() }
    }
}

/// The version record that a contract keeps about itself.
#[derive(Debug)]
pub struct ContractVersion {
    pub contract: String,
    pub version: String,
}

/// The bytes of a string, as a storage key holds them.
pub open spec fn str_bytes(s: Seq<char>) -> Seq<u8> {
    encode_utf8(s)
}

/// Every attribute of a pizza lies in its range: background 1 to 9, base 1
/// to 7, toppings 1 to 8.
pub open spec fn valid_pizza(p: NftPizzaData) -> bool {
    &&& 1 <= p.background < 10
    &&& 1 <= p.pizza < 8
    &&& 1 <= p.topping1 < 9
    &&& 1 <= p.topping2 < 9
    &&& 1 <= p.topping3 < 9
}

/// The pie of a pie lies in 1 to 10.
pub open spec fn valid_pie(p: NftPieData) -> bool {
    1 <= p.pie < 11
}

/// The owners that have claimed their airdrop.
pub struct ClaimTable {
    owners: Vec<Vec<u8>>,
}

impl ClaimTable {
    pub closed spec fn wf(&self) -> bool {
        forall|i: int, j: int|
            0 <= i < j < self.owners@.len() ==> #[trigger] self.owners@[i]@ != #[trigger] self.owners@[j]@
    }

    /// The claims as a map from owner to the flag stored for it.
    pub closed spec fn view(&self) -> Map<Seq<u8>, bool> {
        Map::new(
            |o: Seq<u8>| exists|i: int| 0 <= i < self.owners@.len() && #[trigger] self.owners@[i]@ == o,
            |o: Seq<u8>| true,
        )
    }

    /// The table holds finitely many claims, and every claim holds `true`.
    pub proof fn lemma_view_finite_and_true(&self)
        ensures
            self.view().dom().finite(),
            forall|o: Seq<u8>| #[trigger] self.view().contains_key(o) ==> self.view()[o] == true,
    {
        let owners = self.owners@.map_values(|v: Vec<u8>| v@);
        vstd::seq_lib::seq_to_set_is_finite(owners);
        assert forall|o: Seq<u8>| #[trigger] self.view().dom().contains(o) implies owners.to_set().contains(o) by {
            let i = choose|i: int| 0 <= i < self.owners@.len() && #[trigger] self.owners@[i]@ == o;
            assert(owners[i] == o);
        }
        assert forall|o: Seq<u8>| #[trigger] owners.to_set().contains(o) implies self.view().dom().contains(o) by {
            let i = choose|i: int| 0 <= i < owners.len() && owners[i] == o;
            assert(self.owners@[i]@ == o);
        }
        assert(self.view().dom() =~= owners.to_set());
    }

    pub fn new() -> (t: Self)
        ensures
            t.wf(),
            t.view() == Map::<Seq<u8>, bool>::empty(),
    {
        let t = ClaimTable { owners: Vec::new() };
        assert(t.view() =~= Map::<Seq<u8>, bool>::empty());
        t
    }

    /// Whether `owner` has a claim.
    pub fn has(&self, owner: &Vec<u8>) -> (r: bool)
        ensures
            r == self.view().contains_key(owner@),
    {
        let n = self.owners.len();
        let mut i: usize = 0;
        while i < n
            invariant
                n == self.owners@.len(),
                i <= n,
                forall|j: int| 0 <= j < i ==> self.owners@[j]@ != owner@,
            decreases n - i,
        {
            if bytes_eq(&self.owners[i], owner) {
                return true;
            }
            i = i + 1;
        }
        false
    }

    /// Records the claim of `owner`.
    pub fn save(&mut self, owner: Vec<u8>)
        requires
            old(self).wf(),
        ensures
            final(self).wf(),
            final(self).view() == old(self).view().insert(owner@, true),
    {
        let ghost pre = self.view();
        if !self.has(&owner) {
            self.owners.push(owner);
        }
        assert(self.view() =~= pre.insert(owner@, true)) by {
            assert forall|o: Seq<u8>| #[trigger] pre.insert(owner@, true).contains_key(o) implies self.view().contains_key(o) by {
                if o == owner@ {
                    if !pre.contains_key(o) {
                        assert(self.owners@[self.owners@.len() - 1]@ == o);
                    }
                } else {
                    let i = choose|i: int| 0 <= i < old(self).owners@.len() && #[trigger] old(self).owners@[i]@ == o;
                    assert(self.owners@[i]@ == o);
                }
            }
        }
    }
}

/// One change to the contract's storage.
#[derive(Debug)]
pub enum StorageAction {
    /// Store `pizza` for `owner` under the bytes of its id.
    SavePizza { owner: Vec<u8>, pizza: NftPizzaData },
    /// Store `pie` for `owner` under the bytes of its id.
    SavePie { owner: Vec<u8>, pie: NftPieData },
    /// Remove the pizza of `owner` stored under the id bytes `id`.
    RemovePizza { owner: Vec<u8>, id: Vec<u8> },
    /// Record that `owner` has claimed the airdrop.
    SaveClaim { owner: Vec<u8> },
}

/// An action keeps the state's invariant: what it stores lies in range.
pub open spec fn action_is_valid(a: StorageAction) -> bool {
    match a {
        StorageAction::SavePizza { pizza, .. } => valid_pizza(pizza),
        StorageAction::SavePie { pie, .. } => valid_pie(pie),
        _ => true,
    }
}

/// The pizzas after one action.
pub open spec fn pizza_effect(m: Map<Key, NftPizzaData>, a: StorageAction) -> Map<Key, NftPizzaData> {
    match a {
        StorageAction::SavePizza { owner, pizza } => m.insert((owner@, str_bytes(pizza.id@)), pizza),
        StorageAction::RemovePizza { owner, id } => m.remove((owner@, id@)),
        _ => m,
    }
}

/// The pies after one action.
pub open spec fn pie_effect(m: Map<Key, NftPieData>, a: StorageAction) -> Map<Key, NftPieData> {
    match a {
        StorageAction::SavePie { owner, pie } => m.insert((owner@, str_bytes(pie.id@)), pie),
        _ => m,
    }
}

/// The airdrop claims after one action.
pub open spec fn claim_effect(m: Map<Seq<u8>, bool>, a: StorageAction) -> Map<Seq<u8>, bool> {
    match a {
        StorageAction::SaveClaim { owner } => m.insert(owner@, true),
        _ => m,
    }
}

/// The pizzas after the actions `acts`, in order.
pub open spec fn pizzas_after(m: Map<Key, NftPizzaData>, acts: Seq<StorageAction>) -> Map<Key, NftPizzaData>
    decreases acts.len(),
{
    if acts.len() == 0 {
        m
    } else {
        pizza_effect(pizzas_after(m, acts.drop_last()), acts.last())
    }
}

/// The pies after the actions `acts`, in order.
pub open spec fn pies_after(m: Map<Key, NftPieData>, acts: Seq<StorageAction>) -> Map<Key, NftPieData>
    decreases acts.len(),
{
    if acts.len() == 0 {
        m
    } else {
        pie_effect(pies_after(m, acts.drop_last()), acts.last())
    }
}

/// The airdrop claims after the actions `acts`, in order.
pub open spec fn claims_after(m: Map<Seq<u8>, bool>, acts: Seq<StorageAction>) -> Map<Seq<u8>, bool>
    decreases acts.len(),
{
    if acts.len() == 0 {
        m
    } else {
        claim_effect(claims_after(m, acts.drop_last()), acts.last())
    }
}

/// The state of the Pizzatown contract: the pizzas and the pies, each keyed
/// by owner address and id, the airdrop claims keyed by owner address, and
/// the contract's version record.
pub struct Store {
    pizzas: Table<NftPizzaData>,
    pies: Table<NftPieData>,
    airdrop_claims: ClaimTable,
    contract_version: Option<ContractVersion>,
}

impl Store {
    /// The stored pizzas by (owner, id) key.
    pub closed spec fn pizza_map(&self) -> Map<Key, NftPizzaData> {
        self.pizzas.view()
    }

    /// The stored pies by (owner, id) key.
    pub closed spec fn pie_map(&self) -> Map<Key, NftPieData> {
        self.pies.view()
    }

    /// The airdrop claims by owner.
    pub closed spec fn claim_map(&self) -> Map<Seq<u8>, bool> {
        self.airdrop_claims.view()
    }

    /// The contract's name and version, once recorded.
    pub closed spec fn version(&self) -> Option<(Seq<char>, Seq<char>)> {
        match self.contract_version {
            Some(v) => Some((v.contract@, v.version@)),
            None => None,
        }
    }

    /// The state's invariant: every NFT is stored under the bytes of its own
    /// id, and every attribute lies in its range.
    pub closed spec fn wf(&self) -> bool {
        &&& self.pizzas.wf()
        &&& self.pies.wf()
        &&& self.airdrop_claims.wf()
        &&& forall|k: Key| #[trigger] self.pizzas.view().contains_key(k) ==> k.1 == str_bytes(self.pizzas.view()[k].id@) && valid_pizza(self.pizzas.view()[k])
        &&& forall|k: Key| #[trigger] self.pies.view().contains_key(k) ==> k.1 == str_bytes(self.pies.view()[k].id@) && valid_pie(self.pies.view()[k])
    }

    /// The state of a contract that holds nothing.
    pub fn new() -> (s: Self)
        ensures
            s.wf(),
            s.pizza_map() == Map::<Key, NftPizzaData>::empty(),
            s.pie_map() == Map::<Key, NftPieData>::empty(),
            s.claim_map() == Map::<Seq<u8>, bool>::empty(),
            s.version() == None::<(Seq<char>, Seq<char>)>,
    {
        Store {
            pizzas: Table::new(),
            pies: Table::new(),
            airdrop_claims: ClaimTable::new(),
            contract_version: None,
        }
    }

    /// Records the contract's name and version.
    pub fn set_contract_version(&mut self, contract: &str, version: &str)
        requires
            old(self).wf(),
        ensures
            final(self).wf(),
            final(self).version() == Some((contract@, version@)),
            final(self).pizza_map() == old(self).pizza_map(),
            final(self).pie_map() == old(self).pie_map(),
            final(self).claim_map() == old(self).claim_map(),
    {
        self.contract_version = Some(ContractVersion {
            contract: contract.to_owned(),
            version: version.to_owned(),
        });
    }

    /// Whether `owner` holds a pizza with id bytes `id`.
    pub fn has_pizza(&self, owner: &Vec<u8>, id: &Vec<u8>) -> (r: bool)
        requires
            self.wf(),
        ensures
            r == self.pizza_map().contains_key((owner@, id@)),
    {
        self.pizzas.has(owner, id)
    }

    /// Whether `owner` has claimed the airdrop.
    pub fn has_claimed(&self, owner: &Vec<u8>) -> (r: bool)
        ensures
            r == self.claim_map().contains_key(owner@),
    {
        self.airdrop_claims.has(owner)
    }

    /// Stores `pizza` for `owner` under the bytes of its id.
    pub fn save_pizza(&mut self, owner: &Vec<u8>, pizza: NftPizzaData)
        requires
            old(self).wf(),
            valid_pizza(pizza),
        ensures
            final(self).wf(),
            final(self).pizza_map() == old(self).pizza_map().insert((owner@, str_bytes(pizza.id@)), pizza),
            final(self).pie_map() == old(self).pie_map(),
            final(self).claim_map() == old(self).claim_map(),
            final(self).version() == old(self).version(),
    {
        let id = pizza.id.as_str().as_bytes_vec();
        let o = owner.clone();
        assert(o@ =~= owner@);
        self.pizzas.save(o, id, pizza);
    }

    /// Stores `pie` for `owner` under the bytes of its id.
    pub fn save_pie(&mut self, owner: &Vec<u8>, pie: NftPieData)
        requires
            old(self).wf(),
            valid_pie(pie),
        ensures
            final(self).wf(),
            final(self).pie_map() == old(self).pie_map().insert((owner@, str_bytes(pie.id@)), pie),
            final(self).pizza_map() == old(self).pizza_map(),
            final(self).claim_map() == old(self).claim_map(),
            final(self).version() == old(self).version(),
    {
        let id = pie.id.as_str().as_bytes_vec();
        let o = owner.clone();
        assert(o@ =~= owner@);
        self.pies.save(o, id, pie);
    }

    /// Removes the pizza of `owner` with id bytes `id`, if there is one.
    pub fn remove_pizza(&mut self, owner: &Vec<u8>, id: &Vec<u8>)
        requires
            old(self).wf(),
        ensures
            final(self).wf(),
            final(self).pizza_map() == old(self).pizza_map().remove((owner@, id@)),
            final(self).pie_map() == old(self).pie_map(),
            final(self).claim_map() == old(self).claim_map(),
            final(self).version() == old(self).version(),
    {
        self.pizzas.remove(owner, id);
    }

    /// Records that `owner` has claimed the airdrop.
    pub fn save_claim(&mut self, owner: &Vec<u8>)
        requires
            old(self).wf(),
        ensures
            final(self).wf(),
            final(self).claim_map() == old(self).claim_map().insert(owner@, true),
            final(self).pizza_map() == old(self).pizza_map(),
            final(self).pie_map() == old(self).pie_map(),
            final(self).version() == old(self).version(),
    {
        let o = owner.clone();
        assert(o@ =~= owner@);
        self.airdrop_claims.save(o);
    }

    /// The pizzas of `owner`, in ascending byte order of their ids.
    pub fn pizzas_of(&self, owner: &Vec<u8>) -> (r: Vec<NftPizzaData>)
        requires
            self.wf(),
        ensures
            is_prefix_listing(
                self.pizza_map(),
                owner@,
                r@.map_values(|p: NftPizzaData| str_bytes(p.id@)),
                r@,
            ),
    {
        let entries = self.pizzas.range_prefix(owner);
        let mut out: Vec<NftPizzaData> = Vec::new();
        let n = entries.len();
        let mut i: usize = 0;
        while i < n
            invariant
                n == entries@.len(),
                i <= n,
                out@ =~= entries@.subrange(0, i as int).map_values(|e: (Vec<u8>, NftPizzaData)| e.1),
            decreases n - i,
        {
            out.push(entries[i].1.duplicate());
            i = i + 1;
        }
        proof {
            let m = self.pizza_map();
            let ids = entries@.map_values(|e: (Vec<u8>, NftPizzaData)| e.0@);
            assert(entries@.subrange(0, n as int) =~= entries@);
            assert forall|j: int| 0 <= j < ids.len() implies #[trigger] ids[j] == str_bytes(out@[j].id@) by {
                assert(m.contains_key((owner@, ids[j])));
            }
            assert(out@.map_values(|p: NftPizzaData| str_bytes(p.id@)) =~= ids);
        }
        out
    }

    /// The pies of `owner`, in ascending byte order of their ids.
    pub fn pies_of(&self, owner: &Vec<u8>) -> (r: Vec<NftPieData>)
        requires
            self.wf(),
        ensures
            is_prefix_listing(
                self.pie_map(),
                owner@,
                r@.map_values(|p: NftPieData| str_bytes(p.id@)),
                r@,
            ),
    {
        let entries = self.pies.range_prefix(owner);
        let mut out: Vec<NftPieData> = Vec::new();
        let n = entries.len();
        let mut i: usize = 0;
        while i < n
            invariant
                n == entries@.len(),
                i <= n,
                out@ =~= entries@.subrange(0, i as int).map_values(|e: (Vec<u8>, NftPieData)| e.1),
            decreases n - i,
        {
            out.push(entries[i].1.duplicate());
            i = i + 1;
        }
        proof {
            let m = self.pie_map();
            let ids = entries@.map_values(|e: (Vec<u8>, NftPieData)| e.0@);
            assert(entries@.subrange(0, n as int) =~= entries@);
            assert forall|j: int| 0 <= j < ids.len() implies #[trigger] ids[j] == str_bytes(out@[j].id@) by {
                assert(m.contains_key((owner@, ids[j])));
            }
            assert(out@.map_values(|p: NftPieData| str_bytes(p.id@)) =~= ids);
        }
        out
    }

    /// The state holds finitely many pizzas, pies and claims, and every
    /// recorded airdrop claim holds `true`.
    pub proof fn law_state_is_finite_and_claims_true(&self)
        ensures
            self.pizza_map().dom().finite(),
            self.pie_map().dom().finite(),
            self.claim_map().dom().finite(),
            forall|o: Seq<u8>| #[trigger] self.claim_map().contains_key(o) ==> self.claim_map()[o] == true,
    {
        self.pizzas.lemma_view_finite();
        self.pies.lemma_view_finite();
        self.airdrop_claims.lemma_view_finite_and_true();
    }

    /// Every stored pizza and pie is stored under the bytes of its own id,
    /// and its attributes lie in their ranges.
    pub proof fn law_stored_nfts_are_well_formed(&self)
        requires
            self.wf(),
        ensures
            forall|k: Key|
                #[trigger] self.pizza_map().contains_key(k) ==> k.1 == str_bytes(
                    self.pizza_map()[k].id@,
                ) && valid_pizza(self.pizza_map()[k]),
            forall|k: Key|
                #[trigger] self.pie_map().contains_key(k) ==> k.1 == str_bytes(
                    self.pie_map()[k].id@,
                ) && valid_pie(self.pie_map()[k]),
    {
    }

    /// Carries out one storage action.
    pub fn apply(&mut self, a: &StorageAction)
        requires
            old(self).wf(),
            action_is_valid(*a),
        ensures
            final(self).wf(),
            final(self).pizza_map() == pizza_effect(old(self).pizza_map(), *a),
            final(self).pie_map() == pie_effect(old(self).pie_map(), *a),
            final(self).claim_map() == claim_effect(old(self).claim_map(), *a),
            final(self).version() == old(self).version(),
    {
        match a {
            StorageAction::SavePizza { owner, pizza } => self.save_pizza(owner, pizza.duplicate()),
            StorageAction::SavePie { owner, pie } => self.save_pie(owner, pie.duplicate()),
            StorageAction::RemovePizza { owner, id } => self.remove_pizza(owner, id),
            StorageAction::SaveClaim { owner } => self.save_claim(owner),
        }
    }

    /// Carries out the storage actions `acts`, in order.
    pub fn apply_all(&mut self, acts: &Vec<StorageAction>)
        requires
            old(self).wf(),
            forall|i: int| 0 <= i < acts@.len() ==> action_is_valid(#[trigger] acts@[i]),
        ensures
            final(self).wf(),
            final(self).pizza_map() == pizzas_after(old(self).pizza_map(), acts@),
            final(self).pie_map() == pies_after(old(self).pie_map(), acts@),
            final(self).claim_map() == claims_after(old(self).claim_map(), acts@),
            final(self).version() == old(self).version(),
    {
        let ghost pre: Store = *self;
        let n = acts.len();
        let mut i: usize = 0;
        while i < n
            invariant
                n == acts@.len(),
                i <= n,
                self.wf(),
                forall|j: int| 0 <= j < acts@.len() ==> action_is_valid(#[trigger] acts@[j]),
                self.pizza_map() == pizzas_after(pre.pizza_map(), acts@.take(i as int)),
                self.pie_map() == pies_after(pre.pie_map(), acts@.take(i as int)),
                self.claim_map() == claims_after(pre.claim_map(), acts@.take(i as int)),
                self.version() == pre.version(),
            decreases n - i,
        {
            self.apply(&acts[i]);
            proof {
                let t = acts@.take(i + 1);
                assert(t.drop_last() =~= acts@.take(i as int));
                assert(t.last() == acts@[i as int]);
            }
            i = i + 1;
        }
        assert(acts@.take(n as int) =~= acts@);
    }
}

} // verus!
