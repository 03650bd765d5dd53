use pizzatown_nfts::contract::{
    airdrop_query, airdrop_query_for, create_random_pie, create_random_pizza, execute, instantiate,
    is_airdrop_eligible, mint_pie_plan, mint_pizza_plan, query, query_inventory,
    try_mint_pie, try_mint_pizza, AirdropQuery, HACKATHON_NFTS_CONTRACT_ADDR, OWNER_ADDR,
};
use pizzatown_nfts::error::ContractError;
use pizzatown_nfts::hackathon_nfts::msg::{BalanceResponse, QueryMsg as HackathonQueryMsg};
use pizzatown_nfts::msg::{ExecuteMsg, InstantiateMsg, QueryMsg};
use pizzatown_nfts::state::{StorageAction, Store};
use pizzatown_nfts::utils::{generate_id, rand_int_between};

const BASE_NANOS: u64 = 1_571_797_419_879_305_533;

fn mock_time(offset: u64) -> u64 {
    BASE_NANOS + offset
}

/// Answers the airdrop query as the hackathon NFT contract does: a balance
/// of one for any owner.
fn mock_airdrop_answer(q: &AirdropQuery) -> Option<BalanceResponse> {
    if q.contract_addr == HACKATHON_NFTS_CONTRACT_ADDR {
        Some(BalanceResponse { balance: 1 })
    } else {
        None
    }
}

fn eligible(owner: &str) -> bool {
    is_airdrop_eligible(mock_airdrop_answer(&airdrop_query(owner.to_string())))
}

fn ids_of_pizzas(store: &Store, owner: &str) -> Vec<String> {
    query_inventory(store, owner.to_string()).pizzas.iter().map(|p| p.id.clone()).collect()
}

#[test]
fn contract_proper_initialization() {
    let mut store = Store::new();
    let res = instantiate(&mut store, "0.1.0", InstantiateMsg {}).unwrap();
    assert_eq!(0, res.response.messages.len());
}

#[test]
fn test_is_airdrop_eligible() {
    assert_eq!(eligible("example_address"), true);
}

#[test]
fn mint_pizza_and_pie() {
    let mut store = Store::new();
    let res = instantiate(&mut store, "0.1.0", InstantiateMsg {}).unwrap();
    assert_eq!(0, res.response.messages.len());

    let player = "player_address".to_string();

    // regular mint before the airdrop is claimed gives two pizzas
    let res = execute(&mut store, mock_time(1), &player, ExecuteMsg::MintPizza {}, eligible(&player))
        .unwrap();
    assert_eq!(0, res.response.messages.len());
    let inventory = query(&store, QueryMsg::Inventory { address: player.clone() });
    assert_eq!(2, inventory.pizzas.len(), "there should be two pizzas from mint + airdrop");
    assert_eq!(0, inventory.pies.len(), "there should be no pies, no pizzas have been combined yet");

    // regular mint after the airdrop is claimed gives one pizza
    let res = execute(&mut store, mock_time(3), &player, ExecuteMsg::MintPizza {}, eligible(&player))
        .unwrap();
    assert_eq!(0, res.response.messages.len());
    let inventory = query(&store, QueryMsg::Inventory { address: player.clone() });
    assert_eq!(3, inventory.pizzas.len());
    assert_eq!(0, inventory.pies.len());

    let pizza_a_id = String::from(&inventory.pizzas.get(0).unwrap().id);
    let pizza_b_id = String::from(&inventory.pizzas.get(1).unwrap().id);

    // combine two pizzas and mint a pie
    let res = execute(
        &mut store,
        mock_time(5),
        &player,
        ExecuteMsg::MintPie { pizza_a_id, pizza_b_id },
        eligible(&player),
    )
    .unwrap();
    assert_eq!(0, res.response.messages.len());
    let inventory = query(&store, QueryMsg::Inventory { address: player.clone() });
    assert_eq!(1, inventory.pizzas.len(), "after pizzas are combined, they are removed from inventory");
    assert_eq!(1, inventory.pies.len(), "combined pizzas result in a new pie in the inventory");
}

#[test]
fn instantiate_names_method_and_owner() {
    let mut store = Store::new();
    let res = instantiate(&mut store, "0.1.0", InstantiateMsg {}).unwrap();
    let attrs: Vec<(String, String)> =
        res.response.attributes.iter().map(|a| (a.key.clone(), a.value.clone())).collect();
    assert_eq!(
        attrs,
        vec![
            ("method".to_string(), "instantiate".to_string()),
            ("owner".to_string(), OWNER_ADDR.to_string()),
        ]
    );
}

#[test]
fn generate_id_is_decimal_time() {
    assert_eq!(generate_id(0), "0");
    assert_eq!(generate_id(9), "9");
    assert_eq!(generate_id(10), "10");
    assert_eq!(generate_id(mock_time(1)), "1571797419879305534");
    assert_eq!(generate_id(u64::MAX), "18446744073709551615");
}

#[test]
fn rand_int_between_stays_in_range() {
    assert_eq!(rand_int_between(17, 1, 10), 9);
    assert_eq!(rand_int_between(18, 1, 10), 1);
    assert_eq!(rand_int_between(0, 3, 4), 3);
    for seed in 0..200u64 {
        let r = rand_int_between(seed, 1, 8);
        assert!(1 <= r && r < 8);
    }
}

#[test]
fn random_pizza_and_pie_attributes() {
    let id = "42".to_string();
    let p = create_random_pizza(100, &id);
    assert_eq!(p.id, "42");
    assert_eq!(p.background, 1 + (110 % 9) as u8);
    assert_eq!(p.pizza, 1 + (111 % 7) as u8);
    assert_eq!(p.topping1, 1 + (112 % 8) as u8);
    assert_eq!(p.topping2, 1 + (113 % 8) as u8);
    assert_eq!(p.topping3, 1 + (114 % 8) as u8);
    let pie = create_random_pie(100, &id);
    assert_eq!(pie.id, "42");
    assert_eq!(pie.pie, 1 + (105 % 10) as u8);
}

#[test]
fn mint_plans_decide_the_actions() {
    let sender = "alice".to_string();
    let p = mint_pizza_plan(7, &sender, false, true);
    assert_eq!(p.actions.len(), 3);
    match &p.actions[0] {
        StorageAction::SavePizza { owner, pizza } => {
            assert_eq!(owner, &b"alice".to_vec());
            assert_eq!(pizza.id, "7");
        }
        _ => panic!("the first action stores the minted pizza"),
    }
    match &p.actions[1] {
        StorageAction::SavePizza { owner, pizza } => {
            assert_eq!(owner, &b"alice".to_vec());
            assert_eq!(pizza.id, "10006");
            assert_eq!(pizza.background, 1 + (10017 % 9) as u8);
        }
        _ => panic!("the second action stores the airdrop pizza"),
    }
    match &p.actions[2] {
        StorageAction::SaveClaim { owner } => assert_eq!(owner, &b"alice".to_vec()),
        _ => panic!("the third action records the claim"),
    }
    assert_eq!(mint_pizza_plan(7, &sender, true, true).actions.len(), 1);
    assert_eq!(mint_pizza_plan(7, &sender, false, false).actions.len(), 1);

    let a = "1".to_string();
    let b = "2".to_string();
    assert!(matches!(mint_pie_plan(7, &sender, &a, &b, true, false), Err(ContractError::Unauthorized {})));
    assert!(matches!(mint_pie_plan(7, &sender, &a, &b, false, true), Err(ContractError::Unauthorized {})));
    let p = mint_pie_plan(7, &sender, &a, &b, true, true).unwrap();
    assert_eq!(p.actions.len(), 3);
    match &p.actions[0] {
        StorageAction::SavePie { pie, .. } => assert_eq!(pie.id, "7"),
        _ => panic!("the first action stores the pie"),
    }
    match (&p.actions[1], &p.actions[2]) {
        (StorageAction::RemovePizza { id: ia, .. }, StorageAction::RemovePizza { id: ib, .. }) => {
            assert_eq!(ia, &b"1".to_vec());
            assert_eq!(ib, &b"2".to_vec());
        }
        _ => panic!("then both pizzas are removed"),
    }
}

#[test]
fn airdrop_query_only_before_the_claim() {
    assert!(airdrop_query_for(true, "alice".to_string()).is_none());
    let q = airdrop_query_for(false, "alice".to_string()).unwrap();
    assert_eq!(q.contract_addr, HACKATHON_NFTS_CONTRACT_ADDR);
}

#[test]
fn airdrop_eligibility_needs_balance_one() {
    assert!(is_airdrop_eligible(Some(BalanceResponse { balance: 1 })));
    assert!(!is_airdrop_eligible(Some(BalanceResponse { balance: 0 })));
    assert!(!is_airdrop_eligible(Some(BalanceResponse { balance: 2 })));
    assert!(!is_airdrop_eligible(None));
    let q = airdrop_query("someone".to_string());
    assert_eq!(q.contract_addr, HACKATHON_NFTS_CONTRACT_ADDR);
    match q.msg {
        HackathonQueryMsg::Balance { owner, token_id } => {
            assert_eq!(owner, "someone");
            assert_eq!(token_id, "example");
        }
        _ => panic!("the airdrop query asks for a balance"),
    }
}

#[test]
fn airdrop_is_given_at_most_once() {
    let mut store = Store::new();
    let player = "player".to_string();
    try_mint_pizza(&mut store, 100, &player, true).unwrap();
    assert_eq!(ids_of_pizzas(&store, "player"), vec!["100".to_string(), "10099".to_string()]);
    try_mint_pizza(&mut store, 200, &player, true).unwrap();
    try_mint_pizza(&mut store, 300, &player, true).unwrap();
    assert_eq!(
        ids_of_pizzas(&store, "player"),
        vec!["100".to_string(), "10099".to_string(), "200".to_string(), "300".to_string()]
    );
}

#[test]
fn ineligible_sender_gets_one_pizza_and_no_claim() {
    let mut store = Store::new();
    let player = "player".to_string();
    try_mint_pizza(&mut store, 100, &player, false).unwrap();
    assert_eq!(ids_of_pizzas(&store, "player"), vec!["100".to_string()]);
    // not claimed, so a later eligible mint still gets the airdrop
    try_mint_pizza(&mut store, 200, &player, true).unwrap();
    assert_eq!(
        ids_of_pizzas(&store, "player"),
        vec!["100".to_string(), "10199".to_string(), "200".to_string()]
    );
}

#[test]
fn inventory_is_per_owner_and_sorted_by_id_bytes() {
    let mut store = Store::new();
    let alice = "alice".to_string();
    let bob = "bob".to_string();
    try_mint_pizza(&mut store, 20, &alice, false).unwrap();
    try_mint_pizza(&mut store, 3, &alice, false).unwrap();
    try_mint_pizza(&mut store, 100, &alice, false).unwrap();
    try_mint_pizza(&mut store, 5, &bob, false).unwrap();
    // byte order: "100" < "20" < "3"
    assert_eq!(
        ids_of_pizzas(&store, "alice"),
        vec!["100".to_string(), "20".to_string(), "3".to_string()]
    );
    assert_eq!(ids_of_pizzas(&store, "bob"), vec!["5".to_string()]);
    let inv = query_inventory(&store, "carol".to_string());
    assert_eq!(inv.address, "carol");
    assert!(inv.pizzas.is_empty() && inv.pies.is_empty());
}

#[test]
fn mint_pie_refused_without_both_pizzas() {
    let mut store = Store::new();
    let alice = "alice".to_string();
    let bob = "bob".to_string();
    try_mint_pizza(&mut store, 10, &alice, false).unwrap();
    try_mint_pizza(&mut store, 11, &bob, false).unwrap();
    // bob's pizza is not alice's
    let r = try_mint_pie(&mut store, 12, &alice, "10".to_string(), "11".to_string());
    assert!(matches!(r, Err(ContractError::Unauthorized {})));
    let r = try_mint_pie(&mut store, 12, &alice, "10".to_string(), "999".to_string());
    assert!(matches!(r, Err(ContractError::Unauthorized {})));
    assert_eq!(ids_of_pizzas(&store, "alice"), vec!["10".to_string()]);
    assert_eq!(ids_of_pizzas(&store, "bob"), vec!["11".to_string()]);
    assert!(query_inventory(&store, "alice".to_string()).pies.is_empty());
}

#[test]
fn mint_pie_with_the_same_pizza_twice_consumes_one() {
    let mut store = Store::new();
    let alice = "alice".to_string();
    try_mint_pizza(&mut store, 10, &alice, false).unwrap();
    try_mint_pizza(&mut store, 20, &alice, false).unwrap();
    let res = try_mint_pie(&mut store, 30, &alice, "10".to_string(), "10".to_string()).unwrap();
    let attrs: Vec<(String, String)> =
        res.response.attributes.iter().map(|a| (a.key.clone(), a.value.clone())).collect();
    assert_eq!(attrs, vec![("method".to_string(), "try_mint_pie".to_string())]);
    assert_eq!(ids_of_pizzas(&store, "alice"), vec!["20".to_string()]);
    let pies = query_inventory(&store, "alice".to_string()).pies;
    assert_eq!(pies.len(), 1);
    assert_eq!(pies[0].id, "30");
    assert_eq!(pies[0].pie, 1 + (35 % 10) as u8);
}

#[test]
fn minting_twice_at_one_time_keeps_one_pizza() {
    let mut store = Store::new();
    let alice = "alice".to_string();
    try_mint_pizza(&mut store, 10, &alice, false).unwrap();
    let res = try_mint_pizza(&mut store, 10, &alice, false).unwrap();
    let attrs: Vec<(String, String)> =
        res.response.attributes.iter().map(|a| (a.key.clone(), a.value.clone())).collect();
    assert_eq!(attrs, vec![("method".to_string(), "try_mint_pizza".to_string())]);
    assert_eq!(ids_of_pizzas(&store, "alice"), vec!["10".to_string()]);
}

#[test]
fn claim_survives_pie_mint() {
    let mut store = Store::new();
    let alice = "alice".to_string();
    try_mint_pizza(&mut store, 10, &alice, true).unwrap();
    try_mint_pie(&mut store, 20, &alice, "10".to_string(), "10009".to_string()).unwrap();
    assert!(ids_of_pizzas(&store, "alice").is_empty());
    try_mint_pizza(&mut store, 30, &alice, true).unwrap();
    assert_eq!(ids_of_pizzas(&store, "alice"), vec!["30".to_string()]);
}

#[test]
fn inventory_query_is_repeatable() {
    let mut store = Store::new();
    let alice = "alice".to_string();
    for t in [5u64, 50, 500, 7] {
        try_mint_pizza(&mut store, t, &alice, true).unwrap();
    }
    let a = query_inventory(&store, "alice".to_string());
    let b = query_inventory(&store, "alice".to_string());
    let ids_a: Vec<String> = a.pizzas.iter().map(|p| p.id.clone()).collect();
    let ids_b: Vec<String> = b.pizzas.iter().map(|p| p.id.clone()).collect();
    assert_eq!(ids_a, ids_b);
    assert_eq!(ids_a, vec!["10004", "5", "50", "500", "7"]);
}

#[test]
fn combining_twice_is_refused() {
    let mut store = Store::new();
    let alice = "alice".to_string();
    try_mint_pizza(&mut store, 10, &alice, false).unwrap();
    try_mint_pizza(&mut store, 20, &alice, false).unwrap();
    try_mint_pizza(&mut store, 30, &alice, false).unwrap();
    try_mint_pie(&mut store, 40, &alice, "10".to_string(), "20".to_string()).unwrap();
    try_mint_pizza(&mut store, 50, &alice, false).unwrap();
    let r = try_mint_pie(&mut store, 60, &alice, "10".to_string(), "20".to_string());
    assert!(matches!(r, Err(ContractError::Unauthorized {})));
    assert_eq!(ids_of_pizzas(&store, "alice"), vec!["30".to_string(), "50".to_string()]);
    assert_eq!(query_inventory(&store, "alice".to_string()).pies.len(), 1);
}
