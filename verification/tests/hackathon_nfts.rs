use pizzatown_nfts::hackathon_nfts::contract::{execute, instantiate, query, TOKEN_URL};
use pizzatown_nfts::hackathon_nfts::msg::{ExecuteMsg, InstantiateMsg, QueryMsg, QueryResponse};
use pizzatown_nfts::error::ContractError;
use pizzatown_nfts::hackathon_nfts::state::HackathonStore;

fn assert_balance_is(address: &str, expected: u128) {
    let res = query(QueryMsg::Balance {
        owner: address.to_string(),
        token_id: "any_token_id".to_string(),
    });
    match res {
        QueryResponse::Balance(b) => assert_eq!(
            expected, b.balance,
            "address '{}' should have {} tokens",
            address, expected
        ),
        _ => panic!("a balance query is answered with a balance"),
    }
}

#[test]
fn proper_initialization() {
    let mut store = HackathonStore::new();
    let res = instantiate(&mut store, "0.1.0", InstantiateMsg {}).unwrap();
    assert_eq!(0, res.response.messages.len());

    let res = query(QueryMsg::TokenInfo { token_id: "example_token_id".to_string() });
    match res {
        QueryResponse::TokenInfo(t) => assert_eq!("https://www.terra.money/", t.url),
        _ => panic!("a token info query is answered with token info"),
    }

    assert_balance_is("any_address", 1u128);
    assert_balance_is("another_address", 1u128);
}

#[test]
fn hackathon_refuses_every_message() {
    assert!(matches!(execute(ExecuteMsg {}), Err(ContractError::Unauthorized {})));
}

#[test]
fn hackathon_instantiate_names_method() {
    let mut store = HackathonStore::new();
    let res = instantiate(&mut store, "0.1.0", InstantiateMsg {}).unwrap();
    assert_eq!(res.response.attributes.len(), 1);
    assert_eq!(res.response.attributes[0].key, "method");
    assert_eq!(res.response.attributes[0].value, "instantiate");
    assert_eq!(TOKEN_URL, "https://www.terra.money/");
}
