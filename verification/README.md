# pizzatown_nfts

Two CosmWasm contracts of the Pizzatown game, with their logic verified in
Verus.

- The Pizzatown contract mints random pizza NFTs, gives each address one
  airdrop pizza when the hackathon NFT contract reports that it holds a
  hackathon NFT, combines two pizzas of an owner into a random pie, and lists
  the NFTs of an address.
- The hackathon NFT contract reports a balance of one for every address and
  a fixed description URL, and refuses every message.

Layout:

- `src/` — the verified library. `bytes` (byte strings and their order),
  `storage` (a table keyed by owner and id, listed per owner in ascending id
  order), `state` (the NFT types and the contract state), `utils` (ids and
  pseudo-random attributes from the block time), `contract` and
  `hackathon_nfts` (the contracts' decisions and their runs on the state),
  `response` (the chain's response type, behind trusted wrappers), `laws`
  (properties spanning several calls).
- `app/` — the CosmWasm entry points: they carry out the library's planned
  storage actions on chain storage through `cw-storage-plus`, write the
  version record through `cw2`, make the balance query that the library asks
  for, and hold the serde forms of the messages.
- `tests/` — the contracts' scenarios and concrete checks of the library.
