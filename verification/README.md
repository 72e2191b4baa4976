# cctp_forwarder

Verified decision logic for a CCTP forwarding deployment on CosmWasm:

- `forward`: the request-tracking forward contract. Each CCTP mint becomes a
  transfer request (one per mint transaction hash), its funds go to the Skip
  entry point, and the owner or the Skip relayer may refund and then abandon it.
- `forwarder`: the per-route forwarder. It reads the shared settings from its
  factory, forwards the coin named by the hook data to the Skip entry point, and
  refunds all its balances to the route's sender as an `inj` address.
- `factory`: the forwarder factory. It derives each route's salt, predicts the
  instantiate2 address, creates forwarders, confirms them on reply and lists
  them in salt order.
- `shared`: the messages the factory and its forwarders exchange.
- `codec`, `json`, `bytes`, `common`: encodings (hex, bech32, SHA-256,
  instantiate2, JSON) behind trusted wrappers with stated contracts, byte-string
  order, responses and errors.

Every handler takes what the host provides (sender, block, balances, address
validations, the factory's answer) as plain values and returns the new state and
the response; contracts state both exactly. Laws that span handlers are public
proof functions next to them.

`app/` holds the CosmWasm entry points: storage, host queries, JSON
(de)serialization and the conversions to and from cosmwasm-std types. It makes
no decision of its own.
