# ec

Core of an election commission that takes anonymous votes over Nostr, counts
them and publishes the results. The rules of the commission are written in Verus
and proved; a thin daemon around them does the input and output.

* `src/counting` counts plurality ballots, breaks ties and fills seats.
* `src/handlers` checks ballots and tokens, and carries out a request to cast a
  vote step by step.
* `src/nostr` holds the messages to voters and the public events.
* `src/config.rs` and `src/auth.rs` settle the configuration and who may call
  the admin API.
* `src/json.rs`, `src/text.rs`, `src/time.rs` and `src/digest.rs` are what the
  others build on.
* `app` reads files and the environment, talks to relays and serves the admin
  API.

Functions named `law_…` state what holds of the library as a whole.
