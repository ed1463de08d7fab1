# arc_identity

How a machine gets a token for the identity that Azure Arc has given to it, with the decisions
verified by Verus.

- `src/` holds the decisions: reading the challenge, checking the secret file, forming the
  requests, reading the time of expiry, keeping tokens. Every function has a contract, and
  `src/laws.rs` states what holds of them together.
- `app/` is the credential for `azure_core`: it sends the requests, reads the file and the
  environment, and decodes the token response, as `src/` tells it to.
- `tests/` runs the library against a service, files and an environment that are made up.

What `src/` takes on trust is marked `#[verifier::external_body]`, each item with a note on what it
claims of the function that it calls.
