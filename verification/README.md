# sharibo

Contribution circles on Soroban with anonymous payouts. Members of a circle
deposit a fixed contribution each round; once the pot holds
`contribution * size`, one member takes it by proving membership in the
circle's Merkle root with a Groth16 proof over BLS12-381. The proof is bound
to the circle and round by an external nullifier
(`SHA-256(circle_id || round)` reduced into the scalar field), and its
nullifier hash is recorded so the same identity cannot claim twice on a
circle. The admin can cancel a stuck circle, which refunds the current round
in deposit order and closes the circle.

## Layout

- `src/` — the verified library (Verus).
  - `circle.rs` — the circle, its errors and storage keys, and the
    specification of every entry point over the circle's view.
  - `contract.rs` — the entry points: from the stored state and the call's
    arguments to the new state and the token movements to make. `try_claim`
    answers `None` exactly where the host would trap (an invalid point, or a
    verified proof with the round counter at its maximum).
  - `groth16.rs` — verification key, proof, and the Groth16 check.
  - `encoding.rs` — big-endian byte strings and the round-tag preimage.
  - `field.rs` — the BLS12-381 scalar and base fields as byte strings, and
    well-formed point encodings.
  - `scalar.rs` — elements of the scalar field, always held reduced.
  - `host.rs` — the Soroban host functions the library calls (SHA-256 and the
    BLS12-381 operations), with the contracts the library relies on.
  - `fee.rs` — splitting an amount into a fee and the net payout.
  - `laws.rs` — properties across entry points: the pot invariant, refunds,
    nullifier fencing, round binding, closed circles, sequential ids.
  - `registry.rs` — the stored state across calls, and what holds of every
    state reached from a fresh deployment.
- `app/` — the Soroban contract itself: storage, authorization, TTL
  extension and token transfers around the library.
- `tests/` — end-to-end flows with real Groth16 fixtures, and the fee split.
