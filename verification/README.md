# hswe_implementation

Homomorphic Signature-based Witness Encryption (HSWE) over BLS12-381, with
contracts proved by Verus.

- `src/` — the verified library: tags and their canonical encoding, parameter
  identifiers, keys and tag signatures, encryption, same-tag and cross-tag
  aggregation, decryption through a bounded discrete-log lookup table, the
  privacy wrapper, Shamir sharing of scalars (with a proof that Lagrange
  interpolation is exact), and the lattice-based prototype (with proofs that a
  decryption undoes an encryption and that XOR aggregation of honest
  encryptions decrypts to the parity of the bits).
  The group operations are those of `arkworks`, reached through a few small
  trusted wrappers in `src/group.rs`. `src/correctness.rs` proves, under the
  group laws of BLS12-381 stated as a hypothesis over those operations, that
  decryption undoes encryption, that aggregates decrypt to the sum of their
  messages, that a key's own signature verifies and that removing the summed
  blind undoes blinding.
- `tests/` — integration tests.
- `app/` — the measurement program (timing, printing, argument handling).
