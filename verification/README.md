# sha256_round_sound_spike

Verified building blocks of a SHA-256 round AIR over the Mersenne-31 field, and a proof of
what its Ch/Maj limb columns allow.

The round component computes Ch(e, f, g) and Maj(a, b, c) into checked halves (columns
76/77, 112/113) but adds separate limb columns (78/79, 114/115) into its T1/T2 sums. Four
binding constraints `ch_limb == chl/chh`, `maj_limb == majl/majh` close the gap. The
library builds honest and forged traces and proves, for every input:

- the honest trace holds the round-by-round SHA-256 state, and binds every row;
- a forged Ch or Maj word, carried through the later rounds, keeps every row-local
  relation, the `TripleSum32` carry constraints, every table lookup (AND/XOR bytes, Σ,
  round constants, schedule) and the round chain (the round self-relation lookups
  balance), yet changes the post-64-round state exactly when the forged word differs from
  the honest one;
- the binding equalities fail on that one row and on no other.

Layout of `src/`:

- `reference` — scalar SHA-256 with contracts over its mathematical definition.
- `m31` — the field; `relations` — the lookup relations and their widths.
- `components/subroutines` — the constraint subroutines, with soundness and completeness of
  `VerifyTripleSum32` on 16-bit limbs.
- `witness` — the trace builders; `lookups` and `interaction` — the 38 logup lookups of a
  row and their fractions over stwo's lookup elements, and the cancellation of the round
  self-relation between consecutive rows.
- `check` — the constraint recorder and the mask-row index map of a bit-reversed trace.
- `convert` — the decoding of recorded expression trees (columns, constants, named
  intermediates, lookup-element combinations) into that IR, with the single-row fragment it
  accepts and the proof that a converted tree computes the recorded expression mod p.
  Each decoder requires its input to decode; a `try_` form beside it returns the first
  violation as an `Err` (so does `try_structural_checks` in `symbolic`).
- `symbolic` — the expression IR of an extracted component, its exact interpreter and the
  structural checks.
- `soundness` and `tables` — the laws above.

`app/` holds what needs stwo's traits, its prover backend or serde: the `EvalAtRow`
checker, running a component under stwo's expression evaluator and handing the recorded
trees to `convert` as plain values, the numeric gate that evaluates the raw trees with
stwo's assignment, the gates and writer of the SMT extraction artifact, the
interaction-trace generator and the JSON form of a dump.
