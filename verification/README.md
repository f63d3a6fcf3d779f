# circuit integer exponentiation, prover oracles, process checks

A Verus library in four parts:

- `integer`: fixed-width circuit integers (a bit pattern, a type of 8 to 128
  bits, signed or not, and a mode), with multiplication that reports overflow
  and a verified 128 x 128 -> 256 bit product.
- `pow_flagged`: exponentiation by square-and-multiply over the exponent's
  bits, with an overflow flag, the prediction of the result's mode and its
  constraint count. The result is proved to be the exact power wrapped into
  the type, and the flag to be set exactly when the exact power leaves the
  type's range.
- `oracles`: the polynomials of each round of the prover, the order in which
  they are committed to and opened, and their agreement with the verifier's
  table of labels and bounds.
- `process`: executing a request (its checks, the run of its function handed
  in as a closure, and the refusal of an empty run) and verifying an
  execution (its header, then each transition from the last one down, its
  checks and then its proof, handed with its verifying key and public inputs
  to a verifier closure).

`field` holds the field elements that the last two parts carry.
