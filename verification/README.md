# gf256

Galois-field arithmetic and the algorithms built on it, written in Verus:
every function states what it computes over a mathematical model of binary
polynomials (`src/poly.rs`), and Verus proves it.

- `xmul`, `p`: carry-less multiplication and the binary-polynomial types
  `p8` .. `p128`.
- `gf`: the finite fields `gf16`, `gf256`, `gf256_rijndael`, `gf4096`,
  `gf2p16`, `gf2p23`, `gf2p32`, `gf2p64`. The laws of addition and
  multiplication, `(a + b)^2 == a^2 + b^2` and the division law
  `(a * b) / b == a` are proved for every type. Every non-zero element is
  invertible: for the 4- and 8-digit fields `groups` walks the powers of
  the generator; for the larger ones `order` certifies that `2` has order
  `2^w - 1` (its powers evaluated on machine words, the prime factors of
  `2^w - 1` checked), and `cyclic` turns that into the fact that the
  powers of `2` are all the non-zero elements. `logtab` multiplies and
  divides by log and antilog tables, and multiplies by remainder tables of
  256 and 16 entries over the carry-less product, proved to agree with the
  model.
- `crc`: CRC checksums, bitwise and with 256- and 16-entry tables (proved
  to agree), with their concatenation law and the law that appending a
  message's CRC gives a CRC of zero.
- `lfsr`: linear-feedback shift registers, stepping both ways and jumping,
  and a byte at a time by tables, with the laws that jumps are single
  steps, that output chunks join up, and that the 8-, 16-, 32- and 64-digit
  registers have the full period `2^w - 1`.
- `raid`: RAID 5/6/7 parity over several fields, with the repair of lost
  blocks proved to give the data back in each of its modules, and
  the round trip (format, lose blocks, repair) stated as one law.
- `shamir`: Shamir's secret sharing, with the proof that any `k` shares give
  the secret back, in each of its modules.
- `rs`: Reed-Solomon codes: encoding is proved to give codewords; the
  repair of up to `ecc` words at listed positions (Forney's algorithm), of
  up to `ecc / 2` words at unknown positions (Berlekamp-Massey, whose
  locator is proved to vanish at every error point, `rs/bm.rs`), and of any
  mix with twice the unknown ones plus the listed ones at most `ecc`, is
  proved to succeed and give the sent codeword back.

`tests/` runs the library on concrete values; `app/` offers the LFSRs as
random-number generators of the `rand` crate.
