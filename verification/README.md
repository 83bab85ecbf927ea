# metaboss

Decodes the metadata of Solana token mint accounts and writes it as JSON.

- `src/` is the library, verified with Verus: addresses and the derived metadata account
  (`address`), metadata records (`metadata`), the bytes in which they are stored (`stored`),
  their JSON form (`json`, `nft`), the decode of one account (`decode`, `error`), the cache of a
  batch (`cache`), the rounds of a batch (`batch`), the laws of a whole run (`run`) and text
  (`text`). It does no I/O: a function that needs the network says what to ask for and takes the
  reply.
- `app/` asks the network, writes the files and talks to the user.
- `tests/` runs the library on concrete values.

The base58 text of an address, the derivation of a program address and the binary form of a record
come from `solana-program` and `mpl-token-metadata`, the ordered map of the cache from `indexmap`,
and the trimming of padded text from the standard library's `str::trim_matches`.
The functions that call them are marked `external_body`; what the proofs take from them is in
their `ensures` clauses.
