# bitlens

A verified core for a Bitcoin block explorer. The library in `src/` holds
the peer-to-peer wire format (messages, transactions, blocks, packet
framing and dispatch), the chain of headers the explorer follows (header
application with forks, ancestors, block locators, difficulty retargets,
download bookkeeping), the crawler's and the block download's decisions,
the pools statistics (who mined each block, the recent blocks, each pool's
count of them), the store's record layouts and the reading of search terms.
Its functions carry contracts proved by Verus, except the small wrappers
around outside crates (hashing, 256-bit arithmetic, base58, bech32, regular
expressions, random numbers), whose contracts are trusted and say what
those crates do.

`app/` is a small program around the library: it connects to one peer,
shakes hands and syncs the headers, doing the socket I/O itself and leaving
every decision and encoding to the library. It also serialises the pools
page, whose shares are fractions, from the counts the library keeps.

Layout of `src/`:

- `packets/`: codecs for each message, the generic array and byte-string
  encodings, packet headers and payload dispatch, with round-trip lemmas.
- `util/`: 256-bit numbers, compact targets, retargeting, merkle roots,
  hashing, the genesis header, random numbers.
- `chainman/`: the header chain, the header sync, the block download
  state and the jobs that follow a new tip.
- `connect/`, `crawler/`, `addrman/`: handshake, crawl judgements, peers.
- `db/`: byte layouts of stored records and the records a batch writes.
- `miners/`: pool attribution by coinbase patterns and the pools statistics.
- `api/`: address and search-term parsing.
