# dns_filter

A DNS filter built around the `.ars` binary rule-set format, written in
Verus. The library under `src/` holds the rule sets (building, encoding,
reading and matching), the answer cache, the routing of the HTTP API and
the decisions of the DNS handler, each with its contract proved by Verus.
`app/` holds what cannot be verified: the command line, files, sockets,
threads and the JSON forms of the library's types.

## Layout

- `format`, `container`, `codec`: the bytes of an `.ars` file, its CRC-32
  checksums and zstd compression.
- `rule`, `ruleorder`, `builder`: rules, their order and duplicate removal,
  and the builder that sorts rules into sections and encodes the file.
- `scan`, `reader`: reading a file back section by section, and loading the
  matchers (FST sets, Aho-Corasick automata, regex sets).
- `roundtrip`, `readback`, `suffix`: what reading gives back of a written
  file, and what a suffix rule matches.
- `matcher`: the verdict for a domain name (allow, rewrite, block, no match).
- `labels`, `text`, `order`: label reversal, line splitting, byte order.
- `cache`, `handler`, `upstream`, `config`: the DNS server's answer cache,
  answer decisions, upstream order and configuration defaults.
- `web`: percent-decoding, query strings and the API's endpoints.
