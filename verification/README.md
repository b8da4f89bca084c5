# aisix

An AI gateway core whose logic is proved with Verus.

- `src/` is the verified library: configuration snapshots compiled from
  stored resources (`compile`, `loader`, `snapshot`, `config`), API key and
  admin checks (`access`), rate limits (`ratelimit`), usage totals (`spend`),
  the Redis wire format and counters (`storage`), JSON values (`json`),
  event-stream framing (`sse`) and normalisation (`stream`), upstream request
  bodies (`codec`), the Anthropic messages protocol (`protocol`), request
  planning and caching rules (`pipeline`), the replies built from upstream
  or cached answers (`respond`), listings in id order (`listing`), and the
  configuration watcher's decisions (`watch`).
- `app/` is the process around it: startup, the HTTP server, etcd, Redis and
  upstream calls, metrics.
- `tests/` runs the library on concrete inputs.
