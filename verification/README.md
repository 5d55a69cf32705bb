# TokenJ

A local proxy for LLM APIs that adds each provider's prompt-caching markers to
requests, forwards them, and accounts for what caching saved.

The library (`src/`) holds the proxy's logic, with its specifications proved by
Verus:

- `provider`: provider detection, token estimates, the cache strategy of each
  provider (Anthropic `cache_control`, OpenAI `prompt_cache_key`, DeepSeek,
  Gemini context caches, GLM stripping) and the reading of usage counters.
- `proxy`: tunnel requests (`CONNECT`), which hosts are intercepted, direct-mode
  routing, header filtering and request rewriting.
- `pricing`: which price entry applies to a model and how a request's tokens are
  billed.
- `cert`: the cache of per-domain certificates issued by the local CA.
- `x509`: key pairs, certificate parameters and certificates of `rcgen`, each kept with what is known of it (PEM text, subject names, the key pair it certifies and the one that signed it).
- `dashboard`: the recent-request list, request status and model counts.
- `json`, `text`, `digest`, `keyed`: the document model and helpers they share.

The program (`app/`) does the I/O: the command line, sockets, TLS, HTTP, SQLite,
files, the terminal UI, and the floating-point cost amounts.
