# brave_search

Web grounding for chat messages: the search query made from a message, the
search parameters, the sources kept from a response and the context message
rendered from them, and the handling of the stored API key. The library in
`src/` is verified with Verus; `app/` holds the desktop commands that talk to
the secure storage and to the search service over HTTP.

- `src/text.rs` — characters, white space, trimming, words and joining.
- `src/query.rs` — the query, its freshness filter and the request size.
- `src/sources.rs` — response types and the choice and merging of sources.
- `src/message.rs` — the context message.
- `src/context.rs` — search requests, the single retry, failed responses.
- `src/keys.rs` — outcomes of the secure storage.
