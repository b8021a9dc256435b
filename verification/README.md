# golfsetridak

The booking, shop, checkout and account rules of the Golfsetrið Akureyri
website, together with the WebSocket and embedding-client protocol code it
runs on and the migration of the old SQLite site's data, as a library whose
functions carry contracts proved by Verus. The few calls into std and the
`sha1` crate that Verus cannot read (UTF-8 decoding, Unicode case mapping,
SHA-1) sit behind small trusted wrappers whose contracts are stated in
their doc comments.

The stores (`booking::store`, `cart`, `checkout`, `giftcards`, `auth`,
`admin::settings`) hold their records in memory; keeping them on disk is the
binary's concern.

## Layout

- `src/` — the verified library.
  - `booking/` — slots and UTC civil time, pricing rules, subscriptions and
    their sharing, and the booking store (one booking per slot, packages,
    daily limits, cancellation).
  - `cart.rs`, `checkout/`, `giftcards.rs`, `shop.rs` — carts, payments and
    their fulfilment, the gateway callback, gift cards.
  - `auth.rs` — one-time codes, sessions, roles, cookies, the login form.
  - `admin/` — statistics, tables and settings of the admin pages.
  - `migrate.rs` — the rows of the old database turned into the records
    and keys of the new stores.
  - `collections_api.rs`, `content.rs`, `mime.rs`, `cli.rs` — routing and
    helpers of the collections API, markdown frontmatter and the news
    listing, content types, the command line.
  - `ws/`, `vector/` — the RFC 6455 handshake and framing, and the
    embedding client's endpoint parsing, requests and replies.
  - `table.rs`, `meta.rs`, `text.rs`, `json.rs`, `digest.rs` — the keyed
    record table the stores are built on, JSON metadata, text helpers, JSON
    string escaping and the SHA-1 call.
- `tests/` — scenario tests of the library.
- `app/` — the binary: HTTP server, sidecar, WebSocket and embedding
  network plumbing, the SQLite reading and store writing of `migrate`, and
  the floating-point vector maths.
