# hyper-reverse-proxy

The rules of an HTTP reverse proxy, verified with Verus, and a thin layer that
applies them to hyper's requests and responses.

- `src/text.rs`: splitting, trimming and case folding of text
- `src/headers.rs`: what a header map holds, hop headers, `connection` lists,
  the protocol of an upgrade
- `src/message.rs`: URIs, requests and responses
- `src/forward.rs`: the URI that a request is forwarded to
- `src/proxy.rs`: the forwarded request and the response on its way back
- `src/exchange.rs`: a call step by step, with connection upgrades
- `src/error.rs`: what can go wrong
- `src/laws.rs`: what holds of forwarding as a whole
- `app/`: `call`, which talks to the backend

Functions whose names begin with `checked_` take any input and give `None` or
`false` where their counterparts state a requirement.
