# softphone

A SIP softphone whose protocol logic is written in Verus and proved against
its contracts.

- `src/` — the verified library
  - `text.rs`, `text_facts.rs` — character-level text functions (tokens,
    trimming, decimal numerals, ASCII case) and their lemmas
  - `sip/` — SIP messages: methods, header access, text form and parsing
    (`roundtrip.rs` proves that a message's text parses back to it,
    `header_updates.rs` what reading a header gives after it is set or added),
    digest authentication (`auth.rs`, over the `md5` crate), and the user
    agent's decisions as state machines (`ua.rs`, with `ua_facts.rs`)
  - `media/` — RTP/RTCP packets, G.711 μ-law, the jitter buffer, SDP session
    descriptions with their parse round trip (`sdp_roundtrip.rs`) and
    offer/answer negotiation (`negotiation.rs`)
  - `config/`, `common/`, `cli/`, `ui/` — settings with their defaults, shared
    data, command-line options, and the dialler's decision
- `tests/` — executable tests of the library
- `app/` — the program around it: configuration file, UDP transport, message
  dispatch, timers and retries of the user agent, audio devices and the window
