# oscar_rs

A client library for OSCAR, the AIM instant-messaging protocol, written in
Verus: the wire formats and the session logic carry contracts that Verus
proves.

## Layout

- `src/` is the verified library.
  - `bytes`, `flap`, `snac`, `text`: big-endian fields, FLAP frames, SNAC
    headers, TLV blocks and user-info blocks, and screen-name comparison.
  - `feedbag`, `raw_feedbag`: buddy-list items (attributes as TLVs, or as a
    raw byte block) and their run encoding.
  - `server_address`, `client`, `login`: address parsing, the roasted
    password, and each step of the login and redirect handshakes as a
    function from the frame just read to what happens next.
  - `session`, `messaging`, `chat_nav`, `chat`, `snapshot`: the BOS session
    state (roster, presence, away messages, IMs, invites, warnings, block
    list), chat rooms, and the plain-data views a user interface shows.
- `app/` runs the network side on tokio: it opens the connections, sends
  the SNACs the library returns, records each change through the library once
  its request is sent, and feeds the frames it reads back in. It
  also holds serializable copies of the library's data types.
- `tests/` exercises the library on concrete frames.
