# lab1_chat

A client-server chat. Each client agrees on a secret number with the server by
Diffie-Hellman exchange and then encrypts its messages with it (xor, Caesar, or
not at all); the server relays each message to every other client, re-encrypted
for that client.

- `src/` is the verified library:
  - `cipher` – the ciphers, with the proof that decryption undoes encryption;
  - `key_exchange` – public numbers and secrets, with the proof that both sides
    find the same secret;
  - `parameters` – the prime modulus and the generator candidates (trial
    division, primitive-root test);
  - `messages` – the protocol messages, received JSON objects (read from text
    with the json crate), and the wire form of a chat text (encrypted bytes in
    base64);
  - `protocol`, `client`, `server` – the handshake state machines of both sides,
    the server's per-client queues, and its broadcast.
- `app/` runs the programs: `app server [OPTIONS]` and `app client [OPTIONS]`.
  It owns the sockets, the mio event loop, the terminal and JSON on the wire,
  and asks the library what to do on each event.
- `tests/` exercises the library, end to end included.
