# email_server

A relay that watches mailboxes (IMAP IDLE or POP3 polling), finds
verification codes in new messages (regular expressions first, an optional
language-model fallback second) and pushes them to authenticated WebSocket
clients.

- `src/` is the verified library:
  - `text` — character-level helpers (Unicode trimming, ASCII case, splitting,
    decimal numbers);
  - `config` — configuration types, documented defaults, environment overrides;
  - `extractor` — pattern compilation and code extraction, the fallback's
    request and answer;
  - `mail` — the MIME tree of a message and the text that extraction reads;
  - `imap` — reconnect back-off, UID cursor, IDLE decisions;
  - `pop3` — the POP3 conversation as a state machine, seen message ids,
    message reassembly;
  - `json` — reading string members out of JSON text;
  - `delivery` — handing a text to one client's queue, and the record of it;
  - `ws` — WebSocket messages, authentication, connection ids, client
    registry and broadcast.
- `app/` is the program: configuration file, network I/O, async tasks.
- `tests/` exercises the library on concrete values.
