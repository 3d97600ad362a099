# vesper

The client-side logic of Vesper, a Matrix chat client, written in Verus with
its behaviour stated in contracts and proved.

- `src/` is the verified library: the data model, the timeline and room-list
  mapping, markdown rendering, log redaction, notification rules, media
  handling and caches, the session and verification state machines, the
  decisions behind each screen of the interface, and the in-memory mock
  backend. Laws that span several calls stand as public `law_*` proof
  functions beside the functions they speak of.
- `tests/` runs the library on concrete values.
- `app/` is the unverified edge: `main`, file-system storage (session,
  passphrase, preferences, media cache), logging and the panic hook.
