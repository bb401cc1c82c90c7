# sakipet

The verified core of SakiPet, a transparent desktop pet with an AI
companion, written in Verus.

- `src/` is the library, verified by Verus: pet ids and window labels, the configuration and what each pet
  manager action does to it, the catalog and the tray menu, importing pet
  packages, chat turns, heartbeats, memories, prompts, provider payloads and
  streamed replies. Calls into other crates (Base64, zip, image, rand,
  reqwest's header check, the clock) stand behind small trusted wrappers
  whose contracts say what those crates document. The few functions whose
  result comes from the clock or the random number generator state what
  holds of every reading.
- `tests/` runs the library on concrete values.
- `app/` is the Tauri application around it: windows, tray, files, the
  system keyring, HTTP requests, screenshots and the float geometry.
