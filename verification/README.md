# Cryptix

Interactive visual encryption: the RGBA pixels of an image are sealed with
XChaCha20-Poly1305 and saved as a PNG of noise, with the 16-byte Poly1305 tag
appended after the PNG's last chunk. The key and nonce are handed to the user
as 75 characters of URL-safe Base64.

- `src/` is the verified library (Verus): key bundles and their text form
  (`crypto`, `keytext`), the cipher, random source and wiping (`primitives`),
  the image codecs (`pixels`), locking and unlocking files (`image_ops`), file naming
  and listing (`naming`) and title-screen layout (`terminal`).
- `app/` is the terminal front end: menus, prompts, spinners, the clipboard,
  and reading and writing files.
- `tests/` exercise the library on concrete values.
