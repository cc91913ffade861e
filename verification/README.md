# authenticator

The verified core of a desktop TOTP/HOTP authenticator.

- `src/` is the library, verified with Verus:
  - `hotp`: HMAC over the big-endian counter, dynamic truncation, the
    zero-padded decimal code, and the hash-function name lookup.
  - `totp`: the TOTP code of the current time step and the seconds left.
  - `secret`: Base32 padding and decoding of stored secrets.
  - `decimal`: decimal text of numbers and the rules of `str::parse` for
    unsigned integers.
  - `uri`: cleaning and reading `otpauth://` URIs.
  - `account`: the account store (listing codes, advancing HOTP counters,
    adding, deleting and inspecting accounts).
  - `text`: character-level helpers.
- `app/` is the Tauri application around it: commands, the accounts file,
  the clipboard and the macOS dock icon.
- `tests/` runs the library on RFC 4226/6238 vectors and on scenarios of the
  application.
