# cloudreve-cli

Uploads files to a Cloudreve server in chunks: several at once, encrypted on the
way where the server asks for it, and retried when they fail. The library also
plans what is missing of a session of which some chunks have arrived; the program
keeps no sessions and opens a new one for each file.

- `src/` is the verified library. `uploader` cuts, encrypts, deals out, retries and
  reports; `commands`, `config` and `profiles` hold what the commands decide and
  say; `api` holds the requests. `uploader/laws.rs` states what holds of a cut file
  as a whole, and `uploader/course.rs` what the workers make of it: no chunk is lost
  or handed to two of them, and an upload that nothing disturbs sends all that was
  missing.
- `app/` is the program around it: arguments, files, the network, the terminal.
- `tests/` runs the library on concrete values.
