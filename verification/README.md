# buzz

A small server that keeps JSON values under keys, and tells whoever listens to a key of each
change of its value. Clients talk to it over a Unix socket:

    buzz listen                          # run the server
    buzz send set lamp true              # put a value under a key
    buzz send get lamp                   # ask for a value
    buzz send listen lamp                # be told the value, and each change of it
    buzz send listen '$' lamp and door   # be told what an operator makes of two values

A request is its arguments with a zero byte between them. Values are JSON; a key without a value
reads as null. The operators are `and` and `or`, on numbers and booleans.

## Layout

- `src/` is the library, verified with Verus: JSON values (`json`, on the model in `tree`), the
  store and its listeners (`storage`), the operators and the expressions that clients listen to
  (`operation`, `joint`), requests and what the server does about them (`request`, `connection`),
  and the decisions of the server, the client and the configuration (`server`, `client`,
  `config`, `expression`). What is used of `serde_json`, `tokio` and the standard library without
  proof is stated in `document`, `channel` and `text`; `config` carries an error of `toml`.
- `app/` is the program: sockets, signals, files, logging and the command line.
- `tests/` runs the library.
