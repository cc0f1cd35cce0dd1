# escape_parser

A verified parser for the escape sequences that programs send to a terminal.
Bytes go in, in chunks of any size; `Action`s come out: characters, control
codes, control sequences, operating system commands, sixel images, terminal
capability queries and the rest.

```rust
use escape_parser::{Action, Parser, Undecoded};

let mut parser: Parser<Undecoded> = Parser::new();
let actions = parser.parse_as_vec(b"hi");
assert_eq!(actions, vec![Action::Print('h'), Action::Print('i')]);
```

## Layout

- `src/machine.rs`: the state machine of the `vtparse` crate, and the events
  that it reports.
- `src/state.rs`: what each event does to the device control strings that are
  being collected, and the actions that it amounts to.
- `src/parser.rs`: `Parser`, with `parse`, `parse_as_vec`, `parse_first` and
  `parse_first_as_vec`.
- `src/sixel.rs`: the grammar of sixel images.
- `src/tcap.rs`, `src/text.rs`: terminal capability queries, and the text in
  them.
- `src/action.rs`: what the parser recognizes.
- `src/decode.rs`: `Decoder`, which gives the other sequences their meaning,
  and `Undecoded`, which hands them on as they came.
- `src/laws.rs`: what holds of the parser as a whole.
- `app/`: a callback interface, and decoders that log and that follow the tmux
  control mode.

## What is proved, and what is trusted

Every function states exactly what it returns and how it changes what it is
given. What the state machine, `hex::decode`, `String::from_utf8_lossy` and the
class `\d` of the `regex` crate do is believed, not proved; the functions that
call them say what is believed. So is the contract of `Decoder`, of every
decoder outside `src/`: those in `app/`, and those that users of the library
write. `Undecoded` is proved to meet it.
