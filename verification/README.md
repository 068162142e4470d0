# trim_finder

The decisions behind a program that keeps a machine tidy: looking for duplicate, large and
empty files, cleaning up by rules, looking after the context menu, memory, network, fonts and
looks, and asking language models for descriptions.

- `src/` holds what the program computes and decides. Every function states what it returns or
  changes, and Verus proves it. Functions named `law_…` state what holds across functions.
- `app/` is the program itself: its command line, the files and processes it works with, and the
  bridge by which a window sends requests.
- `tests/` runs the library on concrete values.

The library never touches the machine. What it needs to know comes in as values: a tree of
directories (`world::Entry`), a snapshot of the machine (`world::World`), the text that a script
has printed. What is to be done goes out as values too: events, replies, plans.

Numbers with a binary point are reckoned with whole numbers alone: `double` says which of them
lies nearest to a fraction, `numeral` which is meant by decimal digits and which digits tell it.

A few items are believed rather than proved. They give contracts to functions of the standard
library and of `serde_json`, `blake3`, `miniz_oxide` and `base64`; each says in its
documentation what it claims.
