# automaton

A simulator for one-dimensional elementary cellular automata, all 256 Wolfram rules, written in
Verus. Rows are packed 64 cells to a word, most significant bit first. Cells beyond either edge
are dead. A run starts from one live cell in the middle and is drawn as a grayscale picture, one
row per generation, live cells black and dead cells white.

- `src/model.rs` says what a cell, a step and a run are; every contract speaks in its terms.
- `src/rule.rs` turns a rule number into its lookup table.
- `src/row.rs` steps packed rows, `src/picture.rs` draws them and runs a whole simulation.
- `src/plan.rs` settles the dimensions and when a run is large enough to ask first;
  `src/consent.rs` reads the answer.
- `src/laws.rs` proves what holds of the automaton as a whole, and `src/bits.rs` the facts about
  machine words that the proofs need.
- `app/` is the command line program.

One thing is taken on trust: what the `image` crate's `GrayImage::from_raw` accepts and keeps,
stated on `gray_image` in `src/picture.rs`.

    automaton --rule 30 --steps 200 --output rule30.png
