# kenken_explorer

A command-line research tool that runs experiments over batches of randomly
generated KenKen puzzles and reports results as JSON.

- `src/` is the verified library: configuration types and their resolution
  (command line over file over defaults, with the checks that refuse a bad
  grid size or a zero solution cap), operator-policy names, per-trial seeding,
  and the summary of solution counts into a histogram, with its laws proved.
- `app/` is the program around it: argument parsing, reading the TOML file,
  calling the puzzle generator on worker threads, timing, and printing JSON.
