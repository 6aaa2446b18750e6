# lib

The verified core of a small interactive shell.

- `src/text.rs`: Unicode white space, trailing-white-space trimming,
  splitting on a separator (with the split/join laws) and string building.
- `src/command.rs`: normalisation of command lines (`remove_extra_space`),
  their normal form and fixed points, pipeline stages and arguments, and the
  decision taken on each input line (`classify_input`).
- `src/env.rs`: which environment variables are handed to commands.
- `src/jobs.rs`: the table of background jobs and its listing.
- `app/main.rs`: the read loop, process spawning and piping, and printing.
