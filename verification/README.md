# inquest

Records the results of test runs and makes reports of them.

`src/` is the library: what is decided, computed and said, each function with its contract.
`app/` does what the library asks for: it reads and writes files, runs other programs, looks at
the clock and serves pages. `tests/` runs the library.

Commands that only look at recorded runs take the recorded runs and say everything in one call.
Commands that have to do something in between hand out one action after the other and take back
what came of it.
