# ised

Interactive sed. A sed script is run once over a whole input; what it does is
shown block by block, a block being the input lines that one cycle of the
script read, and every change is accepted or rejected on its own.

- `src/` is the library, verified with Verus.
  - `command` finds and replaces bare one-letter commands in a script.
  - `instrument` turns a script into one that reports its own state, and reads
    the reports.
  - `script` reads a script with `sed_rs`, and runs its commands.
  - `runner` runs an instrumented script over all lines of an input.
  - `session`, `state` and `error` group the cycles of a run into blocks.
  - `review` decides which blocks are looked at, what a key does and what text
    comes out.
  - `display` says what is shown: the rows of the list of blocks, and the word
    diff of a block.
  - `text` holds lines and decimal numbers.
  - `laws` states and proves what holds across these functions.
- `app/` is the program around it: arguments, files, terminal.
- `tests/` runs the library together with the crates it calls.

## Usage

```
ised '<sed-script>' [file] [-o|--output <file>]
```

| Key       | Action                              |
|-----------|-------------------------------------|
| `y`       | accept this block's change          |
| `n`       | reject it (keep the input)          |
| `p` / `↑` | go back one block                   |
| `g`       | jump to the first block             |
| `q` / Esc | finish with the decisions so far    |

A block without a decision comes out as it went in, and a block that `d` or
`D` deleted gives no output. Where the script changes nothing, there is no
review, and the input comes out unchanged.

## Limits

- The script has to read the whole input: `q` and `Q` are not supported where
  they are reached. Their exit codes are not used.
- A plain `n` or `N` on the last line ends the script before its cycle is
  reported.
- A branch to the end of the script (`b` without a label) skips the report of
  its cycle, and so does `c`.
- `d`, `D` and the hold space commands are found by the characters around
  them. Unusual scripts can be misread, such as one with an address between
  other delimiters than slashes right before a `d`.
- Text that holds the control characters U+0001 or U+0002 can be mistaken for
  a report, or for a newline in one.
