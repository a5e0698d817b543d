# Anti-Collision Bandwidth Saturator

Some connections degrade while they are idle. This tool keeps such a connection awake, and
only when necessary:

1. **Check.** It downloads for five seconds and measures the speed.
2. **Decide.** From 20 Mbit/s on the connection is healthy, and the tool sleeps for an hour.
   Below that it saturates the connection.
3. **Saturate.** Four parallel downloads, in rotation over all sources that answer, until the
   speed has stayed above 20 Mbit/s, in every report, for at least fifteen seconds on end.
   Then it sleeps for an hour.

## Layout

- `src/` is the library, verified with [Verus](https://github.com/verus-lang/verus): every
  decision above, which source is used, what each download asks for, and the lines that are
  reported. Each function states in its contract what it returns; the `lemma_*` functions
  state what holds of the library as a whole.
- `app/` is the program: the command line (`main.rs`), the window (`gui.rs`) and the network
  work (`net.rs`). It does what the library says and hands back what came of it.
- `tests/` runs the library on concrete values.

Speeds are IEEE 754 doubles. The library holds them by their bit patterns and compares them
exactly; the arithmetic on them is in `app/convert.rs`. Lengths of time are whole
nanoseconds.

To show the window, give the `dioxus` dependency a renderer, such as its `desktop` feature.

## Usage

```text
anti_collision [URL]
```

With a URL that source is preferred; without one the best built-in source is used.
