# sgc_demos

The logic of the sgc demo programs, verified with Verus: the AdGuard Home
dashboard, the IR remote test screen and the input test harness.

- `src/` is the verified library, one module per concern:
  - `text`: building strings, decimal and hex formatting, `str::parse`-style
    integer parsing, whitespace trimming and splitting.
  - `agh`: the dashboard's data rules (the newest chart buckets, top-list rows,
    the request URL and `Authorization` header, what an HTTP reply means, and
    the outcome of one refresh); `config`, `view` and `dashboard`: the config
    rules, the page model of a snapshot, and the rule that a failed refresh
    keeps the snapshot on screen.
  - `selfcheck`: the offscreen check's measurements of a rendered panel (colour
    counts, row rhythm, card boxes, content box) and its verdict, and the
    `--size` list.
  - `keys` and `raw`: naming of seat keys and evdev codes, the rolling key log,
    and decoding of raw `input_event` records.
  - `uinput` and `steal`: the injector's command language and device
    capabilities, and the resource names and plan of the steal driver.
- `tests/` runs the library on concrete values.
- `app/` is the I/O around it: HTTP, files, threads, `/dev/uinput` and the
  @sgc socket. Floating-point figures (percentages, ages, the lease demo's
  animation) are computed there too.
