# budgy

The bookkeeping core of Budgy, a desktop tool that summarises a bank
statement against a monthly budget, verified with Verus.

- `src/` — the library. Every function is verified except four small
  trusted wrappers, whose contracts Verus takes on trust: `config::color_from_hex`
  (egui's hex colour parser), `budgy::same_path` (std's path comparison), and
  `icon::read_ico_image_count` and `icon::decode_ico_image` (the `ico` crate's
  reader and decoder):
  - `summary.rs`: the period summary (group by parent category, sum the
    money columns, left-join the budget and the previous summary, compute
    the balance carried forward, sort by category) and its laws;
  - `text.rs`: the order on category names, sorted insertion;
  - `statement.rs`, `budget.rs`: preparing the statement and the budget;
  - `budgy.rs`: the application state and the decision each frame or user
    command takes;
  - `config.rs`: settings and the default category palette (colours parsed
    by egui); `icon.rs`: the window icon (decoded by the `ico` crate), with
    `bmp.rs` checking beforehand that a palette image's pixels stay inside
    its colour table;
  - `records.rs`, `tabs.rs`: the data the rest works on.
- `app/` — the eframe/egui window, CSV files through polars, file dialogs
  through rfd, and storage of the settings.
- `tests/` — tests of the library on concrete values.

Amounts of money are whole cents (`i64`); the application converts the
floating-point cells of its CSV files to and from cents.
