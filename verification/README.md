# dji-telemetry-export

Pulls the telemetry that DJI Osmo Action cameras embed in their MP4 files and writes it as
CSV, SRT, VBO, GPX, FIT or IGC. The library is written in Verus: what each function returns is
stated in its contract and proved.

## Layout

* `src/bytes.rs`, `src/text.rs`, `src/ieee.rs`, `src/time.rs` — integers in bytes, texts, floating-point
  numbers by their bit patterns, moments (on top of `chrono`).
* `src/time/calendar.rs` — the Gregorian calendar, and how moments are written and read.
* `src/mp4.rs`, `src/mp4/` — boxes, sample tables, a small writer, and the proof that what was
  written reads back.
* `src/protobuf.rs`, `src/protobuf/` — wire format, reading and writing.
* `src/dji.rs`, `src/dji/` — clip facts and samples of the `djmd` track; synthetic frames and the
  proof that they read back.
* `src/process.rs` — units, axes, rows, forward time, merging of rows.
* `src/export.rs`, `src/export/` — one module per format, and the rules on when a format makes sense.
* `src/cli.rs`, `src/cli/` — options of the command line and the summary of a clip.
* `src/gui.rs` — state of the window.
* `app/` — the program: files, arguments, window, and all floating-point arithmetic.

Floating-point numbers pass through the library as bit patterns. It compares, sorts, selects and
negates them; what is computed with them, and their decimal texts, come from the caller.

## What is proved

Besides the contracts, public proof functions state what holds across functions, among them:

* `mp4::round_trip::built_file_reads_back`, `mp4::damaged_tail_does_no_harm`, `mp4::paths_join`,
  `mp4::table::decode_times_go_forward`
* `protobuf::encode::varint_round_trip`, `message_lookup`, `protobuf::messages_join`
* `dji::round_trip::frame_reads_back`, `clip_reads_back`, `clip_header_reads_back`
* `time::calendar::dates_are_unique`, `every_day_has_a_date`, `written_moments_read_back`
* `process::kept_rows_go_forward`, `bins_hold_one_number`, `decimation_keeps_time`,
  `merging_again_changes_nothing`, `levelling_changes_only_motion`, `spelling_of_axes_is_free`
* `cli::skipping_is_told`
* `export::csv::file_reads_back`, `export::fit::files_check_themselves`,
  `export::igc::records_are_fixed_width`, `export::igc::records_go_forward`

Calls into `chrono` and a few functions of the standard library are trusted; each stands behind a
function in `src/time.rs` or `src/text.rs` whose comment says what is taken for granted.
