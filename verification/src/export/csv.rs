//! OVRLEY-compatible CSV.
//!
//! Header names are taken verbatim from OVRLEY's alias registry: `elapsed time`,
//! `lateral acceleration`, `longitudinal acceleration`, `vertical acceleration`,
//! `combined acceleration`, `latitude`, `longitude`, `altitude`, `speed`,
//! `heading`, `utc time`, `lean angle`. Parenthesised units are parsed by
//! OVRLEY; unknown columns (roll/pitch/yaw, ISO…) are ignored by it.

use super::{num, opt, ExportOptions};
use crate::dji;
use crate::process;
use crate::process::{Row, Telemetry};
use crate::text;
use crate::time;
use crate::time::calendar;
use crate::time::Timestamp;
use vstd::prelude::*;

verus! {

/// The decimal texts of a row's numbers. A text counts only where the row has
/// what it stands for.
#[derive(Debug)]
pub struct RowTexts {
    /// The time in microseconds.
    pub micros: i64,
    /// The time in seconds, with six decimals.
    pub t: String,
    /// With five decimals.
    pub lateral: String,
    pub longitudinal: String,
    pub vertical: String,
    pub combined: String,
    /// The raw axes, with five decimals.
    pub raw_x: String,
    pub raw_y: String,
    pub raw_z: String,
    /// With two decimals.
    pub roll: String,
    pub pitch: String,
    pub yaw: String,
    /// Without decimals.
    pub iso: String,
    /// The shutter time in seconds, with six decimals.
    pub shutter: String,
    /// With seven decimals.
    pub latitude: String,
    pub longitude: String,
    /// With two decimals.
    pub altitude: String,
    /// With three decimals.
    pub speed: String,
    /// With two decimals.
    pub heading: String,
    pub distance: String,
}

/// The characters of names.
pub open spec fn names(v: Seq<&'static str>) -> Seq<Seq<char>> {
    v.map_values(|x: &'static str| x@)
}

/// Some columns, where they are wanted.
pub open spec fn wanted(cond: bool, columns: Seq<Seq<char>>) -> Seq<Seq<char>> {
    if cond {
        columns
    } else {
        Seq::empty()
    }
}

/// Whether the telemetry has two positions or more.
pub open spec fn with_gps(t: Telemetry) -> bool {
    t.gps_rows >= 2
}

/// Whether the times of the positions are known in UTC.
pub open spec fn with_utc(t: Telemetry) -> bool {
    with_gps(t) && dji::utc_start(t.info@) is Some
}

/// The names of the columns.
pub open spec fn column_names(t: Telemetry, o: ExportOptions) -> Seq<Seq<char>> {
    seq![
        "Elapsed time (s)"@,
        "Lateral acceleration (g)"@,
        "Longitudinal acceleration (g)"@,
        "Vertical acceleration (g)"@,
        "Combined acceleration (g)"@,
    ] + wanted(o.include_raw_axes, seq!["Accel X (g)"@, "Accel Y (g)"@, "Accel Z (g)"@]) + wanted(
        o.include_orientation,
        seq!["Roll (deg)"@, "Pitch (deg)"@, "Yaw (deg)"@],
    ) + wanted(o.lean_angle_from_roll, seq!["Lean angle (deg)"@]) + wanted(
        o.include_exposure,
        seq!["ISO"@, "Shutter (s)"@, "Color temperature (K)"@],
    ) + wanted(
        with_gps(t),
        seq![
            "Latitude"@,
            "Longitude"@,
            "Altitude (m)"@,
            "Speed (m/s)"@,
            "Heading (deg)"@,
            "Distance (m)"@,
        ],
    ) + wanted(with_utc(t), seq!["UTC time"@])
}

/// A text, where there is something that it stands for.
pub open spec fn present(cond: bool, text: Seq<char>) -> Seq<char> {
    if cond {
        text
    } else {
        Seq::empty()
    }
}

/// The cells of the raw axes.
pub open spec fn raw_cells(r: Row, x: RowTexts) -> Seq<Seq<char>> {
    match r.raw {
        Some(v) => seq![
            super::num_text(v.x, x.raw_x@),
            super::num_text(v.y, x.raw_y@),
            super::num_text(v.z, x.raw_z@),
        ],
        None => seq![Seq::empty(), Seq::empty(), Seq::empty()],
    }
}

/// A moment as the cell of a time.
pub open spec fn time_cell(m: Option<time::Moment>) -> Seq<char> {
    match m {
        Some(m) => calendar::written(m, "%Y-%m-%dT%H:%M:%S%.3fZ"@),
        None => Seq::empty(),
    }
}

/// The cells of the orientation.
pub open spec fn orientation_cells(r: Row, x: RowTexts) -> Seq<Seq<char>> {
    seq![
        super::opt_text(r.roll, x.roll@),
        super::opt_text(r.pitch, x.pitch@),
        super::opt_text(r.yaw, x.yaw@),
    ]
}

/// The cells of the exposure.
pub open spec fn exposure_cells(r: Row, x: RowTexts) -> Seq<Seq<char>> {
    seq![
        present(r.iso is Some, x.iso@),
        present(r.shutter is Some, x.shutter@),
        match r.color_temperature {
            Some(v) => text::decimal(v as nat),
            None => Seq::empty(),
        },
    ]
}

/// The cells of the position.
pub open spec fn position_cells(r: Row, x: RowTexts) -> Seq<Seq<char>> {
    seq![
        super::opt_text(r.latitude, x.latitude@),
        super::opt_text(r.longitude, x.longitude@),
        super::opt_text(r.altitude_m, x.altitude@),
        super::opt_text(r.speed_ms, x.speed@),
        super::opt_text(r.heading_deg, x.heading@),
        super::opt_text(r.distance_m, x.distance@),
    ]
}

/// The cells of the time and the acceleration.
pub open spec fn motion_cells(r: Row, x: RowTexts) -> Seq<Seq<char>> {
    seq![
        super::num_text(r.t, x.t@),
        super::opt_text(r.lateral, x.lateral@),
        super::opt_text(r.longitudinal, x.longitudinal@),
        super::opt_text(r.vertical, x.vertical@),
        super::opt_text(r.combined, x.combined@),
    ]
}

/// The cells of a row.
pub open spec fn cells(t: Telemetry, o: ExportOptions, r: Row, x: RowTexts) -> Seq<Seq<char>> {
    motion_cells(r, x) + wanted(o.include_raw_axes, raw_cells(r, x)) + wanted(
        o.include_orientation,
        orientation_cells(r, x),
    ) + wanted(o.lean_angle_from_roll, seq![super::opt_text(r.roll, x.roll@)]) + wanted(
        o.include_exposure,
        exposure_cells(r, x),
    ) + wanted(with_gps(t), position_cells(r, x)) + wanted(
        with_utc(t),
        seq![time_cell(process::after(dji::utc_start(t.info@), x.micros as int))],
    )
}

/// Each row has a cell for each column.
pub proof fn cells_fill_the_columns(t: Telemetry, o: ExportOptions, r: Row, x: RowTexts)
    ensures
        cells(t, o, r, x).len() == column_names(t, o).len(),
{
}

/// A line of cells.
pub open spec fn line(cells: Seq<Seq<char>>) -> Seq<char> {
    text::joined(cells, ","@) + "\n"@
}

/// The first `n` rows.
pub open spec fn lines(t: Telemetry, o: ExportOptions, texts: Seq<RowTexts>, n: nat) -> Seq<char>
    decreases n,
{
    if n == 0 {
        Seq::empty()
    } else {
        lines(t, o, texts, (n - 1) as nat) + line(cells(t, o, t.rows@[n - 1], texts[n - 1]))
    }
}

/// The file.
pub open spec fn content(t: Telemetry, o: ExportOptions, texts: Seq<RowTexts>) -> Seq<char> {
    line(column_names(t, o)) + lines(t, o, texts, t.rows@.len())
}

/// The names of the columns.
pub fn header(telemetry: &Telemetry, options: &ExportOptions) -> (h: Vec<&'static str>)
    ensures
        names(h@) == column_names(*telemetry, *options),
{
    let mut h: Vec<&'static str> = Vec::new();
    h.push("Elapsed time (s)");
    h.push("Lateral acceleration (g)");
    h.push("Longitudinal acceleration (g)");
    h.push("Vertical acceleration (g)");
    h.push("Combined acceleration (g)");
    if options.include_raw_axes {
        h.push("Accel X (g)");
        h.push("Accel Y (g)");
        h.push("Accel Z (g)");
    }
    if options.include_orientation {
        h.push("Roll (deg)");
        h.push("Pitch (deg)");
        h.push("Yaw (deg)");
    }
    if options.lean_angle_from_roll {
        h.push("Lean angle (deg)");
    }
    if options.include_exposure {
        h.push("ISO");
        h.push("Shutter (s)");
        h.push("Color temperature (K)");
    }
    if telemetry.has_gps() {
        h.push("Latitude");
        h.push("Longitude");
        h.push("Altitude (m)");
        h.push("Speed (m/s)");
        h.push("Heading (deg)");
        h.push("Distance (m)");
        if telemetry.info.start_utc().is_some() {
            h.push("UTC time");
        }
    }
    assert(names(h@) =~= column_names(*telemetry, *options));
    h
}

fn owned(h: &[&'static str]) -> (r: Vec<String>)
    ensures
        text::texts(r@) == names(h@),
{
    let mut out: Vec<String> = Vec::new();
    let mut i: usize = 0;
    while i < h.len()
        invariant
            i <= h@.len(),
            text::texts(out@) == names(h@).take(i as int),
        decreases h@.len() - i,
    {
        let ghost before = text::texts(out@);
        let name: &'static str = h[i];
        out.push(String::from_str(name));
        i = i + 1;
        assert(text::texts(out@) =~= before.push(name@));
        assert(text::texts(out@) =~= names(h@).take(i as int));
    }
    assert(names(h@).take(i as int) =~= names(h@));
    out
}

fn when(cond: bool, text: &str) -> (r: String)
    ensures
        r@ == present(cond, text@),
{
    if cond {
        String::from_str(text)
    } else {
        String::new()
    }
}

fn push_raw(cols: &mut Vec<String>, r: &Row, x: &RowTexts)
    ensures
        text::texts(final(cols)@) == text::texts(old(cols)@) + raw_cells(*r, *x),
{
    match r.raw {
        Some(v) => {
            cols.push(num(v.x, x.raw_x.as_str()));
            cols.push(num(v.y, x.raw_y.as_str()));
            cols.push(num(v.z, x.raw_z.as_str()));
        },
        None => {
            cols.push(String::new());
            cols.push(String::new());
            cols.push(String::new());
        },
    }
    assert(text::texts(cols@) =~= text::texts(old(cols)@) + raw_cells(*r, *x));
}

fn utc_text(telemetry: &Telemetry, micros: i64) -> (r: String)
    ensures
        r@ == time_cell(process::after(dji::utc_start(telemetry.info@), micros as int)),
{
    let when: Option<Timestamp> = telemetry.utc_time(micros);
    match when {
        Some(dt) => dt.format("%Y-%m-%dT%H:%M:%S%.3fZ"),
        None => String::new(),
    }
}

fn push_motion(cols: &mut Vec<String>, r: &Row, x: &RowTexts)
    ensures
        text::texts(final(cols)@) == text::texts(old(cols)@) + motion_cells(*r, *x),
{
    cols.push(num(r.t, x.t.as_str()));
    cols.push(opt(r.lateral, x.lateral.as_str()));
    cols.push(opt(r.longitudinal, x.longitudinal.as_str()));
    cols.push(opt(r.vertical, x.vertical.as_str()));
    cols.push(opt(r.combined, x.combined.as_str()));
    assert(text::texts(cols@) =~= text::texts(old(cols)@) + motion_cells(*r, *x));
}

fn push_orientation(cols: &mut Vec<String>, r: &Row, x: &RowTexts)
    ensures
        text::texts(final(cols)@) == text::texts(old(cols)@) + orientation_cells(*r, *x),
{
    cols.push(opt(r.roll, x.roll.as_str()));
    cols.push(opt(r.pitch, x.pitch.as_str()));
    cols.push(opt(r.yaw, x.yaw.as_str()));
    assert(text::texts(cols@) =~= text::texts(old(cols)@) + orientation_cells(*r, *x));
}

fn push_exposure(cols: &mut Vec<String>, r: &Row, x: &RowTexts)
    ensures
        text::texts(final(cols)@) == text::texts(old(cols)@) + exposure_cells(*r, *x),
{
    cols.push(when(r.iso.is_some(), x.iso.as_str()));
    cols.push(when(r.shutter.is_some(), x.shutter.as_str()));
    cols.push(
        match r.color_temperature {
            Some(v) => text::decimal_text(v as u64),
            None => String::new(),
        },
    );
    assert(text::texts(cols@) =~= text::texts(old(cols)@) + exposure_cells(*r, *x));
}

fn push_position(cols: &mut Vec<String>, r: &Row, x: &RowTexts)
    ensures
        text::texts(final(cols)@) == text::texts(old(cols)@) + position_cells(*r, *x),
{
    cols.push(opt(r.latitude, x.latitude.as_str()));
    cols.push(opt(r.longitude, x.longitude.as_str()));
    cols.push(opt(r.altitude_m, x.altitude.as_str()));
    cols.push(opt(r.speed_ms, x.speed.as_str()));
    cols.push(opt(r.heading_deg, x.heading.as_str()));
    cols.push(opt(r.distance_m, x.distance.as_str()));
    assert(text::texts(cols@) =~= text::texts(old(cols)@) + position_cells(*r, *x));
}

fn push_cell(cols: &mut Vec<String>, cell: String)
    ensures
        text::texts(final(cols)@) == text::texts(old(cols)@) + seq![cell@],
{
    cols.push(cell);
    assert(text::texts(cols@) =~= text::texts(old(cols)@) + seq![cell@]);
}

proof fn lemma_no_cells(s: Seq<Seq<char>>)
    ensures
        s + Seq::<Seq<char>>::empty() == s,
        Seq::<Seq<char>>::empty() + s == s,
{
    assert(s + Seq::<Seq<char>>::empty() =~= s);
    assert(Seq::<Seq<char>>::empty() + s =~= s);
}

fn row_cells(telemetry: &Telemetry, options: &ExportOptions, r: &Row, x: &RowTexts) -> (cols: Vec<
    String,
>)
    ensures
        text::texts(cols@) == cells(*telemetry, *options, *r, *x),
{
    let mut cols: Vec<String> = Vec::new();
    proof {
        assert(text::texts(cols@) =~= Seq::empty());
        lemma_no_cells(motion_cells(*r, *x));
    }
    push_motion(&mut cols, r, x);
    proof {
        lemma_no_cells(text::texts(cols@));
    }
    if options.include_raw_axes {
        push_raw(&mut cols, r, x);
    }
    proof {
        lemma_no_cells(text::texts(cols@));
    }
    if options.include_orientation {
        push_orientation(&mut cols, r, x);
    }
    proof {
        lemma_no_cells(text::texts(cols@));
    }
    if options.lean_angle_from_roll {
        push_cell(&mut cols, opt(r.roll, x.roll.as_str()));
    }
    proof {
        lemma_no_cells(text::texts(cols@));
    }
    if options.include_exposure {
        push_exposure(&mut cols, r, x);
    }
    proof {
        lemma_no_cells(text::texts(cols@));
    }
    if telemetry.has_gps() {
        push_position(&mut cols, r, x);
    }
    proof {
        lemma_no_cells(text::texts(cols@));
    }
    if telemetry.has_gps() && telemetry.info.start_utc().is_some() {
        push_cell(&mut cols, utc_text(telemetry, x.micros));
    }
    cols
}

fn line_of(cols: &[String]) -> (r: String)
    ensures
        r@ == line(text::texts(cols@)),
{
    let mut out: String = text::join(cols, ",");
    out.append("\n");
    out
}

/// Writes a line of names, and a line of cells for each row. `texts` holds the
/// texts of each row.
pub fn render(telemetry: &Telemetry, options: &ExportOptions, texts: &[RowTexts]) -> (r: String)
    requires
        telemetry.rows@.len() == texts@.len(),
    ensures
        r@ == content(*telemetry, *options, texts@),
{
    let names: Vec<&'static str> = header(telemetry, options);
    let mut out: String = line_of(owned(names.as_slice()).as_slice());
    let ghost head = out@;
    let mut i: usize = 0;
    assert(out@ =~= head + lines(*telemetry, *options, texts@, 0));
    while i < telemetry.rows.len()
        invariant
            i <= telemetry.rows@.len(),
            telemetry.rows@.len() == texts@.len(),
            out@ == head + lines(*telemetry, *options, texts@, i as nat),
        decreases telemetry.rows@.len() - i,
    {
        let cols: Vec<String> = row_cells(telemetry, options, &telemetry.rows[i], &texts[i]);
        out.append(line_of(cols.as_slice()).as_str());
        i = i + 1;
        assert(out@ =~= head + lines(*telemetry, *options, texts@, i as nat));
    }
    out
}

/// Whether no cell holds a comma or the end of a line.
pub open spec fn clean(cells: Seq<Seq<char>>) -> bool {
    forall|i: int|
        0 <= i < cells.len() ==> text::free_of(#[trigger] cells[i], ',') && text::free_of(
            cells[i],
            '\n',
        )
}

/// The names of the columns, and the cells of each row.
pub open spec fn table(t: Telemetry, o: ExportOptions, texts: Seq<RowTexts>) -> Seq<
    Seq<Seq<char>>,
> {
    Seq::new(
        t.rows@.len() + 1,
        |i: int|
            if i == 0 {
                column_names(t, o)
            } else {
                cells(t, o, t.rows@[i - 1], texts[i - 1])
            },
    )
}

proof fn lemma_names_are_clean(t: Telemetry, o: ExportOptions)
    ensures
        clean(column_names(t, o)),
{
    reveal_strlit("Elapsed time (s)");
    reveal_strlit("Lateral acceleration (g)");
    reveal_strlit("Longitudinal acceleration (g)");
    reveal_strlit("Vertical acceleration (g)");
    reveal_strlit("Combined acceleration (g)");
    reveal_strlit("Accel X (g)");
    reveal_strlit("Accel Y (g)");
    reveal_strlit("Accel Z (g)");
    reveal_strlit("Roll (deg)");
    reveal_strlit("Pitch (deg)");
    reveal_strlit("Yaw (deg)");
    reveal_strlit("Lean angle (deg)");
    reveal_strlit("ISO");
    reveal_strlit("Shutter (s)");
    reveal_strlit("Color temperature (K)");
    reveal_strlit("Latitude");
    reveal_strlit("Longitude");
    reveal_strlit("Altitude (m)");
    reveal_strlit("Speed (m/s)");
    reveal_strlit("Heading (deg)");
    reveal_strlit("Distance (m)");
    reveal_strlit("UTC time");
    assert(text::free_of("Elapsed time (s)"@, ','));
    assert(clean(column_names(t, o)));
}

proof fn lemma_joined_is_one_line(cells: Seq<Seq<char>>)
    requires
        clean(cells),
    ensures
        text::free_of(text::joined(cells, seq![',']), '\n'),
    decreases cells.len(),
{
    if cells.len() > 1 {
        let front = cells.drop_last();
        assert(clean(front)) by {
            assert forall|i: int| 0 <= i < front.len() implies text::free_of(
                #[trigger] front[i],
                ',',
            ) && text::free_of(front[i], '\n') by {
                assert(front[i] == cells[i]);
            }
        }
        lemma_joined_is_one_line(front);
        assert(text::free_of(cells[cells.len() - 1], '\n'));
    } else if cells.len() == 1 {
        assert(text::free_of(cells[0], '\n'));
    }
}

/// The lines of a table.
spec fn joined_lines(rows: Seq<Seq<Seq<char>>>) -> Seq<Seq<char>> {
    rows.map_values(|c: Seq<Seq<char>>| text::joined(c, seq![',']))
}

proof fn lemma_content_is_lines(t: Telemetry, o: ExportOptions, texts: Seq<RowTexts>, n: nat)
    requires
        n <= t.rows@.len(),
    ensures
        line(column_names(t, o)) + lines(t, o, texts, n) == text::ended(
            joined_lines(table(t, o, texts).take(n + 1int)),
            '\n',
        ),
    decreases n,
{
    reveal_strlit(",");
    reveal_strlit("\n");
    assert(","@ =~= seq![',']);
    assert("\n"@ =~= seq!['\n']);
    let all = table(t, o, texts);
    let now = joined_lines(all.take(n + 1int));
    assert(now.drop_last() =~= joined_lines(all.take(n as int)));
    assert(now.last() == text::joined(all[n as int], seq![',']));
    if n == 0 {
        assert(now.drop_last() =~= Seq::empty());
        assert(text::ended(now.drop_last(), '\n') == Seq::<char>::empty());
        assert(all[0] == column_names(t, o));
        assert(line(column_names(t, o)) + lines(t, o, texts, n) =~= text::ended(now, '\n'));
    } else {
        lemma_content_is_lines(t, o, texts, (n - 1) as nat);
        assert(line(column_names(t, o)) + lines(t, o, texts, n) =~= text::ended(now, '\n'));
    }
}

proof fn lemma_table_reads_back(all: Seq<Seq<Seq<char>>>)
    requires
        forall|i: int| 0 <= i < all.len() ==> clean(#[trigger] all[i]) && all[i].len() > 0,
    ensures
        ({
            let found = text::parts(text::ended(joined_lines(all), '\n'), '\n');
            &&& found.len() == all.len() + 1
            &&& found.last() == Seq::<char>::empty()
            &&& forall|i: int|
                0 <= i < all.len() ==> text::parts(#[trigger] found[i], ',') == all[i]
        }),
{
    let rows = joined_lines(all);
    assert forall|i: int| 0 <= i < all.len() implies text::free_of(#[trigger] rows[i], '\n')
        && text::parts(rows[i], ',') == all[i] by {
        lemma_joined_is_one_line(all[i]);
        text::split_undoes_join(all[i], ',');
    }
    text::lines_read_back(rows, '\n');
    let found = text::parts(text::ended(rows, '\n'), '\n');
    assert(found == rows.push(Seq::empty()));
    assert forall|i: int| 0 <= i < all.len() implies text::parts(#[trigger] found[i], ',')
        == all[i] by {
        assert(found[i] == rows[i]);
    }
}

/// The cells of a row that the caller's texts make up: all but the colour
/// temperature and the time.
pub open spec fn given_cells(t: Telemetry, o: ExportOptions, r: Row, x: RowTexts) -> Seq<
    Seq<char>,
> {
    motion_cells(r, x) + wanted(o.include_raw_axes, raw_cells(r, x)) + wanted(
        o.include_orientation,
        orientation_cells(r, x),
    ) + wanted(o.lean_angle_from_roll, seq![super::opt_text(r.roll, x.roll@)]) + wanted(
        o.include_exposure,
        seq![present(r.iso is Some, x.iso@), present(r.shutter is Some, x.shutter@)],
    ) + wanted(with_gps(t), position_cells(r, x))
}

proof fn lemma_clean_join(a: Seq<Seq<char>>, b: Seq<Seq<char>>)
    ensures
        clean(a + b) <==> clean(a) && clean(b),
{
    let all = a + b;
    if clean(all) {
        assert forall|i: int| 0 <= i < a.len() implies text::free_of(#[trigger] a[i], ',')
            && text::free_of(a[i], '\n') by {
            assert(all[i] == a[i]);
        }
        assert forall|i: int| 0 <= i < b.len() implies text::free_of(#[trigger] b[i], ',')
            && text::free_of(b[i], '\n') by {
            assert(all[a.len() + i] == b[i]);
        }
    }
    if clean(a) && clean(b) {
        assert forall|i: int| 0 <= i < all.len() implies text::free_of(#[trigger] all[i], ',')
            && text::free_of(all[i], '\n') by {
            if i < a.len() {
                assert(all[i] == a[i]);
            } else {
                assert(all[i] == b[i - a.len()]);
            }
        }
    }
}

proof fn lemma_clean_time(m: Option<time::Moment>)
    ensures
        clean(seq![time_cell(m)]),
{
    if let Some(m) = m {
        calendar::written_moments_are_plain(m, "%Y-%m-%dT%H:%M:%S%.3fZ"@);
    }
}

proof fn lemma_clean_exposure(r: Row, x: RowTexts)
    requires
        clean(seq![present(r.iso is Some, x.iso@), present(r.shutter is Some, x.shutter@)]),
    ensures
        clean(exposure_cells(r, x)),
{
    let given = seq![present(r.iso is Some, x.iso@), present(r.shutter is Some, x.shutter@)];
    let own = seq![
        match r.color_temperature {
            Some(v) => text::decimal(v as nat),
            None => Seq::<char>::empty(),
        },
    ];
    if let Some(v) = r.color_temperature {
        text::decimals_are_digits(v as nat, 0);
    }
    assert(exposure_cells(r, x) =~= given + own);
    lemma_clean_join(given, own);
}

/// The library's own cells are clean, so a row is where the caller's texts are.
proof fn lemma_clean_cells(t: Telemetry, o: ExportOptions, r: Row, x: RowTexts)
    requires
        clean(given_cells(t, o, r, x)),
    ensures
        clean(cells(t, o, r, x)),
{
    let a = motion_cells(r, x);
    let b = wanted(o.include_raw_axes, raw_cells(r, x));
    let c = wanted(o.include_orientation, orientation_cells(r, x));
    let d = wanted(o.lean_angle_from_roll, seq![super::opt_text(r.roll, x.roll@)]);
    let given = seq![present(r.iso is Some, x.iso@), present(r.shutter is Some, x.shutter@)];
    let e = wanted(o.include_exposure, given);
    let whole = wanted(o.include_exposure, exposure_cells(r, x));
    let f = wanted(with_gps(t), position_cells(r, x));
    let when = process::after(dji::utc_start(t.info@), x.micros as int);
    let g = wanted(with_utc(t), seq![time_cell(when)]);
    lemma_clean_join(a + b + c + d + e, f);
    lemma_clean_join(a + b + c + d, e);
    if o.include_exposure {
        lemma_clean_exposure(r, x);
    }
    lemma_clean_time(when);
    lemma_clean_join(a + b + c + d, whole);
    lemma_clean_join(a + b + c + d + whole, f);
    lemma_clean_join(a + b + c + d + whole + f, g);
}

proof fn lemma_some_cells(t: Telemetry, o: ExportOptions, r: Row, x: RowTexts)
    ensures
        cells(t, o, r, x).len() > 0,
{
}

proof fn lemma_some_names(t: Telemetry, o: ExportOptions)
    ensures
        column_names(t, o).len() > 0,
{
}

proof fn lemma_table_is_clean(t: Telemetry, o: ExportOptions, texts: Seq<RowTexts>, i: int)
    requires
        0 <= i < table(t, o, texts).len(),
        i > 0 ==> clean(cells(t, o, t.rows@[i - 1], texts[i - 1])),
    ensures
        clean(table(t, o, texts)[i]),
        table(t, o, texts)[i].len() > 0,
{
    if i == 0 {
        lemma_names_are_clean(t, o);
        lemma_some_names(t, o);
    } else {
        lemma_some_cells(t, o, t.rows@[i - 1], texts[i - 1]);
    }
}

/// A file divides into a line of names and a line for each row, and each line
/// into its cells, as long as none of the caller's texts holds a comma or the end
/// of a line.
#[verifier::spinoff_prover]
pub proof fn file_reads_back(t: Telemetry, o: ExportOptions, texts: Seq<RowTexts>)
    requires
        forall|i: int|
            0 <= i < t.rows@.len() ==> clean(#[trigger] given_cells(t, o, t.rows@[i], texts[i])),
    ensures
        ({
            let found = text::parts(content(t, o, texts), '\n');
            &&& found.len() == t.rows@.len() + 2
            &&& found.last() == Seq::<char>::empty()
            &&& text::parts(found[0], ',') == column_names(t, o)
            &&& forall|i: int|
                0 <= i < t.rows@.len() ==> text::parts(#[trigger] found[i + 1], ',') == cells(
                    t,
                    o,
                    t.rows@[i],
                    texts[i],
                )
        }),
{
    let all = table(t, o, texts);
    lemma_content_is_lines(t, o, texts, t.rows@.len());
    assert(all.take(t.rows@.len() + 1int) =~= all);
    assert forall|i: int| 0 <= i < all.len() implies clean(#[trigger] all[i]) && all[i].len()
        > 0 by {
        if i > 0 {
            assert(clean(given_cells(t, o, t.rows@[i - 1], texts[i - 1])));
            lemma_clean_cells(t, o, t.rows@[i - 1], texts[i - 1]);
        }
        lemma_table_is_clean(t, o, texts, i);
    }
    lemma_table_reads_back(all);
    let found = text::parts(content(t, o, texts), '\n');
    assert(text::parts(found[0], ',') == all[0]);
    assert forall|i: int| 0 <= i < t.rows@.len() implies text::parts(#[trigger] found[i + 1], ',')
        == cells(t, o, t.rows@[i], texts[i]) by {
        assert(all[i + 1] == cells(t, o, t.rows@[i], texts[i]));
    }
}

} // verus!
