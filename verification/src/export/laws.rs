//! What the rows of tables and the rules of formats say.

use crate::dji;
use crate::export;
use crate::export::csv;
use crate::export::vbo;
use crate::export::{ExportOptions, Format};
use crate::ieee;
use crate::ieee::Binary64;
use crate::process;
use crate::process::{ExportRate, Row, Telemetry};
use crate::text;
use crate::time::calendar;
use vstd::prelude::*;

pub mod flight;
pub mod lines;
pub mod track;

verus! {

/// What a number that may be missing is written as: its text, or nothing where there
/// is none or it is not finite.
pub proof fn missing_numbers_are_empty(v: Binary64, s: Seq<char>)
    ensures
        v.finite() ==> export::num_text(v, s) == s && export::opt_text(Some(v), s) == s,
        !v.finite() ==> export::num_text(v, s).len() == 0 && export::opt_text(Some(v), s).len()
            == 0,
        export::opt_text(None, s).len() == 0,
{
}

/// Whether a table has a cell under a name.
pub open spec fn has(names: Seq<Seq<char>>, cells: Seq<Seq<char>>, name: Seq<char>, cell: Seq<char>) -> bool {
    exists|i: int| 0 <= i < names.len() && #[trigger] names[i] == name && cells[i] == cell
}

proof fn lemma_has(names: Seq<Seq<char>>, cells: Seq<Seq<char>>, i: int)
    requires
        0 <= i < names.len(),
    ensures
        has(names, cells, names[i], cells[i]),
{
}

proof fn lemma_has_middle(
    pn: Seq<Seq<char>>,
    pc: Seq<Seq<char>>,
    gn: Seq<Seq<char>>,
    gc: Seq<Seq<char>>,
    un: Seq<Seq<char>>,
    uc: Seq<Seq<char>>,
    i: int,
)
    requires
        pn.len() == pc.len(),
        gn.len() == gc.len(),
        0 <= i < gn.len(),
    ensures
        has(pn + gn + un, pc + gc + uc, gn[i], gc[i]),
{
    lemma_has(pn + gn + un, pc + gc + uc, pn.len() + i);
}

/// The time and the accelerations of a row stand under their names.
pub proof fn motion_has_its_columns(t: Telemetry, o: ExportOptions, r: Row, x: csv::RowTexts)
    ensures
        ({
            let n = csv::column_names(t, o);
            let c = csv::cells(t, o, r, x);
            &&& has(n, c, "Elapsed time (s)"@, export::num_text(r.t, x.t@))
            &&& has(n, c, "Lateral acceleration (g)"@, export::opt_text(r.lateral, x.lateral@))
            &&& has(
                n,
                c,
                "Longitudinal acceleration (g)"@,
                export::opt_text(r.longitudinal, x.longitudinal@),
            )
            &&& has(n, c, "Vertical acceleration (g)"@, export::opt_text(r.vertical, x.vertical@))
            &&& has(n, c, "Combined acceleration (g)"@, export::opt_text(r.combined, x.combined@))
        }),
{
    let n = csv::column_names(t, o);
    let c = csv::cells(t, o, r, x);
    lemma_has(n, c, 0);
    lemma_has(n, c, 1);
    lemma_has(n, c, 2);
    lemma_has(n, c, 3);
    lemma_has(n, c, 4);
}

/// The raw axes and the orientation of a row stand under their names where they are
/// asked for, and the roll as the lean angle too.
pub proof fn attitude_has_its_columns(t: Telemetry, o: ExportOptions, r: Row, x: csv::RowTexts)
    ensures
        ({
            let n = csv::column_names(t, o);
            let c = csv::cells(t, o, r, x);
            &&& o.include_raw_axes ==> match r.raw {
                Some(v) => {
                    &&& has(n, c, "Accel X (g)"@, export::num_text(v.x, x.raw_x@))
                    &&& has(n, c, "Accel Y (g)"@, export::num_text(v.y, x.raw_y@))
                    &&& has(n, c, "Accel Z (g)"@, export::num_text(v.z, x.raw_z@))
                },
                None => {
                    &&& has(n, c, "Accel X (g)"@, Seq::empty())
                    &&& has(n, c, "Accel Y (g)"@, Seq::empty())
                    &&& has(n, c, "Accel Z (g)"@, Seq::empty())
                },
            }
            &&& o.include_orientation ==> {
                &&& has(n, c, "Roll (deg)"@, export::opt_text(r.roll, x.roll@))
                &&& has(n, c, "Pitch (deg)"@, export::opt_text(r.pitch, x.pitch@))
                &&& has(n, c, "Yaw (deg)"@, export::opt_text(r.yaw, x.yaw@))
            }
            &&& o.lean_angle_from_roll ==> has(
                n,
                c,
                "Lean angle (deg)"@,
                export::opt_text(r.roll, x.roll@),
            )
        }),
{
    let n = csv::column_names(t, o);
    let c = csv::cells(t, o, r, x);
    let a: int = if o.include_raw_axes {
        3
    } else {
        0
    };
    let b: int = if o.include_orientation {
        3
    } else {
        0
    };
    if o.include_raw_axes {
        lemma_has(n, c, 5);
        lemma_has(n, c, 6);
        lemma_has(n, c, 7);
    }
    if o.include_orientation {
        lemma_has(n, c, 5 + a);
        lemma_has(n, c, 6 + a);
        lemma_has(n, c, 7 + a);
    }
    if o.lean_angle_from_roll {
        lemma_has(n, c, 5 + a + b);
    }
}

/// The number of columns before those of the exposure.
spec fn leading(o: ExportOptions) -> int {
    5 + (if o.include_raw_axes {
        3int
    } else {
        0
    }) + (if o.include_orientation {
        3int
    } else {
        0
    }) + (if o.lean_angle_from_roll {
        1int
    } else {
        0
    })
}

/// The exposure of a row stands under its names where it is asked for.
pub proof fn exposure_has_its_columns(t: Telemetry, o: ExportOptions, r: Row, x: csv::RowTexts)
    requires
        o.include_exposure,
    ensures
        ({
            let n = csv::column_names(t, o);
            let c = csv::cells(t, o, r, x);
            let none = Seq::<char>::empty();
            &&& has(n, c, "ISO"@, if r.iso is Some { x.iso@ } else { none })
            &&& has(n, c, "Shutter (s)"@, if r.shutter is Some { x.shutter@ } else { none })
            &&& match r.color_temperature {
                Some(v) => has(n, c, "Color temperature (K)"@, text::decimal(v as nat)),
                None => has(n, c, "Color temperature (K)"@, none),
            }
        }),
{
    let n = csv::column_names(t, o);
    let c = csv::cells(t, o, r, x);
    let a = leading(o);
    lemma_has(n, c, a);
    lemma_has(n, c, a + 1);
    lemma_has(n, c, a + 2);
}

/// The position of a row stands under its names where the clip has two or more, and
/// the time in UTC where it is known.
pub proof fn positions_have_their_columns(t: Telemetry, o: ExportOptions, r: Row, x: csv::RowTexts)
    requires
        t.gps_rows >= 2,
    ensures
        ({
            let n = csv::column_names(t, o);
            let c = csv::cells(t, o, r, x);
            &&& has(n, c, "Latitude"@, export::opt_text(r.latitude, x.latitude@))
            &&& has(n, c, "Longitude"@, export::opt_text(r.longitude, x.longitude@))
            &&& has(n, c, "Altitude (m)"@, export::opt_text(r.altitude_m, x.altitude@))
            &&& has(n, c, "Speed (m/s)"@, export::opt_text(r.speed_ms, x.speed@))
            &&& has(n, c, "Heading (deg)"@, export::opt_text(r.heading_deg, x.heading@))
            &&& has(n, c, "Distance (m)"@, export::opt_text(r.distance_m, x.distance@))
            &&& dji::utc_start(t.info@) is Some ==> match process::after(
                dji::utc_start(t.info@),
                x.micros as int,
            ) {
                Some(m) => has(
                    n,
                    c,
                    "UTC time"@,
                    calendar::written(m, "%Y-%m-%dT%H:%M:%S%.3fZ"@),
                ),
                None => has(n, c, "UTC time"@, Seq::empty()),
            }
        }),
{
    let none = Seq::<Seq<char>>::empty();
    let pn = seq![
        "Elapsed time (s)"@,
        "Lateral acceleration (g)"@,
        "Longitudinal acceleration (g)"@,
        "Vertical acceleration (g)"@,
        "Combined acceleration (g)"@,
    ] + csv::wanted(
        o.include_raw_axes,
        seq!["Accel X (g)"@, "Accel Y (g)"@, "Accel Z (g)"@],
    ) + csv::wanted(o.include_orientation, seq!["Roll (deg)"@, "Pitch (deg)"@, "Yaw (deg)"@])
        + csv::wanted(o.lean_angle_from_roll, seq!["Lean angle (deg)"@]) + csv::wanted(
        o.include_exposure,
        seq!["ISO"@, "Shutter (s)"@, "Color temperature (K)"@],
    );
    let pc = csv::motion_cells(r, x) + csv::wanted(o.include_raw_axes, csv::raw_cells(r, x))
        + csv::wanted(o.include_orientation, csv::orientation_cells(r, x)) + csv::wanted(
        o.lean_angle_from_roll,
        seq![export::opt_text(r.roll, x.roll@)],
    ) + csv::wanted(o.include_exposure, csv::exposure_cells(r, x));
    assert(pn.len() == pc.len());
    let gn = seq![
        "Latitude"@,
        "Longitude"@,
        "Altitude (m)"@,
        "Speed (m/s)"@,
        "Heading (deg)"@,
        "Distance (m)"@,
    ];
    let gc = csv::position_cells(r, x);
    let when = process::after(dji::utc_start(t.info@), x.micros as int);
    let un = csv::wanted(csv::with_utc(t), seq!["UTC time"@]);
    let uc = csv::wanted(csv::with_utc(t), seq![csv::time_cell(when)]);
    assert(csv::column_names(t, o) == pn + gn + un);
    assert(csv::cells(t, o, r, x) == pc + gc + uc);
    lemma_has_middle(pn, pc, gn, gc, un, uc, 0);
    lemma_has_middle(pn, pc, gn, gc, un, uc, 1);
    lemma_has_middle(pn, pc, gn, gc, un, uc, 2);
    lemma_has_middle(pn, pc, gn, gc, un, uc, 3);
    lemma_has_middle(pn, pc, gn, gc, un, uc, 4);
    lemma_has_middle(pn, pc, gn, gc, un, uc, 5);
    if dji::utc_start(t.info@) is Some {
        lemma_has_middle(pn + gn, pc + gc, un, uc, none, none, 0);
        assert(pn + gn + un + none =~= pn + gn + un);
        assert(pc + gc + uc + none =~= pc + gc + uc);
    }
}

/// There is no column that is not asked for: five always, three each for the raw axes,
/// the orientation and the exposure, one for the lean angle, six for positions and one
/// for the time in UTC.
pub proof fn columns_are_asked_for(t: Telemetry, o: ExportOptions)
    ensures
        csv::column_names(t, o).len() == 5 + (if o.include_raw_axes {
            3int
        } else {
            0
        }) + (if o.include_orientation {
            3int
        } else {
            0
        }) + (if o.lean_angle_from_roll {
            1int
        } else {
            0
        }) + (if o.include_exposure {
            3int
        } else {
            0
        }) + (if t.gps_rows >= 2 {
            6int
        } else {
            0
        }) + (if t.gps_rows >= 2 && dji::utc_start(t.info@) is Some {
            1int
        } else {
            0
        }),
{
}

/// The cell of a VBO column: a 0 stands where there is no number.
pub open spec fn or_zero(s: Seq<char>) -> Seq<char> {
    if s == Seq::<char>::empty() {
        seq!['0']
    } else {
        s
    }
}

/// The numbers of a row stand under the names of their channels. A row with a position
/// counts four satellites, another one none. The channels are those of the header.
pub proof fn channels_have_their_numbers(t: Telemetry, r: Row, x: vbo::RowTexts)
    ensures
        ({
            let gps = t.gps_rows >= 2;
            let n = vbo::channels(gps, true);
            let c = vbo::columns(t, r, x);
            &&& has(n, c, "time"@, vbo::row_time(t, x.micros as int))
            &&& has(n, c, "LongAcc"@, or_zero(export::opt_text(r.longitudinal, x.longitudinal@)))
            &&& has(n, c, "LatAcc"@, or_zero(export::opt_text(r.lateral, x.lateral@)))
            &&& has(n, c, "VertAcc"@, or_zero(export::opt_text(r.vertical, x.vertical@)))
            &&& gps ==> {
                &&& has(n, c, "lat"@, or_zero(export::opt_text(r.latitude, x.latitude@)))
                &&& has(n, c, "long"@, or_zero(export::opt_text(r.longitude, x.longitude@)))
                &&& has(n, c, "velocity"@, or_zero(export::opt_text(r.speed_ms, x.velocity@)))
                &&& has(n, c, "heading"@, or_zero(export::opt_text(r.heading_deg, x.heading@)))
                &&& has(n, c, "height"@, or_zero(export::opt_text(r.altitude_m, x.height@)))
                &&& has(
                    n,
                    c,
                    "sats"@,
                    if r.latitude is Some && r.longitude is Some {
                        seq!['0', '0', '4']
                    } else {
                        seq!['0', '0', '0']
                    },
                )
            }
            &&& n.len() == if gps {
                10int
            } else {
                4
            }
            &&& vbo::channels(gps, false).len() == n.len()
            &&& forall|i: int|
                0 <= i < n.len() ==> #[trigger] vbo::channels(gps, false)[i] == if i == 6 {
                    "velocity kmh"@
                } else {
                    n[i]
                }
        }),
{
    reveal_strlit("0");
    reveal_strlit("004");
    reveal_strlit("000");
    assert("0"@ =~= seq!['0']);
    assert("004"@ =~= seq!['0', '0', '4']);
    assert("000"@ =~= seq!['0', '0', '0']);
    let gps = t.gps_rows >= 2;
    let n = vbo::channels(gps, true);
    let c = vbo::columns(t, r, x);
    assert forall|s: Seq<char>| #[trigger] vbo::filled(s) == or_zero(s) by {
        if s.len() == 0 {
            assert(s =~= Seq::empty());
        }
    }
    lemma_has(n, c, 0);
    lemma_has(n, c, 1);
    lemma_has(n, c, 2);
    lemma_has(n, c, 3);
    if gps {
        lemma_has(n, c, 4);
        lemma_has(n, c, 5);
        lemma_has(n, c, 6);
        lemma_has(n, c, 7);
        lemma_has(n, c, 8);
        lemma_has(n, c, 9);
    }
}

/// Two clips with the same positions and rows suit the same formats: the formats of
/// tracks need two positions, subtitles need two or an exposure value, and tables need
/// two rows.
pub proof fn formats_need_their_data(t: Telemetry, f: Format)
    ensures
        f == Format::Gpx || f == Format::Fit || f == Format::Igc ==> (export::obstacle(f, t) is None
            <==> t.gps_rows >= 2),
        f == Format::Srt ==> (export::obstacle(f, t) is None <==> t.gps_rows >= 2 || exists|i: int|
            0 <= i < t.rows@.len() && ((#[trigger] t.rows@[i]).iso is Some || t.rows@[i].shutter
                is Some || t.rows@[i].color_temperature is Some)),
        f == Format::Csv || f == Format::Vbo ==> (export::obstacle(f, t) is None <==> t.rows@.len()
            >= 2),
{
    if f == Format::Srt {
        if export::any_exposed(t.rows@) {
            let i = choose|i: int| 0 <= i < t.rows@.len() && export::exposed(#[trigger] t.rows@[i]);
            assert(export::exposed(t.rows@[i]));
        }
        assert forall|i: int|
            0 <= i < t.rows@.len() && ((#[trigger] t.rows@[i]).iso is Some || t.rows@[i].shutter
                is Some || t.rows@[i].color_temperature is Some) implies export::any_exposed(
            t.rows@,
        ) by {
            assert(export::exposed(t.rows@[i]));
        }
    }
}

/// The rate of a format: FIT and IGC files have a row a second at most, and one where
/// none was asked for; GPX files have ten where none was asked for. What else was asked
/// for is kept.
pub proof fn formats_have_their_rates(f: Format, hz: Binary64)
    ensures
        f == Format::Csv || f == Format::Srt || f == Format::Vbo ==> export::rate_for(
            f,
            ExportRate::Native,
        ) == ExportRate::Native,
        f == Format::Gpx ==> (export::rate_for(f, ExportRate::Native) matches ExportRate::Hz(r)
            && r.finite() && r.scaled() == ieee::whole(10)),
        f == Format::Fit || f == Format::Igc ==> (export::rate_for(f, ExportRate::Native)
            matches ExportRate::Hz(r) && r.finite() && r.scaled() == ieee::whole(1)),
        f != Format::Fit && f != Format::Igc ==> export::rate_for(f, ExportRate::Hz(hz))
            == ExportRate::Hz(hz),
        (f == Format::Fit || f == Format::Igc) && hz.finite() ==> (export::rate_for(
            f,
            ExportRate::Hz(hz),
        ) matches ExportRate::Hz(r) && if hz.scaled() > ieee::whole(1) {
            r.finite() && r.scaled() == ieee::whole(1)
        } else {
            r == hz
        }),
{
    vstd::arithmetic::power2::lemma2_to64();
    vstd::arithmetic::power2::lemma2_to64_rest();
    process::laws::lemma_number(
        0x4024_0000_0000_0000,
        0x402,
        0x4_0000_0000_0000,
        0x2_0000_0000_0000,
        1,
        10,
    );
    process::laws::lemma_number(0x3ff0_0000_0000_0000, 0x3ff, 0, 0x10_0000_0000_0000, 1, 1);
}

} // verus!
