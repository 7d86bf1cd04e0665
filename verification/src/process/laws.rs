//! What holds of the processing as a whole: units, axes and signs, rows, and
//! merged rows.

use crate::dji;
use crate::dji::{ClipFacts, Sample};
use crate::ieee;
use crate::ieee::Binary64;
use crate::process;
use crate::process::{
    AccelUnit, Axis, AxisMap, ExportRate, GravityMode, Means, Numbers, Row, Telemetry, Vector64,
};
use crate::text;
use crate::time;
use crate::time::Moment;
use vstd::arithmetic::power2::{lemma2_to64, lemma_pow2_pos, pow2};
use vstd::prelude::*;

verus! {

/// Multiplying by a positive number keeps the order.
proof fn lemma_scale(a: int, b: int, p: int)
    by (nonlinear_arith)
    requires
        p > 0,
    ensures
        a * p <= b * p <==> a <= b,
        a * p == b * p <==> a == b,
{
}

/// The number that a pattern stands for, `k` times over, with the exponent `e` and
/// the fraction `f`: `n` times 2 to the power `1075 - e`.
pub proof fn lemma_number(bits: u64, e: nat, f: nat, shift: nat, scale: int, n: int)
    requires
        bits == e * 0x10_0000_0000_0000 + f,
        f < 0x10_0000_0000_0000,
        1 <= e <= 1075,
        shift == pow2((1075 - e) as nat),
        (0x10_0000_0000_0000 + f) * scale == n * shift,
    ensures
        (Binary64 { bits }).finite(),
        (Binary64 { bits }).scaled() * scale == ieee::whole(n),
{
    let v = Binary64 { bits };
    ieee::patterns_are_numbers(v, e, f);
    lemma_pow2_pos((1075 - e) as nat);
    let p = pow2(1074) as int;
    let m = (0x10_0000_0000_0000 + f) as int;
    let s = shift as int;
    assert((v.scaled() * scale) * s == (n * p) * s) by (nonlinear_arith)
        requires
            v.scaled() * s == m * p,
            m * scale == n * s,
    ;
    lemma_scale(v.scaled() * scale, n * p, s);
}

/// The unit of the accelerometer is told by the median size of what it reads: g
/// from one half to 3, m/s² from 5 to 30, thousandths of g from 500 to 3000, and
/// unknown otherwise.
pub proof fn units_are_told_by_size(m: Binary64)
    ensures
        process::unit_for(m) == AccelUnit::G <==> !m.nan() && ieee::whole(1) <= m.scaled() * 2
            && m.scaled() <= ieee::whole(3),
        process::unit_for(m) == AccelUnit::MetersPerSecondSquared <==> !m.nan() && ieee::whole(5)
            <= m.scaled() <= ieee::whole(30),
        process::unit_for(m) == AccelUnit::MilliG <==> !m.nan() && ieee::whole(500) <= m.scaled()
            <= ieee::whole(3000),
{
    lemma2_to64();
    lemma_pow2_pos(1074);
    assert(pow2(53) == 0x20_0000_0000_0000 && pow2(51) == 0x8_0000_0000_0000 && pow2(50)
        == 0x4_0000_0000_0000 && pow2(48) == 0x1_0000_0000_0000 && pow2(44) == 0x1000_0000_0000
        && pow2(41) == 0x200_0000_0000) by {
        vstd::arithmetic::power2::lemma2_to64_rest();
    }
    lemma_number(0x3fe0_0000_0000_0000, 0x3fe, 0, 0x20_0000_0000_0000, 2, 1);
    lemma_number(0x4008_0000_0000_0000, 0x400, 0x8_0000_0000_0000, 0x8_0000_0000_0000, 1, 3);
    lemma_number(0x4014_0000_0000_0000, 0x401, 0x4_0000_0000_0000, 0x4_0000_0000_0000, 1, 5);
    lemma_number(0x403e_0000_0000_0000, 0x403, 0xe_0000_0000_0000, 0x1_0000_0000_0000, 1, 30);
    lemma_number(0x407f_4000_0000_0000, 0x407, 0xf_4000_0000_0000, 0x1000_0000_0000, 1, 500);
    lemma_number(0x40a7_7000_0000_0000, 0x40a, 0x7_7000_0000_0000, 0x200_0000_0000, 1, 3000);
    let p = pow2(1074) as int;
    assert(1 * p <= 3 * p < 5 * p <= 30 * p < 500 * p <= 3000 * p) by (nonlinear_arith)
        requires
            p > 0,
    ;
}

/// The factors lead to g: 1 leaves a number as it is, 1000 thousandths make 1, and
/// 9.80665 of the third make 1, each as near as a double-precision number can be.
pub proof fn factors_lead_to_g(unit: AccelUnit)
    ensures
        unit == AccelUnit::G || unit == AccelUnit::Unknown ==> unit.scale().scaled()
            == ieee::whole(1),
        unit == AccelUnit::MilliG ==> {
            &&& -ieee::whole(1) <= (unit.scale().scaled() * 1000 - ieee::whole(1))
                * 0x10_0000_0000_0000 <= ieee::whole(1)
        },
        unit == AccelUnit::MetersPerSecondSquared ==> {
            &&& -ieee::whole(1) <= (unit.scale().scaled() * 980_665 - ieee::whole(100_000))
                * 0x1000_0000 <= ieee::whole(1)
        },
{
    lemma2_to64();
    vstd::arithmetic::power2::lemma2_to64_rest();
    lemma_pow2_pos(1074);
    let p = pow2(1074) as int;
    if unit == AccelUnit::MilliG {
        ieee::patterns_are_numbers(unit.scale(), 0x3f5, 0x0_624d_d2f1_a9fc);
        let q = pow2(62) as int;
        let s = unit.scale().scaled();
        assert(q == 0x4000_0000_0000_0000);
        assert(-p * q <= (s * 1000 - p) * 0x10_0000_0000_0000 * q <= p * q) by (nonlinear_arith)
            requires
                s * q == 0x10_624d_d2f1_a9fc * p,
                q == 0x4000_0000_0000_0000,
                p > 0,
        ;
        lemma_scale(-p, (s * 1000 - p) * 0x10_0000_0000_0000, q);
        lemma_scale((s * 1000 - p) * 0x10_0000_0000_0000, p, q);
    } else if unit == AccelUnit::MetersPerSecondSquared {
        ieee::patterns_are_numbers(unit.scale(), 0x3fb, 0xa_1acf_ea98_1812);
        let q = pow2(56) as int;
        let s = unit.scale().scaled();
        assert(q == 0x100_0000_0000_0000);
        assert(-p * q <= (s * 980_665 - 100_000 * p) * 0x1000_0000 * q <= p * q)
            by (nonlinear_arith)
            requires
                s * q == 0x1a_1acf_ea98_1812 * p,
                q == 0x100_0000_0000_0000,
                p > 0,
        ;
        lemma_scale(-p, (s * 980_665 - 100_000 * p) * 0x1000_0000, q);
        lemma_scale((s * 980_665 - 100_000 * p) * 0x1000_0000, p, q);
    } else {
        lemma_number(0x3ff0_0000_0000_0000, 0x3ff, 0, 0x10_0000_0000_0000, 1, 1);
    }
}

/// The axis that holds gravity is vertical: no other median is larger, and none of
/// an axis before it as large.
pub proof fn gravity_is_vertical(m: Vector64, axis: Axis)
    ensures
        ({
            let up = process::guessed_map(m).vertical;
            &&& m.along(axis).magnitude() <= m.along(up).magnitude()
            &&& (axis == Axis::X && up != Axis::X || axis == Axis::Y && up == Axis::Z) ==> m.along(
                axis,
            ).magnitude() < m.along(up).magnitude()
        }),
{
}

/// The camera looks along the vehicle: X is longitudinal and the axis that is left
/// is lateral, unless X holds gravity; then Y is lateral and Z longitudinal.
pub proof fn camera_looks_ahead(m: Vector64)
    ensures
        ({
            let map = process::guessed_map(m);
            &&& map.vertical == Axis::X ==> map.lateral == Axis::Y && map.longitudinal == Axis::Z
            &&& map.vertical == Axis::Y ==> map.lateral == Axis::Z && map.longitudinal == Axis::X
            &&& map.vertical == Axis::Z ==> map.lateral == Axis::Y && map.longitudinal == Axis::X
        }),
{
}

/// Whatever holds gravity, the guessed map flips the lateral axis, keeps the
/// longitudinal one, and flips the vertical one exactly when gravity reads negative
/// on it.
pub proof fn guessed_signs(m: Vector64)
    ensures
        process::guessed_map(m).invert_lateral,
        !process::guessed_map(m).invert_longitudinal,
        process::guessed_map(m).invert_vertical <==> {
            let g = m.along(process::guessed_map(m).vertical);
            !g.nan() && g.scaled() < 0
        },
{
    assert(ieee::scaled_size(0) == 0);
    assert((Binary64 { bits: 0 }).scaled() == 0);
}

/// A row feels each body axis where the map sends it, with the opposite sign where
/// it is flipped.
pub proof fn rows_follow_their_axes(s: Sample, n: Numbers, axes: AxisMap)
    ensures
        ({
            let r = process::row_for(s, n, axes);
            match n.dynamic {
                Some(d) => {
                    &&& r.lateral is Some && r.longitudinal is Some && r.vertical is Some
                    &&& r.combined == Some(n.combined)
                    &&& r.lateral->0.magnitude() == d.along(axes.lateral).magnitude()
                    &&& r.lateral->0.negative() == (d.along(axes.lateral).negative()
                        != axes.invert_lateral)
                    &&& r.longitudinal->0.magnitude() == d.along(axes.longitudinal).magnitude()
                    &&& r.longitudinal->0.negative() == (d.along(axes.longitudinal).negative()
                        != axes.invert_longitudinal)
                    &&& r.vertical->0.magnitude() == d.along(axes.vertical).magnitude()
                    &&& r.vertical->0.negative() == (d.along(axes.vertical).negative()
                        != axes.invert_vertical)
                },
                None => r.lateral is None && r.longitudinal is None && r.vertical is None
                    && r.combined is None,
            }
        }),
{
    if let Some(d) = n.dynamic {
        ieee::flipping_gives_the_opposite(d.along(axes.lateral));
        ieee::flipping_gives_the_opposite(d.along(axes.longitudinal));
        ieee::flipping_gives_the_opposite(d.along(axes.vertical));
    }
}

/// Under the guessed map, the lateral acceleration of a row is the opposite of what
/// the body feels along the lateral axis, and the longitudinal one what it feels
/// along the longitudinal axis; the vertical one has the sign with which gravity
/// reads positive.
pub proof fn guessed_rows_have_vehicle_signs(s: Sample, n: Numbers, m: Vector64, d: Vector64)
    requires
        n.dynamic == Some(d),
    ensures
        ({
            let map = process::guessed_map(m);
            let r = process::row_for(s, n, map);
            let g = m.along(map.vertical);
            &&& r.lateral is Some && r.lateral->0.scaled() == -d.along(map.lateral).scaled()
            &&& r.longitudinal is Some && r.longitudinal->0.scaled() == d.along(
                map.longitudinal,
            ).scaled()
            &&& r.vertical is Some && r.vertical->0.scaled() == if !g.nan() && g.scaled() < 0 {
                -d.along(map.vertical).scaled()
            } else {
                d.along(map.vertical).scaled()
            }
        }),
{
    guessed_signs(m);
    let map = process::guessed_map(m);
    ieee::flipping_gives_the_opposite(d.along(map.lateral));
    ieee::flipping_gives_the_opposite(d.along(map.longitudinal));
    ieee::flipping_gives_the_opposite(d.along(map.vertical));
}

/// The component along an axis is the one of its name.
pub proof fn components_have_their_names(v: Vector64)
    ensures
        v.along(Axis::X) == v.x,
        v.along(Axis::Y) == v.y,
        v.along(Axis::Z) == v.z,
{
}

/// A row keeps the time, the raw acceleration and the attitude of its numbers, and
/// the number and the exposure of its sample.
pub proof fn rows_keep_their_samples(s: Sample, n: Numbers, axes: AxisMap)
    ensures
        ({
            let r = process::row_for(s, n, axes);
            &&& r.t == n.t
            &&& r.frame == s.frame
            &&& r.raw == n.raw
            &&& r.iso == s.iso
            &&& r.shutter == s.shutter
            &&& r.color_temperature == s.color_temperature
            &&& n.angles matches Some(a) ==> r.roll == Some(a.x) && r.pitch == Some(a.y) && r.yaw
                == Some(a.z)
            &&& n.angles is None ==> r.roll is None && r.pitch is None && r.yaw is None
        }),
{
}

/// A row has the position of its sample: latitude, longitude and distance where
/// there is one, and the altitude where it is told; nothing without a position.
pub proof fn rows_keep_their_positions(s: Sample, n: Numbers, axes: AxisMap)
    ensures
        ({
            let r = process::row_for(s, n, axes);
            match s.gps {
                Some(g) => {
                    &&& r.latitude == Some(g.latitude)
                    &&& r.longitude == Some(g.longitude)
                    &&& r.distance_m == Some(n.distance)
                    &&& g.altitude_mm is Some ==> r.altitude_m == Some(n.altitude)
                    &&& g.altitude_mm is None ==> r.altitude_m is None
                },
                None => r.latitude is None && r.longitude is None && r.distance_m is None
                    && r.altitude_m is None && r.speed_ms is None && r.heading_deg is None,
            }
        }),
{
}

/// A velocity that is reported gives the speed, whatever the positions say. Without
/// one, two positions do, where time went on between them.
pub proof fn speed_has_its_source(s: Sample, n: Numbers, axes: AxisMap)
    requires
        s.gps is Some,
    ensures
        ({
            let speed = process::row_for(s, n, axes).speed_ms;
            let on = n.step is Some && !n.step->0.dt.nan() && n.step->0.dt.scaled() > 0;
            &&& s.gps->0.velocity is Some ==> speed == Some(n.speed_by_velocity)
            &&& s.gps->0.velocity is None && on ==> speed == Some(n.speed_by_positions)
            &&& s.gps->0.velocity is None && !on ==> speed is None
        }),
{
    assert(ieee::scaled_size(0) == 0);
    assert((Binary64 { bits: 0 }).scaled() == 0);
}

/// Where a twentieth of a metre lies.
proof fn lemma_twentieth(d: Binary64)
    ensures
        d.nan() || d.scaled() * 20 <= ieee::whole(1) ==> !(Binary64 {
            bits: 0x3fa9_9999_9999_999a,
        }).below(d),
        !d.nan() && d.scaled() * 20 * 0x1_0000_0000 > ieee::whole(0x1_0000_0001) ==> (Binary64 {
            bits: 0x3fa9_9999_9999_999a,
        }).below(d),
{
    let v = Binary64 { bits: 0x3fa9_9999_9999_999a };
    lemma2_to64();
    vstd::arithmetic::power2::lemma2_to64_rest();
    lemma_pow2_pos(1074);
    ieee::patterns_are_numbers(v, 0x3fa, 0x9_9999_9999_999a);
    let p = pow2(1074) as int;
    let q = pow2(57) as int;
    assert(q == 0x200_0000_0000_0000);
    let s = v.scaled();
    assert(p * q <= s * 20 * q && s * 20 * 0x1_0000_0000 * q <= 0x1_0000_0001 * p * q)
        by (nonlinear_arith)
        requires
            s * q == 0x19_9999_9999_999a * p,
            q == 0x200_0000_0000_0000,
            p > 0,
    ;
    lemma_scale(p, s * 20, q);
    lemma_scale(s * 20 * 0x1_0000_0000, 0x1_0000_0001 * p, q);
}

/// A velocity that is reported gives the heading, unless it is zero on the ground.
/// Without one, two positions do, where time went on between them and they lie
/// clearly more than 5 cm apart; positions clearly nearer give none.
pub proof fn heading_has_its_source(s: Sample, n: Numbers, axes: AxisMap)
    requires
        s.gps is Some,
    ensures
        ({
            let heading = process::row_for(s, n, axes).heading_deg;
            let on = n.step is Some && !n.step->0.dt.nan() && n.step->0.dt.scaled() > 0;
            let d = n.step->0.distance;
            match s.gps->0.velocity {
                Some(v) => {
                    let still = (v.x.bits == 0 || v.x.bits == 0x8000_0000) && (v.y.bits == 0
                        || v.y.bits == 0x8000_0000);
                    &&& !still ==> heading == Some(n.heading_by_velocity)
                    &&& still ==> heading is None
                },
                None => {
                    &&& !on ==> heading is None
                    &&& heading is Some ==> heading == Some(n.heading_by_positions)
                    &&& on && !d.nan() && d.scaled() * 20 * 0x1_0000_0000 > ieee::whole(
                        0x1_0000_0001,
                    ) ==> heading is Some
                    &&& on && (d.nan() || d.scaled() * 20 <= ieee::whole(1))
                        ==> heading is None
                },
            }
        }),
{
    assert(ieee::scaled_size(0) == 0);
    assert((Binary64 { bits: 0 }).scaled() == 0);
    if let Some(step) = n.step {
        lemma_twentieth(step.distance);
    }
}

/// Attitude that is missing makes the quaternion method a high-pass; any other
/// choice is kept.
pub proof fn missing_attitude_changes_only_the_quaternion_method(
    requested: GravityMode,
    attitude: bool,
)
    ensures
        process::method(requested, true) == requested,
        requested != GravityMode::Quaternion ==> process::method(requested, attitude) == requested,
        process::method(GravityMode::Quaternion, false) == GravityMode::HighPass,
{
}

/// A row is kept exactly when its time is a number and no row before it is later.
pub proof fn rows_are_kept_unless_earlier(rows: Seq<Row>, r: Row)
    ensures
        ({
            let fits = !r.t.nan() && forall|i: int|
                0 <= i < rows.len() && !(#[trigger] rows[i]).t.nan() ==> rows[i].t.scaled()
                    <= r.t.scaled();
            process::kept(rows.push(r)) == if fits {
                process::kept(rows).push(r)
            } else {
                process::kept(rows)
            }
        }),
{
    assert(rows.push(r).drop_last() =~= rows);
    lemma_latest_is_kept(rows);
}

/// The last row that is kept is the latest of all.
proof fn lemma_latest_is_kept(rows: Seq<Row>)
    ensures
        ({
            let k = process::kept(rows);
            &&& k.len() == 0 <==> forall|i: int| 0 <= i < rows.len() ==> (#[trigger] rows[i]).t.nan()
            &&& k.len() > 0 ==> !k.last().t.nan() && (exists|i: int|
                0 <= i < rows.len() && #[trigger] rows[i] == k.last()) && forall|i: int|
                0 <= i < rows.len() && !(#[trigger] rows[i]).t.nan() ==> rows[i].t.scaled()
                    <= k.last().t.scaled()
        }),
    decreases rows.len(),
{
    if rows.len() > 0 {
        let front = rows.drop_last();
        lemma_latest_is_kept(front);
        let before = process::kept(front);
        let k = process::kept(rows);
        let n = rows.len() - 1;
        assert forall|i: int| 0 <= i < n implies #[trigger] rows[i] == front[i] by {}
        if before.len() > 0 {
            let i = choose|i: int| 0 <= i < front.len() && #[trigger] front[i] == before.last();
            assert(rows[i] == before.last());
        }
        if k.len() > before.len() {
            assert(rows[n] == k.last());
        }
        if before.len() == 0 && !rows[n].t.nan() {
            assert(k.len() == 1);
        }
    }
}

/// Each channel of a merged row is the average of that channel over its bin, and of
/// no other. The raw axes are there where all three averages are, and the combined
/// acceleration where both of its parts are.
pub proof fn channels_have_their_own_averages(
    rows: Seq<Row>,
    bins: Seq<i64>,
    means: Seq<Means>,
    j: int,
)
    requires
        0 <= j < process::starts(bins).len(),
    ensures
        ({
            let r = process::decimated(rows, bins, means)[j];
            let m = means[j];
            &&& r.lateral == m.lateral
            &&& r.longitudinal == m.longitudinal
            &&& r.vertical == m.vertical
            &&& m.lateral is Some && m.longitudinal is Some ==> r.combined == Some(m.combined)
            &&& m.lateral is None || m.longitudinal is None ==> r.combined is None
            &&& r.raw is Some <==> m.raw_x is Some && m.raw_y is Some && m.raw_z is Some
            &&& r.raw matches Some(v) ==> Some(v.x) == m.raw_x && Some(v.y) == m.raw_y && Some(v.z)
                == m.raw_z
        }),
{
}

/// Another average of one channel changes that channel of the merged row to it, and
/// nothing else.
pub proof fn averages_change_one_channel(
    rows: Seq<Row>,
    bins: Seq<i64>,
    means: Seq<Means>,
    j: int,
    v: Option<Binary64>,
)
    requires
        0 <= j < process::starts(bins).len(),
        means.len() == process::starts(bins).len(),
    ensures
        ({
            let r = process::decimated(rows, bins, means)[j];
            let vertical = means.update(j, Means { vertical: v, ..means[j] });
            let lateral = means.update(j, Means { lateral: v, ..means[j] });
            let longitudinal = means.update(j, Means { longitudinal: v, ..means[j] });
            let a = process::decimated(rows, bins, vertical)[j];
            let b = process::decimated(rows, bins, lateral)[j];
            let c = process::decimated(rows, bins, longitudinal)[j];
            &&& a == (Row { vertical: v, ..r })
            &&& b == (Row { lateral: v, combined: b.combined, ..r })
            &&& c == (Row { longitudinal: v, combined: c.combined, ..r })
        }),
{
}

/// Whether two rows have the same position, and speed, heading and distance.
pub open spec fn same_position(a: Row, b: Row) -> bool {
    a.latitude == b.latitude && a.longitude == b.longitude && a.altitude_m == b.altitude_m
        && a.speed_ms == b.speed_ms && a.heading_deg == b.heading_deg && a.distance_m
        == b.distance_m
}

proof fn lemma_first_located(rows: Seq<Row>, from: int, to: int)
    requires
        from <= to,
    ensures
        match process::first_located(rows, from, to) {
            Some(g) => exists|k: int|
                from <= k < to && process::located(#[trigger] rows[k]) && rows[k] == g
                    && forall|i: int| from <= i < k ==> !process::located(#[trigger] rows[i]),
            None => forall|k: int| from <= k < to ==> !process::located(#[trigger] rows[k]),
        },
    decreases to - from,
{
    if from < to {
        if process::located(rows[from]) {
            assert(rows[from] == process::first_located(rows, from, to)->0);
        } else {
            lemma_first_located(rows, from + 1, to);
            if let Some(g) = process::first_located(rows, from + 1, to) {
                let k = choose|k: int|
                    from + 1 <= k < to && process::located(#[trigger] rows[k]) && rows[k] == g
                        && forall|i: int|
                        from + 1 <= i < k ==> !process::located(#[trigger] rows[i]);
                assert(rows[k] == g);
            }
        }
    }
}

/// What is not averaged comes from the first row of a bin, but for the position,
/// which comes from the first row of the bin that has one.
pub proof fn merged_rows_keep_the_first(
    rows: Seq<Row>,
    bins: Seq<i64>,
    means: Seq<Means>,
    j: int,
)
    requires
        bins.len() == rows.len(),
        0 <= j < process::starts(bins).len(),
    ensures
        ({
            let r = process::decimated(rows, bins, means)[j];
            let from = process::starts(bins)[j];
            let to = process::bin_end(bins, j);
            let first = rows[from];
            &&& r.t == first.t && r.frame == first.frame
            &&& r.roll == first.roll && r.pitch == first.pitch && r.yaw == first.yaw
            &&& r.iso == first.iso && r.shutter == first.shutter && r.color_temperature
                == first.color_temperature
            &&& forall|k: int|
                #![trigger rows[k]]
                from <= k < to && rows[k].latitude is Some && rows[k].longitude is Some && (
                forall|i: int|
                    from <= i < k ==> (#[trigger] rows[i]).latitude is None
                        || rows[i].longitude is None) ==> same_position(r, rows[k])
            &&& (forall|k: int|
                from <= k < to ==> (#[trigger] rows[k]).latitude is None
                    || rows[k].longitude is None) ==> same_position(r, first)
        }),
{
    let from = process::starts(bins)[j];
    let to = process::bin_end(bins, j);
    process::starts_divide(bins);
    if j + 1 < process::starts(bins).len() {
        assert(process::starts(bins)[j] < process::starts(bins)[j + 1]);
    }
    lemma_first_located(rows, from, to);
    let r = process::decimated(rows, bins, means)[j];
    assert forall|k: int|
        #![trigger rows[k]]
        from <= k < to && rows[k].latitude is Some && rows[k].longitude is Some && (forall|i: int|
            from <= i < k ==> (#[trigger] rows[i]).latitude is None || rows[i].longitude
                is None) implies same_position(r, rows[k]) by {
        assert(process::located(rows[k]));
        let g = process::first_located(rows, from, to)->0;
        let l = choose|l: int|
            from <= l < to && process::located(#[trigger] rows[l]) && rows[l] == g && forall|i: int|
                from <= i < l ==> !process::located(#[trigger] rows[i]);
        if l < k {
            assert(rows[l].latitude is None || rows[l].longitude is None);
        }
        if k < l {
            assert(!process::located(rows[k]));
        }
    }
}

/// A new bin starts exactly at the first row and where the number changes.
pub proof fn bins_start_where_numbers_change(bins: Seq<i64>, k: int)
    requires
        0 <= k < bins.len(),
    ensures
        process::starts(bins).contains(k) <==> k == 0 || bins[k] != bins[k - 1],
    decreases bins.len(),
{
    let n = bins.len() - 1;
    let front = bins.drop_last();
    let before = process::starts(front);
    let all = process::starts(bins);
    process::starts_divide(front);
    if k < n {
        bins_start_where_numbers_change(front, k);
        if before.contains(k) {
            let i = choose|i: int| 0 <= i < before.len() && before[i] == k;
            assert(all[i] == k);
        }
        if all.contains(k) {
            let i = choose|i: int| 0 <= i < all.len() && all[i] == k;
            assert(before[i] == k);
        }
    } else {
        if all.len() > before.len() {
            assert(all[all.len() - 1] == n);
        }
        if all.contains(n) {
            let i = choose|i: int| 0 <= i < all.len() && all[i] == n;
            if i < before.len() {
                assert(before[i] < front.len());
            }
        }
    }
}

/// A row belongs to a bin as long as the number has not changed since the bin started.
pub proof fn bins_last_until_numbers_change(bins: Seq<i64>, j: int, k: int)
    requires
        0 <= j < process::starts(bins).len(),
        process::starts(bins)[j] <= k < bins.len(),
    ensures
        k < process::bin_end(bins, j) <==> forall|i: int|
            process::starts(bins)[j] < i <= k ==> #[trigger] bins[i] == bins[i - 1],
        process::bin_end(bins, j) <= bins.len(),
{
    let s = process::starts(bins);
    process::starts_divide(bins);
    if k < process::bin_end(bins, j) {
        assert forall|i: int| s[j] < i <= k implies #[trigger] bins[i] == bins[i - 1] by {
            if bins[i] != bins[i - 1] {
                bins_start_where_numbers_change(bins, i);
                let l = choose|l: int| 0 <= l < s.len() && s[l] == i;
                if l < j {
                    assert(s[l] < s[j]);
                }
                if l > j + 1 {
                    assert(s[j + 1] < s[l]);
                }
            }
        }
    } else {
        let i = s[j + 1];
        assert(s[j] < s[j + 1]);
        assert(s.contains(i));
        bins_start_where_numbers_change(bins, i);
        assert(bins[i] != bins[i - 1]);
    }
}

/// A rate merges rows exactly when it is a number of rows per second that is more
/// than 0, or none that can be compared.
pub proof fn rates_above_zero_merge(rate: ExportRate)
    ensures
        process::merges(rate) <==> (rate matches ExportRate::Hz(v) && (v.nan() || v.scaled() > 0)),
{
    assert(ieee::scaled_size(0) == 0);
    assert((Binary64 { bits: 0 }).scaled() == 0);
}

/// A time of the clip is its start by the same clock and the time since: the best
/// known one is in UTC where that is known, and by the camera's clock otherwise.
pub proof fn times_count_from_the_start(info: ClipFacts, micros: int)
    ensures
        ({
            let utc = process::after(dji::utc_start(info), micros);
            let local = process::after(info.start_local, micros);
            &&& info.start_local is None ==> local is None && utc is None
            &&& info.utc_offset_minutes is None ==> utc is None
            &&& utc is Some ==> process::best_moment(info, micros) == utc
            &&& utc is None ==> process::best_moment(info, micros) == local
        }),
{
}

/// Where no leap second is met, a time lies as many microseconds behind the start
/// as it says, and UTC as many minutes before the camera's clock as the offset says.
pub proof fn clocks_differ_by_the_offset(info: ClipFacts, start: Moment, offset: i32, micros: int)
    requires
        info.start_local == Some(start),
        info.utc_offset_minutes == Some(offset),
        time::representable(start),
        start.nanos < 1_000_000_000,
        process::after(dji::utc_start(info), micros) is Some,
        process::after(info.start_local, micros) is Some,
    ensures
        ({
            let utc = process::after(dji::utc_start(info), micros)->0;
            let local = process::after(info.start_local, micros)->0;
            &&& local.secs * 1_000_000_000 + local.nanos == start.secs * 1_000_000_000
                + start.nanos + micros * 1000
            &&& utc.nanos == local.nanos
            &&& utc.secs == local.secs - offset * 60
        }),
{
    let utc0 = dji::utc_start(info)->0;
    time::laws::moved_moments_lie_apart(start, micros * 1000);
    time::laws::moved_moments_lie_apart(start, -(offset * 60_000_000_000));
    time::laws::moved_moments_lie_apart(utc0, micros * 1000);
}

/// The letter of an axis.
pub open spec fn letter(a: Axis) -> char {
    match a {
        Axis::X => 'x',
        Axis::Y => 'y',
        Axis::Z => 'z',
    }
}

proof fn lemma_letter(a: Axis)
    ensures
        Axis::read(seq![letter(a)]) == Some(a),
{
    let s = seq![letter(a)];
    reveal_strlit("x");
    reveal_strlit("y");
    reveal_strlit("z");
    assert(text::trimmed_start(s) == s);
    assert(text::trimmed(s) == s);
    assert(text::lowered(s) =~= s);
    assert("x"@ =~= seq!['x'] && "y"@ =~= seq!['y'] && "z"@ =~= seq!['z']);
    assert(seq!['x'][0] != seq!['y'][0] && seq!['x'][0] != seq!['z'][0] && seq!['y'][0]
        != seq!['z'][0]);
}

/// Three letters name the axes that are lateral, longitudinal and vertical, in this
/// order.
pub proof fn letters_name_axes(a: Axis, b: Axis, c: Axis)
    requires
        a != b,
        b != c,
        c != a,
    ensures
        process::map_of(seq![letter(a), letter(b), letter(c)]) == Ok::<AxisMap, Seq<char>>(
            AxisMap {
                lateral: a,
                longitudinal: b,
                vertical: c,
                invert_lateral: false,
                invert_longitudinal: false,
                invert_vertical: false,
            },
        ),
{
    let s = seq![letter(a), letter(b), letter(c)];
    lemma_letter(a);
    lemma_letter(b);
    lemma_letter(c);
    text::lemma_first_of(s, '=');
    lemma_three_bytes(s);
}

proof fn lemma_three_bytes(s: Seq<char>)
    requires
        s.len() == 3,
        forall|i: int| 0 <= i < 3 ==> (s[i] == 'x' || s[i] == 'y' || s[i] == 'z'),
    ensures
        vstd::utf8::encode_utf8(s).len() == 3,
{
    reveal_with_fuel(vstd::utf8::encode_utf8, 4);
    assert(vstd::utf8::has_width_1_encoding(s[0] as u32));
    assert(vstd::utf8::has_width_1_encoding(s.drop_first()[0] as u32));
    assert(vstd::utf8::has_width_1_encoding(s.drop_first().drop_first()[0] as u32));
}

/// Whether a text holds lower-case letters alone, and some.
pub open spec fn lower_word(s: Seq<char>) -> bool {
    s.len() > 0 && forall|i: int| 0 <= i < s.len() ==> 'a' <= #[trigger] s[i] <= 'z'
}

proof fn lemma_plain_word(s: Seq<char>)
    requires
        lower_word(s),
    ensures
        text::trimmed(s) == s,
        text::lowered(s) == s,
{
    assert(!text::white(s[0]));
    assert(text::trimmed_start(s) == s);
    assert(!text::white(s[s.len() - 1]));
    assert(text::lowered(s) =~= s);
}

/// A part of a description sets the vehicle axis that its key names, and no other:
/// what is read for `lateral`, `longitudinal` and `vertical` and their short forms.
pub proof fn keys_name_vehicle_axes(map: AxisMap, key: Seq<char>, a: Axis)
    requires
        lower_word(key),
    ensures
        ({
            let r = process::with_part(map, key + seq!['=', letter(a)]);
            &&& key == "lateral"@ || key == "lat"@ ==> r == Ok::<AxisMap, Seq<char>>(
                AxisMap { lateral: a, ..map },
            )
            &&& key == "longitudinal"@ || key == "lon"@ || key == "long"@ ==> r == Ok::<
                AxisMap,
                Seq<char>,
            >(AxisMap { longitudinal: a, ..map })
            &&& key == "vertical"@ || key == "vert"@ || key == "ver"@ ==> r == Ok::<
                AxisMap,
                Seq<char>,
            >(AxisMap { vertical: a, ..map })
            &&& r is Ok ==> key == "lateral"@ || key == "lat"@ || key == "longitudinal"@ || key
                == "lon"@ || key == "long"@ || key == "vertical"@ || key == "vert"@ || key
                == "ver"@
        }),
{
    let part = key + seq!['=', letter(a)];
    lemma_plain_word(key);
    lemma_letter(a);
    text::lemma_first_of_unique(part, '=', key.len());
    assert(part.take(key.len() as int) =~= key);
    assert(part.skip(key.len() + 1int) =~= seq![letter(a)]);
    assert(!text::white(part[0]));
    assert(text::trimmed_start(part) == part);
    assert(!text::white(part.last()));
    assert(text::trimmed(part) == part);
    reveal_strlit("lateral");
    reveal_strlit("lat");
    reveal_strlit("longitudinal");
    reveal_strlit("lon");
    reveal_strlit("long");
    reveal_strlit("vertical");
    reveal_strlit("vert");
    reveal_strlit("ver");
    assert("lateral"@[1] == 'a' && "lat"@[1] == 'a' && "longitudinal"@[1] == 'o' && "lon"@[1] == 'o'
        && "long"@[1] == 'o' && "vertical"@[0] == 'v' && "vert"@[0] == 'v' && "ver"@[0] == 'v'
        && "lateral"@[0] == 'l' && "lat"@[0] == 'l' && "longitudinal"@[0] == 'l' && "lon"@[0]
        == 'l' && "long"@[0] == 'l');
}

/// The telemetry of a clip: a unit that is asked for is used, and the one that was
/// found otherwise; what was measured is kept.
pub proof fn telemetry_keeps_what_was_measured(
    t: Telemetry,
    info: ClipFacts,
    samples: Seq<Sample>,
    options: process::ProcessOptions,
    measured: process::Measured,
    numbers: Seq<Numbers>,
)
    requires
        process::is_processed(t, info, samples, options, measured, numbers),
        samples.len() == numbers.len(),
    ensures
        t.info@ == info,
        t.options == options,
        options.gravity != GravityMode::Quaternion || measured.gravity_world is Some
            ==> t.gravity_used == options.gravity,
        options.gravity == GravityMode::Quaternion && measured.gravity_world is None
            ==> t.gravity_used == GravityMode::HighPass,
        options.unit_override matches Some(u) ==> t.unit == u,
        options.unit_override is None ==> t.unit == measured.unit,
        t.axis_medians == measured.axis_medians,
        t.gravity_world == measured.gravity_world,
        t.tilt_deg == measured.tilt_deg,
        t.unit_median_magnitude == measured.unit_median_magnitude,
        t.levelled <==> options.level && measured.tilt_deg is Some,
        t.gps_rows == process::located_count(t.rows@),
        (forall|i: int| 0 <= i < numbers.len() ==> !(#[trigger] numbers[i]).t.nan()) && (forall|
            i: int,
            j: int,
        |
            0 <= i <= j < numbers.len() ==> (#[trigger] numbers[i]).t.scaled() <= (
            #[trigger] numbers[j]).t.scaled()) ==> t.rows@.len() == samples.len() && forall|i: int|
            0 <= i < samples.len() ==> #[trigger] t.rows@[i] == process::row_for(
                samples[i],
                numbers[i],
                options.axes,
            ),
{
    let rows = process::rows_for(samples, numbers, options.axes);
    if (forall|i: int| 0 <= i < numbers.len() ==> !(#[trigger] numbers[i]).t.nan()) && (forall|
        i: int,
        j: int,
    |
        0 <= i <= j < numbers.len() ==> (#[trigger] numbers[i]).t.scaled() <= (
        #[trigger] numbers[j]).t.scaled()) {
        assert forall|i: int| 0 <= i < rows.len() implies !(#[trigger] rows[i]).t.nan() by {
            assert(!numbers[i].t.nan());
        }
        assert forall|i: int, j: int| 0 <= i <= j < rows.len() implies (
        #[trigger] rows[i]).t.at_most((#[trigger] rows[j]).t) by {
            assert(!numbers[i].t.nan() && !numbers[j].t.nan());
            assert(numbers[i].t.scaled() <= numbers[j].t.scaled());
        }
        process::forward_rows_are_kept(rows);
    }
}

/// Each row with a position counts once.
pub proof fn positions_count_once(rows: Seq<Row>, r: Row)
    ensures
        process::located_count(rows.push(r)) == process::located_count(rows) + if r.latitude is Some
            && r.longitude is Some {
            1int
        } else {
            0
        },
        process::located_count(Seq::empty()) == 0,
{
    assert(rows.push(r).drop_last() =~= rows);
}

/// Ten samples with an acceleration and an attitude are enough for the quaternion
/// method, and nine are not; more are never too many.
pub proof fn ten_samples_are_enough(count: int, more: int)
    requires
        count <= more,
    ensures
        process::enough(10),
        !process::enough(9),
        process::enough(count) ==> process::enough(more),
{
}

/// A length can be divided by from a millionth on, as long as it is finite; clearly
/// shorter ones, negative ones and those that are no numbers cannot.
pub proof fn lengths_are_usable_from_a_millionth(n: Binary64)
    ensures
        n.finite() && n.scaled() * 1_000_000 >= ieee::whole(1) ==> process::usable(n),
        n.scaled() * 1_000_000 * 0x1_0000_0000 < ieee::whole(0xffff_ffff) ==> !process::usable(n),
        !n.finite() ==> !process::usable(n),
{
    let v = Binary64 { bits: 0x3eb0_c6f7_a0b5_ed8d };
    lemma2_to64();
    vstd::arithmetic::power2::lemma2_to64_rest();
    lemma_pow2_pos(1074);
    vstd::arithmetic::power2::lemma_pow2_adds(64, 8);
    ieee::patterns_are_numbers(v, 0x3eb, 0x0_c6f7_a0b5_ed8d);
    let p = pow2(1074) as int;
    let q = pow2(72) as int;
    assert(q == 0x1_0000_0000_0000_0000 * 0x100);
    let s = v.scaled();
    assert(s * 1_000_000 * q <= p * q && 0xffff_ffff * p * q <= s * 1_000_000 * 0x1_0000_0000 * q)
        by (nonlinear_arith)
        requires
            s * q == 0x10_c6f7_a0b5_ed8d * p,
            q == 0x100_0000_0000_0000_0000,
            p > 0,
    ;
    lemma_scale(s * 1_000_000, p, q);
    lemma_scale(0xffff_ffff * p, s * 1_000_000 * 0x1_0000_0000, q);
    if n.finite() {
        assert(!n.nan());
    }
}

/// The unit behind a rate makes no difference to its number, however often it stands
/// there; what does not end with it stays.
pub proof fn rates_drop_their_unit(s: Seq<char>)
    ensures
        process::without_hz(s + seq!['h', 'z']) == process::without_hz(s),
        s.len() < 2 || s[s.len() - 2] != 'h' || s[s.len() - 1] != 'z' ==> process::without_hz(s)
            == s,
{
    let t = s + seq!['h', 'z'];
    assert(t.take(t.len() - 2) =~= s);
}

/// Without options, attitude is used to remove gravity, the window of the average is a
/// second, X is across, Y along and Z up, the camera is levelled, and unit and rate are
/// those of the clip.
pub proof fn defaults_are_plain()
    ensures
        ({
            let o = process::default_options();
            &&& o.gravity == GravityMode::Quaternion
            &&& o.highpass_window.finite() && o.highpass_window.scaled() == ieee::whole(1)
            &&& o.axes.lateral == Axis::X && o.axes.longitudinal == Axis::Y && o.axes.vertical
                == Axis::Z
            &&& !o.axes.invert_lateral && !o.axes.invert_longitudinal && !o.axes.invert_vertical
            &&& o.level
            &&& o.rate == ExportRate::Native
            &&& o.unit_override is None
        }),
{
    lemma2_to64();
    vstd::arithmetic::power2::lemma2_to64_rest();
    lemma_number(0x3ff0_0000_0000_0000, 0x3ff, 0, 0x10_0000_0000_0000, 1, 1);
}

/// Another rate changes the rows of a clip and nothing else.
pub proof fn rates_change_rows_alone(a: Telemetry, b: Telemetry)
    requires
        process::differ_in_rows(a, b),
    ensures
        a.info@ == b.info@,
        a.options == b.options,
        a.unit == b.unit,
        a.unit_median_magnitude == b.unit_median_magnitude,
        a.gravity_used == b.gravity_used,
        a.gravity_world == b.gravity_world,
        a.axis_medians == b.axis_medians,
        a.tilt_deg == b.tilt_deg,
        a.levelled == b.levelled,
{
}

/// What is wrong with a part of a description: it has no `=`, its axis does not exist,
/// or its vehicle axis does not. Blank parts change nothing.
pub proof fn wrong_parts_are_told(map: AxisMap, key: Seq<char>, value: Seq<char>)
    requires
        text::free_of(key, '='),
        text::trimmed(key + seq!['='] + value).len() > 0,
    ensures
        ({
            let r = process::with_part(map, key + seq!['='] + value);
            let bare = process::with_part(map, key);
            let word = text::lowered(text::trimmed(key));
            &&& text::trimmed(key).len() == 0 ==> bare == Ok::<AxisMap, Seq<char>>(map)
            &&& text::trimmed(key).len() > 0 ==> bare == Err::<AxisMap, Seq<char>>(
                "invalid axis spec '"@ + key + "', expected key=axis"@,
            )
            &&& Axis::read(value) is None ==> r == Err::<AxisMap, Seq<char>>(
                "unknown axis '"@ + value + "'"@,
            )
            &&& Axis::read(value) is Some && r is Err ==> r == Err::<AxisMap, Seq<char>>(
                "unknown vehicle axis '"@ + word + "'"@,
            )
        }),
{
    let part = key + seq!['='] + value;
    text::lemma_first_of_unique(part, '=', key.len());
    text::lemma_first_of(key, '=');
    if text::first_of(key, '=') < key.len() {
        assert(key[text::first_of(key, '=') as int] != '=');
    }
    assert(part.take(key.len() as int) =~= key);
    assert(part.skip(key.len() + 1int) =~= value);
}

/// A description sets the axes of its first part and then those of its second one, and
/// must in the end use each body axis once.
pub proof fn descriptions_are_read_in_order(parts: Seq<Seq<char>>, part: Seq<char>, s: Seq<char>)
    ensures
        process::with_parts(Seq::empty()) == Ok::<AxisMap, Seq<char>>(process::plain_map()),
        process::with_parts(parts.push(part)) == match process::with_parts(parts) {
            Ok(map) => process::with_part(map, part),
            Err(e) => Err(e),
        },
        process::map_of(s) matches Ok(map) ==> map.lateral != map.longitudinal && map.longitudinal
            != map.vertical && map.lateral != map.vertical,
        s.len() > 3 ==> match process::with_parts(text::parts(s, ',')) {
            Err(e) => process::map_of(s) == Err::<AxisMap, Seq<char>>(e),
            Ok(map) => if map.lateral != map.longitudinal && map.longitudinal != map.vertical
                && map.lateral != map.vertical {
                process::map_of(s) == Ok::<AxisMap, Seq<char>>(map)
            } else {
                process::map_of(s) == Err::<AxisMap, Seq<char>>(
                    "axis mapping must use each of X, Y, Z exactly once"@,
                )
            },
        },
{
    assert(parts.push(part).drop_last() =~= parts);
    if s.len() > 3 {
        lemma_bytes_of_text(s);
    }
}

proof fn lemma_bytes_of_text(s: Seq<char>)
    ensures
        vstd::utf8::encode_utf8(s).len() >= s.len(),
    decreases s.len(),
{
    if s.len() > 0 {
        lemma_bytes_of_text(s.drop_first());
    }
}

} // verus!
