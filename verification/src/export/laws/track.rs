//! What the elements of tracks say.

use crate::export;
use crate::export::gpx;
use crate::export::gpx::PointTexts;
use crate::process;
use crate::process::{Row, Telemetry};
use crate::text;
use crate::text::laws;
use crate::time::calendar;
use crate::time::Moment;
use vstd::prelude::*;

verus! {

/// The text that an XML text stands for.
pub open spec fn unescaped(s: Seq<char>) -> Seq<char>
    decreases s.len(),
{
    if s.len() == 0 {
        Seq::empty()
    } else if s.len() >= 5 && s.take(5) == seq!['&', 'a', 'm', 'p', ';'] {
        seq!['&'] + unescaped(s.skip(5))
    } else if s.len() >= 4 && s.take(4) == seq!['&', 'l', 't', ';'] {
        seq!['<'] + unescaped(s.skip(4))
    } else if s.len() >= 4 && s.take(4) == seq!['&', 'g', 't', ';'] {
        seq!['>'] + unescaped(s.skip(4))
    } else if s.len() >= 6 && s.take(6) == seq!['&', 'q', 'u', 'o', 't', ';'] {
        seq!['"'] + unescaped(s.skip(6))
    } else if s.len() >= 6 && s.take(6) == seq!['&', 'a', 'p', 'o', 's', ';'] {
        seq!['\''] + unescaped(s.skip(6))
    } else {
        seq![s[0]] + unescaped(s.skip(1))
    }
}

proof fn lemma_escaped_first(s: Seq<char>)
    requires
        s.len() > 0,
    ensures
        export::escaped(s) == export::escaped_char(s[0]) + export::escaped(s.drop_first()),
    decreases s.len(),
{
    if s.len() == 1 {
        assert(s.drop_last() =~= Seq::empty());
        assert(s.drop_first() =~= Seq::empty());
        assert(export::escaped(s) =~= export::escaped_char(s[0]) + export::escaped(s.drop_first()));
    } else {
        lemma_escaped_first(s.drop_last());
        assert(s.drop_last().drop_first() =~= s.drop_first().drop_last());
        assert(export::escaped(s) =~= export::escaped_char(s[0]) + export::escaped(s.drop_first()));
    }
}

proof fn lemma_unescape_char(c: char, rest: Seq<char>)
    ensures
        unescaped(export::escaped_char(c) + rest) == seq![c] + unescaped(rest),
{
    reveal_strlit("&amp;");
    reveal_strlit("&lt;");
    reveal_strlit("&gt;");
    reveal_strlit("&quot;");
    reveal_strlit("&apos;");
    let e = export::escaped_char(c);
    let s = e + rest;
    assert(s.skip(e.len() as int) =~= rest);
    if c == '&' {
        assert(s.take(5) =~= seq!['&', 'a', 'm', 'p', ';']);
    } else if c == '<' {
        assert(s.take(4) =~= seq!['&', 'l', 't', ';']);
        assert(s.len() >= 5 ==> s.take(5)[1] != 'a');
    } else if c == '>' {
        assert(s.take(4) =~= seq!['&', 'g', 't', ';']);
        assert(s.len() >= 5 ==> s.take(5)[1] != 'a');
    } else if c == '"' {
        assert(s.take(6) =~= seq!['&', 'q', 'u', 'o', 't', ';']);
        assert(s.take(5)[1] != 'a');
        assert(s.take(4)[1] != 'l' && s.take(4)[1] != 'g');
    } else if c == '\'' {
        assert(s.take(6) =~= seq!['&', 'a', 'p', 'o', 's', ';']);
        assert(s.take(5)[2] != 'm');
        assert(s.take(4)[1] != 'l' && s.take(4)[1] != 'g');
        assert(s.take(6)[1] != 'q');
    } else {
        assert(s[0] == c);
        assert(s.len() >= 5 ==> s.take(5)[0] != '&');
        assert(s.len() >= 4 ==> s.take(4)[0] != '&');
        assert(s.len() >= 6 ==> s.take(6)[0] != '&');
    }
}

/// An escaped text stands for the text.
pub proof fn escapes_read_back(s: Seq<char>)
    ensures
        unescaped(export::escaped(s)) == s,
    decreases s.len(),
{
    if s.len() > 0 {
        lemma_escaped_first(s);
        lemma_unescape_char(s[0], export::escaped(s.drop_first()));
        escapes_read_back(s.drop_first());
        assert(seq![s[0]] + s.drop_first() =~= s);
    }
}

spec fn part(open: Seq<char>, content: Option<Seq<char>>, close: Seq<char>) -> Option<Seq<char>> {
    match content {
        Some(c) => Some(open + c + close),
        None => None,
    }
}

spec fn point_parts(t: Telemetry, r: Row, x: PointTexts) -> Seq<Option<Seq<char>>> {
    seq![
        Some(
            "      <trkpt lat=\""@ + export::opt_text(r.latitude, x.latitude@) + "\" lon=\""@
                + export::opt_text(r.longitude, x.longitude@) + "\">\n"@,
        ),
        part("        <ele>"@, gpx::number(r.altitude_m, x.altitude@), "</ele>\n"@),
        part("        <time>"@, gpx::moment_text(t, x.micros as int), "</time>\n"@),
        Some("        <extensions>\n"@),
        Some("          <elapsed_time>"@ + export::num_text(r.t, x.t@) + "</elapsed_time>\n"@),
        part("          <speed>"@, gpx::number(r.speed_ms, x.speed@), "</speed>\n"@),
        part("          <heading>"@, gpx::number(r.heading_deg, x.heading@), "</heading>\n"@),
        part("          <distance>"@, gpx::number(r.distance_m, x.distance@), "</distance>\n"@),
        part("          <g_force>"@, gpx::number(r.combined, x.combined@), "</g_force>\n"@),
        part("          <lateral_g>"@, gpx::number(r.lateral, x.lateral@), "</lateral_g>\n"@),
        part(
            "          <longitudinal_g>"@,
            gpx::number(r.longitudinal, x.longitudinal@),
            "</longitudinal_g>\n"@,
        ),
        part("          <vertical_g>"@, gpx::number(r.vertical, x.vertical@), "</vertical_g>\n"@),
        Some("        </extensions>\n"@),
        Some("      </trkpt>\n"@),
    ]
}

/// A part of a text, or nothing.
spec fn shown(p: Option<Seq<char>>) -> Seq<char> {
    match p {
        Some(s) => s,
        None => Seq::empty(),
    }
}

proof fn lemma_extend(p: Seq<Option<Seq<char>>>, k: int, a: Seq<char>, e: Seq<char>, q: Seq<char>)
    requires
        0 <= k < p.len(),
        laws::assembled(p.take(k)) == a + e,
        shown(p[k]) == q,
    ensures
        laws::assembled(p.take(k + 1)) == a + (e + q),
{
    assert(p.take(k + 1).drop_last() =~= p.take(k));
    assert(a + e + q =~= a + (e + q));
}

proof fn lemma_extensions(p: Seq<Option<Seq<char>>>, a: Seq<char>, e: Seq<Seq<char>>)
    requires
        p.len() == 14,
        e.len() == 10,
        laws::assembled(p.take(3)) == a,
        forall|i: int| 0 <= i < 10 ==> #[trigger] shown(p[i + 3]) == e[i],
    ensures
        laws::assembled(p.take(13)) == a + (e[0] + e[1] + e[2] + e[3] + e[4] + e[5] + e[6] + e[7]
            + e[8] + e[9]),
{
    assert forall|i: int| 3 <= i < 13 implies shown(#[trigger] p[i]) == e[i - 3] by {
        assert(shown(p[(i - 3) + 3]) == e[i - 3]);
    }
    assert(a + Seq::<char>::empty() =~= a);
    assert(Seq::<char>::empty() + e[0] =~= e[0]);
    lemma_extend(p, 3, a, Seq::empty(), e[0]);
    lemma_extend(p, 4, a, e[0], e[1]);
    lemma_extend(p, 5, a, e[0] + e[1], e[2]);
    lemma_extend(p, 6, a, e[0] + e[1] + e[2], e[3]);
    lemma_extend(p, 7, a, e[0] + e[1] + e[2] + e[3], e[4]);
    lemma_extend(p, 8, a, e[0] + e[1] + e[2] + e[3] + e[4], e[5]);
    lemma_extend(p, 9, a, e[0] + e[1] + e[2] + e[3] + e[4] + e[5], e[6]);
    lemma_extend(p, 10, a, e[0] + e[1] + e[2] + e[3] + e[4] + e[5] + e[6], e[7]);
    lemma_extend(p, 11, a, e[0] + e[1] + e[2] + e[3] + e[4] + e[5] + e[6] + e[7], e[8]);
    lemma_extend(p, 12, a, e[0] + e[1] + e[2] + e[3] + e[4] + e[5] + e[6] + e[7] + e[8], e[9]);
}

proof fn lemma_before_extensions(p: Seq<Option<Seq<char>>>)
    requires
        p.len() == 14,
    ensures
        laws::assembled(p.take(3)) == shown(p[0]) + shown(p[1]) + shown(p[2]),
        laws::assembled(p) == laws::assembled(p.take(13)) + shown(p[13]),
{
    let none = Seq::<char>::empty();
    assert(laws::assembled(p.take(0)) == none);
    assert(none + none =~= none);
    assert(none + shown(p[0]) =~= shown(p[0]));
    lemma_extend(p, 0, none, none, shown(p[0]));
    assert(none + (none + shown(p[0])) =~= shown(p[0]));
    assert(shown(p[0]) + none =~= shown(p[0]));
    assert(none + shown(p[1]) =~= shown(p[1]));
    lemma_extend(p, 1, shown(p[0]), none, shown(p[1]));
    lemma_extend(p, 2, shown(p[0]), shown(p[1]), shown(p[2]));
    assert(shown(p[0]) + (shown(p[1]) + shown(p[2])) =~= shown(p[0]) + shown(p[1]) + shown(p[2]));
    assert(p.drop_last() =~= p.take(13));
}

/// The pieces of the extensions of a point.
spec fn pieces(r: Row, x: PointTexts) -> Seq<Seq<char>> {
    seq![
        "        <extensions>\n"@,
        "          <elapsed_time>"@ + export::num_text(r.t, x.t@) + "</elapsed_time>\n"@,
        gpx::element("          <speed>"@, gpx::number(r.speed_ms, x.speed@), "</speed>\n"@),
        gpx::element("          <heading>"@, gpx::number(r.heading_deg, x.heading@), "</heading>\n"@),
        gpx::element(
            "          <distance>"@,
            gpx::number(r.distance_m, x.distance@),
            "</distance>\n"@,
        ),
        gpx::element("          <g_force>"@, gpx::number(r.combined, x.combined@), "</g_force>\n"@),
        gpx::element(
            "          <lateral_g>"@,
            gpx::number(r.lateral, x.lateral@),
            "</lateral_g>\n"@,
        ),
        gpx::element(
            "          <longitudinal_g>"@,
            gpx::number(r.longitudinal, x.longitudinal@),
            "</longitudinal_g>\n"@,
        ),
        gpx::element(
            "          <vertical_g>"@,
            gpx::number(r.vertical, x.vertical@),
            "</vertical_g>\n"@,
        ),
        "        </extensions>\n"@,
    ]
}

proof fn lemma_pieces(r: Row, x: PointTexts)
    ensures
        ({
            let e = pieces(r, x);
            gpx::extensions(r, x) == e[0] + e[1] + e[2] + e[3] + e[4] + e[5] + e[6] + e[7] + e[8]
                + e[9]
        }),
{
    let e = pieces(r, x);
    assert(e[0] + "          <elapsed_time>"@ + export::num_text(r.t, x.t@)
        + "</elapsed_time>\n"@ =~= e[0] + e[1]);
}

proof fn lemma_point(t: Telemetry, r: Row, x: PointTexts)
    ensures
        gpx::point(t, r, x) == laws::assembled(point_parts(t, r, x)),
{
    let p = point_parts(t, r, x);
    let a = shown(p[0]) + shown(p[1]) + shown(p[2]);
    assert(gpx::point(t, r, x) == a + gpx::extensions(r, x) + shown(p[13]));
    lemma_before_extensions(p);
    let e = pieces(r, x);
    assert forall|i: int| 0 <= i < 10 implies #[trigger] shown(p[i + 3]) == e[i] by {
        lemma_piece(t, r, x, i);
    }
    lemma_extensions(p, a, e);
    lemma_pieces(r, x);
}

proof fn lemma_piece(t: Telemetry, r: Row, x: PointTexts, i: int)
    requires
        0 <= i < 10,
    ensures
        shown(point_parts(t, r, x)[i + 3]) == pieces(r, x)[i],
{
}

proof fn lemma_leaf(t: Telemetry, r: Row, less: Row, x: PointTexts, k: int)
    requires
        0 <= k < 14,
        point_parts(t, r, x)[k] is Some,
        point_parts(t, less, x) == point_parts(t, r, x).update(k, None),
    ensures
        laws::inserted(
            gpx::point(t, r, x),
            gpx::point(t, less, x),
            point_parts(t, r, x)[k]->0,
        ),
{
    let p = point_parts(t, r, x);
    lemma_point(t, r, x);
    lemma_point(t, less, x);
    laws::one_part_more(p, p.update(k, None), k, p[k]->0);
}

/// A point begins with its latitude and its longitude, and holds its time since the
/// start and its moment.
pub proof fn points_have_their_place_and_time(t: Telemetry, r: Row, x: PointTexts)
    ensures
        ({
            let s = gpx::point(t, r, x);
            let head = "      <trkpt lat=\""@ + export::opt_text(r.latitude, x.latitude@)
                + "\" lon=\""@ + export::opt_text(r.longitude, x.longitude@) + "\">\n"@;
            &&& s.len() >= head.len()
            &&& s.take(head.len() as int) == head
            &&& text::occurs(
                s,
                "          <elapsed_time>"@ + export::num_text(r.t, x.t@) + "</elapsed_time>\n"@,
            )
            &&& gpx::moment_text(t, x.micros as int) matches Some(m) ==> text::occurs(
                s,
                "        <time>"@ + m + "</time>\n"@,
            )
        }),
{
    let p = point_parts(t, r, x);
    lemma_point(t, r, x);
    laws::assembled_parts_occur(p, 4, p[4]->0);
    if gpx::moment_text(t, x.micros as int) is Some {
        laws::assembled_parts_occur(p, 2, p[2]->0);
    }
    let s = gpx::point(t, r, x);
    let head = p[0]->0;
    lemma_assembled_first(p);
    assert(s.take(head.len() as int) =~= head);
}

proof fn lemma_assembled_first(p: Seq<Option<Seq<char>>>)
    requires
        p.len() > 0,
    ensures
        laws::assembled(p) == (match p[0] {
            Some(s) => s,
            None => Seq::empty(),
        }) + laws::assembled(p.drop_first()),
    decreases p.len(),
{
    let first = match p[0] {
        Some(s) => s,
        None => Seq::empty(),
    };
    if p.len() == 1 {
        assert(p.drop_last() =~= Seq::empty());
        assert(p.drop_first() =~= Seq::empty());
        assert(laws::assembled(p) =~= first + laws::assembled(p.drop_first()));
    } else {
        lemma_assembled_first(p.drop_last());
        assert(p.drop_last().drop_first() =~= p.drop_first().drop_last());
        assert(laws::assembled(p) =~= first + laws::assembled(p.drop_first()));
    }
}

/// A number that a row has is one element more of its point, with the tag of what it
/// is: the altitude `ele`, and `speed`, `heading` and `distance`.
pub proof fn travel_has_its_tags(t: Telemetry, r: Row, x: PointTexts)
    ensures
        r.altitude_m matches Some(v) ==> laws::inserted(
            gpx::point(t, r, x),
            gpx::point(t, (Row { altitude_m: None, ..r }), x),
            "        <ele>"@ + export::num_text(v, x.altitude@) + "</ele>\n"@,
        ),
        r.speed_ms matches Some(v) ==> laws::inserted(
            gpx::point(t, r, x),
            gpx::point(t, (Row { speed_ms: None, ..r }), x),
            "          <speed>"@ + export::num_text(v, x.speed@) + "</speed>\n"@,
        ),
        r.heading_deg matches Some(v) ==> laws::inserted(
            gpx::point(t, r, x),
            gpx::point(t, (Row { heading_deg: None, ..r }), x),
            "          <heading>"@ + export::num_text(v, x.heading@) + "</heading>\n"@,
        ),
        r.distance_m matches Some(v) ==> laws::inserted(
            gpx::point(t, r, x),
            gpx::point(t, (Row { distance_m: None, ..r }), x),
            "          <distance>"@ + export::num_text(v, x.distance@) + "</distance>\n"@,
        ),
{
    let p = point_parts(t, r, x);
    if r.altitude_m is Some {
        let less = Row { altitude_m: None, ..r };
        assert(point_parts(t, less, x) =~= p.update(1, None));
        lemma_leaf(t, r, less, x, 1);
    }
    if r.speed_ms is Some {
        let less = Row { speed_ms: None, ..r };
        assert(point_parts(t, less, x) =~= p.update(5, None));
        lemma_leaf(t, r, less, x, 5);
    }
    if r.heading_deg is Some {
        let less = Row { heading_deg: None, ..r };
        assert(point_parts(t, less, x) =~= p.update(6, None));
        lemma_leaf(t, r, less, x, 6);
    }
    if r.distance_m is Some {
        let less = Row { distance_m: None, ..r };
        assert(point_parts(t, less, x) =~= p.update(7, None));
        lemma_leaf(t, r, less, x, 7);
    }
}

/// The combined acceleration of a row has the tag `g_force`.
pub proof fn combined_acceleration_has_its_tag(t: Telemetry, r: Row, x: PointTexts)
    ensures
        r.combined matches Some(v) ==> laws::inserted(
            gpx::point(t, r, x),
            gpx::point(t, (Row { combined: None, ..r }), x),
            "          <g_force>"@ + export::num_text(v, x.combined@) + "</g_force>\n"@,
        ),
{
    if r.combined is Some {
        let less = Row { combined: None, ..r };
        assert(point_parts(t, less, x) =~= point_parts(t, r, x).update(8, None));
        lemma_leaf(t, r, less, x, 8);
    }
}

/// The lateral acceleration of a row has the tag `lateral_g`.
pub proof fn lateral_acceleration_has_its_tag(t: Telemetry, r: Row, x: PointTexts)
    ensures
        r.lateral matches Some(v) ==> laws::inserted(
            gpx::point(t, r, x),
            gpx::point(t, (Row { lateral: None, ..r }), x),
            "          <lateral_g>"@ + export::num_text(v, x.lateral@) + "</lateral_g>\n"@,
        ),
{
    if r.lateral is Some {
        let less = Row { lateral: None, ..r };
        assert(point_parts(t, less, x) =~= point_parts(t, r, x).update(9, None));
        lemma_leaf(t, r, less, x, 9);
    }
}

/// The longitudinal acceleration of a row has the tag `longitudinal_g`.
pub proof fn longitudinal_acceleration_has_its_tag(t: Telemetry, r: Row, x: PointTexts)
    ensures
        r.longitudinal matches Some(v) ==> laws::inserted(
            gpx::point(t, r, x),
            gpx::point(t, (Row { longitudinal: None, ..r }), x),
            "          <longitudinal_g>"@ + export::num_text(v, x.longitudinal@) + "</longitudinal_g>\n"@,
        ),
{
    if r.longitudinal is Some {
        let less = Row { longitudinal: None, ..r };
        assert(point_parts(t, less, x) =~= point_parts(t, r, x).update(10, None));
        lemma_leaf(t, r, less, x, 10);
    }
}

/// The vertical acceleration of a row has the tag `vertical_g`.
pub proof fn vertical_acceleration_has_its_tag(t: Telemetry, r: Row, x: PointTexts)
    ensures
        r.vertical matches Some(v) ==> laws::inserted(
            gpx::point(t, r, x),
            gpx::point(t, (Row { vertical: None, ..r }), x),
            "          <vertical_g>"@ + export::num_text(v, x.vertical@) + "</vertical_g>\n"@,
        ),
{
    if r.vertical is Some {
        let less = Row { vertical: None, ..r };
        assert(point_parts(t, less, x) =~= point_parts(t, r, x).update(11, None));
        lemma_leaf(t, r, less, x, 11);
    }
}

/// A track has a point for each row with a position, in order, and no other.
pub proof fn tracks_have_a_point_per_position(t: Telemetry, texts: Seq<PointTexts>, n: nat)
    ensures
        gpx::points(t, texts, 0).len() == 0,
        t.rows@[n as int].latitude is Some && t.rows@[n as int].longitude is Some ==> gpx::points(
            t,
            texts,
            n + 1,
        ) == gpx::points(t, texts, n) + gpx::point(t, t.rows@[n as int], texts[n as int]),
        t.rows@[n as int].latitude is None || t.rows@[n as int].longitude is None ==> gpx::points(
            t,
            texts,
            n + 1,
        ) == gpx::points(t, texts, n),
{
    assert(gpx::points(t, texts, n) + Seq::<char>::empty() =~= gpx::points(t, texts, n));
}

/// What stands before the name of a track.
spec fn opening() -> Seq<char> {
    "<?xml version=\"1.0\" encoding=\"UTF-8\"?>\n"@ + "<gpx version=\"1.1\" creator=\""@
        + export::APP_NAME@ + " "@ + export::APP_VERSION@
        + "\" xmlns=\"http://www.topografix.com/GPX/1/1\" xmlns:xsi=\"http://www.w3.org/2001/XMLSchema-instance\" xsi:schemaLocation=\"http://www.topografix.com/GPX/1/1 http://www.topografix.com/GPX/1/1/gpx.xsd\">\n"@
        + "  <metadata>\n"@
}

spec fn head_parts(t: Telemetry, name: Seq<char>) -> Seq<Option<Seq<char>>> {
    seq![
        Some(opening()),
        Some("    <name>"@ + name + "</name>\n"@),
        part("    <time>"@, gpx::moment_text(t, 0), "</time>\n"@),
        Some("  </metadata>\n  <trk>\n"@),
        Some("    <name>"@ + name + "</name>\n"@),
        part(
            "    <src>"@,
            match t.info@.model {
                Some(m) => Some(export::escaped(m)),
                None => None,
            },
            "</src>\n"@,
        ),
        Some("    <trkseg>\n"@),
    ]
}

proof fn lemma_regroup(a: Seq<char>, b: Seq<char>, c: Seq<char>)
    ensures
        a + (b + c) == a + b + c,
{
    assert(a + (b + c) =~= a + b + c);
}

proof fn lemma_seven(p: Seq<Option<Seq<char>>>)
    requires
        p.len() == 7,
    ensures
        laws::assembled(p) == shown(p[0]) + shown(p[1]) + shown(p[2]) + shown(p[3]) + shown(p[4])
            + shown(p[5]) + shown(p[6]),
{
    assert(laws::assembled(p.take(0)) == Seq::<char>::empty());
    assert(Seq::<char>::empty() + shown(p[0]) =~= shown(p[0]));
    assert forall|k: int| 0 < k <= 7 implies #[trigger] laws::assembled(p.take(k))
        == laws::assembled(p.take(k - 1)) + shown(p[k - 1]) by {
        assert(p.take(k).drop_last() =~= p.take(k - 1));
    }
    assert(p.take(7) =~= p);
    assert(laws::assembled(p.take(1)) == shown(p[0]));
    assert(laws::assembled(p.take(2)) == shown(p[0]) + shown(p[1]));
    assert(laws::assembled(p.take(3)) == shown(p[0]) + shown(p[1]) + shown(p[2]));
    assert(laws::assembled(p.take(4)) == shown(p[0]) + shown(p[1]) + shown(p[2]) + shown(p[3]));
    assert(laws::assembled(p.take(5)) == shown(p[0]) + shown(p[1]) + shown(p[2]) + shown(p[3])
        + shown(p[4]));
    assert(laws::assembled(p.take(6)) == shown(p[0]) + shown(p[1]) + shown(p[2]) + shown(p[3])
        + shown(p[4]) + shown(p[5]));
    assert(laws::assembled(p.take(7)) == shown(p[0]) + shown(p[1]) + shown(p[2]) + shown(p[3])
        + shown(p[4]) + shown(p[5]) + shown(p[6]));
}

proof fn lemma_head(t: Telemetry, name: Seq<char>)
    ensures
        gpx::preamble(t, name) == laws::assembled(head_parts(t, name)),
{
    let p = head_parts(t, name);
    lemma_seven(p);
    let o = opening();
    lemma_regroup(o, "    <name>"@, name);
    lemma_regroup(o, "    <name>"@ + name, "</name>\n"@);
    let a = o + shown(p[1]) + shown(p[2]) + shown(p[3]);
    lemma_regroup(a, "    <name>"@, name);
    lemma_regroup(a, "    <name>"@ + name, "</name>\n"@);
}

/// A track names its file and its start, and its camera in an element of its own where
/// it is known.
pub proof fn tracks_name_their_source(t: Telemetry, u: Telemetry, name: Seq<char>)
    ensures
        text::occurs(gpx::preamble(t, name), "    <name>"@ + name + "</name>\n"@),
        gpx::moment_text(t, 0) matches Some(m) ==> text::occurs(
            gpx::preamble(t, name),
            "    <time>"@ + m + "</time>\n"@,
        ),
        t.info@.model matches Some(m) ==> u.info@.model is None && gpx::moment_text(t, 0)
            == gpx::moment_text(u, 0) ==> laws::inserted(
            gpx::preamble(t, name),
            gpx::preamble(u, name),
            "    <src>"@ + export::escaped(m) + "</src>\n"@,
        ),
{
    let p = head_parts(t, name);
    lemma_head(t, name);
    lemma_head(u, name);
    laws::assembled_parts_occur(p, 1, p[1]->0);
    if gpx::moment_text(t, 0) is Some {
        laws::assembled_parts_occur(p, 2, p[2]->0);
    }
    if t.info@.model is Some && u.info@.model is None && gpx::moment_text(t, 0)
        == gpx::moment_text(u, 0) {
        assert(head_parts(u, name) =~= p.update(5, None));
        laws::one_part_more(p, p.update(5, None), 5, p[5]->0);
    }
}

/// A track file is named after the file without its folders; its points stand between
/// what opens and what closes the track.
pub proof fn tracks_are_closed(t: Telemetry, source: Seq<char>, texts: Seq<PointTexts>)
    ensures
        gpx::content(t, source, texts) == gpx::preamble(
            t,
            export::escaped(text::base_name(source)),
        ) + gpx::points(t, texts, t.rows@.len()) + "    </trkseg>\n  </trk>\n</gpx>\n"@,
{
}

/// The moment of a point is that of the best clock, in the form of UTC.
pub proof fn points_go_by_the_best_clock(t: Telemetry, micros: int, m: Moment)
    ensures
        process::best_moment(t.info@, micros) == Some(m) ==> gpx::moment_text(t, micros) == Some(
            calendar::written(m, "%Y-%m-%dT%H:%M:%S%.3fZ"@),
        ),
        process::best_moment(t.info@, micros) is None ==> gpx::moment_text(t, micros) is None,
{
}

} // verus!
