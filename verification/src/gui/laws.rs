//! What the choices in the window stand for.

use super::{Channel, RateChoice, Session};
use crate::export::Format;
use crate::gui;
use crate::ieee;
use crate::process;
use crate::process::{Axis, AxisMap, ExportRate};
use vstd::prelude::*;

verus! {

/// A choice of a rate is the number of rows per second that it says.
pub proof fn choices_are_their_rates()
    ensures
        RateChoice::Native.chosen() == ExportRate::Native,
        RateChoice::Hz10.chosen() matches ExportRate::Hz(r) && r.finite() && r.scaled()
            == ieee::whole(10),
        RateChoice::Hz5.chosen() matches ExportRate::Hz(r) && r.finite() && r.scaled()
            == ieee::whole(5),
        RateChoice::Hz1.chosen() matches ExportRate::Hz(r) && r.finite() && r.scaled()
            == ieee::whole(1),
{
    vstd::arithmetic::power2::lemma2_to64();
    vstd::arithmetic::power2::lemma2_to64_rest();
    process::laws::lemma_number(
        0x4024_0000_0000_0000,
        0x402,
        0x4_0000_0000_0000,
        0x2_0000_0000_0000,
        1,
        10,
    );
    process::laws::lemma_number(
        0x4014_0000_0000_0000,
        0x401,
        0x4_0000_0000_0000,
        0x4_0000_0000_0000,
        1,
        5,
    );
    process::laws::lemma_number(0x3ff0_0000_0000_0000, 0x3ff, 0, 0x10_0000_0000_0000, 1, 1);
}

/// What is chosen for a channel is what it has, and no other channel changes.
pub proof fn channels_keep_to_themselves(m: AxisMap, c: Channel, d: Channel, axis: Axis, turned: bool)
    ensures
        gui::axis_of(gui::with_axis(m, c, axis), c) == axis,
        c != d ==> gui::axis_of(gui::with_axis(m, c, axis), d) == gui::axis_of(m, d),
        gui::invert_of(gui::with_axis(m, c, axis), d) == gui::invert_of(m, d),
        gui::invert_of(gui::with_invert(m, c, turned), c) == turned,
        c != d ==> gui::invert_of(gui::with_invert(m, c, turned), d) == gui::invert_of(m, d),
        gui::axis_of(gui::with_invert(m, c, turned), d) == gui::axis_of(m, d),
{
}

/// The channels are those of the map: lateral, longitudinal and vertical.
pub proof fn channels_are_those_of_the_map(m: AxisMap)
    ensures
        gui::axis_of(m, Channel::Lateral) == m.lateral,
        gui::axis_of(m, Channel::Longitudinal) == m.longitudinal,
        gui::axis_of(m, Channel::Vertical) == m.vertical,
        gui::invert_of(m, Channel::Lateral) == m.invert_lateral,
        gui::invert_of(m, Channel::Longitudinal) == m.invert_longitudinal,
        gui::invert_of(m, Channel::Vertical) == m.invert_vertical,
{
}

/// Each format has a place of its own, that which it has among all.
pub proof fn formats_have_their_places(f: Format, g: Format)
    ensures
        0 <= gui::place_of(f) < 6,
        Format::ALL@[gui::place_of(f)] == f,
        f != g ==> gui::place_of(f) != gui::place_of(g),
{
}

/// Selecting a format selects no other.
pub proof fn formats_are_selected_alone(s: Session, t: Session, f: Format, g: Format, on: bool)
    requires
        t.selected@ == s.selected@.update(gui::place_of(f), on),
    ensures
        t.wants(f) == on,
        f != g ==> t.wants(g) == s.wants(g),
{
}

/// An export can start only with a format, and with a body axis for each vehicle axis;
/// two of the same stop it.
pub proof fn exports_need_formats_and_axes(s: Session)
    ensures
        s.ready() ==> s.process_options.axes.lateral != s.process_options.axes.longitudinal
            && s.process_options.axes.longitudinal != s.process_options.axes.vertical
            && s.process_options.axes.lateral != s.process_options.axes.vertical,
        (forall|f: Format| !s.wants(f)) ==> !s.ready(),
{
}

/// A channel is opposite to the guess where its sign is another than the guessed one.
pub proof fn opposites_differ_from_the_guess(s: Session, c: Channel)
    ensures
        s.opposite(c) <==> gui::invert_of(s.process_options.axes, c) != gui::invert_of(
            s.auto_axes,
            c,
        ),
{
}

} // verus!
