//! State of the window: what is loaded, which options are set, what is to be
//! exported, and when the clip has to be processed again.

use crate::export;
use crate::export::{ExportOptions, Format, Written};
use crate::ieee::Binary64;
use crate::process;
use crate::process::{Axis, AxisMap, ExportRate, GravityMode, ProcessOptions, Telemetry};
use crate::text;
use vstd::prelude::*;

pub mod laws;

verus! {

/// A choice of the export rate.
#[derive(Debug, Clone, Copy, PartialEq, Eq, Structural)]
pub enum RateChoice {
    Native,
    Hz10,
    Hz5,
    Hz1,
}

impl RateChoice {
    /// All choices.
    pub const ALL: [RateChoice; 4] = [
        RateChoice::Native,
        RateChoice::Hz10,
        RateChoice::Hz5,
        RateChoice::Hz1,
    ];

    /// The text of a choice.
    pub open spec fn text(self) -> Seq<char> {
        match self {
            RateChoice::Native => "Native (format defaults: GPX 10 Hz, FIT/IGC 1 Hz)"@,
            RateChoice::Hz10 => "10 Hz"@,
            RateChoice::Hz5 => "5 Hz"@,
            RateChoice::Hz1 => "1 Hz"@,
        }
    }

    /// The choice in words.
    pub fn label(self) -> (r: &'static str)
        ensures
            r@ == self.text(),
    {
        match self {
            RateChoice::Native => "Native (format defaults: GPX 10 Hz, FIT/IGC 1 Hz)",
            RateChoice::Hz10 => "10 Hz",
            RateChoice::Hz5 => "5 Hz",
            RateChoice::Hz1 => "1 Hz",
        }
    }

    /// The rate of a choice: 10, 5 or 1 as floating-point numbers.
    pub open spec fn chosen(self) -> ExportRate {
        match self {
            RateChoice::Native => ExportRate::Native,
            RateChoice::Hz10 => ExportRate::Hz(Binary64 { bits: 0x4024_0000_0000_0000 }),
            RateChoice::Hz5 => ExportRate::Hz(Binary64 { bits: 0x4014_0000_0000_0000 }),
            RateChoice::Hz1 => ExportRate::Hz(Binary64 { bits: 0x3ff0_0000_0000_0000 }),
        }
    }

    /// The rate of the choice.
    pub fn rate(self) -> (r: ExportRate)
        ensures
            r == self.chosen(),
    {
        match self {
            RateChoice::Native => ExportRate::Native,
            RateChoice::Hz10 => ExportRate::Hz(Binary64 { bits: 0x4024_0000_0000_0000 }),
            RateChoice::Hz5 => ExportRate::Hz(Binary64 { bits: 0x4014_0000_0000_0000 }),
            RateChoice::Hz1 => ExportRate::Hz(Binary64 { bits: 0x3ff0_0000_0000_0000 }),
        }
    }
}

/// How far the loading of a clip is.
#[derive(Debug, Clone, Copy, PartialEq, Eq, Structural)]
pub enum LoadState {
    Idle,
    Loading { done: usize, total: usize },
    Loaded,
    Failed,
}

/// An axis of the vehicle.
#[derive(Debug, Clone, Copy, PartialEq, Eq, Structural)]
pub enum Channel {
    Lateral,
    Longitudinal,
    Vertical,
}

/// The body axis of a channel.
pub open spec fn axis_of(m: AxisMap, c: Channel) -> Axis {
    match c {
        Channel::Lateral => m.lateral,
        Channel::Longitudinal => m.longitudinal,
        Channel::Vertical => m.vertical,
    }
}

/// The sign flip of a channel.
pub open spec fn invert_of(m: AxisMap, c: Channel) -> bool {
    match c {
        Channel::Lateral => m.invert_lateral,
        Channel::Longitudinal => m.invert_longitudinal,
        Channel::Vertical => m.invert_vertical,
    }
}

/// The map with another body axis for a channel.
pub open spec fn with_axis(m: AxisMap, c: Channel, axis: Axis) -> AxisMap {
    match c {
        Channel::Lateral => AxisMap { lateral: axis, ..m },
        Channel::Longitudinal => AxisMap { longitudinal: axis, ..m },
        Channel::Vertical => AxisMap { vertical: axis, ..m },
    }
}

/// The map with another sign flip for a channel.
pub open spec fn with_invert(m: AxisMap, c: Channel, invert: bool) -> AxisMap {
    match c {
        Channel::Lateral => AxisMap { invert_lateral: invert, ..m },
        Channel::Longitudinal => AxisMap { invert_longitudinal: invert, ..m },
        Channel::Vertical => AxisMap { invert_vertical: invert, ..m },
    }
}

/// The place of a format among all.
pub open spec fn place_of(f: Format) -> int {
    match f {
        Format::Csv => 0,
        Format::Srt => 1,
        Format::Vbo => 2,
        Format::Gpx => 3,
        Format::Fit => 4,
        Format::Igc => 5,
    }
}

fn place(f: Format) -> (r: usize)
    ensures
        r == place_of(f),
        r < 6,
{
    match f {
        Format::Csv => 0,
        Format::Srt => 1,
        Format::Vbo => 2,
        Format::Gpx => 3,
        Format::Fit => 4,
        Format::Igc => 5,
    }
}

/// The state of the window.
#[derive(Debug, Clone, Copy)]
pub struct Session {
    pub state: LoadState,
    pub process_options: ProcessOptions,
    /// The axis map that was guessed for the clip.
    pub auto_axes: AxisMap,
    pub export_options: ExportOptions,
    pub rate_choice: RateChoice,
    /// Which formats are to be written, in the order of all.
    pub selected: [bool; 6],
    /// Whether the clip has been processed.
    pub processed: bool,
    /// Whether the clip has to be processed again.
    pub dirty: bool,
}

impl Default for Session {
    fn default() -> (r: Self)
        ensures
            r.state == LoadState::Idle,
            r.process_options == process::default_options(),
            r.auto_axes == process::plain_map(),
            r.export_options == export::default_options(),
            r.rate_choice == RateChoice::Native,
            r.selected@ == seq![true, false, false, false, false, false],
            !r.processed,
            !r.dirty,
    {
        let selected: [bool; 6] = [true, false, false, false, false, false];
        assert(selected@ =~= seq![true, false, false, false, false, false]);
        Session {
            state: LoadState::Idle,
            process_options: ProcessOptions::default(),
            auto_axes: AxisMap::default(),
            export_options: ExportOptions::default(),
            rate_choice: RateChoice::Native,
            selected,
            processed: false,
            dirty: false,
        }
    }
}

impl Session {
    /// Whether a format is to be written.
    pub open spec fn wants(self, f: Format) -> bool {
        self.selected@[place_of(f)]
    }

    /// Whether the export can start: a format is selected, and each body axis
    /// feeds one vehicle axis.
    pub open spec fn ready(self) -> bool {
        process::permutes(self.process_options.axes) && exists|f: Format| self.wants(f)
    }

    /// Loading of a clip begins.
    pub fn start_loading(&mut self)
        ensures
            *final(self) == (Session {
                state: LoadState::Loading { done: 0, total: 0 },
                processed: false,
                ..*old(self)
            }),
    {
        self.state = LoadState::Loading { done: 0, total: 0 };
        self.processed = false;
    }

    /// Some samples have been read. Only a clip that is being loaded makes
    /// progress.
    pub fn progress(&mut self, done: usize, total: usize)
        ensures
            *final(self) == match old(self).state {
                LoadState::Loading { .. } => Session {
                    state: LoadState::Loading { done, total },
                    ..*old(self)
                },
                _ => *old(self),
            },
    {
        if let LoadState::Loading { .. } = self.state {
            self.state = LoadState::Loading { done, total };
        }
    }

    /// The clip has been read, and `axes` has been guessed for it.
    pub fn loaded(&mut self, axes: AxisMap)
        ensures
            *final(self) == (Session {
                state: LoadState::Loaded,
                auto_axes: axes,
                process_options: ProcessOptions { axes, ..old(self).process_options },
                dirty: true,
                ..*old(self)
            }),
    {
        self.auto_axes = axes;
        self.process_options.axes = axes;
        self.state = LoadState::Loaded;
        self.dirty = true;
    }

    /// The clip could not be read.
    pub fn failed(&mut self)
        ensures
            *final(self) == (Session { state: LoadState::Failed, ..*old(self) }),
    {
        self.state = LoadState::Failed;
    }

    /// Whether the clip has to be processed now.
    pub fn needs_processing(&self) -> (r: bool)
        ensures
            r == (self.dirty && self.state == LoadState::Loaded),
    {
        match self.state {
            LoadState::Loaded => self.dirty,
            _ => false,
        }
    }

    /// The clip has been processed. The first time, CSV is selected, and GPX where
    /// there are positions.
    pub fn processed(&mut self, has_gps: bool)
        ensures
            final(self).processed,
            !final(self).dirty,
            final(self).selected@ == if old(self).processed {
                old(self).selected@
            } else {
                seq![true, false, false, has_gps, false, false]
            },
            final(self).state == old(self).state,
            final(self).process_options == old(self).process_options,
            final(self).auto_axes == old(self).auto_axes,
            final(self).export_options == old(self).export_options,
            final(self).rate_choice == old(self).rate_choice,
    {
        if !self.processed {
            let selected: [bool; 6] = [true, false, false, has_gps, false, false];
            assert(selected@ =~= seq![true, false, false, has_gps, false, false]);
            self.selected = selected;
        }
        self.processed = true;
        self.dirty = false;
    }

    /// There is no clip to process.
    pub fn skip_processing(&mut self)
        ensures
            *final(self) == (Session { dirty: false, ..*old(self) }),
    {
        self.dirty = false;
    }

    /// Another gravity removal is chosen.
    pub fn set_gravity(&mut self, gravity: GravityMode)
        ensures
            *final(self) == (Session {
                process_options: ProcessOptions { gravity, ..old(self).process_options },
                dirty: old(self).dirty || gravity != old(self).process_options.gravity,
                ..*old(self)
            }),
    {
        if gravity != self.process_options.gravity {
            self.process_options.gravity = gravity;
            self.dirty = true;
        }
    }

    /// Another body axis is chosen for a channel.
    pub fn set_axis(&mut self, c: Channel, axis: Axis)
        ensures
            *final(self) == (Session {
                process_options: ProcessOptions {
                    axes: with_axis(old(self).process_options.axes, c, axis),
                    ..old(self).process_options
                },
                dirty: old(self).dirty || axis != axis_of(old(self).process_options.axes, c),
                ..*old(self)
            }),
    {
        let before: Axis = match c {
            Channel::Lateral => self.process_options.axes.lateral,
            Channel::Longitudinal => self.process_options.axes.longitudinal,
            Channel::Vertical => self.process_options.axes.vertical,
        };
        match c {
            Channel::Lateral => self.process_options.axes.lateral = axis,
            Channel::Longitudinal => self.process_options.axes.longitudinal = axis,
            Channel::Vertical => self.process_options.axes.vertical = axis,
        }
        if axis != before {
            self.dirty = true;
        }
    }

    /// The sign of a channel is chosen.
    pub fn set_invert(&mut self, c: Channel, invert: bool)
        ensures
            *final(self) == (Session {
                process_options: ProcessOptions {
                    axes: with_invert(old(self).process_options.axes, c, invert),
                    ..old(self).process_options
                },
                dirty: true,
                ..*old(self)
            }),
    {
        match c {
            Channel::Lateral => self.process_options.axes.invert_lateral = invert,
            Channel::Longitudinal => self.process_options.axes.invert_longitudinal = invert,
            Channel::Vertical => self.process_options.axes.invert_vertical = invert,
        }
        self.dirty = true;
    }

    /// Whether a channel has the opposite of the guessed sign.
    pub open spec fn opposite(self, c: Channel) -> bool {
        invert_of(self.process_options.axes, c) != invert_of(self.auto_axes, c)
    }

    /// Whether a channel is flipped relative to the guessed sign.
    pub fn flipped(&self, c: Channel) -> (r: bool)
        ensures
            r == self.opposite(c),
    {
        match c {
            Channel::Lateral => self.process_options.axes.invert_lateral
                != self.auto_axes.invert_lateral,
            Channel::Longitudinal => self.process_options.axes.invert_longitudinal
                != self.auto_axes.invert_longitudinal,
            Channel::Vertical => self.process_options.axes.invert_vertical
                != self.auto_axes.invert_vertical,
        }
    }

    /// Flips a channel relative to the guessed sign, or not. It is the same flag
    /// as that of the axis, in gauge terms: "on" means "the opposite of the
    /// default", whatever the raw axis sign happens to be.
    pub fn set_flipped(&mut self, c: Channel, flipped: bool)
        ensures
            *final(self) == (Session {
                process_options: ProcessOptions {
                    axes: with_invert(
                        old(self).process_options.axes,
                        c,
                        invert_of(old(self).auto_axes, c) != flipped,
                    ),
                    ..old(self).process_options
                },
                dirty: true,
                ..*old(self)
            }),
            final(self).opposite(c) == flipped,
    {
        let auto: bool = match c {
            Channel::Lateral => self.auto_axes.invert_lateral,
            Channel::Longitudinal => self.auto_axes.invert_longitudinal,
            Channel::Vertical => self.auto_axes.invert_vertical,
        };
        self.set_invert(c, auto != flipped);
    }

    /// The guessed axes are taken again.
    pub fn reset_axes(&mut self)
        ensures
            *final(self) == (Session {
                process_options: ProcessOptions {
                    axes: old(self).auto_axes,
                    ..old(self).process_options
                },
                dirty: true,
                ..*old(self)
            }),
    {
        self.process_options.axes = self.auto_axes;
        self.dirty = true;
    }

    /// Levelling is switched.
    pub fn set_level(&mut self, level: bool)
        ensures
            *final(self) == (Session {
                process_options: ProcessOptions { level, ..old(self).process_options },
                dirty: true,
                ..*old(self)
            }),
    {
        self.process_options.level = level;
        self.dirty = true;
    }

    /// Another window of the moving average is chosen, in seconds.
    pub fn set_window(&mut self, seconds: Binary64)
        ensures
            *final(self) == (Session {
                process_options: ProcessOptions {
                    highpass_window: seconds,
                    ..old(self).process_options
                },
                dirty: true,
                ..*old(self)
            }),
    {
        self.process_options.highpass_window = seconds;
        self.dirty = true;
    }

    /// A format is selected or not.
    pub fn select(&mut self, f: Format, on: bool)
        ensures
            final(self).selected@ == old(self).selected@.update(place_of(f), on),
            final(self).wants(f) == on,
            final(self).state == old(self).state,
            final(self).process_options == old(self).process_options,
            final(self).auto_axes == old(self).auto_axes,
            final(self).export_options == old(self).export_options,
            final(self).rate_choice == old(self).rate_choice,
            final(self).processed == old(self).processed,
            final(self).dirty == old(self).dirty,
    {
        self.selected[place(f)] = on;
    }

    /// Formats that cannot be produced from the telemetry are not selected any
    /// more.
    pub fn drop_unavailable(&mut self, telemetry: &Telemetry)
        ensures
            forall|f: Format| #[trigger]
                final(self).wants(f) == (old(self).wants(f) && export::obstacle(f, *telemetry)
                    is None),
            final(self).state == old(self).state,
            final(self).process_options == old(self).process_options,
            final(self).auto_axes == old(self).auto_axes,
            final(self).export_options == old(self).export_options,
            final(self).rate_choice == old(self).rate_choice,
            final(self).processed == old(self).processed,
            final(self).dirty == old(self).dirty,
    {
        let csv: bool = export::availability(Format::Csv, telemetry).is_ok();
        let srt: bool = export::availability(Format::Srt, telemetry).is_ok();
        let vbo: bool = export::availability(Format::Vbo, telemetry).is_ok();
        let gpx: bool = export::availability(Format::Gpx, telemetry).is_ok();
        let fit: bool = export::availability(Format::Fit, telemetry).is_ok();
        let igc: bool = export::availability(Format::Igc, telemetry).is_ok();
        let selected: [bool; 6] = [
            self.selected[0] && csv,
            self.selected[1] && srt,
            self.selected[2] && vbo,
            self.selected[3] && gpx,
            self.selected[4] && fit,
            self.selected[5] && igc,
        ];
        self.selected = selected;
    }

    /// Whether a format is selected.
    pub fn is_selected(&self, f: Format) -> (r: bool)
        ensures
            r == self.wants(f),
    {
        self.selected[place(f)]
    }

    /// Whether the export can start.
    pub fn can_export(&self) -> (r: bool)
        ensures
            r == self.ready(),
    {
        let any: bool = self.selected[0] || self.selected[1] || self.selected[2]
            || self.selected[3] || self.selected[4] || self.selected[5];
        proof {
            if any {
                if self.selected@[0] {
                    assert(self.wants(Format::Csv));
                } else if self.selected@[1] {
                    assert(self.wants(Format::Srt));
                } else if self.selected@[2] {
                    assert(self.wants(Format::Vbo));
                } else if self.selected@[3] {
                    assert(self.wants(Format::Gpx));
                } else if self.selected@[4] {
                    assert(self.wants(Format::Fit));
                } else {
                    assert(self.wants(Format::Igc));
                }
            }
        }
        any && self.process_options.axes.is_permutation()
    }

    /// The options of the export, with the chosen rate.
    pub fn export_options(&self) -> (r: ExportOptions)
        ensures
            r == (ExportOptions { rate: self.rate_choice.chosen(), ..self.export_options }),
    {
        let mut o: ExportOptions = self.export_options;
        o.rate = self.rate_choice.rate();
        o
    }
}

/// A clip whose axes were guessed can be exported, as long as CSV is selected.
pub proof fn fresh_clip_is_ready(s: Session, medians: process::Vector64)
    requires
        s.process_options.axes == process::guessed_map(medians),
        s.wants(Format::Csv),
    ensures
        s.ready(),
{
    process::guessed_map_is_a_permutation(medians, Axis::X);
}

/// The text about a file that was written, with its size in kilobytes, rounded up.
pub fn written_line(w: &Written) -> (r: String)
    ensures
        r@ == w.format.text() + " → "@ + w.path@ + " ("@ + text::decimal(w.rows as nat)
            + " rows, "@ + text::decimal(((w.bytes + 1023) / 1024) as nat) + " KB)"@,
{
    let kilobytes: u64 = if w.bytes % 1024 == 0 {
        (w.bytes / 1024) as u64
    } else {
        (w.bytes / 1024) as u64 + 1
    };
    let mut out: String = String::from_str(w.format.label());
    out.append(" → ");
    out.append(w.path.as_str());
    out.append(" (");
    out.append(text::decimal_text(w.rows as u64).as_str());
    out.append(" rows, ");
    out.append(text::decimal_text(kilobytes).as_str());
    out.append(" KB)");
    out
}

} // verus!
