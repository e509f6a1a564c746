//! What a live graph of a scan shows: its traces, axes and labels.
//!
//! A point is kept as the place of its frequency within the range and the bits
//! of its value; scaling it to the screen is left to whoever paints it.
use vstd::prelude::*;
use vstd::slice::slice_subrange;

use crate::binary64::Binary64;
use crate::text;

verus! {

/// How many labels an axis has.
pub const AXIS_TICKS: usize = 5;

/// How many points of a trace are kept, the last one apart.
pub const MAX_TRACE_POINTS: usize = 1_200;

/// One point of a trace: `offset_hz` out of `span_hz` along the axis.
#[derive(Clone, Copy, Debug, PartialEq, Eq, Structural)]
pub struct PlotPoint {
    pub offset_hz: u64,
    pub span_hz: u64,
    pub value: Binary64,
}

/// What kind of event a name stands for.
#[derive(Clone, Copy, Debug, PartialEq, Eq, Structural)]
pub enum GraphEventKind {
    Started,
    Sample,
    Completed,
    Stopped,
    Other,
}

pub open spec fn event_kind(name: Seq<char>) -> GraphEventKind {
    if name == "scan_started"@ {
        GraphEventKind::Started
    } else if name == "scan_sample"@ {
        GraphEventKind::Sample
    } else if name == "scan_completed"@ {
        GraphEventKind::Completed
    } else if name == "cancellation_requested"@ || name == "scan_cancelled"@ || name
        == "scan_failed"@ {
        GraphEventKind::Stopped
    } else {
        GraphEventKind::Other
    }
}

pub fn event_kind_of(name: &str) -> (kind: GraphEventKind)
    ensures
        kind == event_kind(name@),
{
    if text::equal(name, "scan_started") {
        GraphEventKind::Started
    } else if text::equal(name, "scan_sample") {
        GraphEventKind::Sample
    } else if text::equal(name, "scan_completed") {
        GraphEventKind::Completed
    } else if text::equal(name, "cancellation_requested") || text::equal(name, "scan_cancelled")
        || text::equal(name, "scan_failed") {
        GraphEventKind::Stopped
    } else {
        GraphEventKind::Other
    }
}

/// The values of one sample, each if it is there and finite.
#[derive(Clone, Copy, Debug, PartialEq, Eq, Structural)]
pub struct SampleValues {
    pub loss: Option<Binary64>,
    pub phase: Option<Binary64>,
    pub resistance: Option<Binary64>,
    pub swr: Option<Binary64>,
    pub reactance: Option<Binary64>,
    pub impedance: Option<Binary64>,
    pub theta: Option<Binary64>,
}

/// An event as the graph sees it. What the event does not say is missing.
#[derive(Clone, Copy, Debug, PartialEq, Eq, Structural)]
pub enum GraphEvent {
    Started { points: Option<usize>, start_hz: Option<u64>, stop_hz: Option<u64> },
    Sample {
        point: Option<usize>,
        total_points: Option<usize>,
        frequency_hz: Option<u64>,
        values: SampleValues,
    },
    Completed,
    Stopped,
    Other,
}

/// What is shown.
#[derive(Clone, Debug)]
pub struct GraphSnapshot {
    pub frequency_start_hz: u64,
    pub frequency_stop_hz: u64,
    pub loss: Vec<PlotPoint>,
    pub phase: Vec<PlotPoint>,
    pub resistance: Vec<PlotPoint>,
    pub swr: Vec<PlotPoint>,
    pub reactance: Vec<PlotPoint>,
    pub impedance: Vec<PlotPoint>,
    pub theta: Vec<PlotPoint>,
    pub finished: bool,
    pub close_requested: bool,
}

/// The graph of a scan as it grows.
#[derive(Clone, Debug)]
pub struct GraphTelemetry {
    pub snapshot: GraphSnapshot,
    pub total_points: usize,
    pub sample_stride: usize,
}

pub open spec fn or_else<T>(value: Option<T>, default: T) -> T {
    match value {
        Some(value) => value,
        None => default,
    }
}

pub open spec fn at_least_one(value: int) -> int {
    if value < 1 {
        1
    } else {
        value
    }
}

/// Every how many points one is kept, so that a trace has at most
/// `MAX_TRACE_POINTS` of them.
pub open spec fn stride_of(total_points: usize) -> int {
    at_least_one((total_points + MAX_TRACE_POINTS - 1) / MAX_TRACE_POINTS as int)
}

/// Whether the point with this number, counted from one, is kept: the first,
/// the last, and those that a whole number of strides follows the first.
pub open spec fn is_kept(point: usize, total_points: usize, stride: usize) -> bool {
    point <= 1 || point == total_points || (point - 1) % stride as int == 0
}

/// A trace with one more value, if there is one that can be painted.
pub open spec fn extended(
    trace: Seq<PlotPoint>,
    offset_hz: u64,
    span_hz: u64,
    value: Option<Binary64>,
) -> Seq<PlotPoint> {
    match value {
        Some(value) => if value.magnitude() < crate::binary64::SINGLE_OVERFLOW_BITS {
            trace.push(PlotPoint { offset_hz, span_hz, value })
        } else {
            trace
        },
        None => trace,
    }
}

pub open spec fn distance(from: u64, to: u64) -> u64 {
    if to >= from {
        (to - from) as u64
    } else {
        0
    }
}

impl GraphSnapshot {
    pub open spec fn cleared(self) -> bool {
        &&& self.loss@.len() == 0
        &&& self.phase@.len() == 0
        &&& self.resistance@.len() == 0
        &&& self.swr@.len() == 0
        &&& self.reactance@.len() == 0
        &&& self.impedance@.len() == 0
        &&& self.theta@.len() == 0
    }

    /// All traces are those of `other`.
    pub open spec fn same_traces(self, other: GraphSnapshot) -> bool {
        &&& self.loss@ == other.loss@
        &&& self.phase@ == other.phase@
        &&& self.resistance@ == other.resistance@
        &&& self.swr@ == other.swr@
        &&& self.reactance@ == other.reactance@
        &&& self.impedance@ == other.impedance@
        &&& self.theta@ == other.theta@
    }

    /// The traces are those of `before` with the values of one sample.
    pub open spec fn extends(
        self,
        before: GraphSnapshot,
        offset_hz: u64,
        span_hz: u64,
        values: SampleValues,
    ) -> bool {
        &&& self.loss@ == extended(before.loss@, offset_hz, span_hz, values.loss)
        &&& self.phase@ == extended(before.phase@, offset_hz, span_hz, values.phase)
        &&& self.resistance@ == extended(
            before.resistance@,
            offset_hz,
            span_hz,
            values.resistance,
        )
        &&& self.swr@ == extended(before.swr@, offset_hz, span_hz, values.swr)
        &&& self.reactance@ == extended(before.reactance@, offset_hz, span_hz, values.reactance)
        &&& self.impedance@ == extended(before.impedance@, offset_hz, span_hz, values.impedance)
        &&& self.theta@ == extended(before.theta@, offset_hz, span_hz, values.theta)
    }

    /// The range and the two flags are those of `other`.
    pub open spec fn same_frame(self, other: GraphSnapshot) -> bool {
        &&& self.frequency_start_hz == other.frequency_start_hz
        &&& self.frequency_stop_hz == other.frequency_stop_hz
        &&& self.finished == other.finished
        &&& self.close_requested == other.close_requested
    }

    /// A snapshot without traces.
    pub fn empty(finished: bool, close_requested: bool) -> (snapshot: GraphSnapshot)
        ensures
            snapshot.cleared(),
            snapshot.frequency_start_hz == 0,
            snapshot.frequency_stop_hz == 0,
            snapshot.finished == finished,
            snapshot.close_requested == close_requested,
    {
        GraphSnapshot {
            frequency_start_hz: 0,
            frequency_stop_hz: 0,
            loss: Vec::new(),
            phase: Vec::new(),
            resistance: Vec::new(),
            swr: Vec::new(),
            reactance: Vec::new(),
            impedance: Vec::new(),
            theta: Vec::new(),
            finished,
            close_requested,
        }
    }

    /// What is shown if the graph cannot be read: nothing, and it closes.
    pub fn failed() -> (snapshot: GraphSnapshot)
        ensures
            snapshot.cleared(),
            snapshot.frequency_start_hz == 0,
            snapshot.frequency_stop_hz == 0,
            snapshot.finished,
            snapshot.close_requested,
    {
        GraphSnapshot::empty(true, true)
    }
}

fn push_value(trace: &mut Vec<PlotPoint>, offset_hz: u64, span_hz: u64, value: Option<Binary64>)
    ensures
        final(trace)@ == extended(old(trace)@, offset_hz, span_hz, value),
{
    if let Some(value) = value {
        if value.fits_single() {
            trace.push(PlotPoint { offset_hz, span_hz, value });
        }
    }
}

impl GraphTelemetry {
    pub open spec fn valid(self) -> bool {
        self.sample_stride >= 1
    }

    /// `self` is `before` after `event`.
    pub open spec fn follows(self, before: GraphTelemetry, event: GraphEvent) -> bool {
        match event {
            GraphEvent::Started { points, start_hz, stop_hz } => {
                &&& self.total_points == or_else(points, 0)
                &&& self.sample_stride == stride_of(or_else(points, 0))
                &&& self.snapshot.frequency_start_hz == or_else(start_hz, 0)
                &&& self.snapshot.frequency_stop_hz == or_else(stop_hz, 0)
                &&& self.snapshot.cleared()
                &&& !self.snapshot.finished
                &&& !self.snapshot.close_requested
            },
            GraphEvent::Sample { point, total_points, frequency_hz, values } => {
                let start = before.snapshot.frequency_start_hz;
                let stop = before.snapshot.frequency_stop_hz;
                &&& self.total_points == before.total_points
                &&& self.sample_stride == before.sample_stride
                &&& self.snapshot.same_frame(before.snapshot)
                &&& if is_kept(
                    or_else(point, 0),
                    at_least_one(or_else(total_points, before.total_points) as int) as usize,
                    before.sample_stride,
                ) {
                    self.snapshot.extends(
                        before.snapshot,
                        distance(start, or_else(frequency_hz, start)),
                        at_least_one(distance(start, stop) as int) as u64,
                        values,
                    )
                } else {
                    self.snapshot.same_traces(before.snapshot)
                }
            },
            GraphEvent::Completed | GraphEvent::Stopped => {
                &&& self.total_points == before.total_points
                &&& self.sample_stride == before.sample_stride
                &&& self.snapshot.same_traces(before.snapshot)
                &&& self.snapshot.frequency_start_hz == before.snapshot.frequency_start_hz
                &&& self.snapshot.frequency_stop_hz == before.snapshot.frequency_stop_hz
                &&& self.snapshot.finished
                &&& self.snapshot.close_requested == (event == GraphEvent::Stopped
                    || before.snapshot.close_requested)
            },
            GraphEvent::Other => self == before,
        }
    }

    /// A graph before its scan.
    pub fn new() -> (telemetry: GraphTelemetry)
        ensures
            telemetry.valid(),
            telemetry.snapshot.cleared(),
            telemetry.snapshot.frequency_start_hz == 0,
            telemetry.snapshot.frequency_stop_hz == 0,
            !telemetry.snapshot.finished,
            !telemetry.snapshot.close_requested,
            telemetry.total_points == 0,
            telemetry.sample_stride == 1,
    {
        GraphTelemetry {
            snapshot: GraphSnapshot::empty(false, false),
            total_points: 0,
            sample_stride: 1,
        }
    }

    /// Takes in an event.
    pub fn observe(&mut self, event: &GraphEvent)
        requires
            old(self).valid(),
        ensures
            final(self).valid(),
            final(self).follows(*old(self), *event),
    {
        match *event {
            GraphEvent::Started { points, start_hz, stop_hz } => {
                let total: usize = match points {
                    Some(points) => points,
                    None => 0,
                };
                let whole: usize = total / MAX_TRACE_POINTS;
                let stride: usize = if total % MAX_TRACE_POINTS != 0 {
                    whole + 1
                } else {
                    whole
                };
                self.total_points = total;
                self.sample_stride = if stride < 1 {
                    1
                } else {
                    stride
                };
                self.snapshot = GraphSnapshot::empty(false, false);
                self.snapshot.frequency_start_hz = match start_hz {
                    Some(start_hz) => start_hz,
                    None => 0,
                };
                self.snapshot.frequency_stop_hz = match stop_hz {
                    Some(stop_hz) => stop_hz,
                    None => 0,
                };
            },
            GraphEvent::Sample { point, total_points, frequency_hz, values } => {
                let number: usize = match point {
                    Some(point) => point,
                    None => 0,
                };
                let stated: usize = match total_points {
                    Some(total_points) => total_points,
                    None => self.total_points,
                };
                let total: usize = if stated < 1 {
                    1
                } else {
                    stated
                };
                let kept: bool = number <= 1 || number == total || (number - 1) % self.sample_stride
                    == 0;
                if !kept {
                    return;
                }
                let start: u64 = self.snapshot.frequency_start_hz;
                let stop: u64 = self.snapshot.frequency_stop_hz;
                let frequency: u64 = match frequency_hz {
                    Some(frequency_hz) => frequency_hz,
                    None => start,
                };
                let range: u64 = stop.saturating_sub(start);
                let span: u64 = if range < 1 {
                    1
                } else {
                    range
                };
                let offset: u64 = frequency.saturating_sub(start);
                push_value(&mut self.snapshot.loss, offset, span, values.loss);
                push_value(&mut self.snapshot.phase, offset, span, values.phase);
                push_value(&mut self.snapshot.resistance, offset, span, values.resistance);
                push_value(&mut self.snapshot.swr, offset, span, values.swr);
                push_value(&mut self.snapshot.reactance, offset, span, values.reactance);
                push_value(&mut self.snapshot.impedance, offset, span, values.impedance);
                push_value(&mut self.snapshot.theta, offset, span, values.theta);
            },
            GraphEvent::Completed => {
                self.snapshot.finished = true;
            },
            GraphEvent::Stopped => {
                self.snapshot.finished = true;
                self.snapshot.close_requested = true;
            },
            GraphEvent::Other => {},
        }
    }

    /// The work behind the graph is over, and so is the graph.
    pub fn finish_and_close(&mut self)
        requires
            old(self).valid(),
        ensures
            final(self).valid(),
            final(self).follows(*old(self), GraphEvent::Stopped),
    {
        self.snapshot.finished = true;
        self.snapshot.close_requested = true;
    }
}

// ---------------------------------------------------------------------------
// Traces and axes
// ---------------------------------------------------------------------------
#[derive(Clone, Copy, Debug, PartialEq, Eq, Structural)]
pub enum AxisUnit {
    Decibels,
    Degrees,
    Ohms,
    Swr,
}

impl AxisUnit {
    pub open spec fn suffix_text(self) -> Seq<char> {
        match self {
            AxisUnit::Decibels => " dB"@,
            AxisUnit::Degrees => "°"@,
            AxisUnit::Ohms => " Ω"@,
            AxisUnit::Swr => ":1"@,
        }
    }

    /// What stands behind a number on the axis.
    pub fn suffix(self) -> (suffix: &'static str)
        ensures
            suffix@ == self.suffix_text(),
    {
        match self {
            AxisUnit::Decibels => " dB",
            AxisUnit::Degrees => "°",
            AxisUnit::Ohms => " Ω",
            AxisUnit::Swr => ":1",
        }
    }
}

/// A number on an axis with its unit.
pub open spec fn axis_label(number: Seq<char>, unit: AxisUnit) -> Seq<char> {
    number + unit.suffix_text()
}

pub fn format_axis_value(number: &str, unit: AxisUnit) -> (label: String)
    ensures
        label@ == axis_label(number@, unit),
{
    let mut label: String = String::new();
    label.append(number);
    label.append(unit.suffix());
    assert(label@ =~= number@ + unit.suffix_text());
    label
}

#[derive(Clone, Copy, Debug, PartialEq, Eq, Structural)]
pub enum TraceKind {
    ReturnLoss,
    Phase,
    Resistance,
    Swr,
    Reactance,
    Impedance,
    Theta,
}

impl TraceKind {
    /// All traces in the order in which they are listed.
    pub fn all() -> (kinds: Vec<TraceKind>)
        ensures
            kinds@.len() == 7,
            forall|i: int|
                0 <= i < 7 ==> (#[trigger] kinds@[i]).place() == i,
    {
        let mut kinds: Vec<TraceKind> = Vec::new();
        kinds.push(TraceKind::ReturnLoss);
        kinds.push(TraceKind::Phase);
        kinds.push(TraceKind::Resistance);
        kinds.push(TraceKind::Swr);
        kinds.push(TraceKind::Reactance);
        kinds.push(TraceKind::Impedance);
        kinds.push(TraceKind::Theta);
        kinds
    }

    pub open spec fn place(self) -> int {
        match self {
            TraceKind::ReturnLoss => 0,
            TraceKind::Phase => 1,
            TraceKind::Resistance => 2,
            TraceKind::Swr => 3,
            TraceKind::Reactance => 4,
            TraceKind::Impedance => 5,
            TraceKind::Theta => 6,
        }
    }

    pub fn index(self) -> (index: usize)
        ensures
            index == self.place(),
    {
        match self {
            TraceKind::ReturnLoss => 0,
            TraceKind::Phase => 1,
            TraceKind::Resistance => 2,
            TraceKind::Swr => 3,
            TraceKind::Reactance => 4,
            TraceKind::Impedance => 5,
            TraceKind::Theta => 6,
        }
    }

    pub open spec fn text(self) -> Seq<char> {
        match self {
            TraceKind::ReturnLoss => "Return Loss (dB)"@,
            TraceKind::Phase => "Phase (°)"@,
            TraceKind::Resistance => "Rs (Ω)"@,
            TraceKind::Swr => "SWR"@,
            TraceKind::Reactance => "Xs (Ω)"@,
            TraceKind::Impedance => "|Z| (Ω)"@,
            TraceKind::Theta => "Theta (°)"@,
        }
    }

    pub fn label(self) -> (label: &'static str)
        ensures
            label@ == self.text(),
    {
        match self {
            TraceKind::ReturnLoss => "Return Loss (dB)",
            TraceKind::Phase => "Phase (°)",
            TraceKind::Resistance => "Rs (Ω)",
            TraceKind::Swr => "SWR",
            TraceKind::Reactance => "Xs (Ω)",
            TraceKind::Impedance => "|Z| (Ω)",
            TraceKind::Theta => "Theta (°)",
        }
    }

    pub open spec fn unit(self) -> AxisUnit {
        match self {
            TraceKind::ReturnLoss => AxisUnit::Decibels,
            TraceKind::Phase | TraceKind::Theta => AxisUnit::Degrees,
            TraceKind::Resistance | TraceKind::Reactance | TraceKind::Impedance => AxisUnit::Ohms,
            TraceKind::Swr => AxisUnit::Swr,
        }
    }

    /// The axis that the trace belongs to.
    pub fn axis_unit(self) -> (unit: AxisUnit)
        ensures
            unit == self.unit(),
    {
        match self {
            TraceKind::ReturnLoss => AxisUnit::Decibels,
            TraceKind::Phase | TraceKind::Theta => AxisUnit::Degrees,
            TraceKind::Resistance | TraceKind::Reactance | TraceKind::Impedance => AxisUnit::Ohms,
            TraceKind::Swr => AxisUnit::Swr,
        }
    }

    pub open spec fn rgb(self) -> u32 {
        match self {
            TraceKind::ReturnLoss => 0x00ae6b,
            TraceKind::Phase => 0xf2283c,
            TraceKind::Resistance => 0x277dff,
            TraceKind::Swr => 0xffc200,
            TraceKind::Reactance => 0xd72e82,
            TraceKind::Impedance => 0x875afb,
            TraceKind::Theta => 0xff7a00,
        }
    }

    /// The colour of the trace: red, green and blue, a byte each.
    pub fn color(self) -> (color: u32)
        ensures
            color == self.rgb(),
    {
        match self {
            TraceKind::ReturnLoss => 0x00ae6b,
            TraceKind::Phase => 0xf2283c,
            TraceKind::Resistance => 0x277dff,
            TraceKind::Swr => 0xffc200,
            TraceKind::Reactance => 0xd72e82,
            TraceKind::Impedance => 0x875afb,
            TraceKind::Theta => 0xff7a00,
        }
    }

    pub open spec fn trace(self, snapshot: GraphSnapshot) -> Seq<PlotPoint> {
        match self {
            TraceKind::ReturnLoss => snapshot.loss@,
            TraceKind::Phase => snapshot.phase@,
            TraceKind::Resistance => snapshot.resistance@,
            TraceKind::Swr => snapshot.swr@,
            TraceKind::Reactance => snapshot.reactance@,
            TraceKind::Impedance => snapshot.impedance@,
            TraceKind::Theta => snapshot.theta@,
        }
    }

    /// The points of the trace.
    pub fn points(self, snapshot: &GraphSnapshot) -> (points: &Vec<PlotPoint>)
        ensures
            points@ == self.trace(*snapshot),
    {
        match self {
            TraceKind::ReturnLoss => &snapshot.loss,
            TraceKind::Phase => &snapshot.phase,
            TraceKind::Resistance => &snapshot.resistance,
            TraceKind::Swr => &snapshot.swr,
            TraceKind::Reactance => &snapshot.reactance,
            TraceKind::Impedance => &snapshot.impedance,
            TraceKind::Theta => &snapshot.theta,
        }
    }
}

/// Those of the first `n` traces that are switched on, in the order in which
/// they are listed.
pub open spec fn visible_of(kinds: Seq<TraceKind>, visible: Seq<bool>, n: int) -> Seq<TraceKind>
    decreases n,
{
    if n <= 0 {
        Seq::empty()
    } else if visible[n - 1] {
        visible_of(kinds, visible, n - 1).push(kinds[n - 1])
    } else {
        visible_of(kinds, visible, n - 1)
    }
}

/// The traces that are switched on, given the switch of each.
pub fn visible_traces(kinds: &Vec<TraceKind>, visible: &Vec<bool>) -> (shown: Vec<TraceKind>)
    requires
        visible@.len() == kinds@.len(),
    ensures
        shown@ == visible_of(kinds@, visible@, kinds@.len() as int),
{
    let mut shown: Vec<TraceKind> = Vec::new();
    let mut i: usize = 0;
    while i < kinds.len()
        invariant
            i <= kinds.len(),
            visible@.len() == kinds@.len(),
            shown@ == visible_of(kinds@, visible@, i as int),
        decreases kinds.len() - i,
    {
        if visible[i] {
            shown.push(kinds[i]);
        }
        i = i + 1;
    }
    shown
}

/// Whether the window closes: the scan asked for it, or the user did.
pub fn closes(snapshot: &GraphSnapshot, interrupted: bool) -> (answer: bool)
    ensures
        answer == (snapshot.close_requested || interrupted),
{
    snapshot.close_requested || interrupted
}

/// One of the traces belongs to the axis `unit`.
pub open spec fn uses_axis(kinds: Seq<TraceKind>, unit: AxisUnit) -> bool {
    exists|i: int| 0 <= i < kinds.len() && (#[trigger] kinds[i]).unit() == unit
}

/// The axis `unit`, if one of the traces needs it.
pub open spec fn axis_if_used(kinds: Seq<TraceKind>, unit: AxisUnit) -> Seq<AxisUnit> {
    if uses_axis(kinds, unit) {
        seq![unit]
    } else {
        Seq::empty()
    }
}

/// The axes that the traces need, each once and in a fixed order.
pub open spec fn axes_of(kinds: Seq<TraceKind>) -> Seq<AxisUnit> {
    axis_if_used(kinds, AxisUnit::Decibels) + axis_if_used(kinds, AxisUnit::Degrees)
        + axis_if_used(kinds, AxisUnit::Ohms) + axis_if_used(kinds, AxisUnit::Swr)
}

fn push_axis(axes: &mut Vec<AxisUnit>, kinds: &Vec<TraceKind>, unit: AxisUnit)
    ensures
        final(axes)@ == old(axes)@ + axis_if_used(kinds@, unit),
{
    let mut i: usize = 0;
    while i < kinds.len()
        invariant
            *axes == *old(axes),
            i <= kinds.len(),
            forall|k: int| 0 <= k < i ==> (#[trigger] kinds@[k]).unit() != unit,
        decreases kinds.len() - i,
    {
        if kinds[i].axis_unit() == unit {
            assert(kinds@[i as int].unit() == unit);
            axes.push(unit);
            assert(axes@ =~= old(axes)@ + axis_if_used(kinds@, unit));
            return;
        }
        i = i + 1;
    }
    assert(axes@ =~= old(axes)@ + axis_if_used(kinds@, unit));
}

/// The axes that the traces need.
pub fn axis_units(kinds: &Vec<TraceKind>) -> (axes: Vec<AxisUnit>)
    ensures
        axes@ == axes_of(kinds@),
{
    let mut axes: Vec<AxisUnit> = Vec::new();
    push_axis(&mut axes, kinds, AxisUnit::Decibels);
    push_axis(&mut axes, kinds, AxisUnit::Degrees);
    push_axis(&mut axes, kinds, AxisUnit::Ohms);
    push_axis(&mut axes, kinds, AxisUnit::Swr);
    assert(axes@ =~= axes_of(kinds@));
    axes
}

#[derive(Clone, Copy, Debug, PartialEq, Eq, Structural)]
pub enum FrequencyUnit {
    Hertz,
    Kilohertz,
    Megahertz,
    Gigahertz,
}

impl FrequencyUnit {
    pub open spec fn hertz(self) -> u64 {
        match self {
            FrequencyUnit::Hertz => 1,
            FrequencyUnit::Kilohertz => 1_000,
            FrequencyUnit::Megahertz => 1_000_000,
            FrequencyUnit::Gigahertz => 1_000_000_000,
        }
    }

    pub open spec fn of(frequency_hz: u64) -> FrequencyUnit {
        if frequency_hz >= 1_000_000_000 {
            FrequencyUnit::Gigahertz
        } else if frequency_hz >= 1_000_000 {
            FrequencyUnit::Megahertz
        } else if frequency_hz >= 1_000 {
            FrequencyUnit::Kilohertz
        } else {
            FrequencyUnit::Hertz
        }
    }

    /// The largest unit that the frequency holds at least one of.
    pub fn for_frequency(frequency_hz: u64) -> (unit: FrequencyUnit)
        ensures
            unit == FrequencyUnit::of(frequency_hz),
    {
        if frequency_hz >= 1_000_000_000 {
            FrequencyUnit::Gigahertz
        } else if frequency_hz >= 1_000_000 {
            FrequencyUnit::Megahertz
        } else if frequency_hz >= 1_000 {
            FrequencyUnit::Kilohertz
        } else {
            FrequencyUnit::Hertz
        }
    }

    /// How many hertz the unit is.
    pub fn divisor(self) -> (divisor: u64)
        ensures
            divisor == self.hertz(),
    {
        match self {
            FrequencyUnit::Hertz => 1,
            FrequencyUnit::Kilohertz => 1_000,
            FrequencyUnit::Megahertz => 1_000_000,
            FrequencyUnit::Gigahertz => 1_000_000_000,
        }
    }

    pub open spec fn text(self) -> Seq<char> {
        match self {
            FrequencyUnit::Hertz => "Hz"@,
            FrequencyUnit::Kilohertz => "kHz"@,
            FrequencyUnit::Megahertz => "MHz"@,
            FrequencyUnit::Gigahertz => "GHz"@,
        }
    }

    pub fn suffix(self) -> (suffix: &'static str)
        ensures
            suffix@ == self.text(),
    {
        match self {
            FrequencyUnit::Hertz => "Hz",
            FrequencyUnit::Kilohertz => "kHz",
            FrequencyUnit::Megahertz => "MHz",
            FrequencyUnit::Gigahertz => "GHz",
        }
    }

    /// The unit of an axis that shows a range.
    pub open spec fn of_range(start_hz: u64, stop_hz: u64) -> FrequencyUnit {
        FrequencyUnit::of(
            if start_hz > stop_hz {
                start_hz
            } else {
                stop_hz
            },
        )
    }

    pub fn for_range(start_hz: u64, stop_hz: u64) -> (unit: FrequencyUnit)
        ensures
            unit == FrequencyUnit::of_range(start_hz, stop_hz),
    {
        FrequencyUnit::for_frequency(
            if start_hz > stop_hz {
                start_hz
            } else {
                stop_hz
            },
        )
    }
}

/// `s` without the zeros that it ends in.
pub open spec fn without_zeros(s: Seq<char>) -> Seq<char>
    decreases s.len(),
{
    if s.len() > 0 && s.last() == '0' {
        without_zeros(s.drop_last())
    } else {
        s
    }
}

/// A number in fixed notation without decimal places that say nothing.
pub open spec fn shortened(number: Seq<char>) -> Seq<char> {
    if text::position(number, '.') < number.len() {
        let trimmed = without_zeros(number);
        if trimmed.len() > 0 && trimmed.last() == '.' {
            trimmed.drop_last()
        } else {
            trimmed
        }
    } else {
        number
    }
}

/// The label of a frequency of which `number` is the fixed notation in `unit`.
pub open spec fn frequency_label(number: Seq<char>, unit: FrequencyUnit) -> Seq<char> {
    shortened(number) + " "@ + unit.text()
}

pub fn format_frequency(number: &str, unit: FrequencyUnit) -> (label: String)
    ensures
        label@ == frequency_label(number@, unit),
{
    let chars: Vec<char> = text::chars_of(number);
    let all: &[char] = chars.as_slice();
    let mut length: usize = all.len();
    proof {
        assert(all@.take(length as int) =~= all@);
    }
    if text::find(all, '.') < all.len() {
        while length > 0 && all[length - 1] == '0'
            invariant
                length <= all@.len(),
                without_zeros(all@) == without_zeros(all@.take(length as int)),
            decreases length,
        {
            proof {
                assert(all@.take(length as int).drop_last() =~= all@.take(length - 1));
            }
            length = length - 1;
        }
        assert(without_zeros(all@) == all@.take(length as int));
        if length > 0 && all[length - 1] == '.' {
            proof {
                assert(all@.take(length as int).drop_last() =~= all@.take(length - 1));
            }
            length = length - 1;
        }
    }
    let shown: &[char] = slice_subrange(all, 0, length);
    assert(shown@ =~= shortened(number@));
    let mut label: String = String::new();
    text::push_chars(&mut label, shown);
    label.append(" ");
    label.append(unit.suffix());
    assert(label@ =~= shortened(number@) + " "@ + unit.text());
    label
}

/// The frequency at a tick: the range is divided evenly, rounded down to whole
/// hertz. What passes the largest number stays there.
pub open spec fn tick_frequency(start: u64, stop: u64, index: usize) -> int {
    let offset = distance(start, stop) * index / (AXIS_TICKS - 1);
    let sum = start + offset % 0x1_0000_0000_0000_0000;
    if sum > u64::MAX {
        u64::MAX as int
    } else {
        sum
    }
}

pub fn interpolate_frequency(start: u64, stop: u64, index: usize) -> (frequency_hz: u64)
    ensures
        frequency_hz == tick_frequency(start, stop, index),
{
    let span: u128 = stop.saturating_sub(start) as u128;
    assert(span * index <= 0xffff_ffff_ffff_ffff * 0xffff_ffff_ffff_ffff) by (nonlinear_arith)
        requires
            0 <= span <= 0xffff_ffff_ffff_ffff,
            0 <= index <= 0xffff_ffff_ffff_ffff,
    ;
    let offset: u128 = span * index as u128 / (AXIS_TICKS - 1) as u128;
    let low: u128 = offset % 0x1_0000_0000_0000_0000;
    start.saturating_add(low as u64)
}

// ---------------------------------------------------------------------------
// Laws
// ---------------------------------------------------------------------------
/// The ticks of an axis start at the start of the range, end at its end and
/// never run backwards.
pub proof fn law_ticks_cover_the_range(start: u64, stop: u64, index: usize)
    requires
        start <= stop,
        index < AXIS_TICKS,
    ensures
        tick_frequency(start, stop, 0) == start,
        tick_frequency(start, stop, (AXIS_TICKS - 1) as usize) == stop,
        start <= tick_frequency(start, stop, index) <= stop,
        index + 1 < AXIS_TICKS ==> tick_frequency(start, stop, index) <= tick_frequency(
            start,
            stop,
            (index + 1) as usize,
        ),
{
    let span = distance(start, stop) as int;
    assert(span * 0 == 0 && span * 1 == span && span * 2 == span + span && span * 3 == span + span
        + span && span * 4 == span + span + span + span) by (nonlinear_arith);
    assert(index == 0 || index == 1 || index == 2 || index == 3 || index == 4);
}

/// How many of the points `1..=n` of a scan are kept.
pub open spec fn kept_count(n: nat, total_points: usize, stride: usize) -> nat
    decreases n,
{
    if n == 0 {
        0
    } else {
        kept_count((n - 1) as nat, total_points, stride) + if is_kept(
            n as usize,
            total_points,
            stride,
        ) {
            1nat
        } else {
            0nat
        }
    }
}

/// A trace keeps the first and the last point of a scan and has at most one
/// point more than its limit.
pub proof fn law_traces_are_bounded(total_points: usize)
    requires
        total_points >= 1,
    ensures
        is_kept(1, total_points, stride_of(total_points) as usize),
        is_kept(total_points, total_points, stride_of(total_points) as usize),
        kept_count(total_points as nat, total_points, stride_of(total_points) as usize)
            <= MAX_TRACE_POINTS + 1,
{
    let stride = stride_of(total_points);
    assert(stride * MAX_TRACE_POINTS >= total_points);
    lemma_kept((total_points - 1) as nat, total_points, stride as usize);
    let q = (total_points - 2) / stride;
    if total_points >= 2 {
        assert(q < MAX_TRACE_POINTS) by (nonlinear_arith)
            requires
                q == (total_points - 2) / stride,
                stride * 1200 >= total_points,
                stride >= 1,
                total_points >= 2,
                MAX_TRACE_POINTS == 1200,
        ;
    }
}

proof fn lemma_kept(n: nat, total_points: usize, stride: usize)
    requires
        stride >= 1,
        n < total_points,
    ensures
        kept_count(n, total_points, stride) == if n == 0 {
            0
        } else {
            (n - 1) / stride as int + 1
        },
    decreases n,
{
    if n > 1 {
        lemma_kept((n - 1) as nat, total_points, stride);
        let s = stride as int;
        let a = n - 2;
        vstd::arithmetic::div_mod::lemma_fundamental_div_mod(a, s);
        vstd::arithmetic::div_mod::lemma_fundamental_div_mod(a + 1, s);
        let q = a / s;
        let r = a % s;
        if r + 1 < s {
            assert(a + 1 == q * s + (r + 1)) by (nonlinear_arith)
                requires
                    a == s * q + r,
            ;
            vstd::arithmetic::div_mod::lemma_fundamental_div_mod_converse(a + 1, s, q, r + 1);
        } else {
            assert(a + 1 == (q + 1) * s + 0) by (nonlinear_arith)
                requires
                    a == s * q + r,
                    r + 1 == s,
            ;
            vstd::arithmetic::div_mod::lemma_fundamental_div_mod_converse(a + 1, s, q + 1, 0);
        }
    } else if n == 1 {
        reveal_with_fuel(kept_count, 2);
        assert(0int / stride as int == 0) by (nonlinear_arith)
            requires
                stride >= 1,
        ;
    }
}

/// A trace grows by the value of a sample, at its place along the axis, if there
/// is one that can be painted, and keeps all that it had.
pub proof fn law_traces_grow_at_their_end(
    trace: Seq<PlotPoint>,
    offset_hz: u64,
    span_hz: u64,
    value: Binary64,
)
    ensures
        extended(trace, offset_hz, span_hz, None) == trace,
        ({
            let after = extended(trace, offset_hz, span_hz, Some(value));
            &&& trace.len() <= after.len() <= trace.len() + 1
            &&& forall|i: int| 0 <= i < trace.len() ==> #[trigger] after[i] == trace[i]
            &&& after.len() > trace.len() ==> after.last().value == value && after.last().offset_hz
                == offset_hz && after.last().span_hz == span_hz
            &&& after.len() > trace.len() <==> value.magnitude() < 0x47ef_ffff_f000_0000
        }),
{
}

/// Every trace takes in its own value of a sample that is kept, at the distance of
/// its frequency from the start of the range out of the whole range.
pub proof fn law_samples_reach_their_traces(
    before: GraphTelemetry,
    after: GraphTelemetry,
    point: usize,
    total: usize,
    frequency_hz: u64,
    values: SampleValues,
    kind: TraceKind,
)
    requires
        before.valid(),
        after.follows(
            before,
            GraphEvent::Sample {
                point: Some(point),
                total_points: Some(total),
                frequency_hz: Some(frequency_hz),
                values,
            },
        ),
        before.snapshot.frequency_start_hz <= frequency_hz,
        before.snapshot.frequency_start_hz < before.snapshot.frequency_stop_hz,
    ensures
        ({
            let value = match kind {
                TraceKind::ReturnLoss => values.loss,
                TraceKind::Phase => values.phase,
                TraceKind::Resistance => values.resistance,
                TraceKind::Swr => values.swr,
                TraceKind::Reactance => values.reactance,
                TraceKind::Impedance => values.impedance,
                TraceKind::Theta => values.theta,
            };
            let old_trace = kind.trace(before.snapshot);
            let new_trace = kind.trace(after.snapshot);
            let kept = point <= 1 || point == total || (point - 1) % before.sample_stride as int
                == 0;
            &&& !kept && total >= 1 ==> new_trace == old_trace
            &&& kept && value is Some && value->0.magnitude() < 0x47ef_ffff_f000_0000
                ==> new_trace == old_trace.push(
                PlotPoint {
                    offset_hz: (frequency_hz - before.snapshot.frequency_start_hz) as u64,
                    span_hz: (before.snapshot.frequency_stop_hz
                        - before.snapshot.frequency_start_hz) as u64,
                    value: value->0,
                },
            )
            &&& value is None ==> new_trace == old_trace
        }),
{
}

/// A scan of up to 1200 points is shown whole. Of a longer one every so many
/// points are kept: as few as that takes, but as many as leave 1200 at most.
pub proof fn law_stride(total_points: usize)
    ensures
        stride_of(total_points) >= 1,
        total_points <= 1_200 <==> stride_of(total_points) == 1,
        stride_of(total_points) * 1_200 >= total_points,
        total_points > 0 ==> (stride_of(total_points) - 1) * 1_200 < total_points,
{
}

/// A new scan clears all traces and sets the range; its end leaves them, and asks
/// to close only if it was stopped.
pub proof fn law_graph_of_a_scan(
    before: GraphTelemetry,
    after: GraphTelemetry,
    points: usize,
    start_hz: u64,
    stop_hz: u64,
    kind: TraceKind,
)
    ensures
        after.follows(
            before,
            GraphEvent::Started {
                points: Some(points),
                start_hz: Some(start_hz),
                stop_hz: Some(stop_hz),
            },
        ) ==> kind.trace(after.snapshot).len() == 0 && after.snapshot.frequency_start_hz == start_hz
            && after.snapshot.frequency_stop_hz == stop_hz && after.total_points == points
            && !after.snapshot.finished && !after.snapshot.close_requested,
        after.follows(before, GraphEvent::Completed) ==> kind.trace(after.snapshot) == kind.trace(
            before.snapshot,
        ) && after.snapshot.finished && after.snapshot.close_requested
            == before.snapshot.close_requested,
        after.follows(before, GraphEvent::Stopped) ==> kind.trace(after.snapshot) == kind.trace(
            before.snapshot,
        ) && after.snapshot.finished && after.snapshot.close_requested,
{
}

/// A frequency is shown in the largest unit that it holds at least one of, so
/// that fewer than a thousand of them are shown below the largest unit.
pub proof fn law_unit_of_a_frequency(frequency_hz: u64)
    ensures
        ({
            let unit = FrequencyUnit::of(frequency_hz);
            &&& frequency_hz > 0 ==> unit.hertz() <= frequency_hz
            &&& unit != FrequencyUnit::Gigahertz ==> frequency_hz < 1_000 * unit.hertz()
        }),
        FrequencyUnit::Hertz.hertz() == 1,
        FrequencyUnit::Kilohertz.hertz() == 1_000,
        FrequencyUnit::Megahertz.hertz() == 1_000_000,
        FrequencyUnit::Gigahertz.hertz() == 1_000_000_000,
{
}

/// A number without a decimal point is left as it is. One with a decimal point
/// loses the zeros at its end, and the point too if nothing is left behind it.
pub proof fn law_shortened_numbers(whole: Seq<char>, decimals: Seq<char>, zeros: Seq<char>)
    requires
        !whole.contains('.'),
        forall|i: int| 0 <= i < zeros.len() ==> #[trigger] zeros[i] == '0',
        decimals.len() > 0 ==> decimals.last() != '0' && decimals.last() != '.',
    ensures
        shortened(whole) == whole,
        shortened(whole + seq!['.'] + decimals + zeros) == if decimals.len() == 0 {
            whole
        } else {
            whole + seq!['.'] + decimals
        },
{
    text::lemma_position_found(whole, '.');
    if text::position(whole, '.') < whole.len() {
        assert(whole.contains(whole[text::position(whole, '.')]));
    }
    let number = whole + seq!['.'] + decimals + zeros;
    let kept = whole + seq!['.'] + decimals;
    text::lemma_position_found(number, '.');
    assert(number[whole.len() as int] == '.');
    assert(text::position(number, '.') < number.len()) by {
        if text::position(number, '.') >= number.len() {
            assert(number[whole.len() as int] != '.');
        }
    }
    assert(number =~= kept + zeros);
    if decimals.len() > 0 {
        assert(kept.last() == decimals.last());
    } else {
        assert(kept =~= whole + seq!['.']);
        assert(kept.drop_last() =~= whole);
    }
    lemma_without_zeros(kept, zeros);
}

proof fn lemma_without_zeros(kept: Seq<char>, zeros: Seq<char>)
    requires
        kept.len() > 0,
        kept.last() != '0',
        forall|i: int| 0 <= i < zeros.len() ==> #[trigger] zeros[i] == '0',
    ensures
        without_zeros(kept + zeros) == kept,
    decreases zeros.len(),
{
    if zeros.len() == 0 {
        assert(kept + zeros =~= kept);
    } else {
        let fewer = zeros.drop_last();
        assert forall|i: int| 0 <= i < fewer.len() implies #[trigger] fewer[i] == '0' by {
            assert(fewer[i] == zeros[i]);
        }
        assert((kept + zeros).last() == zeros[zeros.len() - 1]);
        assert((kept + zeros).drop_last() =~= kept + fewer);
        lemma_without_zeros(kept, fewer);
    }
}

/// The tick at `index` lies that many quarters of the range behind its start,
/// rounded down.
pub proof fn law_ticks_are_quarters(start: u64, stop: u64, index: usize)
    requires
        start <= stop,
        index <= 4,
    ensures
        ({
            let offset = tick_frequency(start, stop, index) - start;
            &&& 4 * offset <= (stop - start) * index
            &&& (stop - start) * index < 4 * offset + 4
        }),
{
    let span = distance(start, stop) as int;
    assert(span * 0 == 0 && span * 1 == span && span * 2 == span + span && span * 3 == span + span
        + span && span * 4 == span + span + span + span) by (nonlinear_arith);
    assert(index == 0 || index == 1 || index == 2 || index == 3 || index == 4);
}

/// The traces that are shown are those that are switched on, in the order in which
/// they are listed.
pub proof fn law_visible_traces(kinds: Seq<TraceKind>, visible: Seq<bool>, n: int)
    requires
        0 <= n <= kinds.len(),
        visible.len() == kinds.len(),
        forall|i: int| 0 <= i < kinds.len() ==> (#[trigger] kinds[i]).place() == i,
    ensures
        forall|i: int|
            0 <= i < n ==> (#[trigger] visible[i] <==> visible_of(kinds, visible, n).contains(
                kinds[i],
            )),
        forall|k: int|
            0 <= k < visible_of(kinds, visible, n).len() ==> (#[trigger] visible_of(
                kinds,
                visible,
                n,
            )[k]).place() < n,
        forall|k: int, m: int|
            0 <= k < m < visible_of(kinds, visible, n).len() ==> (#[trigger] visible_of(
                kinds,
                visible,
                n,
            )[k]).place() < (#[trigger] visible_of(kinds, visible, n)[m]).place(),
    decreases n,
{
    if n > 0 {
        law_visible_traces(kinds, visible, n - 1);
        let before = visible_of(kinds, visible, n - 1);
        let all = visible_of(kinds, visible, n);
        assert(kinds[n - 1].place() == n - 1);
        assert forall|i: int| 0 <= i < n implies (#[trigger] visible[i] <==> all.contains(
            kinds[i],
        )) by {
            assert(kinds[i].place() == i);
            if i < n - 1 {
                if before.contains(kinds[i]) {
                    let k = choose|k: int| 0 <= k < before.len() && before[k] == kinds[i];
                    assert(all[k] == kinds[i]);
                }
                if all.contains(kinds[i]) {
                    let k = choose|k: int| 0 <= k < all.len() && all[k] == kinds[i];
                    assert(k < before.len());
                    assert(before[k] == kinds[i]);
                }
            } else {
                if visible[i] {
                    assert(all.last() == kinds[i]);
                } else if all.contains(kinds[i]) {
                    let k = choose|k: int| 0 <= k < all.len() && all[k] == kinds[i];
                    assert(before[k].place() < n - 1);
                }
            }
        }
    }
}

/// Where an axis stands among the axes.
pub open spec fn axis_place(unit: AxisUnit) -> int {
    match unit {
        AxisUnit::Decibels => 0,
        AxisUnit::Degrees => 1,
        AxisUnit::Ohms => 2,
        AxisUnit::Swr => 3,
    }
}

/// There is an axis for each unit that a trace needs, and one only, in a fixed
/// order.
pub proof fn law_axes(kinds: Seq<TraceKind>, unit: AxisUnit)
    ensures
        axes_of(kinds).contains(unit) <==> exists|i: int|
            0 <= i < kinds.len() && (#[trigger] kinds[i]).unit() == unit,
        forall|k: int, m: int|
            0 <= k < m < axes_of(kinds).len() ==> axis_place(#[trigger] axes_of(kinds)[k])
                < axis_place(#[trigger] axes_of(kinds)[m]),
{
    let a = axis_if_used(kinds, AxisUnit::Decibels);
    let b = axis_if_used(kinds, AxisUnit::Degrees);
    let c = axis_if_used(kinds, AxisUnit::Ohms);
    let d = axis_if_used(kinds, AxisUnit::Swr);
    let all = axes_of(kinds);
    assert(all =~= a + b + c + d);
    if uses_axis(kinds, unit) {
        let at = match unit {
            AxisUnit::Decibels => 0,
            AxisUnit::Degrees => a.len() as int,
            AxisUnit::Ohms => (a.len() + b.len()) as int,
            AxisUnit::Swr => (a.len() + b.len() + c.len()) as int,
        };
        assert(all[at] == unit);
    }
}

/// What a sample does not say is filled in: without a number it is kept, without a
/// frequency it stands at the start of the range, and without a number of points
/// that of the scan counts. A frequency below the range stands at its start too,
/// and a range without width is one hertz wide.
pub proof fn law_samples_that_say_less(
    before: GraphTelemetry,
    after: GraphTelemetry,
    point: Option<usize>,
    total_points: Option<usize>,
    frequency_hz: Option<u64>,
    value: Binary64,
)
    requires
        before.valid(),
        value.magnitude() < 0x47ef_ffff_f000_0000,
        after.follows(
            before,
            GraphEvent::Sample {
                point,
                total_points,
                frequency_hz,
                values: SampleValues {
                    loss: Some(value),
                    phase: None,
                    resistance: None,
                    swr: None,
                    reactance: None,
                    impedance: None,
                    theta: None,
                },
            },
        ),
    ensures
        ({
            let start = before.snapshot.frequency_start_hz;
            let stop = before.snapshot.frequency_stop_hz;
            let grown = after.snapshot.loss@.len() == before.snapshot.loss@.len() + 1;
            let last = after.snapshot.loss@.last();
            &&& point is None ==> grown
            &&& total_points is None && point is Some && point->0 == before.total_points ==> grown
            &&& grown && frequency_hz is None ==> last.offset_hz == 0
            &&& grown && frequency_hz is Some && frequency_hz->0 <= start ==> last.offset_hz == 0
            &&& grown && frequency_hz is Some && frequency_hz->0 > start ==> last.offset_hz
                == frequency_hz->0 - start
            &&& grown && stop <= start ==> last.span_hz == 1
            &&& grown && stop > start ==> last.span_hz == stop - start
            &&& after.snapshot.phase@ == before.snapshot.phase@
            &&& after.snapshot.frequency_start_hz == start && after.snapshot.frequency_stop_hz
                == stop
            &&& after.snapshot.finished == before.snapshot.finished
            &&& after.snapshot.close_requested == before.snapshot.close_requested
        }),
{
}

/// A label is the number with its unit behind it: at once on an axis, and after a
/// space for a frequency.
pub proof fn law_labels(number: Seq<char>)
    requires
        !number.contains('.'),
    ensures
        axis_label(number, AxisUnit::Decibels) == number + seq![' ', 'd', 'B'],
        axis_label(number, AxisUnit::Degrees) == number + seq!['°'],
        axis_label(number, AxisUnit::Ohms) == number + seq![' ', 'Ω'],
        axis_label(number, AxisUnit::Swr) == number + seq![':', '1'],
        frequency_label(number, FrequencyUnit::Hertz) == number + seq![' ', 'H', 'z'],
        frequency_label(number, FrequencyUnit::Kilohertz) == number + seq![' ', 'k', 'H', 'z'],
        frequency_label(number, FrequencyUnit::Megahertz) == number + seq![' ', 'M', 'H', 'z'],
        frequency_label(number, FrequencyUnit::Gigahertz) == number + seq![' ', 'G', 'H', 'z'],
{
    law_shortened_numbers(number, Seq::empty(), Seq::empty());
    reveal_strlit(" dB");
    reveal_strlit("°");
    reveal_strlit(" Ω");
    reveal_strlit(":1");
    reveal_strlit(" ");
    reveal_strlit("Hz");
    reveal_strlit("kHz");
    reveal_strlit("MHz");
    reveal_strlit("GHz");
    assert(" dB"@ =~= seq![' ', 'd', 'B']);
    assert("°"@ =~= seq!['°']);
    assert(" Ω"@ =~= seq![' ', 'Ω']);
    assert(":1"@ =~= seq![':', '1']);
    assert(number + " "@ + "Hz"@ =~= number + seq![' ', 'H', 'z']);
    assert(number + " "@ + "kHz"@ =~= number + seq![' ', 'k', 'H', 'z']);
    assert(number + " "@ + "MHz"@ =~= number + seq![' ', 'M', 'H', 'z']);
    assert(number + " "@ + "GHz"@ =~= number + seq![' ', 'G', 'H', 'z']);
}

/// The unit of a range is that of its higher end, whichever way it runs.
pub proof fn law_unit_of_a_range(start_hz: u64, stop_hz: u64)
    ensures
        start_hz <= stop_hz ==> FrequencyUnit::of_range(start_hz, stop_hz) == FrequencyUnit::of(
            stop_hz,
        ),
        FrequencyUnit::of_range(start_hz, stop_hz) == FrequencyUnit::of_range(stop_hz, start_hz),
{
}

} // verus!
