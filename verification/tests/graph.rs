use minivna::binary64::Binary64;
use minivna::graph::{
    axis_units, closes, event_kind_of, format_axis_value, format_frequency, interpolate_frequency,
    visible_traces, AxisUnit, FrequencyUnit, GraphEvent, GraphEventKind, GraphSnapshot,
    GraphTelemetry, PlotPoint, SampleValues, TraceKind, AXIS_TICKS,
};

fn some(value: f64) -> Option<Binary64> {
    Some(Binary64 { bits: value.to_bits() })
}

fn values(value: f64) -> SampleValues {
    SampleValues {
        loss: some(value),
        phase: some(value),
        resistance: some(value),
        swr: some(value),
        reactance: some(value),
        impedance: some(value),
        theta: some(value),
    }
}

fn started(points: usize) -> GraphTelemetry {
    let mut graph = GraphTelemetry::new();
    graph.observe(&GraphEvent::Started {
        points: Some(points),
        start_hz: Some(45_000_000),
        stop_hz: Some(60_000_000),
    });
    graph
}

fn observe(graph: &mut GraphTelemetry, point: usize, total: usize) {
    graph.observe(&GraphEvent::Sample {
        point: Some(point),
        total_points: Some(total),
        frequency_hz: Some(45_000_000 + point as u64),
        values: values(1.0),
    });
}

#[test]
fn scan_events_feed_all_seven_traces() {
    let mut graph = started(1200);
    graph.observe(&GraphEvent::Sample {
        point: Some(1),
        total_points: Some(1200),
        frequency_hz: Some(45_000_000),
        values: SampleValues {
            loss: some(-12.0),
            phase: some(4.0),
            resistance: some(50.0),
            swr: some(1.1),
            reactance: some(2.0),
            impedance: some(50.04),
            theta: some(2.3),
        },
    });
    let snapshot = &graph.snapshot;
    assert_eq!(snapshot.loss.len(), 1);
    assert_eq!(snapshot.phase.len(), 1);
    assert_eq!(snapshot.resistance.len(), 1);
    assert_eq!(snapshot.swr.len(), 1);
    assert_eq!(snapshot.reactance.len(), 1);
    assert_eq!(snapshot.impedance.len(), 1);
    assert_eq!(snapshot.theta.len(), 1);
    assert_eq!(
        TraceKind::ReturnLoss.points(snapshot)[0],
        PlotPoint { offset_hz: 0, span_hz: 15_000_000, value: some(-12.0).unwrap() }
    );
}

#[test]
fn finished_gui_task_requests_window_close() {
    let mut graph = GraphTelemetry::new();
    graph.finish_and_close();
    assert!(graph.snapshot.finished);
    assert!(graph.snapshot.close_requested);
}

#[test]
fn frequency_ticks_cover_the_scan() {
    assert_eq!(interpolate_frequency(1_000_000, 5_000_000, 0), 1_000_000);
    assert_eq!(interpolate_frequency(1_000_000, 5_000_000, 4), 5_000_000);
}

#[test]
fn ticks_round_down_and_never_wrap() {
    assert_eq!(interpolate_frequency(0, 5, 1), 1);
    assert_eq!(interpolate_frequency(5, 0, 3), 5);
    assert_eq!(interpolate_frequency(0, u64::MAX, 4), u64::MAX);
    assert_eq!(interpolate_frequency(u64::MAX - 1, u64::MAX, AXIS_TICKS - 1), u64::MAX);
}

/// The label of a frequency on an axis whose ticks can be told apart.
fn label(start_hz: u64, stop_hz: u64, frequency_hz: u64) -> String {
    let unit = FrequencyUnit::for_range(start_hz, stop_hz);
    let divisor = unit.divisor() as f64;
    let step = stop_hz.abs_diff(start_hz) as f64 / (AXIS_TICKS - 1) as f64 / divisor;
    let places = (2 - step.log10().floor() as i32).clamp(0, 6) as usize;
    let scaled = frequency_hz as f64 / divisor;
    format_frequency(&format!("{scaled:.places$}"), unit)
}

#[test]
fn frequency_ticks_use_readable_si_units() {
    assert_eq!(label(1_000_000, 20_000_000, 1_000_000), "1 MHz");
    assert_eq!(label(1_000_000, 20_000_000, 5_750_000), "5.75 MHz");
    assert_eq!(label(1_000_000, 20_000_000, 20_000_000), "20 MHz");
    assert_eq!(label(1_000, 20_000, 5_750), "5.75 kHz");
    assert_eq!(label(100, 900, 500), "500 Hz");
    assert_eq!(label(2_400_000_000, 2_800_000_000, 2_500_000_000), "2.5 GHz");
}

#[test]
fn enabled_trace_families_receive_separate_unit_scales() {
    let kinds = vec![
        TraceKind::ReturnLoss,
        TraceKind::Phase,
        TraceKind::Resistance,
        TraceKind::Swr,
    ];
    assert_eq!(
        axis_units(&kinds),
        vec![AxisUnit::Decibels, AxisUnit::Degrees, AxisUnit::Ohms, AxisUnit::Swr]
    );
}

#[test]
fn traces_of_one_unit_share_an_axis() {
    let kinds = vec![TraceKind::Theta, TraceKind::Phase, TraceKind::ReturnLoss];
    assert_eq!(axis_units(&kinds), vec![AxisUnit::Decibels, AxisUnit::Degrees]);
    assert_eq!(axis_units(&vec![]), vec![]);
}

#[test]
fn y_axis_values_include_the_measurement_unit() {
    assert_eq!(format_axis_value("-15.50", AxisUnit::Decibels), "-15.50 dB");
    assert_eq!(format_axis_value("118.3", AxisUnit::Degrees), "118.3°");
    assert_eq!(format_axis_value("50.00", AxisUnit::Ohms), "50.00 Ω");
    assert_eq!(format_axis_value("1.50", AxisUnit::Swr), "1.50:1");
}

#[test]
fn long_scans_are_thinned_out() {
    let total = 30_001;
    let mut graph = started(total);
    assert_eq!(graph.sample_stride, 26);
    for point in 1..=total {
        observe(&mut graph, point, total);
    }
    assert_eq!(graph.snapshot.loss.len(), 1155);
    assert!(graph.snapshot.loss.len() <= 1201);
    assert_eq!(graph.snapshot.loss[0].offset_hz, 1);
    assert_eq!(graph.snapshot.loss[1].offset_hz, 27);
    assert_eq!(graph.snapshot.loss.last().unwrap().offset_hz, 30_001);
}

#[test]
fn values_that_cannot_be_painted_are_left_out() {
    let mut graph = started(2);
    graph.observe(&GraphEvent::Sample {
        point: Some(1),
        total_points: None,
        frequency_hz: None,
        values: SampleValues { loss: None, swr: some(1.0e300), ..values(1.0) },
    });
    assert!(graph.snapshot.loss.is_empty());
    assert!(graph.snapshot.swr.is_empty());
    assert_eq!(graph.snapshot.phase.len(), 1);
}

#[test]
fn ends_of_a_scan_end_its_graph() {
    let mut graph = started(2);
    graph.observe(&GraphEvent::Completed);
    assert!(graph.snapshot.finished && !graph.snapshot.close_requested);
    assert!(!closes(&graph.snapshot, false));
    assert!(closes(&graph.snapshot, true));
    graph.observe(&GraphEvent::Stopped);
    assert!(closes(&graph.snapshot, false));
    graph.observe(&GraphEvent::Other);
    assert!(graph.snapshot.finished && graph.snapshot.close_requested);
    observe(&mut graph, 1, 2);
    let graph = {
        graph.observe(&GraphEvent::Started { points: None, start_hz: None, stop_hz: None });
        graph
    };
    assert!(graph.snapshot.loss.is_empty() && !graph.snapshot.finished);
    assert_eq!(graph.sample_stride, 1);
    let failed = GraphSnapshot::failed();
    assert!(failed.finished && failed.close_requested);
}

#[test]
fn event_names_have_their_kinds() {
    assert_eq!(event_kind_of("scan_started"), GraphEventKind::Started);
    assert_eq!(event_kind_of("scan_sample"), GraphEventKind::Sample);
    assert_eq!(event_kind_of("scan_completed"), GraphEventKind::Completed);
    for name in ["cancellation_requested", "scan_cancelled", "scan_failed"] {
        assert_eq!(event_kind_of(name), GraphEventKind::Stopped);
    }
    assert_eq!(event_kind_of("port_opened"), GraphEventKind::Other);
}

#[test]
fn traces_have_labels_colours_and_switches() {
    let kinds = TraceKind::all();
    assert_eq!(kinds.len(), 7);
    for (index, kind) in kinds.iter().enumerate() {
        assert_eq!(kind.index(), index);
    }
    assert_eq!(TraceKind::Impedance.label(), "|Z| (Ω)");
    assert_eq!(TraceKind::ReturnLoss.color(), 0x00ae6b);
    assert_eq!(TraceKind::Phase.color(), 0xf2283c);
    let visible = vec![true, false, false, true, false, false, false];
    assert_eq!(visible_traces(&kinds, &visible), vec![TraceKind::ReturnLoss, TraceKind::Swr]);
}
