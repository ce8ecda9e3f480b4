use upalla::meter::RmsMeter;

fn divide(total: f32, n: u32) -> f32 {
    total / n as f32
}

/// The meters report a per-channel mean, so a frame at a constant amplitude reads back as that
/// amplitude rather than the two-channel sum.
#[test]
fn reports_per_channel_mean() {
    let mut meter = RmsMeter::new(0.0f32);
    meter.push(1.0, 0.5); // per-frame sums across two channels
    assert_eq!(meter.frames(), 1);
    assert_eq!(meter.mean_input(divide, 0.0), 0.5);
    assert_eq!(meter.mean_output(divide, 0.0), 0.25);

    meter.push(1.0, 0.5);
    assert_eq!(meter.frames(), 2);
    assert_eq!(
        meter.mean_input(divide, 0.0),
        0.5,
        "mean must not drift as frames add up"
    );
}

#[test]
fn meter_empty_meter_reads_zero_rather_than_dividing_by_zero() {
    let meter = RmsMeter::new(0.0f32);
    assert_eq!(meter.frames(), 0);
    assert_eq!(meter.mean_input(divide, 0.0), 0.0);
    assert_eq!(meter.mean_output(divide, 0.0), 0.0);
}

#[test]
fn meter_reset_clears_every_field() {
    let mut meter = RmsMeter::new(0.0f32);
    meter.push(3.0, 4.0);
    meter.reset(0.0);
    assert_eq!(meter.frames(), 0);
    assert_eq!(meter.input, 0.0);
    assert_eq!(meter.output, 0.0);
}

#[test]
fn meter_reports_per_channel_mean() {
    let mut meter = RmsMeter::new(0.0f32);
    meter.push(1.0, 0.5); // per-frame sums across two channels
    assert_eq!(meter.count, 2);
    assert_eq!(meter.mean_input(divide, 0.0), 0.5);
    assert_eq!(meter.mean_output(divide, 0.0), 0.25);

    meter.push(1.0, 0.5);
    assert_eq!(meter.count, 4);
    assert_eq!(
        meter.mean_input(divide, 0.0),
        0.5,
        "mean must not drift as frames add up"
    );
}

#[test]
fn audio_empty_meter_reads_zero_rather_than_dividing_by_zero() {
    let meter = RmsMeter::new(0.0f32);
    assert_eq!(meter.count, 0);
    assert_eq!(meter.mean_input(divide, 0.0), 0.0);
    assert_eq!(meter.mean_output(divide, 0.0), 0.0);
}

#[test]
fn audio_reset_clears_every_field() {
    let mut meter = RmsMeter::new(0.0f32);
    meter.push(3.0, 4.0);
    meter.reset(0.0);
    assert_eq!(meter.count, 0);
    assert_eq!(meter.input, 0.0);
    assert_eq!(meter.output, 0.0);
}

#[test]
fn a_constant_amplitude_reads_back_however_many_frames() {
    let mut meter = RmsMeter::new(0u64);
    for _ in 0..1000 {
        meter.push(14, 6);
    }
    let exact = |total: u64, n: u32| total / n as u64;
    assert_eq!((meter.mean_input(exact, 0), meter.mean_output(exact, 0)), (7, 3));
}
