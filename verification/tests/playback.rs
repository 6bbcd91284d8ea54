use wavetable::filler::{BufferFiller, StreamSignal};
use wavetable::phase::PhaseAccumulator;
use wavetable::table::{WaveFrame, WaveTable};

fn frame(time: u64, amplitude: i64) -> WaveFrame {
    WaveFrame { time, amplitude }
}

fn four_point_table() -> WaveTable {
    let frames = vec![
        frame(0, 0),
        frame(250_000_000, 1_000_000),
        frame(500_000_000, 0),
        frame(750_000_000, -1_000_000),
    ];
    WaveTable::from_frames(frames).unwrap()
}

#[test]
fn advance_wraps_at_the_period_boundary() {
    // Phase 0.95, increment 0.1: one advance lands on 0.05.
    let mut acc = PhaseAccumulator::new(950_000_000, 100_000_000);
    assert_eq!(acc.advance(), 50_000_000);
    assert_eq!(acc.phase, 50_000_000);
    assert_eq!(acc.increment, 100_000_000);
}

#[test]
fn advance_produces_the_multiples_of_the_increment() {
    let mut acc = PhaseAccumulator::new(0, 300_000_000);
    let expected: [u64; 5] = [
        300_000_000,
        600_000_000,
        900_000_000,
        200_000_000,
        500_000_000,
    ];
    for e in expected {
        let p = acc.advance();
        assert_eq!(p, e);
        assert!(p < 1_000_000_000);
    }
}

#[test]
fn from_rate_derives_the_increment() {
    let acc = PhaseAccumulator::from_rate(220, 44100);
    assert_eq!(acc.phase, 0);
    // 220 / 44100 of a period, on a grid of a billion ticks.
    assert_eq!(acc.increment, 4_988_662);
}

#[test]
fn fill_writes_every_channel_of_every_frame() {
    let table = four_point_table();
    let acc = PhaseAccumulator::new(0, 125_000_000);
    let mut filler = BufferFiller::new(table, acc, 2);
    let mut buffer = vec![0i64; 8];
    let signal = filler.fill(&mut buffer, 4);
    assert_eq!(signal, StreamSignal::Continue);
    assert_eq!(
        buffer,
        vec![
            500_000, 500_000, // phase 0.125, halfway up the first slope
            1_000_000, 1_000_000, // phase 0.25, the peak anchor
            500_000, 500_000, // phase 0.375, halfway back down
            0, 0, // phase 0.5, the zero crossing
        ]
    );
    assert_eq!(filler.accumulator.phase, 500_000_000);
}

#[test]
fn fill_carries_the_phase_across_calls() {
    let table = four_point_table();
    let acc = PhaseAccumulator::new(0, 250_000_000);
    let mut filler = BufferFiller::new(table, acc, 1);
    let mut first = vec![0i64; 2];
    let mut second = vec![0i64; 2];
    assert_eq!(filler.fill(&mut first, 2), StreamSignal::Continue);
    assert_eq!(filler.fill(&mut second, 2), StreamSignal::Continue);
    assert_eq!(first, vec![1_000_000, 0]);
    assert_eq!(second, vec![-1_000_000, 0]);
    assert_eq!(filler.accumulator.phase, 0);
}

#[test]
fn two_identical_runs_fill_identical_buffers() {
    let mut one = BufferFiller::new(
        four_point_table(),
        PhaseAccumulator::new(950_000_000, 4_988_662),
        2,
    );
    let mut two = BufferFiller::new(
        four_point_table(),
        PhaseAccumulator::new(950_000_000, 4_988_662),
        2,
    );
    let mut out1 = vec![0i64; 128];
    let mut out2 = vec![0i64; 128];
    assert_eq!(one.fill(&mut out1, 64), StreamSignal::Continue);
    assert_eq!(two.fill(&mut out2, 64), StreamSignal::Continue);
    assert_eq!(out1, out2);
    assert_eq!(one.accumulator.phase, two.accumulator.phase);
}
