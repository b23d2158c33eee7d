use sbus_cppm::cppm::{CppmAction, CppmWriter, PpmFrame};

#[test]
fn cppm_builder_round_trips_known_channels() {
    // Channel values in thousandths of full scale: 0.0, 0.5, 1.0, 0.25,
    // 0.75, 0.0, 1.0, 0.5 of the 690..=1710 us pulse range.
    let frame = PpmFrame::from_channels([0, 500, 1000, 250, 750, 0, 1000, 500]);
    assert_eq!(
        frame.signal_timings,
        [690, 1200, 1710, 945, 1455, 690, 1710, 1200]
    );
    assert_eq!(frame.frame_padding, 10_000);
}

#[test]
fn cppm_builder_extremes() {
    let low = PpmFrame::from_channels([0; 8]);
    assert_eq!(low.signal_timings, [690; 8]);
    assert_eq!(low.frame_padding, 22_000 - 8 * 300 - 8 * 690);

    let high = PpmFrame::from_channels([1000; 8]);
    assert_eq!(high.signal_timings, [1710; 8]);
    assert_eq!(high.frame_padding, 22_000 - 8 * 300 - 8 * 1710);
}

#[test]
fn cppm_frame_duration_is_fixed() {
    for channels in [
        [0u16; 8],
        [1000; 8],
        [0, 500, 1000, 250, 750, 0, 1000, 500],
        [1, 999, 333, 667, 42, 17, 800, 123],
    ] {
        let frame = PpmFrame::from_channels(channels);
        let total: u32 =
            frame.signal_timings.iter().map(|t| 300 + t).sum::<u32>() + frame.frame_padding;
        assert_eq!(total, 22_000);
    }
}

#[test]
fn cppm_writer_emits_one_frame_in_eighteen_toggles() {
    let first = PpmFrame::from_channels([0, 500, 1000, 250, 750, 0, 1000, 500]);
    let next = PpmFrame::from_channels([1000; 8]);
    let mut writer = CppmWriter::new(first);

    let mut actions = Vec::new();
    for _ in 0..18 {
        actions.push(writer.on_timer(&next));
    }

    // A separator before each channel pulse and before the padding pulse.
    for k in 0..9 {
        assert_eq!(actions[2 * k], CppmAction::SetLow { duration: 300 });
    }
    for k in 0..8 {
        assert_eq!(
            actions[2 * k + 1],
            CppmAction::SetHigh {
                duration: first.signal_timings[k]
            }
        );
    }
    assert_eq!(
        actions[17],
        CppmAction::SetHigh {
            duration: first.frame_padding
        }
    );

    // The channel pulses, their separators and the padding fill the frame.
    let mut total: u32 = 0;
    for k in 0..8 {
        match actions[2 * k] {
            CppmAction::SetLow { duration } => total += duration,
            CppmAction::SetHigh { .. } => panic!("expected a separator"),
        }
        match actions[2 * k + 1] {
            CppmAction::SetHigh { duration } => total += duration,
            CppmAction::SetLow { .. } => panic!("expected a channel pulse"),
        }
    }
    match actions[17] {
        CppmAction::SetHigh { duration } => total += duration,
        CppmAction::SetLow { .. } => panic!("expected the padding pulse"),
    }
    assert_eq!(total, 22_000);

    // The next frame was latched whole at the frame boundary.
    assert_eq!(writer.current_frame, next);
    assert_eq!(writer.index, 0);
    assert!(!writer.is_low);
}

#[test]
fn cppm_writer_starts_with_a_separator() {
    let frame = PpmFrame::from_channels([500; 8]);
    let mut writer = CppmWriter::new(frame);
    assert_eq!(
        writer.on_timer(&frame),
        CppmAction::SetLow { duration: 300 }
    );
    assert_eq!(
        writer.on_timer(&frame),
        CppmAction::SetHigh { duration: 1200 }
    );
}
