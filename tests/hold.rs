use level_analyser::{HoldCounter, Motion, Step};

fn hold_len(hold_time_ms: f32, sample_rate: f32, block_len: usize) -> usize {
    let refresh_rate = sample_rate / block_len as f32;
    ((hold_time_ms / 1000.0) * refresh_rate) as usize
}

#[test]
fn new_peak_is_captured_and_frozen() {
    let mut hold = HoldCounter::new();
    assert_eq!(hold.remaining(), 0);
    let step = hold.step(true, true, 5);
    assert_eq!(step, Step { capture: true, motion: Motion::Freeze });
    assert_eq!(hold.remaining(), 5);
}

#[test]
fn lower_inputs_do_not_break_the_hold() {
    let mut hold = HoldCounter::new();
    hold.step(true, true, 4);
    for left in [3, 2, 1] {
        let step = hold.step(false, false, 4);
        assert_eq!(step, Step { capture: false, motion: Motion::Freeze });
        assert_eq!(hold.remaining(), left);
    }
    let step = hold.step(false, false, 4);
    assert_eq!(step, Step { capture: false, motion: Motion::Release });
    assert_eq!(hold.remaining(), 0);
}

#[test]
fn hold_lasts_one_second_of_calls() {
    let len = hold_len(1000.0, 44100.0, 512);
    assert_eq!(len, 86);
    let mut hold = HoldCounter::new();
    let mut frozen = 0;
    if hold.step(true, true, len).motion == Motion::Freeze {
        frozen += 1;
    }
    for _ in 0..200 {
        if hold.step(false, false, len).motion == Motion::Freeze {
            frozen += 1;
        }
    }
    assert_eq!(frozen, 86);
}

#[test]
fn new_peak_restarts_the_hold() {
    let mut hold = HoldCounter::new();
    hold.step(true, true, 3);
    hold.step(false, false, 3);
    assert_eq!(hold.remaining(), 2);
    hold.step(true, true, 3);
    assert_eq!(hold.remaining(), 3);
}

#[test]
fn zero_hold_time_only_attacks_and_releases() {
    let len = hold_len(0.0, 48000.0, 256);
    assert_eq!(len, 0);
    let mut hold = HoldCounter::new();
    assert_eq!(hold.step(true, true, len), Step { capture: true, motion: Motion::Attack });
    assert_eq!(hold.step(false, false, len), Step { capture: false, motion: Motion::Release });
    assert_eq!(hold.step(true, false, len), Step { capture: true, motion: Motion::Release });
    assert_eq!(hold.remaining(), 0);
}
