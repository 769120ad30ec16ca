use varispeed_delay::tape::DelayLine;

fn ramp(start: usize, len: usize) -> Vec<f32> {
    (start..start + len).map(|i| i as f32).collect()
}

#[test]
fn reads_return_writes_in_order_across_wraps() {
    let mut tape: DelayLine<f32> = DelayLine::new(8, 0.0);
    let mut written: Vec<f32> = Vec::new();
    let mut played: Vec<f32> = Vec::new();
    let mut next = 1usize;
    let plan: [(usize, usize); 7] = [(5, 3), (6, 7), (3, 2), (6, 8), (1, 0), (7, 5), (0, 3)];
    for (w, r) in plan {
        let block = ramp(next, w);
        next += w;
        written.extend_from_slice(&block);
        assert!(!tape.write(&block));
        let mut out = vec![-1.0f32; r];
        assert!(!tape.read(&mut out, r));
        played.extend_from_slice(&out);
    }
    let left = tape.available();
    let mut rest = vec![0.0f32; left];
    assert!(!tape.read(&mut rest, left));
    played.extend_from_slice(&rest);
    assert_eq!(played, written);
    assert_eq!(tape.overflows(), 0);
    assert_eq!(tape.underruns(), 0);
}

#[test]
fn read_leaves_the_rest_of_the_buffer_alone() {
    let mut tape: DelayLine<i32> = DelayLine::new(4, 0);
    tape.write(&[1, 2, 3]);
    let mut out = vec![9, 9, 9, 9, 9];
    assert!(!tape.read(&mut out, 2));
    assert_eq!(out, vec![1, 2, 9, 9, 9]);
    assert_eq!(tape.available(), 1);
}

#[test]
fn starvation_pads_with_silence_and_counts_one_episode() {
    let rate = 48000usize;
    let mut tape: DelayLine<f32> = DelayLine::new(rate, 0.0);
    let mut out = vec![7.0f32; 2 * rate];
    assert!(tape.read(&mut out, 2 * rate));
    assert!(out.iter().all(|&x| x == 0.0));
    assert_eq!(tape.underruns(), 1);

    // Still starved: the same episode.
    assert!(tape.read(&mut out, 10));
    assert_eq!(tape.underruns(), 1);

    // Part served, rest padded: still the same episode.
    tape.write(&[0.5, 0.25]);
    let mut few = vec![7.0f32; 4];
    assert!(tape.read(&mut few, 4));
    assert_eq!(few, vec![0.5, 0.25, 0.0, 0.0]);
    assert_eq!(tape.underruns(), 1);

    // A served request ends the episode; the next starved one starts another.
    tape.write(&[1.0]);
    let mut one = vec![0.0f32; 1];
    assert!(!tape.read(&mut one, 1));
    assert_eq!(one, vec![1.0]);
    assert!(tape.read(&mut one, 1));
    assert_eq!(tape.underruns(), 2);
}

#[test]
fn overflow_keeps_the_newest_second() {
    let rate = 48000usize;
    let mut tape: DelayLine<f32> = DelayLine::new(rate, 0.0);
    let audio = ramp(0, 2 * rate);
    assert!(tape.write(&audio));
    assert_eq!(tape.overflows(), 1);
    assert_eq!(tape.available(), rate);
    let mut out = vec![0.0f32; rate];
    assert!(!tape.read(&mut out, rate));
    assert_eq!(out, audio[rate..].to_vec());
    assert_eq!(tape.available(), 0);
}

#[test]
fn overflow_after_partial_fill_drops_the_oldest() {
    let mut tape: DelayLine<i32> = DelayLine::new(5, 0);
    assert!(!tape.write(&[1, 2, 3]));
    let mut out = vec![0; 2];
    tape.read(&mut out, 2);
    assert_eq!(out, vec![1, 2]);
    // Holds [3]; six more wrap the ring and overwrite two unread samples.
    assert!(tape.write(&[4, 5, 6, 7, 8, 9]));
    assert_eq!(tape.overflows(), 1);
    let mut all = vec![0; 5];
    assert!(!tape.read(&mut all, 5));
    assert_eq!(all, vec![5, 6, 7, 8, 9]);
}

#[test]
fn exact_fill_is_no_overflow() {
    let mut tape: DelayLine<i32> = DelayLine::new(3, 0);
    assert!(!tape.write(&[1, 2, 3]));
    assert!(tape.write(&[4]));
    let mut all = vec![0; 3];
    tape.read(&mut all, 3);
    assert_eq!(all, vec![2, 3, 4]);
}

#[test]
fn empty_tape_turns_everything_away() {
    let mut tape: DelayLine<i32> = DelayLine::new(0, 0);
    assert_eq!(tape.capacity(), 0);
    assert!(!tape.write(&[]));
    assert!(tape.write(&[1]));
    let mut out = vec![5; 2];
    assert!(tape.read(&mut out, 2));
    assert_eq!(out, vec![0, 0]);
}

#[test]
fn reset_threads_a_lead_of_silence() {
    let mut tape: DelayLine<f32> = DelayLine::new(6, 0.0);
    tape.write(&[1.0, 2.0, 3.0]);
    tape.reset(4);
    tape.write(&[5.0]);
    let mut out = vec![9.0f32; 5];
    assert!(!tape.read(&mut out, 5));
    assert_eq!(out, vec![0.0, 0.0, 0.0, 0.0, 5.0]);
}
