use varispeed_delay::engine::{accepts_bus_config, ConfigError, DelayConfig, VariSpeedDelay};
use varispeed_delay::ui::{GenericSlider, UiRow};

fn small_config() -> DelayConfig {
    DelayConfig {
        sample_rate: 1000,
        max_block_size: 128,
        chunk_size: 32,
        channels: 1,
        min_speed: 256,
        max_speed: 1024,
        initial_speed: 256,
        tape_seconds: 1,
    }
}

fn studio_config() -> DelayConfig {
    DelayConfig {
        sample_rate: 48000,
        max_block_size: 1024,
        chunk_size: 64,
        channels: 1,
        min_speed: 256,
        max_speed: 640 * 256,
        initial_speed: 40 * 256,
        tape_seconds: 10,
    }
}

fn init(c: DelayConfig) -> VariSpeedDelay<f32> {
    match VariSpeedDelay::initialize(c, 0.0f32) {
        Ok(d) => d,
        Err(e) => panic!("configuration refused: {:?}", e),
    }
}

fn refused(c: DelayConfig) -> ConfigError {
    match VariSpeedDelay::initialize(c, 0.0f32) {
        Ok(_) => panic!("configuration accepted"),
        Err(e) => e,
    }
}

#[test]
fn each_configuration_error_has_its_input() {
    assert_eq!(refused(DelayConfig { sample_rate: 0, ..small_config() }), ConfigError::ZeroSampleRate);
    assert_eq!(refused(DelayConfig { channels: 2, ..small_config() }), ConfigError::UnsupportedChannels);
    assert_eq!(refused(DelayConfig { chunk_size: 0, ..small_config() }), ConfigError::InvalidBlockSize);
    assert_eq!(refused(DelayConfig { chunk_size: 48, ..small_config() }), ConfigError::InvalidBlockSize);
    assert_eq!(refused(DelayConfig { chunk_size: 256, ..small_config() }), ConfigError::InvalidBlockSize);
    assert_eq!(
        refused(DelayConfig { max_block_size: 32768, chunk_size: 32, ..small_config() }),
        ConfigError::InvalidBlockSize
    );
    assert_eq!(refused(DelayConfig { min_speed: 0, ..small_config() }), ConfigError::InvalidSpeedRange);
    assert_eq!(
        refused(DelayConfig { min_speed: 2048, ..small_config() }),
        ConfigError::InvalidSpeedRange
    );
    assert_eq!(
        refused(DelayConfig { initial_speed: 2048, ..small_config() }),
        ConfigError::InvalidSpeedRange
    );
    assert_eq!(refused(DelayConfig { tape_seconds: 0, ..small_config() }), ConfigError::ZeroCapacity);
    assert_eq!(
        refused(DelayConfig { sample_rate: 192000, tape_seconds: 44, ..small_config() }),
        ConfigError::TapeTooLong
    );
    assert_eq!(
        refused(DelayConfig { min_speed: 1, initial_speed: 1, max_speed: 0xffff_ffff, ..small_config() }),
        ConfigError::RatioTooWide
    );
    assert_eq!(
        refused(DelayConfig {
            min_speed: 1 << 16,
            initial_speed: 1 << 16,
            max_speed: 1 << 26,
            ..small_config()
        }),
        ConfigError::TravelTooFar
    );
}

#[test]
fn rapid_automation_never_fills_the_speed_queue() {
    let mut d = init(small_config());
    let block = vec![0.5f32; 32];
    // A new speed every chunk, at the slowest speed: the most changes pending.
    for k in 0..400u32 {
        let s = if k % 2 == 0 { 256 } else { 257 };
        d.process_chunk(&block, s);
        assert!(d.scheduler().pending_len() <= 32);
    }
    assert_eq!(d.scheduler().dropped(), 0);
}

#[test]
fn studio_setup_starts_with_a_quarter_second_of_lead() {
    let d = init(studio_config());
    // Ten seconds of tape at forty speed units: 48000 * 10 / 40 samples.
    assert_eq!(d.tape().available(), 12000);
    assert_eq!(d.tape().capacity(), 480000 + 2 * 1024);
    assert_eq!(d.scheduler().current_speed(), 40 * 256);
    assert_eq!(d.scheduler().recorded_speed(), 40 * 256);
    assert_eq!(d.staged().len(), 0);
    assert_eq!(d.chunk_size(), 64);
    assert_eq!(d.config(), studio_config());
}

#[test]
fn blocks_split_into_whole_chunks() {
    let d = init(small_config());
    assert_eq!(d.chunk_count(128), Some(4));
    assert_eq!(d.chunk_count(32), Some(1));
    assert_eq!(d.chunk_count(0), None);
    assert_eq!(d.chunk_count(48), None);
    assert_eq!(d.chunk_count(160), None);
}

#[test]
fn unity_speed_is_a_pure_delay() {
    let mut d = init(small_config());
    let lead = 1000usize;
    let chunk = 32usize;
    let mut played: Vec<f32> = Vec::new();
    let mut input: Vec<f32> = Vec::new();
    for k in 0..100usize {
        let block: Vec<f32> = (0..chunk).map(|i| (k * chunk + i + 1) as f32).collect();
        input.extend_from_slice(&block);
        let r = d.process_chunk(&block, 256);
        assert_eq!(r.pulled, chunk);
        assert!(!r.ratio_changed);
        assert!(!r.overflowed);
        assert!(!r.starved);
        assert_eq!((r.current_speed, r.recorded_speed), (256, 256));
        played.extend_from_slice(d.staged());
    }
    for (t, &x) in played.iter().enumerate() {
        let expected = if t < lead { 0.0 } else { input[t - lead] };
        assert_eq!(x, expected, "sample {}", t);
    }
    assert_eq!(d.tape().available(), lead);
}

#[test]
fn new_speed_plays_at_the_ratio_until_it_reaches_playback() {
    let mut d = init(small_config());
    let block = vec![0.25f32; 32];
    // Tape recorded at 256 is played at 512: twice as fast.
    let r = d.process_chunk(&block, 512);
    assert!(r.ratio_changed);
    assert_eq!((r.current_speed, r.recorded_speed), (512, 256));
    assert_eq!(r.pulled, 64);
    // The change is due once the tape has moved on by 256000 units, 16384
    // units per chunk: on the seventeenth chunk.
    let mut k = 1;
    loop {
        let r = d.process_chunk(&block, 512);
        k += 1;
        if r.recorded_speed == 512 {
            assert!(r.ratio_changed);
            assert_eq!(r.pulled, 32);
            break;
        }
        assert!(!r.ratio_changed);
        assert_eq!(r.pulled, 64);
    }
    assert_eq!(k, 17);
    // Steady at 512: one tape sample per output sample.
    for _ in 0..50 {
        let r = d.process_chunk(&block, 512);
        assert_eq!(r.pulled, 32);
        assert!(!r.ratio_changed);
    }
}

#[test]
fn odd_ratio_does_not_drift() {
    let c = DelayConfig { initial_speed: 300, max_speed: 1024, ..small_config() };
    let mut d = init(c);
    let block = vec![0.0f32; 32];
    // Speed 300 held while the tape was recorded at 300: ratio one.
    let r = d.process_chunk(&block, 300);
    assert_eq!(r.pulled, 32);
    // At 700 over 300 the pulls alternate to keep the exact rate.
    let mut total = 0u64;
    let mut chunks = 0u64;
    for _ in 0..10 {
        let r = d.process_chunk(&block, 700);
        assert_eq!(r.recorded_speed, 300);
        total += r.pulled as u64;
        chunks += 1;
    }
    let exact = chunks * 32 * 700;
    assert_eq!(total, 746);
    assert!(total * 300 <= exact);
    assert!(exact < (total + 1) * 300);
}

#[test]
fn ramp_up_and_back_keeps_pulls_continuous() {
    let mut d = init(small_config());
    let block = vec![0.5f32; 32];
    let mut speeds: Vec<u32> = Vec::new();
    for k in 1..=32u32 {
        speeds.push(256 + 8 * k);
    }
    for k in (0..32u32).rev() {
        speeds.push(256 + 8 * k);
    }
    let mut last: Option<usize> = None;
    let mut most = 0usize;
    for &s in &speeds {
        let r = d.process_chunk(&block, s);
        assert!(r.ratio_changed);
        assert!(!r.overflowed);
        if let Some(p) = last {
            assert!(r.pulled.abs_diff(p) <= 3, "jump from {} to {}", p, r.pulled);
        }
        last = Some(r.pulled);
        most = most.max(r.pulled);
    }
    assert!(most > 32 && most <= 64);
    assert_eq!(d.scheduler().dropped(), 0);
}

#[test]
fn reset_restores_the_initial_state() {
    let mut d = init(small_config());
    let block = vec![1.0f32; 32];
    d.process_chunk(&block, 512);
    d.process_chunk(&block, 700);
    d.reset();
    assert_eq!(d.tape().available(), 1000);
    assert_eq!(d.scheduler().current_speed(), 256);
    assert_eq!(d.scheduler().recorded_speed(), 256);
    assert_eq!(d.scheduler().pending_len(), 0);
    assert_eq!(d.staged().len(), 0);
    let r = d.process_chunk(&block, 256);
    assert_eq!(r.pulled, 32);
    assert!(d.staged().iter().all(|&x| x == 0.0));
}

#[test]
fn starved_engine_pads_with_silence() {
    // Ten times the speed: the lead of 1000 samples runs out.
    let c = DelayConfig { max_speed: 2560, ..small_config() };
    let mut d = init(c);
    let block = vec![1.0f32; 32];
    let mut starved_chunks = 0;
    for _ in 0..100 {
        let r = d.process_chunk(&block, 2560);
        if r.starved {
            starved_chunks += 1;
        }
    }
    assert!(starved_chunks > 0);
    assert_eq!(d.tape().underruns(), 1);
}

#[test]
fn mono_bus_only() {
    assert!(accepts_bus_config(1, 1));
    assert!(!accepts_bus_config(2, 2));
    assert!(!accepts_bus_config(1, 2));
}

#[test]
fn generic_editor_spaces_parameters_apart() {
    assert_eq!(GenericSlider.rows(0), vec![]);
    assert_eq!(GenericSlider.rows(1), vec![UiRow::Label(0), UiRow::Widget(0)]);
    assert_eq!(
        GenericSlider.rows(2),
        vec![UiRow::Label(0), UiRow::Widget(0), UiRow::Spacing, UiRow::Label(1), UiRow::Widget(1)]
    );
}

#[test]
fn reset_twice_is_reset_once() {
    let block: Vec<f32> = (0..32).map(|i| i as f32).collect();
    let mut a = init(small_config());
    let mut b = init(small_config());
    for s in [300u32, 512, 700, 640] {
        a.process_chunk(&block, s);
        b.process_chunk(&block, s);
    }
    a.reset();
    b.reset();
    b.reset();
    assert_eq!(a.tape().capacity(), b.tape().capacity());
    assert_eq!(a.tape().capacity(), 1000 + 2 * 128);
    for s in [256u32, 512, 512, 900, 300] {
        let ra = a.process_chunk(&block, s);
        let rb = b.process_chunk(&block, s);
        assert_eq!(ra, rb);
        assert_eq!(a.staged(), b.staged());
        assert_eq!(a.scheduler().timestamp(), b.scheduler().timestamp());
    }
}
