use bible_presenter::audio::{AudioEngine, BlockAccumulator, SinkIds, BLOCK_SIZE, VAD_DEFAULT_MICRO};

#[test]
fn level_is_emitted_for_every_block() {
    let engine = AudioEngine::new();
    // Below the threshold: the level still comes out, audio does not.
    let quiet = engine.process_block(vec![1, 2, 3], 5);
    assert_eq!(quiet.level_micro, 5);
    assert!(quiet.audio.is_none());
    // Above the threshold: both come out.
    let loud = engine.process_block(vec![4, 5, 6], VAD_DEFAULT_MICRO + 1);
    assert_eq!(loud.level_micro, VAD_DEFAULT_MICRO + 1);
    assert_eq!(loud.audio.unwrap(), vec![4, 5, 6]);
}

#[test]
fn gate_threshold_is_strict() {
    let engine = AudioEngine::new();
    let at = engine.process_block(vec![1], VAD_DEFAULT_MICRO);
    assert!(at.audio.is_none());
}

#[test]
fn threshold_update_takes_effect_without_restart() {
    let mut engine = AudioEngine::new();
    engine.start_capturing(SinkIds { audio: 1, error: 2, level: 3 });
    engine.set_vad_threshold(10);
    assert!(engine.is_capturing());
    let out = engine.process_block(vec![9], 11);
    assert!(out.audio.is_some());
}

#[test]
fn selecting_device_while_capturing_restarts_once_with_same_sinks() {
    let mut engine = AudioEngine::new();
    let sinks = SinkIds { audio: 10, error: 20, level: 30 };
    engine.start_capturing(sinks);
    let restart = engine.select_device("USB microphone".to_string());
    // Exactly one stop+restart, and the session's sink identity survives:
    // the same downstream consumer keeps receiving chunks.
    assert!(restart);
    assert!(engine.is_capturing());
}

#[test]
fn selecting_device_while_idle_does_not_restart() {
    let mut engine = AudioEngine::new();
    let restart = engine.select_device("USB microphone".to_string());
    assert!(!restart);
    assert!(!engine.is_capturing());
}

#[test]
fn stop_clears_the_sinks() {
    let mut engine = AudioEngine::new();
    engine.start_capturing(SinkIds { audio: 1, error: 2, level: 3 });
    engine.stop();
    assert!(!engine.is_capturing());
}

#[test]
fn accumulator_deinterleaves_stereo_frames() {
    let mut acc = BlockAccumulator::new(2);
    // Three interleaved stereo frames: (l0,r0),(l1,r1),(l2,r2).
    acc.push_interleaved(&[10, 20, 11, 21, 12, 22]);
    assert!(!acc.ready());
    let block = acc.take_block();
    assert_eq!(block.len(), 2);
    assert_eq!(block[0], vec![10, 11, 12]);
    assert_eq!(block[1], vec![20, 21, 22]);
}

#[test]
fn accumulator_becomes_ready_at_block_size() {
    let mut acc = BlockAccumulator::new(1);
    let samples: Vec<u32> = (0..BLOCK_SIZE as u32).collect();
    acc.push_interleaved(&samples[..BLOCK_SIZE - 1]);
    assert!(!acc.ready());
    acc.push_interleaved(&samples[BLOCK_SIZE - 1..]);
    assert!(acc.ready());
    let block = acc.take_block();
    assert_eq!(block[0].len(), BLOCK_SIZE);
    // The cycle cleared the buffers.
    assert!(!acc.ready());
}

#[test]
fn accumulator_keeps_channels_aligned_for_any_channel_count() {
    for channels in 1..=6usize {
        let mut acc = BlockAccumulator::new(channels);
        let frames = 5;
        let data: Vec<u32> = (0..(frames * channels) as u32).collect();
        acc.push_interleaved(&data);
        let block = acc.take_block();
        assert_eq!(block.len(), channels);
        for c in 0..channels {
            assert_eq!(block[c].len(), frames);
            for k in 0..frames {
                assert_eq!(block[c][k], (k * channels + c) as u32);
            }
        }
    }
}
