use vad_pipeline::FRAME_LEN;
use vad_pipeline::conditioner::condition;
use vad_pipeline::frame_buffer::FrameBuffer;
use vad_pipeline::normalizer::normalize_u8;
use vad_pipeline::normalizer::normalize_u8_block;
use vad_pipeline::score::SpeechScore;
use vad_pipeline::segmenter::Segmenter;

#[test]
fn normalize_u8_exact_values() {
    assert_eq!(normalize_u8(0), -32768);
    assert_eq!(normalize_u8(127), -256);
    assert_eq!(normalize_u8(128), 0);
    assert_eq!(normalize_u8(129), 256);
    assert_eq!(normalize_u8(255), 32512);
}

#[test]
fn normalize_u8_block_keeps_order() {
    let block = normalize_u8_block(&[0, 128, 255, 130]);
    assert_eq!(block, vec![-32768, 0, 32512, 512]);
}

#[test]
fn score_is_clamped_to_unit_interval() {
    assert_eq!(SpeechScore::from_permille(400).permille(), 400);
    assert_eq!(SpeechScore::from_permille(1000).permille(), 1000);
    assert_eq!(SpeechScore::from_permille(1500).permille(), 1000);
    assert_eq!(SpeechScore::from_permille(0).permille(), 0);
}

#[test]
fn frame_buffer_yields_frames_in_fifo_order() {
    let mut buffer = FrameBuffer::new();
    let first: Vec<i16> = (0..700).map(|i| i as i16).collect();
    buffer.push(&first);
    assert_eq!(buffer.buffered(), 700);

    let frame = buffer.try_take_frame().expect("a whole frame is queued");
    assert_eq!(frame.len(), FRAME_LEN);
    let expected: Vec<i16> = (0..512).map(|i| i as i16).collect();
    assert_eq!(frame, expected);
    assert_eq!(buffer.buffered(), 188);

    assert!(buffer.try_take_frame().is_none());
    assert_eq!(buffer.buffered(), 188);

    let second: Vec<i16> = (700..1100).map(|i| i as i16).collect();
    buffer.push(&second);
    assert_eq!(buffer.buffered(), 588);

    let frame = buffer.try_take_frame().expect("a second whole frame is queued");
    let expected: Vec<i16> = (512..1024).map(|i| i as i16).collect();
    assert_eq!(frame, expected);
    assert_eq!(buffer.buffered(), 76);
    assert!(buffer.try_take_frame().is_none());
}

#[test]
fn frame_buffer_concatenation_covers_all_pushed_samples() {
    let mut buffer = FrameBuffer::new();
    let pushed: Vec<i16> = (0..1300).map(|i| (i * 7 % 251) as i16).collect();
    buffer.push(&pushed);

    let mut drained: Vec<i16> = Vec::new();
    while let Some(frame) = buffer.try_take_frame() {
        assert_eq!(frame.len(), FRAME_LEN);
        drained.extend_from_slice(&frame);
    }
    assert_eq!(drained.len(), 1024);
    assert_eq!(drained, pushed[..1024].to_vec());
    assert_eq!(buffer.buffered(), 276);
}

#[test]
fn silent_frame_conditions_to_silence() {
    let frame = vec![0i16; FRAME_LEN];
    let out = condition(&frame);
    assert_eq!(out.len(), FRAME_LEN);
    assert!(out.iter().all(|&s| s == 0));
}

#[test]
fn conditioning_exact_values_small_frame() {
    // peak 200, gain 32767 / (10 * 200); first sample (100*100)*32767/200000,
    // second (100*200 - 97*100)*32767/200000, both rounded toward zero.
    let out = condition(&vec![100i16, 200]);
    assert_eq!(out, vec![1638i16, 1687]);
}

#[test]
fn conditioning_normalizes_peak_first_sample() {
    // The first sample attains the peak, so it conditions to exactly a tenth
    // of full scale rounded toward zero: 32767 / 10 == 3276.
    let mut frame = vec![5i16; FRAME_LEN];
    frame[0] = 5;
    let out = condition(&frame);
    assert_eq!(out[0], 3276);
    // Later samples carry pre-emphasis: (500 - 485) * 32767 / 5000 == 98.
    assert_eq!(out[1], 98);
    assert_eq!(out[FRAME_LEN - 1], 98);

    let mut negative = vec![0i16; FRAME_LEN];
    negative[0] = -700;
    negative[1] = 350;
    let out = condition(&negative);
    assert_eq!(out[0], -3276);
}

#[test]
fn scenario_speech_segment_boundaries() {
    // Scores 0.95, 0.95, 0.2 over three frames: start after the first frame,
    // every frame appended, end after the third, one segment of 1536 samples.
    let mut machine = Segmenter::new();
    let f1 = vec![10i16; FRAME_LEN];
    let f2 = vec![20i16; FRAME_LEN];
    let f3 = vec![30i16; FRAME_LEN];

    let out1 = machine.step(&f1, SpeechScore::from_permille(950), 777);
    assert_eq!(out1.started, Some(777));
    assert!(out1.appended);
    assert!(out1.finished.is_none());
    assert!(machine.is_speaking());

    let out2 = machine.step(&f2, SpeechScore::from_permille(950), 888);
    assert!(out2.started.is_none());
    assert!(out2.appended);
    assert!(out2.finished.is_none());
    assert!(machine.is_speaking());

    let out3 = machine.step(&f3, SpeechScore::from_permille(200), 999);
    assert!(out3.started.is_none());
    assert!(out3.appended);
    let segment = out3.finished.expect("a score below the end threshold closes the segment");
    assert!(!machine.is_speaking());

    assert_eq!(segment.key, 777);
    assert_eq!(segment.samples.len(), 3 * FRAME_LEN);
    let mut expected = f1.clone();
    expected.extend_from_slice(&f2);
    expected.extend_from_slice(&f3);
    assert_eq!(segment.samples, expected);
}

#[test]
fn scenario_scores_between_thresholds_do_nothing() {
    // Scores 0.5, 0.5, 0.5 from idle: between the thresholds, so no
    // notification fires and no segment is opened.
    let mut machine = Segmenter::new();
    let frame = vec![40i16; FRAME_LEN];
    for step in 0..3 {
        let out = machine.step(&frame, SpeechScore::from_permille(500), step);
        assert!(out.started.is_none());
        assert!(!out.appended);
        assert!(out.finished.is_none());
        assert!(!machine.is_speaking());
    }
}

#[test]
fn no_second_start_while_speaking() {
    // Once speaking, scores above the start threshold fire no second start
    // until an end has fired first.
    let mut machine = Segmenter::new();
    let frame = vec![1i16; FRAME_LEN];
    let out = machine.step(&frame, SpeechScore::from_permille(950), 1);
    assert!(out.started.is_some());
    for step in 2..6 {
        let out = machine.step(&frame, SpeechScore::from_permille(999), step);
        assert!(out.started.is_none());
        assert!(out.finished.is_none());
        assert!(out.appended);
    }
    let out = machine.step(&frame, SpeechScore::from_permille(100), 9);
    assert!(out.finished.is_some());
    let out = machine.step(&frame, SpeechScore::from_permille(950), 10);
    assert_eq!(out.started, Some(10));
}

#[test]
fn step_now_keys_segment_by_wall_clock() {
    let mut machine = Segmenter::new();
    let frame = vec![2i16; FRAME_LEN];
    let out = machine.step_now(&frame, SpeechScore::from_permille(950));
    assert!(out.started.is_some());
    assert!(machine.is_speaking());
    let out = machine.step_now(&frame, SpeechScore::from_permille(100));
    let segment = out.finished.expect("the low score closes the segment");
    assert_eq!(segment.samples.len(), 2 * FRAME_LEN);
}
