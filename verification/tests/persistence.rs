use std::io::Cursor;
use vad_pipeline::FRAME_LEN;
use vad_pipeline::score::SpeechScore;
use vad_pipeline::segmenter::Segmenter;

// The segment format the pipeline persists: PCM, mono, 16 kHz, 16-bit signed.
fn wav_spec() -> hound::WavSpec {
    hound::WavSpec {
        channels: 1,
        sample_rate: 16000,
        bits_per_sample: 16,
        sample_format: hound::SampleFormat::Int,
    }
}

#[test]
fn finalized_segment_round_trips_through_wav() {
    // Drive one whole segment through the machine, persist the finalized
    // segment as WAV bytes, and read them back: the sample sequence written
    // equals the concatenation of the frames appended between the start and
    // end boundaries, in order.
    let mut machine = Segmenter::new();
    let f1: Vec<i16> = (0..FRAME_LEN).map(|i| (i as i16).wrapping_mul(3) - 700).collect();
    let f2: Vec<i16> = (0..FRAME_LEN).map(|i| 900 - (i as i16)).collect();
    let f3: Vec<i16> = (0..FRAME_LEN).map(|i| (i as i16) % 37).collect();

    machine.step(&f1, SpeechScore::from_permille(950), 42);
    machine.step(&f2, SpeechScore::from_permille(600), 43);
    let out = machine.step(&f3, SpeechScore::from_permille(100), 44);
    let segment = out.finished.expect("the low score closes the segment");

    let mut bytes: Vec<u8> = Vec::new();
    {
        let mut writer = hound::WavWriter::new(Cursor::new(&mut bytes), wav_spec())
            .expect("the WAV header can be written");
        for &sample in &segment.samples {
            writer.write_sample(sample).expect("a sample can be written");
        }
        writer.finalize().expect("the WAV file can be finalized");
    }

    let mut reader = hound::WavReader::new(Cursor::new(&bytes))
        .expect("the WAV bytes read back");
    assert_eq!(reader.spec(), wav_spec());
    let read_back: Vec<i16> = reader
        .samples::<i16>()
        .map(|s| s.expect("a sample reads back"))
        .collect();

    let mut appended = f1.clone();
    appended.extend_from_slice(&f2);
    appended.extend_from_slice(&f3);
    assert_eq!(read_back, appended);
    assert_eq!(read_back.len(), 3 * FRAME_LEN);
}
