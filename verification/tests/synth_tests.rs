use morse_gen::MorseAudioGenerator;
use morse_gen::MorseError;
use morse_gen::wpm_to_unit_length;

/// The tone table a caller supplies: a dah's worth (three units) of an
/// 800 Hz sine wave at 44100 samples per second, each value scaled to the
/// full 16-bit amplitude and truncated, phase starting at zero.
fn make_tone(unit: u32) -> Vec<i16> {
    (0..3 * unit)
        .map(|x| {
            let t = x as f32 / 44100.0;
            ((t * 800.0 * 2.0 * std::f32::consts::PI).sin() * 32767.0) as i16
        })
        .collect()
}

fn generate_samples(text: &str, wpm: u32) -> Vec<i16> {
    let generator = MorseAudioGenerator::new(text, wpm).expect("supported text");
    let tone = make_tone(generator.unit_samples());
    let mut sink: Vec<i16> = Vec::new();
    generator.generate(&tone, &mut sink);
    sink
}

#[test]
fn unit_length_is_rounded_samples_per_dit() {
    // 44100 * 60 / (wpm * 50) = 52920 / wpm, rounded to the nearest sample
    assert_eq!(wpm_to_unit_length(10), 5292);
    assert_eq!(wpm_to_unit_length(1), 52920);
    assert_eq!(wpm_to_unit_length(7), 7560);
    assert_eq!(wpm_to_unit_length(11), 4811); // 4810.9... rounds up
    assert_eq!(wpm_to_unit_length(16), 3308); // 3307.5 rounds up
    assert_eq!(wpm_to_unit_length(20), 2646);
}

#[test]
fn dit_is_one_unit_of_tone_plus_inter_char_silence() {
    let unit = wpm_to_unit_length(10) as usize;
    let tone = make_tone(unit as u32);
    let samples = generate_samples("e", 10); // "e" is a single dit
    let mut expected: Vec<i16> = Vec::new();
    expected.extend_from_slice(&tone[..unit]);
    expected.extend(std::iter::repeat(0i16).take(3 * unit));
    assert_eq!(samples, expected);
}

#[test]
fn dah_is_three_units_of_tone() {
    let unit = wpm_to_unit_length(10) as usize;
    let tone = make_tone(unit as u32);
    let samples = generate_samples("t", 10); // "t" is a single dah
    let mut expected: Vec<i16> = Vec::new();
    expected.extend_from_slice(&tone[..3 * unit]);
    expected.extend(std::iter::repeat(0i16).take(3 * unit));
    assert_eq!(samples, expected);
}

#[test]
fn intra_char_silence_is_one_unit() {
    // "a" is ".-": dit, one unit of silence, dah, then the trailing
    // inter-character silence of three units
    let unit = wpm_to_unit_length(12) as usize;
    let tone = make_tone(unit as u32);
    let samples = generate_samples("a", 12);
    let mut expected: Vec<i16> = Vec::new();
    expected.extend_from_slice(&tone[..unit]);
    expected.extend(std::iter::repeat(0i16).take(unit));
    expected.extend_from_slice(&tone[..3 * unit]);
    expected.extend(std::iter::repeat(0i16).take(3 * unit));
    assert_eq!(samples, expected);
}

#[test]
fn word_silence_is_four_units() {
    // "e e" is "./.": dit, inter-character silence, word silence, dit,
    // inter-character silence
    let unit = wpm_to_unit_length(15) as usize;
    let tone = make_tone(unit as u32);
    let samples = generate_samples("e e", 15);
    let mut expected: Vec<i16> = Vec::new();
    expected.extend_from_slice(&tone[..unit]);
    expected.extend(std::iter::repeat(0i16).take(3 * unit));
    expected.extend(std::iter::repeat(0i16).take(4 * unit));
    expected.extend_from_slice(&tone[..unit]);
    expected.extend(std::iter::repeat(0i16).take(3 * unit));
    assert_eq!(samples, expected);
}

#[test]
fn sos_at_ten_wpm_end_to_end() {
    let generator = MorseAudioGenerator::new("sos", 10).expect("supported text");
    assert_eq!(generator.morse_text().as_str(), "... --- ...");
    let unit = generator.unit_samples() as usize;
    assert_eq!(unit, 5292);
    let tone = make_tone(unit as u32);
    let mut sink: Vec<i16> = Vec::new();
    generator.generate(&tone, &mut sink);

    let dit = &tone[..unit];
    let dah = &tone[..3 * unit];
    let mut expected: Vec<i16> = Vec::new();
    for group in ["...", "---", "..."] {
        for (j, c) in group.chars().enumerate() {
            match c {
                '.' => expected.extend_from_slice(dit),
                '-' => expected.extend_from_slice(dah),
                _ => unreachable!(),
            }
            if j + 1 < group.len() {
                expected.extend(std::iter::repeat(0i16).take(unit));
            }
        }
        expected.extend(std::iter::repeat(0i16).take(3 * unit));
    }
    // 9 tones of 3 + 9 + 3 units, 6 intra silences, 3 inter silences
    assert_eq!(expected.len(), 30 * unit);
    assert_eq!(sink, expected);
}

#[test]
fn generation_is_deterministic() {
    let first = generate_samples("paris paris", 18);
    let second = generate_samples("paris paris", 18);
    assert_eq!(first, second);
}

#[test]
fn generate_appends_to_the_sink() {
    let generator = MorseAudioGenerator::new("e", 10).expect("supported text");
    let tone = make_tone(generator.unit_samples());
    let mut sink: Vec<i16> = vec![7, -7];
    generator.generate(&tone, &mut sink);
    assert_eq!(&sink[..2], &[7, -7]);
    assert_eq!(sink.len(), 2 + 4 * generator.unit_samples() as usize);
}

#[test]
fn empty_text_yields_silence_only() {
    let samples = generate_samples("", 10);
    let unit = wpm_to_unit_length(10) as usize;
    assert_eq!(samples.len(), 3 * unit);
    assert!(samples.iter().all(|s| *s == 0));
}

#[test]
fn unsupported_character_produces_no_generator() {
    match MorseAudioGenerator::new("s*s", 10) {
        Err(MorseError::UnsupportedCharacter(c)) => assert_eq!(c, '*'),
        other => panic!("expected an unsupported-character error, got {:?}", other.map(|_| ())),
    }
}

#[test]
fn uppercase_text_generates_like_lowercase() {
    assert_eq!(generate_samples("SOS", 10), generate_samples("sos", 10));
}

#[test]
fn sos_audio_is_mono_16_bit_pcm_at_44100() {
    let samples = generate_samples("sos", 10);
    let spec = hound::WavSpec {
        channels: 1,
        sample_rate: 44100,
        bits_per_sample: 16,
        sample_format: hound::SampleFormat::Int,
    };
    let mut bytes: Vec<u8> = Vec::new();
    {
        let mut writer =
            hound::WavWriter::new(std::io::Cursor::new(&mut bytes), spec).expect("header");
        for s in &samples {
            writer.write_sample(*s).expect("sample");
        }
        writer.finalize().expect("finalize");
    }
    let mut reader = hound::WavReader::new(std::io::Cursor::new(&bytes)).expect("readable file");
    assert_eq!(reader.spec(), spec);
    let decoded: Vec<i16> = reader.samples::<i16>().map(|s| s.unwrap()).collect();
    assert_eq!(decoded.len(), 30 * 5292);
    assert_eq!(decoded, samples);
}

#[test]
fn trailing_space_keeps_empty_groups() {
    // "a " encodes to ".- /": a first word of the group ".-" and an empty
    // group, then an empty second word; empty groups emit only their
    // inter-character silence
    let unit = wpm_to_unit_length(20) as usize;
    let tone = make_tone(unit as u32);
    let samples = generate_samples("a ", 20);
    let mut expected: Vec<i16> = Vec::new();
    expected.extend_from_slice(&tone[..unit]); // dit of 'a'
    expected.extend(std::iter::repeat(0i16).take(unit)); // intra
    expected.extend_from_slice(&tone[..3 * unit]); // dah of 'a'
    expected.extend(std::iter::repeat(0i16).take(3 * unit)); // after ".-"
    expected.extend(std::iter::repeat(0i16).take(3 * unit)); // after empty group
    expected.extend(std::iter::repeat(0i16).take(4 * unit)); // between the words
    expected.extend(std::iter::repeat(0i16).take(3 * unit)); // after the empty word
    assert_eq!(samples, expected);
}
