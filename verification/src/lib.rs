//! Converts text into an audible Morse-code representation: a fixed symbol
//! table maps characters to dit/dah groups, a words-per-minute rate fixes the
//! sample length of one timing unit, and a synthesizer walks the symbol string
//! and emits the tone and silence samples of the final audio stream.

mod encode;
mod synth;
mod table;

pub use crate::encode::MorseError;
pub use crate::encode::all_supported;
pub use crate::encode::collapse_seps;
pub use crate::encode::joined_symbols;
pub use crate::encode::lemma_encode_single_char;
pub use crate::encode::lemma_word_separator_collapsing;
pub use crate::encode::morse_text_spec;
pub use crate::encode::normalized;
pub use crate::encode::text_to_morse;
pub use crate::encode::unsupported_at;
pub use crate::synth::MAX_WPM;
pub use crate::synth::MorseAudioGenerator;
pub use crate::synth::SAMPLE_RATE;
pub use crate::synth::char_samples;
pub use crate::synth::dah_samples;
pub use crate::synth::dit_samples;
pub use crate::synth::inter_char_silence;
pub use crate::synth::intra_char_silence;
pub use crate::synth::lemma_empty_text;
pub use crate::synth::lemma_generation_deterministic;
pub use crate::synth::lemma_silence_lengths;
pub use crate::synth::lemma_tone_lengths;
pub use crate::synth::lemma_unit_in_range;
pub use crate::synth::silence;
pub use crate::synth::split_on;
pub use crate::synth::synth_samples;
pub use crate::synth::tone_of;
pub use crate::synth::unit_length_spec;
pub use crate::synth::word_samples;
pub use crate::synth::word_silence;
pub use crate::synth::words_samples;
pub use crate::synth::wpm_to_unit_length;
pub use crate::table::is_supported;
pub use crate::table::lookup_morse;
pub use crate::table::morse_symbol;
pub use crate::table::symbol_of;
pub use crate::table::to_lower;
pub use crate::table::to_lower_char;
pub use crate::table::lemma_symbol_no_space;
