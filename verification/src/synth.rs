use vstd::prelude::*;
use vstd::string::StrSliceExecFns;
use crate::encode::MorseError;
use crate::encode::all_supported;
use crate::encode::morse_text_spec;
use crate::encode::normalized;
use crate::encode::text_to_morse;
use crate::encode::unsupported_at;
use crate::table::to_lower;

verus! {

/// Number of audio samples produced per second.
pub const SAMPLE_RATE: u32 = 44100;

/// The largest words-per-minute rate at which a timing unit still rounds to
/// at least one sample; beyond it the unit would be zero, which the timing
/// model rules out.
pub const MAX_WPM: u32 = 105840;

/// The length in samples of one Morse timing unit (one dit) at a given
/// words-per-minute rate: `60 / (wpm * 50)` seconds of audio at 44100
/// samples per second, i.e. `44100 * 60 / (wpm * 50) = 52920 / wpm`,
/// rounded to the nearest whole sample (half rounds up).
pub open spec fn unit_length_spec(wpm: int) -> int
    recommends
        wpm >= 1,
{
    (52920 * 2 + wpm) / (2 * wpm)
}

/// Converts a words-per-minute rate into the sample length of one timing unit.
pub fn wpm_to_unit_length(wpm: u32) -> (r: u32)
    requires
        wpm >= 1,
    ensures
        r == unit_length_spec(wpm as int),
{
    let num: u64 = 52920u64 * 2 + wpm as u64;
    let den: u64 = 2 * wpm as u64;
    proof {
        assert(num / den <= num / 2) by (nonlinear_arith)
            requires
                den >= 2,
                num >= 0,
        ;
    }
    (num / den) as u32
}

/// Up to the largest supported rate, a timing unit is strictly positive,
/// and it is never longer than the unit of one word per minute.
pub proof fn lemma_unit_in_range(wpm: int)
    requires
        1 <= wpm <= 105840,
    ensures
        1 <= unit_length_spec(wpm) <= 52920,
{
    assert(1 <= (52920 * 2 + wpm) / (2 * wpm) <= 52920) by (nonlinear_arith)
        requires
            1 <= wpm <= 105840,
    ;
}

/// A run of `n` zero-valued samples.
pub open spec fn silence(n: int) -> Seq<i16> {
    Seq::new(n as nat, |i: int| 0i16)
}

/// The silence between two tones of the same symbol group: one timing unit.
pub open spec fn intra_char_silence(unit: int) -> Seq<i16> {
    silence(unit)
}

/// The silence after a symbol group: three timing units.
pub open spec fn inter_char_silence(unit: int) -> Seq<i16> {
    silence(3 * unit)
}

/// The silence between two words: four timing units (the timing this
/// implementation follows, rather than the conventional seven).
pub open spec fn word_silence(unit: int) -> Seq<i16> {
    silence(4 * unit)
}

/// A dit: the first `unit` samples of the tone table.
pub open spec fn dit_samples(unit: int, tone: Seq<i16>) -> Seq<i16> {
    tone.take(unit)
}

/// A dah: the first `3 * unit` samples of the tone table. Every tone starts
/// at the beginning of the table, so each tone's phase restarts at zero.
pub open spec fn dah_samples(unit: int, tone: Seq<i16>) -> Seq<i16> {
    tone.take(3 * unit)
}

/// The tone emitted for one symbol: a dit for `.`, a dah for `-`, nothing
/// for any other character.
pub open spec fn tone_of(c: char, unit: int, tone: Seq<i16>) -> Seq<i16> {
    if c == '.' {
        dit_samples(unit, tone)
    } else if c == '-' {
        dah_samples(unit, tone)
    } else {
        Seq::empty()
    }
}

/// The samples of one symbol group: its tones in order, one intra-character
/// silence between consecutive tones and none after the last.
pub open spec fn char_samples(g: Seq<char>, unit: int, tone: Seq<i16>) -> Seq<i16>
    decreases g.len(),
{
    if g.len() == 0 {
        Seq::empty()
    } else if g.len() == 1 {
        tone_of(g[0], unit, tone)
    } else {
        tone_of(g[0], unit, tone) + intra_char_silence(unit) + char_samples(
            g.drop_first(),
            unit,
            tone,
        )
    }
}

/// Splitting a character sequence on a separator, as the synthesizer walks
/// the Morse text: an empty input yields one empty segment, and a separator
/// at either edge or next to another yields an empty segment there.
pub open spec fn split_on(s: Seq<char>, sep: char) -> Seq<Seq<char>>
    decreases s.len(),
{
    if s.len() == 0 {
        seq![Seq::<char>::empty()]
    } else if s[0] == sep {
        seq![Seq::<char>::empty()] + split_on(s.drop_first(), sep)
    } else {
        let rest = split_on(s.drop_first(), sep);
        seq![seq![s[0]] + rest[0]] + rest.drop_first()
    }
}

/// The samples of one word: each symbol group followed by an
/// inter-character silence, the last group included.
pub open spec fn word_samples(groups: Seq<Seq<char>>, unit: int, tone: Seq<i16>) -> Seq<i16>
    decreases groups.len(),
{
    if groups.len() == 0 {
        Seq::empty()
    } else {
        char_samples(groups[0], unit, tone) + inter_char_silence(unit) + word_samples(
            groups.drop_first(),
            unit,
            tone,
        )
    }
}

/// The samples of a sequence of words, one word silence between consecutive
/// words and none after the last.
pub open spec fn words_samples(words: Seq<Seq<char>>, unit: int, tone: Seq<i16>) -> Seq<i16>
    decreases words.len(),
{
    if words.len() == 0 {
        Seq::empty()
    } else if words.len() == 1 {
        word_samples(split_on(words[0], ' '), unit, tone)
    } else {
        word_samples(split_on(words[0], ' '), unit, tone) + word_silence(unit) + words_samples(
            words.drop_first(),
            unit,
            tone,
        )
    }
}

/// The full audio stream of a Morse text: the text split on `/` into words,
/// each word split on spaces into symbol groups, and the words' samples
/// separated by word silences.
pub open spec fn synth_samples(morse: Seq<char>, unit: int, tone: Seq<i16>) -> Seq<i16> {
    words_samples(split_on(morse, '/'), unit, tone)
}

/// Splitting never yields an empty segment list.
pub proof fn lemma_split_on_len(s: Seq<char>, sep: char)
    ensures
        split_on(s, sep).len() >= 1,
    decreases s.len(),
{
    if s.len() == 0 {
    } else if s[0] == sep {
        lemma_split_on_len(s.drop_first(), sep);
    } else {
        lemma_split_on_len(s.drop_first(), sep);
    }
}

/// Appending one symbol to a group extends its samples by one
/// intra-character silence and the symbol's tone (by the tone alone when
/// the group was empty).
pub proof fn lemma_char_samples_snoc(g: Seq<char>, c: char, unit: int, tone: Seq<i16>)
    ensures
        char_samples(g.push(c), unit, tone) == if g.len() == 0 {
            tone_of(c, unit, tone)
        } else {
            char_samples(g, unit, tone) + intra_char_silence(unit) + tone_of(c, unit, tone)
        },
    decreases g.len(),
{
    if g.len() == 0 {
        assert(g.push(c) =~= seq![c]);
        assert(char_samples(seq![c], unit, tone) == tone_of(c, unit, tone));
    } else {
        lemma_char_samples_snoc(g.drop_first(), c, unit, tone);
        assert(g.push(c).drop_first() =~= g.drop_first().push(c));
        assert(char_samples(g.push(c), unit, tone) =~= char_samples(g, unit, tone)
            + intra_char_silence(unit) + tone_of(c, unit, tone));
    }
}

/// Appending one group to a word extends its samples by the group's samples
/// and one inter-character silence.
pub proof fn lemma_word_samples_snoc(groups: Seq<Seq<char>>, g: Seq<char>, unit: int, tone: Seq<i16>)
    ensures
        word_samples(groups.push(g), unit, tone) == word_samples(groups, unit, tone)
            + char_samples(g, unit, tone) + inter_char_silence(unit),
    decreases groups.len(),
{
    if groups.len() == 0 {
        assert(groups.push(g) =~= seq![g]);
        assert(seq![g].drop_first() =~= Seq::<Seq<char>>::empty());
        assert(word_samples(Seq::<Seq<char>>::empty(), unit, tone) == Seq::<i16>::empty());
        assert(word_samples(seq![g], unit, tone) == char_samples(g, unit, tone)
            + inter_char_silence(unit) + Seq::<i16>::empty());
        assert(word_samples(groups.push(g), unit, tone) =~= char_samples(g, unit, tone)
            + inter_char_silence(unit));
        assert(word_samples(groups, unit, tone) + char_samples(g, unit, tone)
            + inter_char_silence(unit) =~= char_samples(g, unit, tone) + inter_char_silence(unit));
    } else {
        lemma_word_samples_snoc(groups.drop_first(), g, unit, tone);
        assert(groups.push(g).drop_first() =~= groups.drop_first().push(g));
        assert(word_samples(groups.push(g), unit, tone) =~= word_samples(groups, unit, tone)
            + char_samples(g, unit, tone) + inter_char_silence(unit));
    }
}

/// Appending one word extends the stream by one word silence and the word's
/// samples (by the word's samples alone when there was no word before).
pub proof fn lemma_words_samples_snoc(words: Seq<Seq<char>>, w: Seq<char>, unit: int, tone: Seq<
    i16,
>)
    ensures
        words_samples(words.push(w), unit, tone) == if words.len() == 0 {
            word_samples(split_on(w, ' '), unit, tone)
        } else {
            words_samples(words, unit, tone) + word_silence(unit) + word_samples(
                split_on(w, ' '),
                unit,
                tone,
            )
        },
    decreases words.len(),
{
    if words.len() == 0 {
        assert(words.push(w) =~= seq![w]);
    } else {
        lemma_words_samples_snoc(words.drop_first(), w, unit, tone);
        assert(words.push(w).drop_first() =~= words.drop_first().push(w));
        assert(words_samples(words.push(w), unit, tone) =~= words_samples(words, unit, tone)
            + word_silence(unit) + word_samples(split_on(w, ' '), unit, tone));
    }
}

/// The character sequences of a sequence of character vectors.
pub open spec fn views_of(vs: Seq<Vec<char>>) -> Seq<Seq<char>> {
    vs.map_values(|v: Vec<char>| v@)
}

/// A pending segment prefixed onto the first segment of a split.
spec fn prepend_first(p: Seq<char>, ss: Seq<Seq<char>>) -> Seq<Seq<char>>
    recommends
        ss.len() >= 1,
{
    seq![p + ss[0]] + ss.drop_first()
}

/// The characters of a string, in order.
fn str_to_chars(s: &str) -> (r: Vec<char>)
    ensures
        r@ == s@,
{
    let n = s.unicode_len();
    let mut out: Vec<char> = Vec::new();
    let mut i: usize = 0;
    while i < n
        invariant
            n == s@.len(),
            i <= n,
            out@ == s@.take(i as int),
        decreases n - i,
    {
        out.push(s.get_char(i));
        proof {
            assert(s@.take(i + 1 as int) =~= s@.take(i as int).push(s@[i as int]));
        }
        i += 1;
    }
    proof {
        assert(s@.take(n as int) =~= s@);
    }
    out
}

/// Splits a character vector on a separator, with the same segment
/// boundaries as `split_on`.
fn split_chars(s: &Vec<char>, sep: char) -> (r: Vec<Vec<char>>)
    ensures
        views_of(r@) == split_on(s@, sep),
        r@.len() >= 1,
{
    let mut out: Vec<Vec<char>> = Vec::new();
    let mut cur: Vec<char> = Vec::new();
    let mut i: usize = 0;
    proof {
        assert(s@.skip(0) =~= s@);
        assert(views_of(out@) =~= Seq::<Seq<char>>::empty());
        lemma_split_on_len(s@, sep);
    }
    while i < s.len()
        invariant
            i <= s.len(),
            split_on(s@.skip(i as int), sep).len() >= 1,
            split_on(s@, sep) == views_of(out@) + prepend_first(
                cur@,
                split_on(s@.skip(i as int), sep),
            ),
        decreases s.len() - i,
    {
        proof {
            lemma_split_on_len(s@.skip(i + 1 as int), sep);
            assert(s@.skip(i as int).drop_first() =~= s@.skip(i + 1 as int));
        }
        let ghost pre_out = out@;
        let ghost pre_cur = cur@;
        let c = s[i];
        if c == sep {
            out.push(cur);
            cur = Vec::new();
            proof {
                assert(views_of(out@) =~= views_of(pre_out).push(pre_cur));
                assert(pre_cur + Seq::<char>::empty() =~= pre_cur);
                assert(prepend_first(pre_cur, split_on(s@.skip(i as int), sep)) =~= seq![pre_cur]
                    + split_on(s@.skip(i + 1 as int), sep));
                assert(views_of(out@) + prepend_first(cur@, split_on(s@.skip(i + 1 as int), sep))
                    =~= views_of(pre_out) + prepend_first(
                    pre_cur,
                    split_on(s@.skip(i as int), sep),
                ));
            }
        } else {
            cur.push(c);
            proof {
                let rest = split_on(s@.skip(i + 1 as int), sep);
                assert(split_on(s@.skip(i as int), sep) == seq![seq![s@[i as int]] + rest[0]]
                    + rest.drop_first());
                assert(pre_cur + (seq![s@[i as int]] + rest[0]) =~= cur@ + rest[0]);
                assert(prepend_first(pre_cur, split_on(s@.skip(i as int), sep)) =~= prepend_first(
                    cur@,
                    rest,
                ));
            }
        }
        i += 1;
    }
    proof {
        assert(s@.skip(s@.len() as int) =~= Seq::<char>::empty());
        assert(cur@ + Seq::<char>::empty() =~= cur@);
        assert(prepend_first(cur@, split_on(s@.skip(s@.len() as int), sep)) =~= seq![cur@]);
    }
    let ghost pre_out = out@;
    let ghost pre_cur = cur@;
    out.push(cur);
    proof {
        assert(views_of(out@) =~= views_of(pre_out).push(pre_cur));
        assert(views_of(out@) =~= split_on(s@, sep));
    }
    out
}

/// Appends the first `n` samples of the tone table.
fn push_tone(tone: &Vec<i16>, n: usize, sink: &mut Vec<i16>)
    requires
        n <= tone@.len(),
    ensures
        final(sink)@ == old(sink)@ + tone@.take(n as int),
{
    let mut j: usize = 0;
    proof {
        assert(sink@ =~= old(sink)@ + tone@.take(0));
    }
    while j < n
        invariant
            j <= n,
            n <= tone@.len(),
            sink@ == old(sink)@ + tone@.take(j as int),
        decreases n - j,
    {
        sink.push(tone[j]);
        proof {
            assert(tone@.take(j + 1 as int) =~= tone@.take(j as int).push(tone@[j as int]));
            assert(sink@ =~= old(sink)@ + tone@.take(j + 1 as int));
        }
        j += 1;
    }
}

/// Appends `n` zero-valued samples.
fn push_silence(n: usize, sink: &mut Vec<i16>)
    ensures
        final(sink)@ == old(sink)@ + silence(n as int),
{
    let mut j: usize = 0;
    proof {
        assert(sink@ =~= old(sink)@ + silence(0));
    }
    while j < n
        invariant
            j <= n,
            sink@ == old(sink)@ + silence(j as int),
        decreases n - j,
    {
        sink.push(0i16);
        proof {
            assert(silence(j + 1 as int) =~= silence(j as int).push(0i16));
            assert(sink@ =~= old(sink)@ + silence(j + 1 as int));
        }
        j += 1;
    }
}

/// Turns text into the sample stream of its Morse-code audio. The Morse
/// symbol string is fixed at construction; the samples are produced by
/// `generate`.
pub struct MorseAudioGenerator {
    morse_code_text: String,
    unit_freq_length: u32,
}

impl MorseAudioGenerator {
    /// The Morse symbol string this generator walks.
    pub closed spec fn morse(&self) -> Seq<char> {
        self.morse_code_text@
    }

    /// The sample length of one timing unit.
    pub closed spec fn unit(&self) -> int {
        self.unit_freq_length as int
    }

    /// The timing unit is strictly positive and no longer than the unit of
    /// one word per minute, the slowest supported rate.
    pub open spec fn wf(&self) -> bool {
        1 <= self.unit() <= 52920
    }

    /// Builds a generator for the given text and words-per-minute rate:
    /// the text is translated to its Morse symbol string and the rate to a
    /// timing unit. Fails exactly when the text holds a character the symbol
    /// table does not map, reporting the first such character; no audio is
    /// produced in that case.
    pub fn new(text: &str, wpm: u32) -> (r: Result<MorseAudioGenerator, MorseError>)
        requires
            1 <= wpm <= MAX_WPM,
        ensures
            r is Ok <==> all_supported(normalized(text@)),
            match r {
                Ok(g) => {
                    &&& all_supported(normalized(text@))
                    &&& g.morse() == morse_text_spec(text@)
                    &&& g.unit() == unit_length_spec(wpm as int)
                    &&& g.wf()
                },
                Err(e) => {
                    &&& !all_supported(normalized(text@))
                    &&& exists|i: int|
                        #[trigger] unsupported_at(text@, i) && e
                            == MorseError::UnsupportedCharacter(to_lower(text@[i]))
                },
            },
    {
        match text_to_morse(text) {
            Err(e) => Err(e),
            Ok(m) => {
                let unit = wpm_to_unit_length(wpm);
                proof {
                    lemma_unit_in_range(wpm as int);
                }
                Ok(MorseAudioGenerator { morse_code_text: m, unit_freq_length: unit })
            },
        }
    }

    /// The Morse symbol string, for callers that want to show it.
    pub fn morse_text(&self) -> (r: &String)
        ensures
            r@ == self.morse(),
    {
        &self.morse_code_text
    }

    /// The sample length of one timing unit, from which a caller sizes the
    /// tone table (a dah needs three units of it).
    pub fn unit_samples(&self) -> (r: u32)
        ensures
            r as int == self.unit(),
    {
        self.unit_freq_length
    }

    /// Appends one dit: `unit` samples of the tone table.
    fn add_dit(&self, tone: &Vec<i16>, sink: &mut Vec<i16>)
        requires
            self.unit() <= tone@.len(),
        ensures
            final(sink)@ == old(sink)@ + dit_samples(self.unit(), tone@),
    {
        push_tone(tone, self.unit_freq_length as usize, sink);
    }

    /// Appends one dah: three units of samples of the tone table.
    fn add_dah(&self, tone: &Vec<i16>, sink: &mut Vec<i16>)
        requires
            3 * self.unit() <= tone@.len(),
        ensures
            final(sink)@ == old(sink)@ + dah_samples(self.unit(), tone@),
    {
        let tl = tone.len();
        proof {
            assert(3 * self.unit() <= tl as int);
        }
        let n: usize = 3 * (self.unit_freq_length as usize);
        push_tone(tone, n, sink);
    }

    /// Appends the silence between two tones of one symbol group.
    fn add_intra_char_space(&self, sink: &mut Vec<i16>)
        ensures
            final(sink)@ == old(sink)@ + intra_char_silence(self.unit()),
    {
        push_silence(self.unit_freq_length as usize, sink);
    }

    /// Appends the silence that follows a symbol group.
    fn add_inter_char_space(&self, sink: &mut Vec<i16>)
        requires
            self.wf(),
        ensures
            final(sink)@ == old(sink)@ + inter_char_silence(self.unit()),
    {
        let n: usize = 3 * (self.unit_freq_length as usize);
        push_silence(n, sink);
    }

    /// Appends the silence between two words.
    fn add_word_space(&self, sink: &mut Vec<i16>)
        requires
            self.wf(),
        ensures
            final(sink)@ == old(sink)@ + word_silence(self.unit()),
    {
        let n: usize = 4 * (self.unit_freq_length as usize);
        push_silence(n, sink);
    }

    /// Appends one symbol group: its tones with intra-character silences
    /// between consecutive tones and none after the last.
    fn add_char(&self, group: &Vec<char>, tone: &Vec<i16>, sink: &mut Vec<i16>)
        requires
            self.wf(),
            3 * self.unit() <= tone@.len(),
        ensures
            final(sink)@ == old(sink)@ + char_samples(group@, self.unit(), tone@),
    {
        let n = group.len();
        let mut i: usize = 0;
        while i < n
            invariant
                self.wf(),
                n == group@.len(),
                i <= n,
                3 * self.unit() <= tone@.len(),
                i == 0 ==> sink@ == old(sink)@,
                0 < i < n ==> sink@ == old(sink)@ + char_samples(
                    group@.take(i as int),
                    self.unit(),
                    tone@,
                ) + intra_char_silence(self.unit()),
                0 < i == n ==> sink@ == old(sink)@ + char_samples(
                    group@.take(i as int),
                    self.unit(),
                    tone@,
                ),
            decreases n - i,
        {
            let ghost pre = sink@;
            let c = group[i];
            if c == '.' {
                self.add_dit(tone, sink);
            } else if c == '-' {
                self.add_dah(tone, sink);
            }
            proof {
                assert(sink@ =~= pre + tone_of(group@[i as int], self.unit(), tone@));
                lemma_char_samples_snoc(group@.take(i as int), group@[i as int], self.unit(), tone@);
                assert(group@.take(i + 1 as int) =~= group@.take(i as int).push(group@[i as int]));
                assert(sink@ =~= old(sink)@ + char_samples(
                    group@.take(i + 1 as int),
                    self.unit(),
                    tone@,
                ));
            }
            if i + 1 < n {
                self.add_intra_char_space(sink);
            }
            i += 1;
        }
        proof {
            assert(group@.take(n as int) =~= group@);
            if n == 0 {
                assert(sink@ =~= old(sink)@ + char_samples(group@, self.unit(), tone@));
            }
        }
    }

    /// Walks the Morse symbol string and appends the audio stream it calls
    /// for to `sink`: the text split on `/` into words and each word on
    /// spaces into symbol groups; every group's samples are followed by an
    /// inter-character silence, and a word silence stands between
    /// consecutive words. The tone table must hold at least the three units
    /// of samples a dah takes.
    pub fn generate(&self, tone: &Vec<i16>, sink: &mut Vec<i16>)
        requires
            self.wf(),
            3 * self.unit() <= tone@.len(),
        ensures
            final(sink)@ == old(sink)@ + synth_samples(self.morse(), self.unit(), tone@),
    {
        let chars = str_to_chars(self.morse_code_text.as_str());
        let words = split_chars(&chars, '/');
        let ghost wviews = views_of(words@);
        let nw = words.len();
        let mut w: usize = 0;
        proof {
            assert(wviews.take(0) =~= Seq::<Seq<char>>::empty());
        }
        while w < nw
            invariant
                self.wf(),
                nw == words@.len(),
                w <= nw,
                nw >= 1,
                wviews == views_of(words@),
                wviews == split_on(self.morse(), '/'),
                3 * self.unit() <= tone@.len(),
                w == 0 ==> sink@ == old(sink)@,
                0 < w < nw ==> sink@ == old(sink)@ + words_samples(
                    wviews.take(w as int),
                    self.unit(),
                    tone@,
                ) + word_silence(self.unit()),
                0 < w == nw ==> sink@ == old(sink)@ + words_samples(
                    wviews.take(w as int),
                    self.unit(),
                    tone@,
                ),
            decreases nw - w,
        {
            let ghost word_base = sink@;
            let groups = split_chars(&words[w], ' ');
            let ghost gviews = views_of(groups@);
            let ng = groups.len();
            let mut g: usize = 0;
            proof {
                assert(gviews.take(0) =~= Seq::<Seq<char>>::empty());
            }
            while g < ng
                invariant
                    self.wf(),
                    ng == groups@.len(),
                    g <= ng,
                    gviews == views_of(groups@),
                    3 * self.unit() <= tone@.len(),
                    sink@ == word_base + word_samples(gviews.take(g as int), self.unit(), tone@),
                decreases ng - g,
            {
                let ghost pre = sink@;
                self.add_char(&groups[g], tone, sink);
                self.add_inter_char_space(sink);
                proof {
                    lemma_word_samples_snoc(
                        gviews.take(g as int),
                        gviews[g as int],
                        self.unit(),
                        tone@,
                    );
                    assert(gviews.take(g + 1 as int) =~= gviews.take(g as int).push(
                        gviews[g as int],
                    ));
                    assert(groups@[g as int]@ == gviews[g as int]);
                    assert(sink@ =~= word_base + word_samples(
                        gviews.take(g + 1 as int),
                        self.unit(),
                        tone@,
                    ));
                }
                g += 1;
            }
            proof {
                assert(gviews.take(ng as int) =~= gviews);
                assert(gviews == split_on(words@[w as int]@, ' '));
                assert(wviews[w as int] == words@[w as int]@);
                lemma_words_samples_snoc(
                    wviews.take(w as int),
                    wviews[w as int],
                    self.unit(),
                    tone@,
                );
                assert(wviews.take(w + 1 as int) =~= wviews.take(w as int).push(wviews[w as int]));
            }
            if w + 1 < nw {
                self.add_word_space(sink);
                proof {
                    assert(sink@ =~= old(sink)@ + words_samples(
                        wviews.take(w + 1 as int),
                        self.unit(),
                        tone@,
                    ) + word_silence(self.unit()));
                }
            } else {
                proof {
                    assert(sink@ =~= old(sink)@ + words_samples(
                        wviews.take(w + 1 as int),
                        self.unit(),
                        tone@,
                    ));
                }
            }
            w += 1;
        }
        proof {
            assert(wviews.take(nw as int) =~= wviews);
            if nw > 0 {
                assert(words_samples(wviews.take(nw as int), self.unit(), tone@) == words_samples(
                    wviews,
                    self.unit(),
                    tone@,
                ));
            }
        }
    }
}

/// Tone length invariant: at `wpm` words per minute a dit occupies exactly
/// `round(44100 * 60 / (wpm * 50))` samples of the tone table, and a dah
/// exactly three times as many.
pub proof fn lemma_tone_lengths(wpm: int, tone: Seq<i16>)
    requires
        1 <= wpm,
        3 * unit_length_spec(wpm) <= tone.len(),
    ensures
        dit_samples(unit_length_spec(wpm), tone).len() == unit_length_spec(wpm),
        dah_samples(unit_length_spec(wpm), tone).len() == 3 * unit_length_spec(wpm),
{
    assert(unit_length_spec(wpm) >= 0) by (nonlinear_arith)
        requires
            wpm >= 1,
    ;
}

/// Silence length invariants: the three silences are all zero-valued runs
/// of exactly one, three and four timing units.
pub proof fn lemma_silence_lengths(unit: int)
    requires
        unit >= 0,
    ensures
        intra_char_silence(unit).len() == unit,
        inter_char_silence(unit).len() == 3 * unit,
        word_silence(unit).len() == 4 * unit,
        forall|i: int| 0 <= i < unit ==> intra_char_silence(unit)[i] == 0i16,
        forall|i: int| 0 <= i < 3 * unit ==> inter_char_silence(unit)[i] == 0i16,
        forall|i: int| 0 <= i < 4 * unit ==> word_silence(unit)[i] == 0i16,
{
}

/// Generation is deterministic: the same Morse text, timing unit and tone
/// table always give the same sample sequence, so two runs over identical
/// inputs produce identical audio.
pub proof fn lemma_generation_deterministic(
    m1: Seq<char>,
    u1: int,
    t1: Seq<i16>,
    m2: Seq<char>,
    u2: int,
    t2: Seq<i16>,
)
    requires
        m1 == m2,
        u1 == u2,
        t1 == t2,
    ensures
        synth_samples(m1, u1, t1) == synth_samples(m2, u2, t2),
{
}

/// Empty input: the Morse text is empty, and synthesizing it emits a single
/// inter-character silence — zero tone samples.
pub proof fn lemma_empty_text(unit: int, tone: Seq<i16>)
    ensures
        morse_text_spec(Seq::<char>::empty()) == Seq::<char>::empty(),
        synth_samples(Seq::<char>::empty(), unit, tone) == inter_char_silence(unit),
{
    assert(normalized(Seq::<char>::empty()) =~= Seq::<char>::empty());
    assert(morse_text_spec(Seq::<char>::empty()) =~= Seq::<char>::empty());
    let e = Seq::<char>::empty();
    assert(split_on(e, '/') == seq![e]);
    assert(split_on(e, ' ') == seq![e]);
    assert(words_samples(seq![e], unit, tone) == word_samples(seq![e], unit, tone));
    assert(seq![e].drop_first() =~= Seq::<Seq<char>>::empty());
    assert(word_samples(Seq::<Seq<char>>::empty(), unit, tone) == Seq::<i16>::empty());
    assert(char_samples(e, unit, tone) == Seq::<i16>::empty());
    assert(word_samples(seq![e], unit, tone) == char_samples(e, unit, tone)
        + inter_char_silence(unit) + Seq::<i16>::empty());
    assert(word_samples(seq![e], unit, tone) =~= inter_char_silence(unit));
}

} // verus!
