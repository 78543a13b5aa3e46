use vstd::prelude::*;
use vstd::string::StrSliceExecFns;
use crate::table::is_supported;
use crate::table::lookup_morse;
use crate::table::symbol_of;
use crate::table::to_lower;
use crate::table::to_lower_char;
use crate::table::lemma_symbol_no_space;

verus! {

/// Everything that can go wrong while turning text into an audio stream.
/// The symbol mapper reports a character absent from the table; the two
/// sink failures are raised by the caller that owns the output file when
/// creating or writing it fails.
#[derive(Clone, Copy, Debug, PartialEq, Eq)]
pub enum MorseError {
    /// The input text holds a character (after case normalization) that the
    /// symbol table does not map; the offending character is carried along.
    UnsupportedCharacter(char),
    /// The output destination could not be created or opened.
    SinkCreationFailure,
    /// Appending samples to the output stream, or finalizing it, failed.
    SinkWriteFailure,
}

/// The case-normalized form of the input text.
pub open spec fn normalized(text: Seq<char>) -> Seq<char> {
    text.map_values(|c: char| to_lower(c))
}

/// Every character of `s` has a symbol table entry.
pub open spec fn all_supported(s: Seq<char>) -> bool {
    forall|i: int| 0 <= i < s.len() ==> is_supported(#[trigger] s[i])
}

/// Position `i` holds the first character of `text` whose normalized form
/// has no table entry.
pub open spec fn unsupported_at(text: Seq<char>, i: int) -> bool {
    &&& 0 <= i < text.len()
    &&& !is_supported(to_lower(text[i]))
    &&& forall|j: int| 0 <= j < i ==> is_supported(to_lower(#[trigger] text[j]))
}

/// The symbol groups of consecutive characters, joined with a single space.
pub open spec fn joined_symbols(s: Seq<char>) -> Seq<char>
    decreases s.len(),
{
    if s.len() == 0 {
        Seq::empty()
    } else if s.len() == 1 {
        symbol_of(s[0])
    } else {
        symbol_of(s[0]) + seq![' '] + joined_symbols(s.drop_first())
    }
}

/// Collapses every occurrence of the sequence "space slash space" to a bare
/// `/`, scanning left to right without overlap, so that word separators are
/// not surrounded by the character-joining space.
pub open spec fn collapse_seps(s: Seq<char>) -> Seq<char>
    decreases s.len(),
{
    if s.len() >= 3 && s[0] == ' ' && s[1] == '/' && s[2] == ' ' {
        seq!['/'] + collapse_seps(s.skip(3))
    } else if s.len() == 0 {
        Seq::empty()
    } else {
        seq![s[0]] + collapse_seps(s.drop_first())
    }
}

/// The Morse text of an input: normalize the case, join the symbol groups
/// with single spaces, then collapse the spacing around word separators.
pub open spec fn morse_text_spec(text: Seq<char>) -> Seq<char> {
    collapse_seps(joined_symbols(normalized(text)))
}

/// Appending one character extends the joined symbol string by one space
/// and the character's group (by the group alone when it is the first).
pub proof fn lemma_joined_snoc(s: Seq<char>, c: char)
    ensures
        joined_symbols(s.push(c)) == if s.len() == 0 {
            symbol_of(c)
        } else {
            joined_symbols(s) + seq![' '] + symbol_of(c)
        },
    decreases s.len(),
{
    if s.len() == 0 {
        assert(s.push(c) =~= seq![c]);
        assert(joined_symbols(seq![c]) == symbol_of(c));
    } else {
        lemma_joined_snoc(s.drop_first(), c);
        assert(s.push(c).drop_first() =~= s.drop_first().push(c));
        assert(joined_symbols(s.push(c)) =~= joined_symbols(s) + seq![' '] + symbol_of(c));
    }
}

/// A string without spaces passes through the collapsing step unchanged.
pub proof fn lemma_collapse_no_space(s: Seq<char>)
    requires
        forall|i: int| 0 <= i < s.len() ==> s[i] != ' ',
    ensures
        collapse_seps(s) == s,
    decreases s.len(),
{
    if s.len() == 0 {
        assert(collapse_seps(s) =~= s);
    } else {
        lemma_collapse_no_space(s.drop_first());
        assert(collapse_seps(s) =~= s);
    }
}

/// Collapsing skips over a prefix that holds no space.
pub proof fn lemma_collapse_prefix_no_space(x: Seq<char>, y: Seq<char>)
    requires
        forall|i: int| 0 <= i < x.len() ==> x[i] != ' ',
    ensures
        collapse_seps(x + y) == x + collapse_seps(y),
    decreases x.len(),
{
    if x.len() == 0 {
        assert(x + y =~= y);
        assert(collapse_seps(x + y) =~= x + collapse_seps(y));
    } else {
        lemma_collapse_prefix_no_space(x.drop_first(), y);
        assert((x + y).drop_first() =~= x.drop_first() + y);
        assert(collapse_seps(x + y) =~= x + collapse_seps(y));
    }
}

/// Appends the characters of `s` to `out`.
fn append_str_chars(out: &mut Vec<char>, s: &str)
    ensures
        final(out)@ == old(out)@ + s@,
{
    let n = s.unicode_len();
    let mut j: usize = 0;
    while j < n
        invariant
            n == s@.len(),
            j <= n,
            out@ == old(out)@ + s@.take(j as int),
        decreases n - j,
    {
        out.push(s.get_char(j));
        proof {
            assert(s@.take(j + 1 as int) =~= s@.take(j as int).push(s@[j as int]));
            assert(out@ =~= old(out)@ + s@.take(j + 1 as int));
        }
        j += 1;
    }
    proof {
        assert(s@.take(n as int) =~= s@);
    }
}

/// One left-to-right pass that rewrites each "space slash space" window to
/// a bare `/`, exactly as `collapse_seps` describes.
fn collapse_word_seps(v: &Vec<char>) -> (r: Vec<char>)
    ensures
        r@ == collapse_seps(v@),
{
    let mut out: Vec<char> = Vec::new();
    let mut i: usize = 0;
    proof {
        assert(v@.skip(0) =~= v@);
    }
    while i < v.len()
        invariant
            i <= v.len(),
            collapse_seps(v@) == out@ + collapse_seps(v@.skip(i as int)),
        decreases v.len() - i,
    {
        let ghost pre = out@;
        if v.len() - i >= 3 && v[i] == ' ' && v[i + 1] == '/' && v[i + 2] == ' ' {
            out.push('/');
            proof {
                assert(v@.skip(i as int).skip(3) =~= v@.skip(i + 3 as int));
                assert(pre + collapse_seps(v@.skip(i as int)) =~= out@ + collapse_seps(
                    v@.skip(i + 3 as int),
                ));
            }
            i += 3;
        } else {
            out.push(v[i]);
            proof {
                assert(v@.skip(i as int).drop_first() =~= v@.skip(i + 1 as int));
                assert(pre + collapse_seps(v@.skip(i as int)) =~= out@ + collapse_seps(
                    v@.skip(i + 1 as int),
                ));
            }
            i += 1;
        }
    }
    proof {
        assert(v@.skip(v@.len() as int) =~= Seq::<char>::empty());
        assert(out@ =~= collapse_seps(v@));
    }
    out
}

/// Relies on `String`'s `FromIterator<char>` implementation: collecting
/// characters yields the string of exactly those characters, in order.
#[verifier::external_body]
fn chars_to_string(v: &Vec<char>) -> (r: String)
    ensures
        r@ == v@,
{
    v.iter().collect()
}

/// Translates text into its Morse symbol string: each character's symbol
/// group in order, groups joined by single spaces, word separators freed of
/// the surrounding joining spaces. Fails on the first character (in input
/// order, after case normalization) that the symbol table does not map, and
/// reports that character.
pub fn text_to_morse(text: &str) -> (r: Result<String, MorseError>)
    ensures
        r is Ok <==> all_supported(normalized(text@)),
        match r {
            Ok(m) => all_supported(normalized(text@)) && m@ == morse_text_spec(text@),
            Err(e) => {
                &&& !all_supported(normalized(text@))
                &&& exists|i: int|
                    #[trigger] unsupported_at(text@, i) && e == MorseError::UnsupportedCharacter(
                        to_lower(text@[i]),
                    )
            },
        },
{
    let n = text.unicode_len();
    let mut joined: Vec<char> = Vec::new();
    let mut i: usize = 0;
    while i < n
        invariant
            n == text@.len(),
            i <= n,
            forall|j: int| 0 <= j < i ==> is_supported(to_lower(#[trigger] text@[j])),
            joined@ == joined_symbols(normalized(text@).take(i as int)),
        decreases n - i,
    {
        let c = to_lower_char(text.get_char(i));
        match lookup_morse(c) {
            None => {
                proof {
                    assert(unsupported_at(text@, i as int));
                    assert(!is_supported(normalized(text@)[i as int]));
                }
                return Err(MorseError::UnsupportedCharacter(c));
            },
            Some(s) => {
                if i > 0 {
                    joined.push(' ');
                }
                append_str_chars(&mut joined, s);
                proof {
                    let norm = normalized(text@);
                    lemma_joined_snoc(norm.take(i as int), norm[i as int]);
                    assert(norm.take(i + 1 as int) =~= norm.take(i as int).push(norm[i as int]));
                    assert(joined@ =~= joined_symbols(norm.take(i + 1 as int)));
                }
            },
        }
        i += 1;
    }
    let collapsed = collapse_word_seps(&joined);
    proof {
        assert(normalized(text@).take(n as int) =~= normalized(text@));
    }
    Ok(chars_to_string(&collapsed))
}

/// For every supported character, the Morse text of the one-character string
/// is exactly the table's symbol group for that character (after case
/// normalization).
pub proof fn lemma_encode_single_char(c: char)
    requires
        is_supported(to_lower(c)),
    ensures
        morse_text_spec(seq![c]) == symbol_of(to_lower(c)),
{
    let lc = to_lower(c);
    assert(normalized(seq![c]) =~= seq![lc]);
    assert(joined_symbols(seq![lc]) == symbol_of(lc));
    lemma_symbol_no_space(lc);
    lemma_collapse_no_space(symbol_of(lc));
}

/// Word-separator collapsing: for two supported, non-space characters, the
/// Morse text of the three-character string "a space b" is the two symbol
/// groups joined by a bare `/`, with no spacing around it.
pub proof fn lemma_word_separator_collapsing(a: char, b: char)
    requires
        is_supported(to_lower(a)),
        is_supported(to_lower(b)),
        to_lower(a) != ' ',
        to_lower(b) != ' ',
    ensures
        morse_text_spec(seq![a, ' ', b]) == symbol_of(to_lower(a)) + seq!['/'] + symbol_of(
            to_lower(b),
        ),
{
    let la = to_lower(a);
    let lb = to_lower(b);
    let sa = symbol_of(la);
    let sb = symbol_of(lb);
    lemma_symbol_no_space(la);
    lemma_symbol_no_space(lb);
    lemma_symbol_no_space(' ');
    assert(to_lower(' ') == ' ');
    assert(normalized(seq![a, ' ', b]) =~= seq![la, ' ', lb]);
    let s = seq![la, ' ', lb];
    assert(s.drop_first() =~= seq![' ', lb]);
    assert(s.drop_first().drop_first() =~= seq![lb]);
    assert(joined_symbols(seq![lb]) == sb);
    assert(joined_symbols(seq![' ', lb]) == seq!['/'] + seq![' '] + sb);
    assert(joined_symbols(s) == sa + seq![' '] + (seq!['/'] + seq![' '] + sb));
    let mid = seq![' ', '/', ' '];
    assert(sa + seq![' '] + (seq!['/'] + seq![' '] + sb) =~= sa + (mid + sb));
    lemma_collapse_prefix_no_space(sa, mid + sb);
    let t = mid + sb;
    assert(t.len() >= 3 && t[0] == ' ' && t[1] == '/' && t[2] == ' ');
    assert(t.skip(3) =~= sb);
    lemma_collapse_no_space(sb);
    assert(collapse_seps(t) == seq!['/'] + sb);
    assert(morse_text_spec(seq![a, ' ', b]) =~= sa + seq!['/'] + sb);
}

} // verus!
