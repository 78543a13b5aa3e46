use vstd::prelude::*;

verus! {

/// Case normalization: ASCII uppercase letters map to their lowercase form;
/// every other character is left unchanged. The symbol table only holds
/// lowercase entries, so lookups go through this first.
pub open spec fn to_lower(c: char) -> char {
    match c {
        'A' => 'a',
        'B' => 'b',
        'C' => 'c',
        'D' => 'd',
        'E' => 'e',
        'F' => 'f',
        'G' => 'g',
        'H' => 'h',
        'I' => 'i',
        'J' => 'j',
        'K' => 'k',
        'L' => 'l',
        'M' => 'm',
        'N' => 'n',
        'O' => 'o',
        'P' => 'p',
        'Q' => 'q',
        'R' => 'r',
        'S' => 's',
        'T' => 't',
        'U' => 'u',
        'V' => 'v',
        'W' => 'w',
        'X' => 'x',
        'Y' => 'y',
        'Z' => 'z',
        _ => c,
    }
}

/// Executable case normalization, equal to `to_lower`.
pub fn to_lower_char(c: char) -> (r: char)
    ensures
        r == to_lower(c),
{
    match c {
        'A' => 'a',
        'B' => 'b',
        'C' => 'c',
        'D' => 'd',
        'E' => 'e',
        'F' => 'f',
        'G' => 'g',
        'H' => 'h',
        'I' => 'i',
        'J' => 'j',
        'K' => 'k',
        'L' => 'l',
        'M' => 'm',
        'N' => 'n',
        'O' => 'o',
        'P' => 'p',
        'Q' => 'q',
        'R' => 'r',
        'S' => 's',
        'T' => 't',
        'U' => 'u',
        'V' => 'v',
        'W' => 'w',
        'X' => 'x',
        'Y' => 'y',
        'Z' => 'z',
        _ => c,
    }
}

/// The fixed Morse symbol table: every supported character maps to its
/// symbol group, a string of `.` (dit) and `-` (dah); the input space
/// character maps to the word separator `/`. Unsupported characters map
/// to `None`.
pub open spec fn morse_symbol(c: char) -> Option<Seq<char>> {
    match c {
        'a' => Some(".-"@),
        'b' => Some("-..."@),
        'c' => Some("-.-."@),
        'd' => Some("-.."@),
        'e' => Some("."@),
        'f' => Some("..-."@),
        'g' => Some("--."@),
        'h' => Some("...."@),
        'i' => Some(".."@),
        'j' => Some(".---"@),
        'k' => Some("-.-"@),
        'l' => Some(".-.."@),
        'm' => Some("--"@),
        'n' => Some("-."@),
        'o' => Some("---"@),
        'p' => Some(".--."@),
        'q' => Some("--.-"@),
        'r' => Some(".-."@),
        's' => Some("..."@),
        't' => Some("-"@),
        'u' => Some("..-"@),
        'v' => Some("...-"@),
        'w' => Some(".--"@),
        'x' => Some("-..-"@),
        'y' => Some("-.--"@),
        'z' => Some("--.."@),
        ' ' => Some("/"@),
        '1' => Some(".----"@),
        '2' => Some("..---"@),
        '3' => Some("...--"@),
        '4' => Some("....-"@),
        '5' => Some("....."@),
        '6' => Some("-...."@),
        '7' => Some("--..."@),
        '8' => Some("---.."@),
        '9' => Some("----."@),
        '0' => Some("-----"@),
        '.' => Some(".-.-.-"@),
        ',' => Some("--..--"@),
        '?' => Some("..--.."@),
        '\'' => Some(".----."@),
        '!' => Some("-.-.--"@),
        '/' => Some("-..-."@),
        '(' => Some("-.--."@),
        ')' => Some("-.--.-"@),
        '&' => Some(".-..."@),
        ':' => Some("---..."@),
        ';' => Some("-.-.-."@),
        '=' => Some("-...-"@),
        '+' => Some(".-.-."@),
        '-' => Some("-....-"@),
        '_' => Some("..--.-"@),
        '"' => Some(".-..-."@),
        '$' => Some("...-..-"@),
        '@' => Some(".--.-."@),
        _ => None,
    }
}

/// A character is supported when the table has an entry for it.
pub open spec fn is_supported(c: char) -> bool {
    morse_symbol(c) is Some
}

/// The symbol group of a supported character.
pub open spec fn symbol_of(c: char) -> Seq<char> {
    morse_symbol(c)->Some_0
}

/// Executable table lookup, equal to `morse_symbol`.
pub fn lookup_morse(c: char) -> (r: Option<&'static str>)
    ensures
        match r {
            Some(s) => morse_symbol(c) == Some(s@),
            None => morse_symbol(c) is None,
        },
{
    match c {
        'a' => Some(".-"),
        'b' => Some("-..."),
        'c' => Some("-.-."),
        'd' => Some("-.."),
        'e' => Some("."),
        'f' => Some("..-."),
        'g' => Some("--."),
        'h' => Some("...."),
        'i' => Some(".."),
        'j' => Some(".---"),
        'k' => Some("-.-"),
        'l' => Some(".-.."),
        'm' => Some("--"),
        'n' => Some("-."),
        'o' => Some("---"),
        'p' => Some(".--."),
        'q' => Some("--.-"),
        'r' => Some(".-."),
        's' => Some("..."),
        't' => Some("-"),
        'u' => Some("..-"),
        'v' => Some("...-"),
        'w' => Some(".--"),
        'x' => Some("-..-"),
        'y' => Some("-.--"),
        'z' => Some("--.."),
        ' ' => Some("/"),
        '1' => Some(".----"),
        '2' => Some("..---"),
        '3' => Some("...--"),
        '4' => Some("....-"),
        '5' => Some("....."),
        '6' => Some("-...."),
        '7' => Some("--..."),
        '8' => Some("---.."),
        '9' => Some("----."),
        '0' => Some("-----"),
        '.' => Some(".-.-.-"),
        ',' => Some("--..--"),
        '?' => Some("..--.."),
        '\'' => Some(".----."),
        '!' => Some("-.-.--"),
        '/' => Some("-..-."),
        '(' => Some("-.--."),
        ')' => Some("-.--.-"),
        '&' => Some(".-..."),
        ':' => Some("---..."),
        ';' => Some("-.-.-."),
        '=' => Some("-...-"),
        '+' => Some(".-.-."),
        '-' => Some("-....-"),
        '_' => Some("..--.-"),
        '"' => Some(".-..-."),
        '$' => Some("...-..-"),
        '@' => Some(".--.-."),
        _ => None,
    }
}

/// The word separator is the only symbol holding a `/`; no symbol ever
/// holds a space, so the separator-collapsing pass leaves symbol groups
/// themselves untouched.
pub proof fn lemma_symbol_no_space(c: char)
    requires
        is_supported(c),
    ensures
        forall|i: int| 0 <= i < symbol_of(c).len() ==> symbol_of(c)[i] != ' ',
        symbol_of(c).len() >= 1,
        c == ' ' ==> symbol_of(c) == seq!['/'],
{
    reveal_strlit(".-");
    reveal_strlit("-...");
    reveal_strlit("-.-.");
    reveal_strlit("-..");
    reveal_strlit(".");
    reveal_strlit("..-.");
    reveal_strlit("--.");
    reveal_strlit("....");
    reveal_strlit("..");
    reveal_strlit(".---");
    reveal_strlit("-.-");
    reveal_strlit(".-..");
    reveal_strlit("--");
    reveal_strlit("-.");
    reveal_strlit("---");
    reveal_strlit(".--.");
    reveal_strlit("--.-");
    reveal_strlit(".-.");
    reveal_strlit("...");
    reveal_strlit("-");
    reveal_strlit("..-");
    reveal_strlit("...-");
    reveal_strlit(".--");
    reveal_strlit("-..-");
    reveal_strlit("-.--");
    reveal_strlit("--..");
    reveal_strlit("/");
    reveal_strlit(".----");
    reveal_strlit("..---");
    reveal_strlit("...--");
    reveal_strlit("....-");
    reveal_strlit(".....");
    reveal_strlit("-....");
    reveal_strlit("--...");
    reveal_strlit("---..");
    reveal_strlit("----.");
    reveal_strlit("-----");
    reveal_strlit(".-.-.-");
    reveal_strlit("--..--");
    reveal_strlit("..--..");
    reveal_strlit(".----.");
    reveal_strlit("-.-.--");
    reveal_strlit("-..-.");
    reveal_strlit("-.--.");
    reveal_strlit("-.--.-");
    reveal_strlit(".-...");
    reveal_strlit("---...");
    reveal_strlit("-.-.-.");
    reveal_strlit("-...-");
    reveal_strlit(".-.-.");
    reveal_strlit("-....-");
    reveal_strlit("..--.-");
    reveal_strlit(".-..-.");
    reveal_strlit("...-..-");
    reveal_strlit(".--.-.");
    if c == ' ' {
        assert(symbol_of(c) =~= seq!['/']);
    }
}

} // verus!
