use morse_gen::text_to_morse;
use morse_gen::MorseError;

#[test]
fn every_table_entry_encodes_to_its_symbol() {
    let table: Vec<(char, &str)> = vec![
        ('a', ".-"),
        ('b', "-..."),
        ('c', "-.-."),
        ('d', "-.."),
        ('e', "."),
        ('f', "..-."),
        ('g', "--."),
        ('h', "...."),
        ('i', ".."),
        ('j', ".---"),
        ('k', "-.-"),
        ('l', ".-.."),
        ('m', "--"),
        ('n', "-."),
        ('o', "---"),
        ('p', ".--."),
        ('q', "--.-"),
        ('r', ".-."),
        ('s', "..."),
        ('t', "-"),
        ('u', "..-"),
        ('v', "...-"),
        ('w', ".--"),
        ('x', "-..-"),
        ('y', "-.--"),
        ('z', "--.."),
        (' ', "/"),
        ('1', ".----"),
        ('2', "..---"),
        ('3', "...--"),
        ('4', "....-"),
        ('5', "....."),
        ('6', "-...."),
        ('7', "--..."),
        ('8', "---.."),
        ('9', "----."),
        ('0', "-----"),
        ('.', ".-.-.-"),
        (',', "--..--"),
        ('?', "..--.."),
        ('\'', ".----."),
        ('!', "-.-.--"),
        ('/', "-..-."),
        ('(', "-.--."),
        (')', "-.--.-"),
        ('&', ".-..."),
        (':', "---..."),
        (';', "-.-.-."),
        ('=', "-...-"),
        ('+', ".-.-."),
        ('-', "-....-"),
        ('_', "..--.-"),
        ('"', ".-..-."),
        ('$', "...-..-"),
        ('@', ".--.-."),
    ];
    for (c, symbol) in table {
        let text: String = c.to_string();
        assert_eq!(text_to_morse(&text), Ok(symbol.to_string()), "entry for {:?}", c);
    }
}

#[test]
fn uppercase_letters_are_normalized() {
    assert_eq!(text_to_morse("A"), Ok(".-".to_string()));
    assert_eq!(text_to_morse("Z"), Ok("--..".to_string()));
    assert_eq!(text_to_morse("Hello"), text_to_morse("hello"));
}

#[test]
fn supported_text_never_fails() {
    assert!(text_to_morse("hello world").is_ok());
    assert!(text_to_morse("the quick brown fox jumps over the lazy dog 0123456789").is_ok());
    assert!(text_to_morse(".,?'!/()&:;=+-_\"$@").is_ok());
}

#[test]
fn hello_world_symbols() {
    assert_eq!(
        text_to_morse("hello world"),
        Ok(".... . .-.. .-.. ---/.-- --- .-. .-.. -..".to_string())
    );
}

#[test]
fn sos_symbols() {
    assert_eq!(text_to_morse("sos"), Ok("... --- ...".to_string()));
}

#[test]
fn word_separator_collapsing() {
    assert_eq!(text_to_morse("a b"), Ok(".-/-...".to_string()));
}

#[test]
fn consecutive_spaces_collapse_left_to_right() {
    // the left-to-right pass consumes the space before the second separator
    assert_eq!(text_to_morse("a  b"), Ok(".-// -...".to_string()));
}

#[test]
fn edge_spaces_keep_their_joining_space() {
    assert_eq!(text_to_morse("a "), Ok(".- /".to_string()));
    assert_eq!(text_to_morse(" a"), Ok("/ .-".to_string()));
}

#[test]
fn unsupported_character_is_reported() {
    assert_eq!(
        text_to_morse("a#b"),
        Err(MorseError::UnsupportedCharacter('#'))
    );
    assert_eq!(
        text_to_morse("ok then %"),
        Err(MorseError::UnsupportedCharacter('%'))
    );
    assert_eq!(
        text_to_morse("caf\u{e9}"),
        Err(MorseError::UnsupportedCharacter('\u{e9}'))
    );
}

#[test]
fn first_unsupported_character_wins() {
    assert_eq!(
        text_to_morse("a#b%"),
        Err(MorseError::UnsupportedCharacter('#'))
    );
}

#[test]
fn empty_text_encodes_to_empty_morse() {
    assert_eq!(text_to_morse(""), Ok("".to_string()));
}
