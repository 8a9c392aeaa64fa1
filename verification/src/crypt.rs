//! A fixed-alphabet additive stream cipher keyed by a repeating passphrase.
//!
//! The alphabet is a fixed ordered set of 106 symbols; each symbol maps to
//! a unique index in `0..106`.  Encryption adds message and passphrase
//! indices modulo 106, decryption subtracts them.

use vstd::prelude::*;

verus! {

use vstd::arithmetic::div_mod::{lemma_add_mod_noop, lemma_mod_self_0, lemma_small_mod};
use vstd::string::StrSliceExecFns;

/// Errors from encrypting or decrypting a message.
#[derive(Debug, PartialEq, Eq)]
pub enum CryptError {
    /// A character of the message or passphrase is not in the alphabet.
    UnsupportedCharacter(char),
    /// The passphrase is empty, so there is no key stream to repeat.
    EmptyPassphrase,
}

/// The index of a character in the 106-symbol alphabet, or -1 when the
/// character is not in the alphabet.
pub open spec fn sym_index(c: char) -> int {
    if c == 'a' {
        0
    } else if c == 'b' {
        1
    } else if c == 'c' {
        2
    } else if c == 'd' {
        3
    } else if c == 'e' {
        4
    } else if c == 'f' {
        5
    } else if c == 'g' {
        6
    } else if c == 'h' {
        7
    } else if c == 'i' {
        8
    } else if c == 'j' {
        9
    } else if c == 'k' {
        10
    } else if c == 'l' {
        11
    } else if c == 'm' {
        12
    } else if c == 'n' {
        13
    } else if c == 'o' {
        14
    } else if c == 'p' {
        15
    } else if c == 'q' {
        16
    } else if c == 'r' {
        17
    } else if c == 's' {
        18
    } else if c == 't' {
        19
    } else if c == 'u' {
        20
    } else if c == 'v' {
        21
    } else if c == 'w' {
        22
    } else if c == 'x' {
        23
    } else if c == 'y' {
        24
    } else if c == 'z' {
        25
    } else if c == 'A' {
        26
    } else if c == 'B' {
        27
    } else if c == 'C' {
        28
    } else if c == 'D' {
        29
    } else if c == 'E' {
        30
    } else if c == 'F' {
        31
    } else if c == 'G' {
        32
    } else if c == 'H' {
        33
    } else if c == 'I' {
        34
    } else if c == 'J' {
        35
    } else if c == 'K' {
        36
    } else if c == 'L' {
        37
    } else if c == 'M' {
        38
    } else if c == 'N' {
        39
    } else if c == 'O' {
        40
    } else if c == 'P' {
        41
    } else if c == 'Q' {
        42
    } else if c == 'R' {
        43
    } else if c == 'S' {
        44
    } else if c == 'T' {
        45
    } else if c == 'U' {
        46
    } else if c == 'V' {
        47
    } else if c == 'W' {
        48
    } else if c == 'X' {
        49
    } else if c == 'Y' {
        50
    } else if c == 'Z' {
        51
    } else if c == '\u{e4}' {
        52
    } else if c == '\u{f6}' {
        53
    } else if c == '\u{fc}' {
        54
    } else if c == '\u{df}' {
        55
    } else if c == '0' {
        56
    } else if c == '1' {
        57
    } else if c == '2' {
        58
    } else if c == '3' {
        59
    } else if c == '4' {
        60
    } else if c == '5' {
        61
    } else if c == '6' {
        62
    } else if c == '7' {
        63
    } else if c == '8' {
        64
    } else if c == '9' {
        65
    } else if c == '^' {
        66
    } else if c == '\u{b0}' {
        67
    } else if c == '!' {
        68
    } else if c == '"' {
        69
    } else if c == '\u{b2}' {
        70
    } else if c == '\u{a7}' {
        71
    } else if c == '\u{b3}' {
        72
    } else if c == '$' {
        73
    } else if c == '%' {
        74
    } else if c == '&' {
        75
    } else if c == '/' {
        76
    } else if c == '{' {
        77
    } else if c == '(' {
        78
    } else if c == '[' {
        79
    } else if c == ')' {
        80
    } else if c == ']' {
        81
    } else if c == '=' {
        82
    } else if c == '}' {
        83
    } else if c == '?' {
        84
    } else if c == '\\' {
        85
    } else if c == '\u{b4}' {
        86
    } else if c == '`' {
        87
    } else if c == '@' {
        88
    } else if c == '\u{20ac}' {
        89
    } else if c == '+' {
        90
    } else if c == '*' {
        91
    } else if c == '~' {
        92
    } else if c == '\'' {
        93
    } else if c == '#' {
        94
    } else if c == '<' {
        95
    } else if c == '>' {
        96
    } else if c == '|' {
        97
    } else if c == '\u{b5}' {
        98
    } else if c == ',' {
        99
    } else if c == ';' {
        100
    } else if c == '.' {
        101
    } else if c == ':' {
        102
    } else if c == '-' {
        103
    } else if c == '_' {
        104
    } else if c == ' ' {
        105
    } else {
        -1
    }
}

/// The alphabet character at an index in `0..106`.
pub open spec fn sym_char(i: int) -> char {
    if i == 0 {
        'a'
    } else if i == 1 {
        'b'
    } else if i == 2 {
        'c'
    } else if i == 3 {
        'd'
    } else if i == 4 {
        'e'
    } else if i == 5 {
        'f'
    } else if i == 6 {
        'g'
    } else if i == 7 {
        'h'
    } else if i == 8 {
        'i'
    } else if i == 9 {
        'j'
    } else if i == 10 {
        'k'
    } else if i == 11 {
        'l'
    } else if i == 12 {
        'm'
    } else if i == 13 {
        'n'
    } else if i == 14 {
        'o'
    } else if i == 15 {
        'p'
    } else if i == 16 {
        'q'
    } else if i == 17 {
        'r'
    } else if i == 18 {
        's'
    } else if i == 19 {
        't'
    } else if i == 20 {
        'u'
    } else if i == 21 {
        'v'
    } else if i == 22 {
        'w'
    } else if i == 23 {
        'x'
    } else if i == 24 {
        'y'
    } else if i == 25 {
        'z'
    } else if i == 26 {
        'A'
    } else if i == 27 {
        'B'
    } else if i == 28 {
        'C'
    } else if i == 29 {
        'D'
    } else if i == 30 {
        'E'
    } else if i == 31 {
        'F'
    } else if i == 32 {
        'G'
    } else if i == 33 {
        'H'
    } else if i == 34 {
        'I'
    } else if i == 35 {
        'J'
    } else if i == 36 {
        'K'
    } else if i == 37 {
        'L'
    } else if i == 38 {
        'M'
    } else if i == 39 {
        'N'
    } else if i == 40 {
        'O'
    } else if i == 41 {
        'P'
    } else if i == 42 {
        'Q'
    } else if i == 43 {
        'R'
    } else if i == 44 {
        'S'
    } else if i == 45 {
        'T'
    } else if i == 46 {
        'U'
    } else if i == 47 {
        'V'
    } else if i == 48 {
        'W'
    } else if i == 49 {
        'X'
    } else if i == 50 {
        'Y'
    } else if i == 51 {
        'Z'
    } else if i == 52 {
        '\u{e4}'
    } else if i == 53 {
        '\u{f6}'
    } else if i == 54 {
        '\u{fc}'
    } else if i == 55 {
        '\u{df}'
    } else if i == 56 {
        '0'
    } else if i == 57 {
        '1'
    } else if i == 58 {
        '2'
    } else if i == 59 {
        '3'
    } else if i == 60 {
        '4'
    } else if i == 61 {
        '5'
    } else if i == 62 {
        '6'
    } else if i == 63 {
        '7'
    } else if i == 64 {
        '8'
    } else if i == 65 {
        '9'
    } else if i == 66 {
        '^'
    } else if i == 67 {
        '\u{b0}'
    } else if i == 68 {
        '!'
    } else if i == 69 {
        '"'
    } else if i == 70 {
        '\u{b2}'
    } else if i == 71 {
        '\u{a7}'
    } else if i == 72 {
        '\u{b3}'
    } else if i == 73 {
        '$'
    } else if i == 74 {
        '%'
    } else if i == 75 {
        '&'
    } else if i == 76 {
        '/'
    } else if i == 77 {
        '{'
    } else if i == 78 {
        '('
    } else if i == 79 {
        '['
    } else if i == 80 {
        ')'
    } else if i == 81 {
        ']'
    } else if i == 82 {
        '='
    } else if i == 83 {
        '}'
    } else if i == 84 {
        '?'
    } else if i == 85 {
        '\\'
    } else if i == 86 {
        '\u{b4}'
    } else if i == 87 {
        '`'
    } else if i == 88 {
        '@'
    } else if i == 89 {
        '\u{20ac}'
    } else if i == 90 {
        '+'
    } else if i == 91 {
        '*'
    } else if i == 92 {
        '~'
    } else if i == 93 {
        '\''
    } else if i == 94 {
        '#'
    } else if i == 95 {
        '<'
    } else if i == 96 {
        '>'
    } else if i == 97 {
        '|'
    } else if i == 98 {
        '\u{b5}'
    } else if i == 99 {
        ','
    } else if i == 100 {
        ';'
    } else if i == 101 {
        '.'
    } else if i == 102 {
        ':'
    } else if i == 103 {
        '-'
    } else if i == 104 {
        '_'
    } else {
        ' '
    }
}

fn char_index(c: char) -> (r: Option<u8>)
    ensures
        match r {
            Some(i) => sym_index(c) == i && i < 106,
            None => sym_index(c) == -1,
        },
{
    match c {
        'a' => Some(0u8),
        'b' => Some(1u8),
        'c' => Some(2u8),
        'd' => Some(3u8),
        'e' => Some(4u8),
        'f' => Some(5u8),
        'g' => Some(6u8),
        'h' => Some(7u8),
        'i' => Some(8u8),
        'j' => Some(9u8),
        'k' => Some(10u8),
        'l' => Some(11u8),
        'm' => Some(12u8),
        'n' => Some(13u8),
        'o' => Some(14u8),
        'p' => Some(15u8),
        'q' => Some(16u8),
        'r' => Some(17u8),
        's' => Some(18u8),
        't' => Some(19u8),
        'u' => Some(20u8),
        'v' => Some(21u8),
        'w' => Some(22u8),
        'x' => Some(23u8),
        'y' => Some(24u8),
        'z' => Some(25u8),
        'A' => Some(26u8),
        'B' => Some(27u8),
        'C' => Some(28u8),
        'D' => Some(29u8),
        'E' => Some(30u8),
        'F' => Some(31u8),
        'G' => Some(32u8),
        'H' => Some(33u8),
        'I' => Some(34u8),
        'J' => Some(35u8),
        'K' => Some(36u8),
        'L' => Some(37u8),
        'M' => Some(38u8),
        'N' => Some(39u8),
        'O' => Some(40u8),
        'P' => Some(41u8),
        'Q' => Some(42u8),
        'R' => Some(43u8),
        'S' => Some(44u8),
        'T' => Some(45u8),
        'U' => Some(46u8),
        'V' => Some(47u8),
        'W' => Some(48u8),
        'X' => Some(49u8),
        'Y' => Some(50u8),
        'Z' => Some(51u8),
        '\u{e4}' => Some(52u8),
        '\u{f6}' => Some(53u8),
        '\u{fc}' => Some(54u8),
        '\u{df}' => Some(55u8),
        '0' => Some(56u8),
        '1' => Some(57u8),
        '2' => Some(58u8),
        '3' => Some(59u8),
        '4' => Some(60u8),
        '5' => Some(61u8),
        '6' => Some(62u8),
        '7' => Some(63u8),
        '8' => Some(64u8),
        '9' => Some(65u8),
        '^' => Some(66u8),
        '\u{b0}' => Some(67u8),
        '!' => Some(68u8),
        '"' => Some(69u8),
        '\u{b2}' => Some(70u8),
        '\u{a7}' => Some(71u8),
        '\u{b3}' => Some(72u8),
        '$' => Some(73u8),
        '%' => Some(74u8),
        '&' => Some(75u8),
        '/' => Some(76u8),
        '{' => Some(77u8),
        '(' => Some(78u8),
        '[' => Some(79u8),
        ')' => Some(80u8),
        ']' => Some(81u8),
        '=' => Some(82u8),
        '}' => Some(83u8),
        '?' => Some(84u8),
        '\\' => Some(85u8),
        '\u{b4}' => Some(86u8),
        '`' => Some(87u8),
        '@' => Some(88u8),
        '\u{20ac}' => Some(89u8),
        '+' => Some(90u8),
        '*' => Some(91u8),
        '~' => Some(92u8),
        '\'' => Some(93u8),
        '#' => Some(94u8),
        '<' => Some(95u8),
        '>' => Some(96u8),
        '|' => Some(97u8),
        '\u{b5}' => Some(98u8),
        ',' => Some(99u8),
        ';' => Some(100u8),
        '.' => Some(101u8),
        ':' => Some(102u8),
        '-' => Some(103u8),
        '_' => Some(104u8),
        ' ' => Some(105u8),
        _ => None,
    }
}

fn index_char(i: u8) -> (c: char)
    requires
        i < 106,
    ensures
        c == sym_char(i as int),
{
    match i {
        0u8 => 'a',
        1u8 => 'b',
        2u8 => 'c',
        3u8 => 'd',
        4u8 => 'e',
        5u8 => 'f',
        6u8 => 'g',
        7u8 => 'h',
        8u8 => 'i',
        9u8 => 'j',
        10u8 => 'k',
        11u8 => 'l',
        12u8 => 'm',
        13u8 => 'n',
        14u8 => 'o',
        15u8 => 'p',
        16u8 => 'q',
        17u8 => 'r',
        18u8 => 's',
        19u8 => 't',
        20u8 => 'u',
        21u8 => 'v',
        22u8 => 'w',
        23u8 => 'x',
        24u8 => 'y',
        25u8 => 'z',
        26u8 => 'A',
        27u8 => 'B',
        28u8 => 'C',
        29u8 => 'D',
        30u8 => 'E',
        31u8 => 'F',
        32u8 => 'G',
        33u8 => 'H',
        34u8 => 'I',
        35u8 => 'J',
        36u8 => 'K',
        37u8 => 'L',
        38u8 => 'M',
        39u8 => 'N',
        40u8 => 'O',
        41u8 => 'P',
        42u8 => 'Q',
        43u8 => 'R',
        44u8 => 'S',
        45u8 => 'T',
        46u8 => 'U',
        47u8 => 'V',
        48u8 => 'W',
        49u8 => 'X',
        50u8 => 'Y',
        51u8 => 'Z',
        52u8 => '\u{e4}',
        53u8 => '\u{f6}',
        54u8 => '\u{fc}',
        55u8 => '\u{df}',
        56u8 => '0',
        57u8 => '1',
        58u8 => '2',
        59u8 => '3',
        60u8 => '4',
        61u8 => '5',
        62u8 => '6',
        63u8 => '7',
        64u8 => '8',
        65u8 => '9',
        66u8 => '^',
        67u8 => '\u{b0}',
        68u8 => '!',
        69u8 => '"',
        70u8 => '\u{b2}',
        71u8 => '\u{a7}',
        72u8 => '\u{b3}',
        73u8 => '$',
        74u8 => '%',
        75u8 => '&',
        76u8 => '/',
        77u8 => '{',
        78u8 => '(',
        79u8 => '[',
        80u8 => ')',
        81u8 => ']',
        82u8 => '=',
        83u8 => '}',
        84u8 => '?',
        85u8 => '\\',
        86u8 => '\u{b4}',
        87u8 => '`',
        88u8 => '@',
        89u8 => '\u{20ac}',
        90u8 => '+',
        91u8 => '*',
        92u8 => '~',
        93u8 => '\'',
        94u8 => '#',
        95u8 => '<',
        96u8 => '>',
        97u8 => '|',
        98u8 => '\u{b5}',
        99u8 => ',',
        100u8 => ';',
        101u8 => '.',
        102u8 => ':',
        103u8 => '-',
        104u8 => '_',
        _ => ' ',
    }
}

/// An alphabet character's index is in `0..106` and looks the character
/// back up.
proof fn lemma_sym_char_of_index(c: char)
    ensures
        sym_index(c) >= 0 ==> 0 <= sym_index(c) < 106 && sym_char(sym_index(c)) == c,
{
}

/// Every alphabet index is the index of its own character: the alphabet
/// has no repeated symbol.
proof fn lemma_sym_index_of_char(i: int)
    requires
        0 <= i < 106,
    ensures
        sym_index(sym_char(i)) == i,
{
}

/// The first character of `s` not in the alphabet, if any.
pub open spec fn first_unsupported(s: Seq<char>) -> Option<char>
    decreases s.len(),
{
    if s.len() == 0 {
        None
    } else if sym_index(s[0]) < 0 {
        Some(s[0])
    } else {
        first_unsupported(s.drop_first())
    }
}

/// Every character of `s` is in the alphabet.
pub open spec fn all_supported(s: Seq<char>) -> bool {
    forall|i: int| 0 <= i < s.len() ==> sym_index(#[trigger] s[i]) >= 0
}

/// No character is unsupported exactly when all are supported.
pub proof fn lemma_first_unsupported_none(s: Seq<char>)
    ensures
        first_unsupported(s) is None <==> all_supported(s),
    decreases s.len(),
{
    if s.len() > 0 {
        lemma_first_unsupported_none(s.drop_first());
        if first_unsupported(s) is None {
            assert forall|i: int| 0 <= i < s.len() implies sym_index(#[trigger] s[i]) >= 0 by {
                if i > 0 {
                    assert(s.drop_first()[i - 1] == s[i]);
                    assert(sym_index(s.drop_first()[i - 1]) >= 0);
                }
            }
        } else {
            if sym_index(s[0]) >= 0 {
                assert(!all_supported(s.drop_first()));
                let j = choose|j: int|
                    0 <= j < s.drop_first().len() && sym_index(#[trigger] s.drop_first()[j]) < 0;
                assert(s[j + 1] == s.drop_first()[j]);
                assert(sym_index(s[j + 1]) < 0);
                assert(!all_supported(s));
            } else {
                assert(sym_index(s[0]) < 0);
                assert(!all_supported(s));
            }
        }
    }
}

proof fn lemma_first_unsupported_at(s: Seq<char>, i: int)
    requires
        0 <= i < s.len(),
        sym_index(s[i]) < 0,
        forall|j: int| 0 <= j < i ==> sym_index(#[trigger] s[j]) >= 0,
    ensures
        first_unsupported(s) == Some(s[i]),
    decreases s.len(),
{
    if i > 0 {
        assert(forall|j: int| 0 <= j < s.len() - 1 ==> s.drop_first()[j] == s[j + 1]);
        lemma_first_unsupported_at(s.drop_first(), i - 1);
    }
}

/// The alphabet indices of a fully supported text.
pub open spec fn text_indices(s: Seq<char>) -> Seq<u8> {
    Seq::new(s.len(), |i: int| sym_index(s[i]) as u8)
}

/// The text of an index sequence with every index in `0..106`.
pub open spec fn indices_text(v: Seq<u8>) -> Seq<char> {
    Seq::new(v.len(), |i: int| sym_char(v[i] as int))
}

/// One encrypting step: the sum of two indices, wrapped at 106.
pub open spec fn add_sym(m: u8, p: u8) -> u8 {
    if m + p < 106 {
        (m + p) as u8
    } else {
        (m + p - 106) as u8
    }
}

/// One decrypting step: the difference of two indices, wrapped at 106.
pub open spec fn sub_sym(m: u8, p: u8) -> u8 {
    if m >= p {
        (m - p) as u8
    } else {
        (m + 106 - p) as u8
    }
}

/// The encrypted index stream: each message index plus the passphrase
/// index at the same position, the passphrase repeating.
pub open spec fn stream_add(m: Seq<u8>, p: Seq<u8>) -> Seq<u8> {
    Seq::new(m.len(), |i: int| add_sym(m[i], p[i % (p.len() as int)]))
}

/// The decrypted index stream: each message index minus the repeating
/// passphrase index.
pub open spec fn stream_sub(m: Seq<u8>, p: Seq<u8>) -> Seq<u8> {
    Seq::new(m.len(), |i: int| sub_sym(m[i], p[i % (p.len() as int)]))
}

/// What `encrypt` returns on supported text and a nonempty passphrase.
pub open spec fn spec_encrypt(msg: Seq<char>, pass: Seq<char>) -> Seq<char> {
    indices_text(stream_add(text_indices(msg), text_indices(pass)))
}

/// What `decrypt` returns on supported text and a nonempty passphrase.
pub open spec fn spec_decrypt(msg: Seq<char>, pass: Seq<char>) -> Seq<char> {
    indices_text(stream_sub(text_indices(msg), text_indices(pass)))
}

/// Turns a text into the sequence of its characters' alphabet indices;
/// the first character not in the alphabet is rejected.
pub fn string_to_numbers(s: &str) -> (r: Result<Vec<u8>, CryptError>)
    ensures
        match r {
            Ok(v) => {
                &&& first_unsupported(s@) is None
                &&& v@ == text_indices(s@)
                &&& forall|i: int| 0 <= i < v@.len() ==> #[trigger] v@[i] < 106
            },
            Err(e) => {
                &&& first_unsupported(s@) matches Some(c)
                &&& e == CryptError::UnsupportedCharacter(c)
            },
        },
{
    let n = s.unicode_len();
    let mut vals: Vec<u8> = Vec::new();
    let mut i: usize = 0;
    while i < n
        invariant
            n == s@.len(),
            i <= n,
            vals@.len() == i,
            forall|j: int| 0 <= j < i ==> sym_index(#[trigger] s@[j]) >= 0,
            forall|j: int| 0 <= j < i ==> #[trigger] vals@[j] == sym_index(s@[j]) as u8
                && vals@[j] < 106,
        decreases n - i,
    {
        let c = s.get_char(i);
        match char_index(c) {
            Some(x) => {
                vals.push(x);
            },
            None => {
                proof {
                    lemma_first_unsupported_at(s@, i as int);
                }
                return Err(CryptError::UnsupportedCharacter(c));
            },
        }
        i += 1;
    }
    proof {
        lemma_first_unsupported_none(s@);
        assert(vals@ =~= text_indices(s@));
    }
    Ok(vals)
}

/// Turns a sequence of alphabet indices back into text; the inverse of
/// `string_to_numbers` for indices below 106.
pub fn numbers_to_string(vals: Vec<u8>) -> (r: String)
    requires
        forall|i: int| 0 <= i < vals@.len() ==> #[trigger] vals@[i] < 106,
    ensures
        r@ == indices_text(vals@),
{
    let n = vals.len();
    let mut s = String::new();
    let mut i: usize = 0;
    while i < n
        invariant
            n == vals@.len(),
            i <= n,
            forall|j: int| 0 <= j < n ==> #[trigger] vals@[j] < 106,
            s@.len() == i,
            forall|j: int| 0 <= j < i ==> #[trigger] s@[j] == sym_char(vals@[j] as int),
        decreases n - i,
    {
        let c = index_char(vals[i]);
        crate::text::push_char(&mut s, c);
        i += 1;
    }
    assert(s@ =~= indices_text(vals@));
    s
}

/// Advancing a cyclic index: the successor of `i` modulo `n`.
proof fn lemma_mod_step(i: int, n: int)
    requires
        0 <= i,
        0 < n,
    ensures
        (i + 1) % n == if i % n + 1 == n {
            0int
        } else {
            i % n + 1
        },
{
    lemma_add_mod_noop(i, 1, n);
    if n == 1 {
        lemma_mod_self_0(1);
        assert((i + 1) % 1 == (i % 1 + 1int % 1) % 1);
        lemma_small_mod(0, 1);
    } else {
        lemma_small_mod(1, n as nat);
        if i % n + 1 == n {
            lemma_mod_self_0(n);
        } else {
            lemma_small_mod((i % n + 1) as nat, n as nat);
        }
    }
}

/// Encrypts a message with a nonempty passphrase: each message index is
/// shifted by the repeating passphrase index, wrapping at 106.
pub fn encrypt(msg: &str, pass: &str) -> (r: Result<String, CryptError>)
    ensures
        match r {
            Ok(s) => {
                &&& pass@.len() > 0
                &&& first_unsupported(msg@) is None
                &&& first_unsupported(pass@) is None
                &&& s@ == spec_encrypt(msg@, pass@)
            },
            Err(CryptError::EmptyPassphrase) => pass@.len() == 0,
            Err(CryptError::UnsupportedCharacter(c)) => {
                &&& pass@.len() > 0
                &&& if first_unsupported(msg@) is Some {
                    first_unsupported(msg@) == Some(c)
                } else {
                    first_unsupported(pass@) == Some(c)
                }
            },
        },
{
    if pass.is_empty() {
        return Err(CryptError::EmptyPassphrase);
    }
    let msg_vals = match string_to_numbers(msg) {
        Ok(v) => v,
        Err(e) => {
            return Err(e);
        },
    };
    let pass_vals = match string_to_numbers(pass) {
        Ok(v) => v,
        Err(e) => {
            return Err(e);
        },
    };
    let n = msg_vals.len();
    let plen = pass_vals.len();
    let mut out: Vec<u8> = Vec::new();
    let mut pass_idx: usize = 0;
    let mut i: usize = 0;
    while i < n
        invariant
            n == msg_vals@.len(),
            plen == pass_vals@.len(),
            plen > 0,
            i <= n,
            pass_idx < plen,
            pass_idx as int == (i as int) % (plen as int),
            forall|j: int| 0 <= j < n ==> #[trigger] msg_vals@[j] < 106,
            forall|j: int| 0 <= j < plen ==> #[trigger] pass_vals@[j] < 106,
            out@.len() == i,
            forall|j: int| 0 <= j < i ==> #[trigger] out@[j] == add_sym(
                msg_vals@[j],
                pass_vals@[j % (plen as int)],
            ),
        decreases n - i,
    {
        let m = msg_vals[i];
        let p = pass_vals[pass_idx];
        let sum = m + p;
        let e = if sum < 106 {
            sum
        } else {
            sum - 106
        };
        out.push(e);
        proof {
            lemma_mod_step(i as int, plen as int);
        }
        pass_idx += 1;
        if pass_idx == plen {
            pass_idx = 0;
        }
        i += 1;
    }
    assert(out@ =~= stream_add(msg_vals@, pass_vals@));
    let s = numbers_to_string(out);
    Ok(s)
}

/// Decrypts a message with a nonempty passphrase: the inverse shift of
/// `encrypt`, with true wraparound at 106.
pub fn decrypt(msg: &str, pass: &str) -> (r: Result<String, CryptError>)
    ensures
        match r {
            Ok(s) => {
                &&& pass@.len() > 0
                &&& first_unsupported(msg@) is None
                &&& first_unsupported(pass@) is None
                &&& s@ == spec_decrypt(msg@, pass@)
            },
            Err(CryptError::EmptyPassphrase) => pass@.len() == 0,
            Err(CryptError::UnsupportedCharacter(c)) => {
                &&& pass@.len() > 0
                &&& if first_unsupported(msg@) is Some {
                    first_unsupported(msg@) == Some(c)
                } else {
                    first_unsupported(pass@) == Some(c)
                }
            },
        },
{
    if pass.is_empty() {
        return Err(CryptError::EmptyPassphrase);
    }
    let msg_vals = match string_to_numbers(msg) {
        Ok(v) => v,
        Err(e) => {
            return Err(e);
        },
    };
    let pass_vals = match string_to_numbers(pass) {
        Ok(v) => v,
        Err(e) => {
            return Err(e);
        },
    };
    let n = msg_vals.len();
    let plen = pass_vals.len();
    let mut out: Vec<u8> = Vec::new();
    let mut pass_idx: usize = 0;
    let mut i: usize = 0;
    while i < n
        invariant
            n == msg_vals@.len(),
            plen == pass_vals@.len(),
            plen > 0,
            i <= n,
            pass_idx < plen,
            pass_idx as int == (i as int) % (plen as int),
            forall|j: int| 0 <= j < n ==> #[trigger] msg_vals@[j] < 106,
            forall|j: int| 0 <= j < plen ==> #[trigger] pass_vals@[j] < 106,
            out@.len() == i,
            forall|j: int| 0 <= j < i ==> #[trigger] out@[j] == sub_sym(
                msg_vals@[j],
                pass_vals@[j % (plen as int)],
            ),
        decreases n - i,
    {
        let m = msg_vals[i];
        let p = pass_vals[pass_idx];
        let d = if m >= p {
            m - p
        } else {
            m + 106 - p
        };
        out.push(d);
        proof {
            lemma_mod_step(i as int, plen as int);
        }
        pass_idx += 1;
        if pass_idx == plen {
            pass_idx = 0;
        }
        i += 1;
    }
    assert(out@ =~= stream_sub(msg_vals@, pass_vals@));
    let s = numbers_to_string(out);
    Ok(s)
}

/// Law: for any message and nonempty passphrase drawn from the alphabet,
/// decrypting the encryption with the same passphrase returns the
/// original message.
pub proof fn lemma_cipher_round_trip(msg: Seq<char>, pass: Seq<char>)
    requires
        pass.len() > 0,
        first_unsupported(msg) is None,
        first_unsupported(pass) is None,
    ensures
        first_unsupported(spec_encrypt(msg, pass)) is None,
        spec_decrypt(spec_encrypt(msg, pass), pass) == msg,
{
    lemma_first_unsupported_none(msg);
    lemma_first_unsupported_none(pass);
    let mv = text_indices(msg);
    let pv = text_indices(pass);
    let ev = stream_add(mv, pv);
    let e = indices_text(ev);
    assert(forall|i: int| 0 <= i < msg.len() ==> 0 <= #[trigger] mv[i] < 106) by {
        assert forall|i: int| 0 <= i < msg.len() implies 0 <= #[trigger] mv[i] < 106 by {
            lemma_sym_char_of_index(msg[i]);
        }
    }
    assert(forall|i: int| 0 <= i < pass.len() ==> 0 <= #[trigger] pv[i] < 106) by {
        assert forall|i: int| 0 <= i < pass.len() implies 0 <= #[trigger] pv[i] < 106 by {
            lemma_sym_char_of_index(pass[i]);
        }
    }
    assert forall|i: int| 0 <= i < e.len() implies sym_index(#[trigger] e[i]) == ev[i] by {
        assert(0 <= (i % (pv.len() as int)) < pv.len()) by {
            lemma_small_mod(0, 1);
            assert(pv.len() > 0);
        }
        assert(0 <= ev[i] < 106);
        lemma_sym_index_of_char(ev[i] as int);
    }
    assert(all_supported(e));
    lemma_first_unsupported_none(e);
    assert(text_indices(e) =~= ev);
    let dv = stream_sub(ev, pv);
    assert forall|i: int| 0 <= i < dv.len() implies #[trigger] dv[i] == mv[i] by {
        assert(0 <= (i % (pv.len() as int)) < pv.len());
        assert(ev[i] == add_sym(mv[i], pv[i % (pv.len() as int)]));
    }
    assert(dv =~= mv);
    assert forall|i: int| 0 <= i < msg.len() implies #[trigger] indices_text(mv)[i] == msg[i] by {
        lemma_sym_char_of_index(msg[i]);
    }
    assert(indices_text(mv) =~= msg);
    assert(spec_decrypt(e, pass) == msg);
}

} // verus!
