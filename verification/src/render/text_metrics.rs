//! The Windows-1252 encoding the builtin PDF fonts draw through.
use vstd::prelude::*;

verus! {

/// Windows-1252 bytes 0x80-0xFF as Unicode; `'\\0'` marks the five
/// unassigned codes.
pub const CP1252_UPPER: [char; 128] = [
    '\u{20AC}', '\0', '\u{201A}', '\u{0192}', '\u{201E}', '\u{2026}', '\u{2020}', '\u{2021}',
    '\u{02C6}', '\u{2030}', '\u{0160}', '\u{2039}', '\u{0152}', '\0', '\u{017D}', '\0',
    '\0', '\u{2018}', '\u{2019}', '\u{201C}', '\u{201D}', '\u{2022}', '\u{2013}', '\u{2014}',
    '\u{02DC}', '\u{2122}', '\u{0161}', '\u{203A}', '\u{0153}', '\0', '\u{017E}', '\u{0178}',
    '\u{00A0}', '\u{00A1}', '\u{00A2}', '\u{00A3}', '\u{00A4}', '\u{00A5}', '\u{00A6}', '\u{00A7}',
    '\u{00A8}', '\u{00A9}', '\u{00AA}', '\u{00AB}', '\u{00AC}', '\u{00AD}', '\u{00AE}', '\u{00AF}',
    '\u{00B0}', '\u{00B1}', '\u{00B2}', '\u{00B3}', '\u{00B4}', '\u{00B5}', '\u{00B6}', '\u{00B7}',
    '\u{00B8}', '\u{00B9}', '\u{00BA}', '\u{00BB}', '\u{00BC}', '\u{00BD}', '\u{00BE}', '\u{00BF}',
    '\u{00C0}', '\u{00C1}', '\u{00C2}', '\u{00C3}', '\u{00C4}', '\u{00C5}', '\u{00C6}', '\u{00C7}',
    '\u{00C8}', '\u{00C9}', '\u{00CA}', '\u{00CB}', '\u{00CC}', '\u{00CD}', '\u{00CE}', '\u{00CF}',
    '\u{00D0}', '\u{00D1}', '\u{00D2}', '\u{00D3}', '\u{00D4}', '\u{00D5}', '\u{00D6}', '\u{00D7}',
    '\u{00D8}', '\u{00D9}', '\u{00DA}', '\u{00DB}', '\u{00DC}', '\u{00DD}', '\u{00DE}', '\u{00DF}',
    '\u{00E0}', '\u{00E1}', '\u{00E2}', '\u{00E3}', '\u{00E4}', '\u{00E5}', '\u{00E6}', '\u{00E7}',
    '\u{00E8}', '\u{00E9}', '\u{00EA}', '\u{00EB}', '\u{00EC}', '\u{00ED}', '\u{00EE}', '\u{00EF}',
    '\u{00F0}', '\u{00F1}', '\u{00F2}', '\u{00F3}', '\u{00F4}', '\u{00F5}', '\u{00F6}', '\u{00F7}',
    '\u{00F8}', '\u{00F9}', '\u{00FA}', '\u{00FB}', '\u{00FC}', '\u{00FD}', '\u{00FE}', '\u{00FF}',
];

/// The first position of `c` in `s`.
pub open spec fn first_index(s: Seq<char>, c: char) -> Option<int>
    decreases s.len(),
{
    if s.len() == 0 {
        None
    } else if s[0] == c {
        Some(0)
    } else {
        match first_index(s.drop_first(), c) {
            Some(i) => Some(i + 1),
            None => None,
        }
    }
}

/// The Windows-1252 byte that encodes `c`: itself when ASCII, else `0x80`
/// plus its place in the upper half.
pub open spec fn winansi_byte_of(c: char) -> Option<u8> {
    if (c as u32) < 128 {
        Some(c as u8)
    } else {
        match first_index(CP1252_UPPER@, c) {
            Some(i) => Some((0x80 + i) as u8),
            None => None,
        }
    }
}

/// What a builtin font draws for `c`: itself when Windows-1252 encodes it;
/// the nearest ASCII look-alike for a few common characters outside it;
/// nothing for zero-width joiners and suit symbols; `?` for anything else.
pub open spec fn winansi_char_of(c: char) -> Option<char> {
    if (c as u32) < 128 || CP1252_UPPER@.contains(c) {
        Some(c)
    } else if c == '\u{2015}' || c == '\u{2027}' || c == '\u{2212}' {
        Some('-')
    } else if c == '\u{2023}' {
        Some('>')
    } else if c == '\u{25CF}' {
        Some('\u{2022}')
    } else if c == '\u{27E6}' {
        Some('[')
    } else if c == '\u{27E7}' {
        Some(']')
    } else if c == '\u{2002}' || c == '\u{2003}' || c == '\u{2009}' || c == '\u{200A}' || c
        == '\u{202F}' {
        Some(' ')
    } else if c == '\u{200C}' || c == '\u{200D}' || c == '\u{2660}' || c == '\u{2663}' || c
        == '\u{2665}' || c == '\u{2666}' {
        None
    } else {
        Some('?')
    }
}

proof fn lemma_first_index(s: Seq<char>, c: char)
    ensures
        first_index(s, c) matches Some(i) ==> 0 <= i < s.len() && s[i] == c,
        first_index(s, c) is None ==> !s.contains(c),
        first_index(s, c) matches Some(i) ==> forall|j: int| 0 <= j < i ==> s[j] != c,
    decreases s.len(),
{
    if s.len() > 0 {
        lemma_first_index(s.drop_first(), c);
        if s[0] != c {
            if first_index(s.drop_first(), c) is None {
                assert forall|j: int| 0 <= j < s.len() implies s[j] != c by {
                    if j > 0 {
                        assert(s[j] == s.drop_first()[j - 1]);
                    }
                }
            } else {
                let i = first_index(s.drop_first(), c)->0;
                assert forall|j: int| 0 <= j < i + 1 implies s[j] != c by {
                    if j > 0 {
                        assert(s[j] == s.drop_first()[j - 1]);
                    }
                }
            }
        }
    }
}

fn upper_index(c: char) -> (r: Option<usize>)
    ensures
        r matches Some(i) ==> first_index(CP1252_UPPER@, c) == Some(i as int) && i < 128,
        r is None ==> first_index(CP1252_UPPER@, c) is None,
{
    let ghost t = CP1252_UPPER@;
    proof {
        lemma_first_index(t, c);
    }
    let mut i: usize = 0;
    while i < 128
        invariant
            i <= 128,
            t == CP1252_UPPER@,
            t.len() == 128,
            forall|j: int| 0 <= j < i ==> t[j] != c,
            first_index(t, c) matches Some(k) ==> 0 <= k < t.len() && t[k] == c && forall|j: int|
                0 <= j < k ==> t[j] != c,
            first_index(t, c) is None ==> !t.contains(c),
        decreases 128 - i,
    {
        if CP1252_UPPER[i] == c {
            assert(t[i as int] == c);
            return Some(i);
        }
        i += 1;
    }
    None
}

/// The Windows-1252 byte that encodes `c`, if it has one (see
/// [`winansi_byte_of`]).
pub fn winansi_byte(c: char) -> (r: Option<u8>)
    ensures
        r == winansi_byte_of(c),
{
    if (c as u32) < 128 {
        return Some(c as u8);
    }
    match upper_index(c) {
        Some(i) => Some((0x80 + i) as u8),
        None => None,
    }
}

/// The character a builtin font draws for `c`, or `None` when it draws
/// nothing (see [`winansi_char_of`]).
pub fn winansi_char(c: char) -> (r: Option<char>)
    ensures
        r == winansi_char_of(c),
{
    proof {
        lemma_first_index(CP1252_UPPER@, c);
    }
    if (c as u32) < 128 || upper_index(c).is_some() {
        return Some(c);
    }
    match c {
        '\u{2015}' | '\u{2027}' | '\u{2212}' => Some('-'),
        '\u{2023}' => Some('>'),
        '\u{25CF}' => Some('\u{2022}'),
        '\u{27E6}' => Some('['),
        '\u{27E7}' => Some(']'),
        '\u{2002}' | '\u{2003}' | '\u{2009}' | '\u{200A}' | '\u{202F}' => Some(' '),
        '\u{200C}' | '\u{200D}' => None,
        '\u{2660}' | '\u{2663}' | '\u{2665}' | '\u{2666}' => None,
        _ => Some('?'),
    }
}

/// Whatever Windows-1252 encodes, a builtin font draws as itself, and its
/// byte decodes back to it: below `0x80` the byte is the character's code,
/// from `0x80` on it indexes the table's upper half.
pub proof fn encodable_characters_draw_as_themselves(c: char)
    requires
        winansi_byte_of(c) is Some,
    ensures
        winansi_char_of(c) == Some(c),
        winansi_byte_of(c) matches Some(b) && (if b < 0x80 {
            b as u32 == c as u32
        } else {
            CP1252_UPPER@[b - 0x80] == c
        }),
{
    lemma_first_index(CP1252_UPPER@, c);
}

/// A builtin font's vertical metrics, in font units.
#[derive(Debug, Clone)]
pub struct FontMetrics {
    /// Font units per em.
    pub units_per_em: i32,
    /// Ascender height.
    pub ascender: i16,
    /// Descender depth (negative below the baseline).
    pub descender: i16,
    /// Line gap.
    pub line_gap: i16,
    /// Height of the capital letters.
    pub cap_height: i16,
}

} // verus!
