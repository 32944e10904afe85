use vstd::prelude::*;
use vstd::string::StringExecFns;

verus! {

/// The lower case of an ASCII capital letter; any other character itself.
pub open spec fn ascii_lowercase(c: char) -> char {
    if 'A' as u32 <= c as u32 <= 'Z' as u32 {
        (c as u32 + 32) as char
    } else {
        c
    }
}

/// `c` is one of the five vowels, in lower case.
pub open spec fn is_vowel(c: char) -> bool {
    c == 'a' || c == 'e' || c == 'i' || c == 'o' || c == 'u'
}

/// `c` is one of the twenty-one consonants, in lower case.
pub open spec fn is_consonant(c: char) -> bool {
    'a' as u32 <= c as u32 <= 'z' as u32 && !is_vowel(c)
}

/// `word` in pig latin. A word that begins with a consonant sends it to
/// the end, behind a hyphen and before `ay`. A word that begins with a vowel
/// gets `-hay` at its end. Any other word, the empty one too, stays as it is.
pub open spec fn pig_latin(word: Seq<char>) -> Seq<char> {
    if word.len() == 0 {
        word
    } else if is_consonant(ascii_lowercase(word[0])) {
        word.drop_first() + seq!['-', word[0], 'a', 'y']
    } else if is_vowel(ascii_lowercase(word[0])) {
        word + seq!['-', 'h', 'a', 'y']
    } else {
        word
    }
}

/// The lower case of `c`, see [`ascii_lowercase`].
pub fn to_ascii_lowercase(c: char) -> (lower: char)
    ensures
        lower == ascii_lowercase(c),
{
    if 'A' <= c && c <= 'Z' {
        ((c as u8) + 32) as char
    } else {
        c
    }
}

/// Puts `s` into pig latin, see [`pig_latin`].
pub fn convert_enlish(s: &str) -> (out: String)
    ensures
        out@ == pig_latin(s@),
{
    if s.is_empty() {
        return String::new();
    }
    let first = to_ascii_lowercase(s.get_char(0));
    let vowel = first == 'a' || first == 'e' || first == 'i' || first == 'o' || first == 'u';
    if 'a' <= first && first <= 'z' && !vowel {
        let length = s.unicode_len();
        let mut out = String::from_str(s.substring_char(1, length));
        proof {
            reveal_strlit("-");
            reveal_strlit("ay");
        }
        out.append("-");
        out.append(s.substring_char(0, 1));
        out.append("ay");
        assert(out@ =~= pig_latin(s@));
        out
    } else if vowel {
        let mut out = String::from_str(s);
        proof {
            reveal_strlit("-hay");
        }
        out.append("-hay");
        assert(out@ =~= pig_latin(s@));
        out
    } else {
        String::from_str(s)
    }
}

} // verus!
