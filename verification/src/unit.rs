//! Units of size: a divisor and the acronym shown beside the converted value.

use vstd::prelude::*;
use vstd::utf8::is_ascii_chars;

verus! {

/// A unit in which byte counts are displayed.
///
/// `value` is the number of bytes in one unit; a byte count is divided by it
/// for display only, the stored counts stay in bytes.
#[derive(Debug, Clone, PartialEq, Eq)]
pub struct SizeMeasure {
    pub value: u64,
    pub acronym: String,
}

/// The mathematical content of a [`SizeMeasure`].
pub struct Measure {
    pub value: nat,
    pub acronym: Seq<char>,
}

impl View for SizeMeasure {
    type V = Measure;

    open spec fn view(&self) -> Measure {
        Measure { value: self.value as nat, acronym: self.acronym@ }
    }
}

/// Bytes, the unit of every token that names no other.
pub open spec fn bytes() -> Measure {
    Measure { value: 1, acronym: seq!['B'] }
}

/// Kilobytes, of a thousand bytes each.
pub open spec fn kilobytes() -> Measure {
    Measure { value: 1_000, acronym: seq!['K', 'B'] }
}

/// Megabytes, of a million bytes each.
pub open spec fn megabytes() -> Measure {
    Measure { value: 1_000_000, acronym: seq!['M', 'B'] }
}

/// Gigabytes, of a thousand million bytes each.
pub open spec fn gigabytes() -> Measure {
    Measure { value: 1_000_000_000, acronym: seq!['G', 'B'] }
}

/// The unit that a token in lower case stands for.
pub open spec fn measure_of(token: Seq<char>) -> Measure {
    if token == seq!['k'] || token == seq!['k', 'b'] {
        kilobytes()
    } else if token == seq!['m'] || token == seq!['m', 'b'] {
        megabytes()
    } else if token == seq!['g'] || token == seq!['g', 'b'] {
        gigabytes()
    } else {
        bytes()
    }
}

/// The lower-case form of an ASCII character.
pub open spec fn ascii_lowercase_char(c: char) -> char {
    if 'A' <= c <= 'Z' {
        ((c as u8) + 32) as char
    } else {
        c
    }
}

/// A string with each of its characters in ASCII lower case.
pub open spec fn ascii_lowercase(s: Seq<char>) -> Seq<char> {
    Seq::new(s.len(), |i: int| ascii_lowercase_char(s[i]))
}

/// What `str::to_lowercase` returns for a string: its lower-case equivalent
/// by the Unicode case mappings.
pub uninterp spec fn lowercase_of(s: Seq<char>) -> Seq<char>;

/// Calls `str::to_lowercase` of the standard library.
///
/// Not proved here, but taken from what the standard library says of that
/// function: the result is the lower-case equivalent of `s` by the Unicode
/// case mappings, which [`lowercase_of`] names; and for a string of ASCII
/// characters alone it is the string with each of `A` to `Z` replaced by its
/// lower-case letter and every other character kept.
#[verifier::external_body]
fn lowercase(s: &str) -> (r: String)
    ensures
        r@ == lowercase_of(s@),
        is_ascii_chars(s@) ==> r@ == ascii_lowercase(s@),
{
    s.to_lowercase()
}

impl SizeMeasure {
    /// Bytes.
    pub fn new() -> (r: SizeMeasure)
        ensures
            r@ == bytes(),
    {
        proof {
            reveal_strlit("B");
        }
        let r = SizeMeasure { value: 1, acronym: String::from_str("B") };
        assert(r.acronym@ =~= seq!['B']);
        r
    }

    /// The unit named by a token that is already in lower case: `k` or `kb`,
    /// `m` or `mb`, `g` or `gb`; any other token, the empty one included,
    /// names bytes.
    pub fn from_lowercase(token: &str) -> (r: SizeMeasure)
        ensures
            r@ == measure_of(token@),
    {
        let n = token.unicode_len();
        if n == 0 || n > 2 {
            return SizeMeasure::new();
        }
        let first = token.get_char(0);
        if n == 2 {
            let second = token.get_char(1);
            if second != 'b' {
                return SizeMeasure::new();
            }
        }
        proof {
            lemma_distinct_words();
            assert(n == 1 ==> token@ =~= seq![first]);
            assert(n == 2 ==> token@ =~= seq![first, 'b']);
        }
        if first == 'k' {
            proof {
                reveal_strlit("KB");
            }
            let r = SizeMeasure { value: 1_000, acronym: String::from_str("KB") };
            assert(r.acronym@ =~= seq!['K', 'B']);
            r
        } else if first == 'm' {
            proof {
                reveal_strlit("MB");
            }
            let r = SizeMeasure { value: 1_000_000, acronym: String::from_str("MB") };
            assert(r.acronym@ =~= seq!['M', 'B']);
            r
        } else if first == 'g' {
            proof {
                reveal_strlit("GB");
            }
            let r = SizeMeasure { value: 1_000_000_000, acronym: String::from_str("GB") };
            assert(r.acronym@ =~= seq!['G', 'B']);
            r
        } else {
            SizeMeasure::new()
        }
    }

    /// The unit named by a token, whatever the case of its letters.
    ///
    /// The token is put in lower case and resolved by
    /// [`SizeMeasure::from_lowercase`]. No token is an error: one that names
    /// no unit gives bytes.
    pub fn from(format: String) -> (r: SizeMeasure)
        ensures
            r@ == measure_of(lowercase_of(format@)),
            is_ascii_chars(format@) ==> r@ == measure_of(ascii_lowercase(format@)),
    {
        let lowered = lowercase(format.as_str());
        SizeMeasure::from_lowercase(lowered.as_str())
    }
}

/// `token` is `lower` or `upper`, alone or followed by `b` or `B`: one of the
/// spellings of the unit whose acronym begins with that letter.
pub open spec fn spells(token: Seq<char>, lower: char, upper: char) -> bool {
    &&& 1 <= token.len() <= 2
    &&& token[0] == lower || token[0] == upper
    &&& token.len() == 2 ==> token[1] == 'b' || token[1] == 'B'
}

/// [`SizeMeasure::from`] gives `unit` for `token`, a token of ASCII
/// characters.
pub open spec fn names(token: Seq<char>, unit: Measure) -> bool {
    is_ascii_chars(token) && measure_of(ascii_lowercase(token)) == unit
}

/// The supported tokens name their units in whatever case they are written:
/// `b` names bytes; `k` and `kb` name kilobytes, a thousand bytes; `m` and
/// `mb` name megabytes, a million; `g` and `gb` name gigabytes, a thousand
/// million.
pub proof fn lemma_supported_tokens(token: Seq<char>)
    ensures
        token == seq!['b'] || token == seq!['B'] ==> names(token, bytes()),
        spells(token, 'k', 'K') ==> names(token, kilobytes()),
        spells(token, 'm', 'M') ==> names(token, megabytes()),
        spells(token, 'g', 'G') ==> names(token, gigabytes()),
        bytes() == (Measure { value: 1, acronym: seq!['B'] }),
        kilobytes() == (Measure { value: 1_000, acronym: seq!['K', 'B'] }),
        megabytes() == (Measure { value: 1_000_000, acronym: seq!['M', 'B'] }),
        gigabytes() == (Measure { value: 1_000_000_000, acronym: seq!['G', 'B'] }),
{
    let lowered = ascii_lowercase(token);
    lemma_distinct_words();
    if spells(token, 'k', 'K') {
        assert(lowered =~= seq!['k'] || lowered =~= seq!['k', 'b']);
    }
    if spells(token, 'm', 'M') {
        assert(lowered =~= seq!['m'] || lowered =~= seq!['m', 'b']);
    }
    if spells(token, 'g', 'G') {
        assert(lowered =~= seq!['g'] || lowered =~= seq!['g', 'b']);
    }
}

/// `lowered` is one of the six spellings of a unit in lower case.
pub open spec fn spelling(lowered: Seq<char>) -> bool {
    ||| lowered == seq!['k']
    ||| lowered == seq!['k', 'b']
    ||| lowered == seq!['m']
    ||| lowered == seq!['m', 'b']
    ||| lowered == seq!['g']
    ||| lowered == seq!['g', 'b']
}

/// No token is refused: one that names no unit names bytes. That holds of
/// every token whose lower-case form is not the spelling of a unit; of a
/// token of ASCII characters that spells no unit in any case; and of the
/// empty token.
pub proof fn lemma_unknown_token(token: Seq<char>)
    ensures
        !spelling(token) ==> measure_of(token) == bytes(),
        is_ascii_chars(token) && !spells(token, 'k', 'K') && !spells(token, 'm', 'M') && !spells(
            token,
            'g',
            'G',
        ) ==> names(token, bytes()),
        names(Seq::<char>::empty(), bytes()),
{
    lemma_distinct_words();
}

/// The six lower-case spellings differ from each other in length or in their
/// first letter.
proof fn lemma_distinct_words()
    ensures
        seq!['k'].len() == 1 && seq!['k'][0] == 'k',
        seq!['m'].len() == 1 && seq!['m'][0] == 'm',
        seq!['g'].len() == 1 && seq!['g'][0] == 'g',
        seq!['b'].len() == 1 && seq!['b'][0] == 'b',
        seq!['k', 'b'].len() == 2 && seq!['k', 'b'][0] == 'k' && seq!['k', 'b'][1] == 'b',
        seq!['m', 'b'].len() == 2 && seq!['m', 'b'][0] == 'm' && seq!['m', 'b'][1] == 'b',
        seq!['g', 'b'].len() == 2 && seq!['g', 'b'][0] == 'g' && seq!['g', 'b'][1] == 'b',
{
}

} // verus!
