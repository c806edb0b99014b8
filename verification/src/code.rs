//! Room codes: nine lowercase letters in three hyphen-separated groups.

use rand::rngs::ThreadRng;
use rand::Rng;
use vstd::prelude::*;
use vstd::string::*;

use crate::text::push_char;

verus! {

/// Number of characters in a room code.
pub const CODE_LEN: usize = 11;

/// Number of letters in a room code.
pub const LETTER_COUNT: usize = 9;

/// Whether position `i` of a code holds a hyphen.
pub open spec fn is_hyphen_position(i: int) -> bool {
    i == 3 || i == 7
}

/// Whether `c` is one of the letters `a` to `z`.
pub open spec fn is_lowercase(c: char) -> bool {
    'a' <= c && c <= 'z'
}

/// A room code is exactly eleven characters: hyphens at positions 3 and 7,
/// lowercase letters everywhere else.
pub open spec fn is_valid_code(s: Seq<char>) -> bool {
    &&& s.len() == 11
    &&& forall|i: int|
        0 <= i < 11 ==> if is_hyphen_position(i) {
            #[trigger] s[i] == '-'
        } else {
            is_lowercase(s[i])
        }
}

/// The code spelled by nine letters given as bytes.
pub open spec fn code_of_letters(letters: Seq<u8>) -> Seq<char>
    recommends
        letters.len() == 9,
{
    seq![
        letters[0] as char,
        letters[1] as char,
        letters[2] as char,
        '-',
        letters[3] as char,
        letters[4] as char,
        letters[5] as char,
        '-',
        letters[6] as char,
        letters[7] as char,
        letters[8] as char,
    ]
}

/// The ASCII code of the hyphen.
pub const HYPHEN: u8 = 45;

/// The ASCII code of the letter `a`.
pub const FIRST_LETTER: u8 = 97;

/// The ASCII code of the letter `z`.
pub const LAST_LETTER: u8 = 122;

/// How many characters of a code are written once `letters` of its letters
/// are: the letters, and a hyphen after the third and after the sixth.
pub open spec fn spelled_len(letters: int) -> int {
    if letters < 3 {
        letters
    } else if letters < 6 {
        letters + 1
    } else {
        letters + 2
    }
}

/// Whether every byte is the ASCII code of a lowercase letter.
pub open spec fn all_lowercase(letters: Seq<u8>) -> bool {
    forall|i: int| 0 <= i < letters.len() ==> 97 <= #[trigger] letters[i] <= 122
}

/// Tells whether `code` is a well-formed room code.
pub fn is_valid(code: &str) -> (ok: bool)
    ensures
        ok == is_valid_code(code@),
{
    if !code.is_ascii() {
        proof {
            if is_valid_code(code@) {
                assert forall|i: int| 0 <= i < code@.len() implies '\0' <= #[trigger] code@[i]
                    <= '\u{7f}' by {
                    if is_hyphen_position(i) {
                        assert(code@[i] == '-');
                    } else {
                        assert(is_lowercase(code@[i]));
                    }
                }
            }
        }
        return false;
    }
    proof {
        vstd::utf8::is_ascii_chars_encode_utf8(code@);
    }
    let bytes = code.as_bytes();
    if bytes.len() != CODE_LEN {
        return false;
    }
    let mut i: usize = 0;
    while i < CODE_LEN
        invariant
            0 <= i <= 11,
            bytes@.len() == 11,
            code@.len() == 11,
            forall|k: int| 0 <= k < 11 ==> bytes@[k] == #[trigger] code@[k] as u8,
            forall|k: int| 0 <= k < 11 ==> '\0' <= #[trigger] code@[k] <= '\u{7f}',
            forall|k: int|
                0 <= k < i ==> if is_hyphen_position(k) {
                    #[trigger] code@[k] == '-'
                } else {
                    is_lowercase(code@[k])
                },
        decreases 11 - i,
    {
        let c = bytes[i];
        let ghost ch = code@[i as int];
        assert(c == ch as u8 && '\0' <= ch <= '\u{7f}');
        if i == 3 || i == 7 {
            if c != HYPHEN {
                assert(ch != '-');
                return false;
            }
            assert(ch == '-');
        } else if c < FIRST_LETTER || c > LAST_LETTER {
            assert(!is_lowercase(ch));
            return false;
        } else {
            assert(is_lowercase(ch));
        }
        i += 1;
    }
    true
}

/// Nine lowercase letters always spell a valid code, and only they do.
pub proof fn lemma_code_of_letters_valid(letters: Seq<u8>)
    requires
        letters.len() == 9,
    ensures
        is_valid_code(code_of_letters(letters)) <==> all_lowercase(letters),
{
    let code = code_of_letters(letters);
    if all_lowercase(letters) {
        assert forall|i: int| 0 <= i < 11 implies if is_hyphen_position(i) {
            #[trigger] code[i] == '-'
        } else {
            is_lowercase(code[i])
        } by {
            let j = if i < 3 { i } else if i < 7 { i - 1 } else { i - 2 };
            if !is_hyphen_position(i) {
                assert(97 <= letters[j] <= 122);
                assert(code[i] == letters[j] as char);
            }
        }
    }
    if is_valid_code(code) {
        assert forall|j: int| 0 <= j < 9 implies 97 <= #[trigger] letters[j] <= 122 by {
            let i = if j < 3 { j } else if j < 6 { j + 1 } else { j + 2 };
            assert(!is_hyphen_position(i));
            assert(is_lowercase(code[i]));
            assert(code[i] == letters[j] as char);
        }
    }
}

/// Spells the code made of the nine given letters: three groups of three,
/// joined by hyphens.
pub fn format_code(letters: &[u8; 9]) -> (code: String)
    ensures
        code@ == code_of_letters(letters@),
        is_valid_code(code@) <==> all_lowercase(letters@),
{
    let mut code = String::new();
    let mut i: usize = 0;
    while i < LETTER_COUNT
        invariant
            0 <= i <= 9,
            code@ == code_of_letters(letters@).subrange(0, spelled_len(i as int)),
        decreases 9 - i,
    {
        push_char(&mut code, letters[i] as char);
        if i == 2 || i == 5 {
            push_char(&mut code, '-');
        }
        i += 1;
    }
    proof {
        assert(code@ =~= code_of_letters(letters@));
        lemma_code_of_letters_valid(letters@);
    }
    code
}

/// A handle on the random number generator of the calling thread.
#[verifier::external_type_specification]
#[verifier::external_body]
pub struct ExThreadRng(ThreadRng);

/// Gives the random number generator of the calling thread.
///
/// Trusted: this is `rand::rng`. Nothing is claimed of the generator. It
/// fails only where the operating system cannot supply entropy.
#[verifier::external_body]
fn thread_rng() -> (rng: ThreadRng) {
    rand::rng()
}

/// Draws one byte between `low` and `high`, both included.
///
/// Trusted: this is `Rng::random_range` on an inclusive range, which
/// returns a value inside the range and panics only when the range is
/// empty. Which value comes back is left open.
#[verifier::external_body]
fn random_in_range(rng: &mut ThreadRng, low: u8, high: u8) -> (r: u8)
    requires
        low <= high,
    ensures
        low <= r <= high,
{
    rng.random_range(low..=high)
}

/// Generates a fresh room code from nine random lowercase letters.
pub fn generate() -> (code: String)
    ensures
        is_valid_code(code@),
{
    let mut rng = thread_rng();
    let mut letters: [u8; 9] = [FIRST_LETTER; 9];
    let mut i: usize = 0;
    while i < LETTER_COUNT
        invariant
            0 <= i <= 9,
            all_lowercase(letters@),
        decreases 9 - i,
    {
        let c = random_in_range(&mut rng, FIRST_LETTER, LAST_LETTER);
        letters[i] = c;
        i += 1;
    }
    format_code(&letters)
}

} // verus!
