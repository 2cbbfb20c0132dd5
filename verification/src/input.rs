//! Input text that is known to be ASCII, the only alphabet that programs read.

use ascii::AsAsciiStr;
use vstd::prelude::*;

verus! {

/// Whether every character of a text is ASCII.
pub open spec fn all_ascii(text: Seq<char>) -> bool {
    forall|i: int| 0 <= i < text.len() ==> (#[trigger] text[i]) <= '\u{7f}'
}

/// Whether every byte is the code of an ASCII character.
pub open spec fn all_ascii_codes(bytes: Seq<u8>) -> bool {
    forall|i: int| 0 <= i < bytes.len() ==> (#[trigger] bytes[i]) <= 0x7f
}

/// The characters that bytes are the codes of.
pub open spec fn ascii_chars(bytes: Seq<u8>) -> Seq<char> {
    bytes.map_values(|byte: u8| byte as char)
}

/// Whether `at` is the place of the first character of `text` that is not ASCII.
pub open spec fn first_non_ascii(text: Seq<char>, at: int) -> bool {
    &&& 0 <= at < text.len()
    &&& text[at] > '\u{7f}'
    &&& all_ascii(text.take(at))
}

/// A text holds a character that is not ASCII.
#[derive(Debug, Clone, Copy, PartialEq, Eq, Structural)]
pub struct InputEncodingError {
    /// The place of the first character that is not ASCII.
    pub valid_up_to: usize,
}

/// A text of ASCII characters, with its bytes.
#[derive(Debug, PartialEq, Eq)]
pub struct AsciiText {
    text: String,
    bytes: Vec<u8>,
}

/// `ascii::AsAsciiStr::as_ascii_str` on a `str`, with `AsciiStr::as_bytes` on
/// success and `AsAsciiStrError::valid_up_to` on failure. The call succeeds
/// just when every byte of the text is ASCII, that is when every character is,
/// and the bytes are then the characters' codes. It fails with the index of the
/// first byte that is not ASCII; the bytes before it are one character each.
#[verifier::external_body]
fn ascii_bytes(text: &str) -> (result: Result<Vec<u8>, usize>)
    ensures
        match result {
            Ok(bytes) => all_ascii_codes(bytes@) && text@ == ascii_chars(bytes@),
            Err(at) => first_non_ascii(text@, at as int),
        },
{
    match text.as_ascii_str() {
        Ok(ascii) => Ok(ascii.as_bytes().to_vec()),
        Err(error) => Err(error.valid_up_to()),
    }
}

/// The characters of ASCII codes are ASCII.
pub proof fn lemma_ascii_chars(bytes: Seq<u8>)
    requires
        all_ascii_codes(bytes),
    ensures
        all_ascii(ascii_chars(bytes)),
{
    assert forall|i: int| 0 <= i < bytes.len() implies (#[trigger] ascii_chars(bytes)[i])
        <= '\u{7f}' by {
        assert(bytes[i] <= 0x7f);
    }
}

impl View for AsciiText {
    type V = Seq<char>;

    closed spec fn view(&self) -> Seq<char> {
        self.text@
    }
}

impl AsciiText {
    #[verifier::type_invariant]
    spec fn well_formed(&self) -> bool {
        all_ascii_codes(self.bytes@) && self.text@ == ascii_chars(self.bytes@)
    }

    /// The bytes of the text: the code of each character.
    pub closed spec fn codes(&self) -> Seq<u8> {
        self.bytes@
    }

    /// Accepts a text just when all of it is ASCII, and says where it is not.
    pub fn new(text: &str) -> (result: Result<AsciiText, InputEncodingError>)
        ensures
            match result {
                Ok(input) => {
                    &&& all_ascii(text@)
                    &&& input@ == text@
                    &&& all_ascii_codes(input.codes())
                    &&& ascii_chars(input.codes()) == text@
                },
                Err(error) => first_non_ascii(text@, error.valid_up_to as int),
            },
    {
        match ascii_bytes(text) {
            Ok(bytes) => {
                proof {
                    lemma_ascii_chars(bytes@);
                }
                Ok(AsciiText { text: text.to_owned(), bytes })
            },
            Err(valid_up_to) => Err(InputEncodingError { valid_up_to }),
        }
    }

    /// The text.
    pub fn as_str(&self) -> (text: &str)
        ensures
            text@ == self@,
            all_ascii(self@),
    {
        proof {
            use_type_invariant(self);
            lemma_ascii_chars(self.bytes@);
        }
        self.text.as_str()
    }

    /// The number of characters, which is the number of bytes.
    pub fn len(&self) -> (len: usize)
        ensures
            len == self@.len(),
            len == self.codes().len(),
    {
        proof {
            use_type_invariant(self);
        }
        self.bytes.len()
    }

    /// The byte at a place of the text.
    pub fn byte(&self, index: usize) -> (byte: u8)
        requires
            index < self@.len(),
        ensures
            byte == self.codes()[index as int],
            byte as char == self@[index as int],
            byte <= 0x7f,
    {
        proof {
            use_type_invariant(self);
        }
        self.bytes[index]
    }
}

} // verus!
