//! The cipher round a message: with a password the message is encrypted with
//! AES-256 and written as base64 text, without one it passes unchanged.

use vstd::prelude::*;
use magic_crypt::MagicCrypt256;
use magic_crypt::MagicCryptError;
use magic_crypt::MagicCryptTrait;

verus! {

/// Why a text could not be decrypted.
#[derive(Debug, Clone, Copy, PartialEq, Eq, Structural)]
pub enum CipherError {
    /// The cipher could not read its input.
    Io,
    /// The text is not base64.
    Base64,
    /// The decrypted bytes are not UTF-8 text.
    Text,
    /// The bytes are not a whole number of cipher blocks with a valid padding,
    /// as happens under a wrong password.
    Decrypt,
}

/// The base64 text that AES-256 in CBC mode, under the key derived from
/// `password`, makes of `message`.
pub uninterp spec fn cipher_text(message: Seq<char>, password: Seq<char>) -> Seq<char>;

/// The text that decrypting the base64 text `payload` under the key derived
/// from `password` gives, or the reason why it gives none.
pub uninterp spec fn plain_text(payload: Seq<char>, password: Seq<char>) -> Result<
    Seq<char>,
    CipherError,
>;

/// Whether decrypting `payload` under `password` gives `message`.
pub open spec fn decrypts_to(payload: Seq<char>, password: Seq<char>, message: Seq<char>) -> bool {
    plain_text(payload, password) == Ok::<Seq<char>, CipherError>(message)
}

/// Whether a character belongs to the standard base64 alphabet, the padding
/// character included.
pub open spec fn is_base64_char(c: char) -> bool {
    ||| 'A' <= c <= 'Z'
    ||| 'a' <= c <= 'z'
    ||| '0' <= c <= '9'
    ||| c == '+'
    ||| c == '/'
    ||| c == '='
}

/// Whether a text is made of base64 characters only.
pub open spec fn is_base64_text(text: Seq<char>) -> bool {
    forall|index: int| 0 <= index < text.len() ==> is_base64_char(#[trigger] text[index])
}

/// The text of an optional string.
pub open spec fn optional_text(text: Option<String>) -> Option<Seq<char>> {
    match text {
        Some(text) => Some(text@),
        None => None,
    }
}

/// The text of a decryption's outcome.
pub open spec fn outcome_text(outcome: Result<String, CipherError>) -> Result<
    Seq<char>,
    CipherError,
> {
    match outcome {
        Ok(text) => Ok(text@),
        Err(error) => Err(error),
    }
}

/// What is hidden in place of `message`: the message itself without a
/// password, its cipher text with one.
pub open spec fn encrypted_if_needed(message: Seq<char>, password: Option<Seq<char>>) -> Seq<
    char,
> {
    match password {
        Some(password) => cipher_text(message, password),
        None => message,
    }
}

/// What a hidden text `payload` is read as: the text itself without a
/// password, what decrypting it gives with one.
pub open spec fn decrypted_if_needed(payload: Seq<char>, password: Option<Seq<char>>) -> Result<
    Seq<char>,
    CipherError,
> {
    match password {
        Some(password) => plain_text(payload, password),
        None => Ok(payload),
    }
}

/// `MagicCrypt256::new` with no initialisation vector, then
/// `encrypt_str_to_base64`: the key is the SHA-256 digest of the password, the
/// message is padded and encrypted block by block, and the bytes are written
/// in standard base64. The result depends on the two texts alone. Not proved
/// here, and taken from the cipher: the result holds base64 characters only,
/// and `decrypt_base64_to_string` under the same password gives the message
/// back.
#[verifier::external_body]
fn encrypt(message: String, password: String) -> (result: String)
    ensures
        result@ == cipher_text(message@, password@),
        is_base64_text(result@),
        decrypts_to(result@, password@, message@),
{
    MagicCrypt256::new(password, None::<String>).encrypt_str_to_base64(message)
}

/// `MagicCrypt256::new` with no initialisation vector, then
/// `decrypt_base64_to_string`: the text is read as base64, decrypted under the
/// key derived from the password, stripped of its padding and read as UTF-8.
/// The outcome depends on the two texts alone; each failure of the cipher is
/// handed on as the error of the same kind.
#[verifier::external_body]
fn decrypt(message: String, password: String) -> (result: Result<String, CipherError>)
    ensures
        outcome_text(result) == plain_text(message@, password@),
{
    match MagicCrypt256::new(password, None::<String>).decrypt_base64_to_string(message) {
        Ok(text) => Ok(text),
        Err(MagicCryptError::IOError(_)) => Err(CipherError::Io),
        Err(MagicCryptError::Base64Error(_)) => Err(CipherError::Base64),
        Err(MagicCryptError::StringError(_)) => Err(CipherError::Text),
        Err(MagicCryptError::DecryptError(_)) => Err(CipherError::Decrypt),
    }
}

/// Encrypts a message under a password where one is given, and returns the
/// message as it is where none is.
pub fn encrypt_if_needed(message: String, password: Option<String>) -> (result: String)
    ensures
        result@ == encrypted_if_needed(message@, optional_text(password)),
        password is None ==> result == message,
        password is Some ==> is_base64_text(result@),
        password matches Some(p) ==> decrypts_to(result@, p@, message@),
{
    match password {
        Some(p) => encrypt(message, p),
        None => message,
    }
}

/// Decrypts a text under a password where one is given, and returns the text
/// as it is where none is. With a password the outcome is the cipher's: the
/// plain text, or its failure.
pub fn decrypt_if_needed(message: String, password: Option<String>) -> (result: Result<
    String,
    CipherError,
>)
    ensures
        outcome_text(result) == decrypted_if_needed(message@, optional_text(password)),
        password is None ==> result is Ok && result->Ok_0 == message,
{
    match password {
        Some(p) => decrypt(message, p),
        None => Ok(message),
    }
}

} // verus!
