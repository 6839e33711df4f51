//! Hides a short text in the least significant bits of an image's colour
//! channels and reads it back, with an optional password that encrypts the
//! text before it is hidden.
//!
//! The message, or its cipher text, is followed by the end-of-text byte and
//! written bit by bit, most significant bit first, into the lowest bit of
//! the red, green, blue and alpha samples of the pixels, row by row from the
//! top left. Reading collects the lowest bits eight at a time until a group
//! makes the end-of-text byte.
//!
//! - [`binary`]: the lowest bit of a sample, and a byte as eight binary digits.
//! - [`encryption`]: the cipher round a message.
//! - [`pixels`]: the image that hosts a message.
//! - [`codec`]: hiding a payload in an image and reading it back.
//! - [`options`]: the requests, and the command line arguments that make one.
//!
//! [`steganography`] carries out a request on an image that the caller has
//! decoded; reading and writing image files is left to the caller.

use vstd::prelude::*;
use crate::codec::{
    add_message_to_image, embedded, fits, get_message_from_image, payload_of, reads_back,
    recovered,
};
use crate::encryption::optional_text;
use crate::options::SteganographyOption;
use crate::pixels::{image_height, image_samples, image_width, HostImage};

pub mod binary;
pub mod codec;
pub mod encryption;
pub mod options;
pub mod pixels;

verus! {

/// Whether an image with these samples has room for the payload that hides
/// `message`.
pub open spec fn has_room(samples: Seq<u8>, message: Seq<char>, password: Option<Seq<char>>) -> bool {
    fits(payload_of(message, password).len(), samples.len())
}

/// The samples of an image after a request to hide `message` in it: with the
/// payload in their lowest bits where the image has room for it, and as they
/// were where it has not.
pub open spec fn injected(samples: Seq<u8>, message: Seq<char>, password: Option<Seq<char>>) -> Seq<
    u8,
> {
    if has_room(samples, message, password) {
        embedded(samples, payload_of(message, password))
    } else {
        samples
    }
}

/// The answer to a request to read an image back: the message, or nothing
/// where the cipher failed.
pub open spec fn extracted(samples: Seq<u8>, password: Option<Seq<char>>) -> Option<Seq<char>> {
    match recovered(samples, password) {
        Ok(message) => Some(message),
        Err(_) => None,
    }
}

/// Carries out a request on an image.
///
/// A request to hide a message changes the image and answers nothing. The
/// image is left as it was where it is too small for the payload. Where it
/// has room, a later request to read it back under the same password is
/// answered with the message: with any message that was hidden under a
/// password, and without one with any that holds no end-of-text character.
///
/// A request to read a message back leaves the image as it is and answers
/// with the message, or with nothing where decryption fails.
pub fn steganography(options: SteganographyOption, image: &mut HostImage) -> (result: Option<
    String,
>)
    ensures
        image_width(*final(image)) == image_width(*old(image)),
        image_height(*final(image)) == image_height(*old(image)),
        match options {
            SteganographyOption::InjectMessageIntoImage(n) => {
                &&& result is None
                &&& image_samples(*final(image)) == injected(
                    image_samples(*old(image)),
                    n.message@,
                    optional_text(n.password),
                )
                &&& has_room(image_samples(*old(image)), n.message@, optional_text(n.password))
                    && reads_back(n.message@, optional_text(n.password)) ==> extracted(
                    image_samples(*final(image)),
                    optional_text(n.password),
                ) == Some(n.message@)
            },
            SteganographyOption::ExtractMessageFromImage(n) => {
                &&& *final(image) == *old(image)
                &&& optional_text(result) == extracted(
                    image_samples(*old(image)),
                    optional_text(n.password),
                )
            },
        },
{
    match options {
        SteganographyOption::InjectMessageIntoImage(n) => {
            let _ = add_message_to_image(n, image);
            None
        },
        SteganographyOption::ExtractMessageFromImage(n) => {
            let result = get_message_from_image(n, image);
            match result {
                Ok(s) => Some(s),
                Err(_e) => None,
            }
        },
    }
}

/// A message that was hidden without a password, in an image with room for
/// it, is what a request to read the image back without a password answers
/// with. This holds of every message that holds no end-of-text character.
pub proof fn lemma_hide_then_read(samples: Seq<u8>, message: Seq<char>)
    requires
        has_room(samples, message, None),
        reads_back(message, None),
    ensures
        extracted(injected(samples, message, None), None) == Some(message),
{
    crate::codec::lemma_round_trip(samples, message);
}

} // verus!
