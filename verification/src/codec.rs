//! Hiding a payload in the lowest bits of an image's channel samples, and
//! reading it back.
//!
//! A payload is a run of bytes that ends with the end-of-text byte. Its bits,
//! most significant first within each byte, take the place of the lowest bit
//! of one sample each, from the first sample of the image on: eight samples,
//! or two pixels, to a byte.

use vstd::prelude::*;
use vstd::string::*;
use crate::binary::{
    binary_string_to_byte_or_zero, bit_at, bit_of_byte, bit_of_digit, byte_of_bits, digit_of,
    digits_byte, is_byte_digits, lemma_bits_make_byte, low_bit, pack_bit, unpack_bit, with_low_bit,
};
use crate::encryption::{
    decrypt_if_needed, decrypted_if_needed, encrypt_if_needed, encrypted_if_needed, is_base64_char,
    is_base64_text, optional_text, outcome_text, CipherError,
};
use crate::options::{SteganographyExtractOption, SteganographyInjectOption};
use crate::pixels::{image_height, image_samples, image_width, sample_index, HostImage};

verus! {

/// The byte that ends a payload.
pub const END_OF_TEXT: u8 = 4;

/// The character that ends a hidden text.
pub const EOF_CHAR: char = '\u{4}';

/// The number of samples that carry one byte.
pub const NUMBER_BIT_PER_BYTE: u8 = 8;

/// Why a message could not be hidden.
#[derive(Debug, Clone, Copy, PartialEq, Eq, Structural)]
pub enum EmbedError {
    /// The payload has more bits than the image has samples.
    CapacityExceeded,
}

/// The payload for a text: its bytes, then the end-of-text byte.
pub open spec fn framed(text: Seq<u8>) -> Seq<u8> {
    text.push(END_OF_TEXT)
}

/// Whether a payload of `payload_length` bytes has room in `sample_count`
/// samples, at one bit to the sample.
pub open spec fn fits(payload_length: nat, sample_count: nat) -> bool {
    8 * payload_length <= sample_count
}

/// The bit of the payload that sample `position` carries.
pub open spec fn payload_bit(payload: Seq<u8>, position: int) -> u8 {
    bit_at(payload[position / 8], position % 8)
}

/// The samples after the first `count` bits of the payload have been hidden
/// in them: each of the first `count` samples has a bit of the payload for
/// its lowest bit, and all else is as before.
pub open spec fn embedded_prefix(samples: Seq<u8>, payload: Seq<u8>, count: int) -> Seq<u8> {
    Seq::new(
        samples.len(),
        |position: int|
            if position < count {
                with_low_bit(samples[position], payload_bit(payload, position))
            } else {
                samples[position]
            },
    )
}

/// The samples after the whole payload has been hidden in them.
pub open spec fn embedded(samples: Seq<u8>, payload: Seq<u8>) -> Seq<u8> {
    embedded_prefix(samples, payload, 8 * (payload.len() as int))
}

/// The byte that the lowest bits of the eight samples of a group make, the
/// first sample giving the most significant bit.
pub open spec fn group_byte(samples: Seq<u8>, group: int) -> u8 {
    byte_of_bits(Seq::new(8, |index: int| low_bit(samples[8 * group + index]))) as u8
}

/// The bytes hidden from `group` on: those of the groups up to the first one
/// that makes the end-of-text byte, or up to the last whole group where none
/// does. Samples after the last whole group are not read.
pub open spec fn hidden_from(samples: Seq<u8>, group: int) -> Seq<u8>
    decreases samples.len() / 8 - group,
{
    if group < 0 || group >= samples.len() / 8 || group_byte(samples, group) == END_OF_TEXT {
        Seq::empty()
    } else {
        seq![group_byte(samples, group)] + hidden_from(samples, group + 1)
    }
}

/// The bytes hidden in the samples of an image.
pub open spec fn hidden_bytes(samples: Seq<u8>) -> Seq<u8> {
    hidden_from(samples, 0)
}

/// Bytes read one to the character: each byte as the character with that
/// code point.
pub open spec fn as_text(bytes: Seq<u8>) -> Seq<char> {
    Seq::new(bytes.len(), |index: int| bytes[index] as char)
}

/// Bytes read as text: as the text that they encode where they are UTF-8,
/// and one byte to the character where they are not.
pub open spec fn read_as_text(bytes: Seq<u8>) -> Seq<char> {
    if vstd::utf8::valid_utf8(bytes) {
        vstd::utf8::decode_utf8(bytes)
    } else {
        as_text(bytes)
    }
}

/// The text hidden in the samples of an image.
pub open spec fn hidden_text(samples: Seq<u8>) -> Seq<char> {
    read_as_text(hidden_bytes(samples))
}

/// The samples after the four bits of `byte` that start at `first_bit` have
/// been hidden in the pixel at `position`.
pub open spec fn with_pixel_bits(samples: Seq<u8>, position: int, byte: u8, first_bit: int) -> Seq<
    u8,
> {
    Seq::new(
        samples.len(),
        |k: int|
            if 0 <= k - 4 * position < 4 {
                with_low_bit(samples[k], bit_at(byte, first_bit + (k - 4 * position)))
            } else {
                samples[k]
            },
    )
}

/// The payload that hides `message`: the bytes of the message, or of its
/// cipher text where there is a password, and the end-of-text byte.
pub open spec fn payload_of(message: Seq<char>, password: Option<Seq<char>>) -> Seq<u8> {
    framed(vstd::utf8::encode_utf8(encrypted_if_needed(message, password)))
}

/// Whether bytes can stand before the byte that ends a payload: whether none
/// of them is the end-of-text byte.
pub open spec fn is_text(bytes: Seq<u8>) -> bool {
    forall|index: int| 0 <= index < bytes.len() ==> #[trigger] bytes[index] != END_OF_TEXT
}

/// Whether a text holds no end-of-text character.
pub open spec fn has_no_end_of_text(text: Seq<char>) -> bool {
    forall|index: int| 0 <= index < text.len() ==> text[index] != EOF_CHAR
}

/// Whether what is read back is sure to be the message. With a password the
/// hidden text is base64 and any message is; without one, a message that
/// holds no end-of-text character.
pub open spec fn reads_back(message: Seq<char>, password: Option<Seq<char>>) -> bool {
    password is Some || has_no_end_of_text(message)
}

/// What reading an image with these samples under `password` gives.
pub open spec fn recovered(samples: Seq<u8>, password: Option<Seq<char>>) -> Result<
    Seq<char>,
    CipherError,
> {
    decrypted_if_needed(hidden_text(samples), password)
}

/// Whether reading an image with these samples under `password` gives `message`.
pub open spec fn recovers(samples: Seq<u8>, password: Option<Seq<char>>, message: Seq<char>) -> bool {
    recovered(samples, password) == Ok::<Seq<char>, CipherError>(message)
}

/// `String::push`: adds one character at the end of the text.
#[verifier::external_body]
fn push_char(text: &mut String, c: char)
    ensures
        final(text)@ == old(text)@.push(c),
{
    text.push(c)
}

/// The column and the row of the pixel at `position`, counted row by row from
/// the top left in an image that is `width` pixels wide.
pub fn get_coordinate(position: u64, width: u32) -> (result: (u32, u32))
    requires
        width > 0,
        position / (width as u64) <= u32::MAX,
    ensures
        result.0 == position % (width as u64),
        result.1 == position / (width as u64),
        position == result.1 * width + result.0,
{
    let row: u64 = position / (width as u64);
    proof {
        vstd::arithmetic::div_mod::lemma_fundamental_div_mod(position as int, width as int);
        vstd::arithmetic::div_mod::lemma_mod_bound(position as int, width as int);
    }
    let column: u64 = position - (width as u64) * row;
    assert(row * width == width * row) by (nonlinear_arith);
    (column as u32, row as u32)
}

/// `core::str::from_utf8`: the bytes as a string slice where they are valid
/// UTF-8, and nothing where they are not. The slice is over the same bytes,
/// so that they are the UTF-8 encoding of its text.
#[verifier::external_body]
fn utf8_text(bytes: &[u8]) -> (result: Option<&str>)
    ensures
        result is Some <==> vstd::utf8::valid_utf8(bytes@),
        result matches Some(text) ==> vstd::utf8::encode_utf8(text@) == bytes@,
{
    match core::str::from_utf8(bytes) {
        Ok(text) => Some(text),
        Err(_) => None,
    }
}

/// Reads bytes as text: as the text that they encode where they are UTF-8,
/// and one byte to the character where they are not, so that every run of
/// bytes is read as some text.
pub fn text_from_bytes(bytes: &[u8]) -> (result: String)
    ensures
        result@ == read_as_text(bytes@),
{
    match utf8_text(bytes) {
        Some(text) => {
            proof {
                vstd::utf8::encode_utf8_decode_utf8(text@);
            }
            String::from_str(text)
        },
        None => {
            let mut result = String::new();
            let mut index: usize = 0;
            while index < bytes.len()
                invariant
                    index <= bytes@.len(),
                    result@ == as_text(bytes@.take(index as int)),
                decreases bytes@.len() - index,
            {
                push_char(&mut result, bytes[index] as char);
                index += 1;
                assert(result@ =~= as_text(bytes@.take(index as int)));
            }
            assert(bytes@.take(index as int) =~= bytes@);
            result
        },
    }
}

/// Reads the bytes hidden in a buffer of channel samples: red, green, blue,
/// alpha of the first pixel, then of the second, and so on. Every eight
/// samples give one byte; reading stops at the end-of-text byte, which is no
/// part of the result, or else at the last whole group of eight.
pub fn get_bytes_from_buffer(new_buffer: &[u8]) -> (result: Vec<u8>)
    ensures
        result@ == hidden_bytes(new_buffer@),
{
    let mut result: Vec<u8> = Vec::new();
    let length: usize = new_buffer.len();
    let groups: usize = length / 8;
    let mut group: usize = 0;
    let mut last_byte: u8 = 0;
    while last_byte != END_OF_TEXT && group < groups
        invariant
            length == new_buffer@.len(),
            groups == length / 8,
            group <= groups,
            last_byte == END_OF_TEXT ==> group > 0,
            result@.len() == (if last_byte == END_OF_TEXT { group - 1 } else { group as int }),
            forall|g: int|
                0 <= g < result@.len() ==> group_byte(new_buffer@, g) != END_OF_TEXT && result@[g]
                    == group_byte(new_buffer@, g),
            last_byte == END_OF_TEXT ==> group_byte(new_buffer@, group - 1) == END_OF_TEXT,
        decreases groups - group,
    {
        let mut bit_counter: u8 = 0;
        let mut bits = String::new();
        while bit_counter < NUMBER_BIT_PER_BYTE
            invariant
                length == new_buffer@.len(),
                groups == length / 8,
                group < groups,
                bit_counter <= NUMBER_BIT_PER_BYTE,
                bits@.len() == bit_counter,
                forall|index: int|
                    0 <= index < bit_counter ==> bits@[index] == digit_of(
                        low_bit(new_buffer@[8 * group + index]),
                    ),
            decreases NUMBER_BIT_PER_BYTE - bit_counter,
        {
            let rgba_color: u8 = new_buffer[8 * group + bit_counter as usize];
            let bit = unpack_bit(rgba_color);
            proof {
                reveal_strlit("0");
                reveal_strlit("1");
            }
            bits.append(if bit == 0 { "0" } else { "1" });
            bit_counter += 1;
        }
        proof {
            assert(is_byte_digits(bits@));
            assert(Seq::new(8, |index: int| bit_of_digit(bits@[index])) =~= Seq::new(
                8,
                |index: int| low_bit(new_buffer@[8 * group + index]),
            ));
            assert(digits_byte(bits@) == Some(group_byte(new_buffer@, group as int)));
        }
        last_byte = binary_string_to_byte_or_zero(bits);
        if last_byte != END_OF_TEXT {
            result.push(last_byte);
        }
        group += 1;
    }
    proof {
        let count = result@.len() as int;
        lemma_hidden_until(new_buffer@, count, 0);
        assert(result@ =~= hidden_bytes(new_buffer@));
    }
    result
}

/// Reads the text hidden in a buffer of channel samples: the hidden bytes,
/// read as text.
pub fn get_message_from_buffer(new_buffer: &[u8]) -> (result: String)
    ensures
        result@ == hidden_text(new_buffer@),
{
    let payload = get_bytes_from_buffer(new_buffer);
    text_from_bytes(payload.as_slice())
}

/// Hides four bits of `byte`, from `first_bit` on, in the lowest bits of the
/// red, green, blue and alpha samples of the pixel at `position`, counted row
/// by row from the top left.
fn embed_pixel_bits(
    image: &mut HostImage,
    width: u32,
    height: u32,
    position: usize,
    byte: u8,
    first_bit: usize,
)
    requires
        width == image_width(*old(image)),
        height == image_height(*old(image)),
        position < image_width(*old(image)) * image_height(*old(image)),
        image_samples(*old(image)).len() == 4 * image_width(*old(image)) * image_height(
            *old(image),
        ),
        first_bit <= 4,
    ensures
        image_width(*final(image)) == image_width(*old(image)),
        image_height(*final(image)) == image_height(*old(image)),
        image_samples(*final(image)) == with_pixel_bits(
            image_samples(*old(image)),
            position as int,
            byte,
            first_bit as int,
        ),
{
    let ghost before = image_samples(*image);
    proof {
        assert(width > 0) by (nonlinear_arith)
            requires
                position < width * height,
                position >= 0,
        ;
        assert(position as int / width as int <= u32::MAX && (position as int / width as int)
            < height) by (nonlinear_arith)
            requires
                0 <= position < width * height,
                0 < width,
                0 <= height <= u32::MAX,
        ;
    }
    let coordinate = get_coordinate(position as u64, width);
    let current_color = image.get_pixel(coordinate.0, coordinate.1);
    let new_rgba: [u8; 4] = [
        pack_bit(current_color[0], bit_of_byte(byte, first_bit)),
        pack_bit(current_color[1], bit_of_byte(byte, first_bit + 1)),
        pack_bit(current_color[2], bit_of_byte(byte, first_bit + 2)),
        pack_bit(current_color[3], bit_of_byte(byte, first_bit + 3)),
    ];
    image.put_pixel(coordinate.0, coordinate.1, new_rgba);
    proof {
        let start = sample_index(width as int, coordinate.0 as int, coordinate.1 as int);
        assert(start == 4 * position);
        assert(start + 4 <= before.len()) by (nonlinear_arith)
            requires
                start == 4 * position,
                position < width * height,
                before.len() == 4 * width * height,
        ;
        assert forall|k: int| 0 <= k < 4 implies #[trigger] current_color@[k] == before[start + k] by {
            assert(before.subrange(start, start + 4)[k] == before[start + k]);
        }
        assert(image_samples(*image) =~= with_pixel_bits(
            before,
            position as int,
            byte,
            first_bit as int,
        ));
    }
}

/// Hides a payload in an image that has room for it: bit by bit in the lowest
/// bit of each sample, from the first sample on, two pixels to the byte. The
/// seven upper bits of every sample stay, and so does every sample after the
/// last bit of the payload.
pub fn embed_payload(image: &mut HostImage, payload: &[u8])
    requires
        fits(payload@.len(), image_samples(*old(image)).len()),
    ensures
        image_width(*final(image)) == image_width(*old(image)),
        image_height(*final(image)) == image_height(*old(image)),
        image_samples(*final(image)) == embedded(image_samples(*old(image)), payload@),
{
    let ghost before = image_samples(*image);
    let (width, height) = image.dimensions();
    let sample_count: usize = image.samples().len();
    let mut data_position: usize = 0;
    assert(image_samples(*image) =~= embedded_prefix(before, payload@, 0));
    while data_position < payload.len()
        invariant
            data_position <= payload@.len(),
            fits(payload@.len(), before.len()),
            width == image_width(*image),
            height == image_height(*image),
            image_width(*image) == image_width(*old(image)),
            image_height(*image) == image_height(*old(image)),
            sample_count == before.len(),
            before.len() == 4 * width * height,
            image_samples(*image) == embedded_prefix(before, payload@, 8 * data_position),
        decreases payload@.len() - data_position,
    {
        let char_code: u8 = payload[data_position];
        let sliding_image_position: usize = 2 * data_position;
        let ghost start = image_samples(*image);
        assert(sliding_image_position + 1 < width * height) by (nonlinear_arith)
            requires
                sliding_image_position == 2 * data_position,
                data_position < payload@.len(),
                8 * payload@.len() <= before.len(),
                before.len() == 4 * width * height,
        ;
        embed_pixel_bits(image, width, height, sliding_image_position, char_code, 0);
        embed_pixel_bits(image, width, height, sliding_image_position + 1, char_code, 4);
        proof {
            assert forall|k: int| 0 <= k < before.len() implies image_samples(*image)[k]
                == embedded_prefix(before, payload@, 8 * (data_position + 1))[k] by {
                if 8 * data_position <= k < 8 * data_position + 8 {
                    assert(k / 8 == data_position as int);
                    assert(k % 8 == k - 8 * data_position);
                }
            }
            assert(image_samples(*image) =~= embedded_prefix(
                before,
                payload@,
                8 * (data_position + 1),
            ));
        }
        data_position += 1;
    }
}

/// Whether a payload of `payload_length` bytes has room in an image.
fn payload_fits(payload_length: usize, image: &HostImage) -> (result: bool)
    ensures
        result == fits(payload_length as nat, image_samples(*image).len()),
{
    let sample_count: usize = image.samples().len();
    let bits: usize = NUMBER_BIT_PER_BYTE as usize;
    assert(bits == 8);
    payload_length <= sample_count / bits
}

/// The number of channel samples that hiding `message` takes: eight for each
/// of its bytes. The byte that ends a payload is counted only if `message`
/// holds it.
pub fn get_minimum_image_size_byte_required(message: String) -> (result: usize)
    requires
        8 * vstd::utf8::encode_utf8(message@).len() <= usize::MAX,
    ensures
        result == 8 * vstd::utf8::encode_utf8(message@).len(),
{
    let text: &str = message.as_str();
    let total_letter: usize = text.len();
    assert(text.spec_bytes() == vstd::utf8::encode_utf8(message@));
    let bits: usize = NUMBER_BIT_PER_BYTE as usize;
    assert(bits == 8);
    total_letter * bits
}

/// Whether an image has a sample for every bit of `message`.
pub fn is_buffer_big_enough_for_message(message: String, buffer: HostImage) -> (result: bool)
    ensures
        result == fits(vstd::utf8::encode_utf8(message@).len(), image_samples(buffer).len()),
{
    let total_letter: usize = message.as_str().as_bytes().len();
    payload_fits(total_letter, &buffer)
}

/// Hides a message in an image. With a password the message is encrypted
/// first and its cipher text is what is hidden. The bytes of the text, then
/// the end-of-text byte, go into the lowest bits of the samples from the
/// first pixel on. Where the image has fewer samples than the payload has
/// bits, nothing is hidden and the image is left as it was.
pub fn add_message_to_image(options: SteganographyInjectOption, image: &mut HostImage) -> (result:
    Result<(), EmbedError>)
    ensures
        result is Ok <==> fits(
            payload_of(options.message@, optional_text(options.password)).len(),
            image_samples(*old(image)).len(),
        ),
        result is Ok ==> image_samples(*final(image)) == embedded(
            image_samples(*old(image)),
            payload_of(options.message@, optional_text(options.password)),
        ),
        result is Ok ==> image_width(*final(image)) == image_width(*old(image)) && image_height(
            *final(image),
        ) == image_height(*old(image)),
        result is Ok && reads_back(options.message@, optional_text(options.password)) ==> recovers(
            image_samples(*final(image)),
            optional_text(options.password),
            options.message@,
        ),
        result is Err ==> *final(image) == *old(image),
{
    let ghost message = options.message@;
    let ghost password = optional_text(options.password);
    let ghost before = image_samples(*image);
    let data_to_insert = encrypt_if_needed(options.message, options.password);
    let mut data_bytes: Vec<u8> = vstd::slice::slice_to_vec(data_to_insert.as_str().as_bytes());
    data_bytes.push(END_OF_TEXT);
    assert(data_bytes@ == payload_of(message, password));
    if !payload_fits(data_bytes.len(), image) {
        return Err(EmbedError::CapacityExceeded);
    }
    embed_payload(image, data_bytes.as_slice());
    proof {
        if reads_back(message, password) {
            let text = data_to_insert@;
            if password is Some {
                lemma_base64_has_no_end_of_text(text);
            }
            lemma_round_trip(before, text);
        }
    }
    Ok(())
}

/// Reads the message hidden in an image: the hidden text itself without a
/// password, and with one what decrypting the hidden text gives, which is a
/// failure where the cipher fails.
pub fn get_message_from_image(options: SteganographyExtractOption, image: &HostImage) -> (result:
    Result<String, CipherError>)
    ensures
        outcome_text(result) == recovered(image_samples(*image), optional_text(options.password)),
{
    let new_buffer = image.samples();
    let msg = get_message_from_buffer(new_buffer);
    decrypt_if_needed(msg, options.password)
}

/// Where the first `count` groups hold no end-of-text byte, and either group
/// `count` holds one or there is no such group, the hidden bytes are those of
/// the first `count` groups.
pub proof fn lemma_hidden_until(samples: Seq<u8>, count: int, group: int)
    requires
        0 <= group <= count <= samples.len() / 8,
        forall|g: int| 0 <= g < count ==> group_byte(samples, g) != END_OF_TEXT,
        count == samples.len() / 8 || group_byte(samples, count) == END_OF_TEXT,
    ensures
        hidden_from(samples, group) == Seq::new(
            (count - group) as nat,
            |index: int| group_byte(samples, group + index),
        ),
    decreases count - group,
{
    let expected = Seq::new((count - group) as nat, |index: int| group_byte(samples, group + index));
    if group == count {
        assert(hidden_from(samples, group) =~= expected);
    } else {
        lemma_hidden_until(samples, count, group + 1);
        assert(hidden_from(samples, group) =~= expected);
    }
}

/// In an image that holds a payload, every group of eight samples under the
/// payload makes the payload's byte at that place.
pub proof fn lemma_group_of_embedded(samples: Seq<u8>, payload: Seq<u8>, group: int)
    requires
        fits(payload.len(), samples.len()),
        0 <= group < payload.len(),
    ensures
        group_byte(embedded(samples, payload), group) == payload[group],
{
    let after = embedded(samples, payload);
    let byte = payload[group];
    assert forall|index: int| 0 <= index < 8 implies low_bit(#[trigger] after[8 * group + index])
        == bit_at(byte, index) by {
        let position = 8 * group + index;
        assert(position / 8 == group);
        assert(position % 8 == index);
        assert(after[position] == with_low_bit(samples[position], payload_bit(payload, position)));
    }
    assert(Seq::new(8, |index: int| low_bit(after[8 * group + index])) =~= Seq::new(
        8,
        |index: int| bit_at(byte, index),
    ));
    lemma_bits_make_byte(byte);
}

/// What is read from an image in which bytes were hidden is what stands
/// before the first end-of-text byte among them, for every image with room
/// for the bytes.
pub proof fn lemma_hidden_is_cut(samples: Seq<u8>, payload: Seq<u8>, count: int)
    requires
        fits(payload.len(), samples.len()),
        0 <= count < payload.len(),
        payload[count] == END_OF_TEXT,
        is_text(payload.take(count)),
    ensures
        hidden_bytes(embedded(samples, payload)) == payload.take(count),
{
    let after = embedded(samples, payload);
    assert forall|g: int| 0 <= g <= count implies #[trigger] group_byte(after, g) == payload[g] by {
        lemma_group_of_embedded(samples, payload, g);
    }
    assert forall|g: int| 0 <= g < count implies group_byte(after, g) != END_OF_TEXT by {
        assert(payload.take(count)[g] == payload[g]);
    }
    assert(after.len() == samples.len());
    lemma_hidden_until(after, count, 0);
    assert(hidden_bytes(after) =~= payload.take(count));
}

/// What is read from an image in which the payload for `text` was hidden is
/// `text`, for every text that holds no end-of-text byte and every image with
/// room for its payload.
pub proof fn lemma_hidden_of_embedded(samples: Seq<u8>, text: Seq<u8>)
    requires
        fits(text.len() + 1, samples.len()),
        is_text(text),
    ensures
        hidden_bytes(embedded(samples, framed(text))) == text,
{
    assert(framed(text).take(text.len() as int) =~= text);
    lemma_hidden_is_cut(samples, framed(text), text.len() as int);
}

/// The UTF-8 bytes of a character other than the end-of-text character hold
/// no end-of-text byte.
pub proof fn lemma_scalar_has_no_end_of_text(c: char)
    requires
        c != EOF_CHAR,
    ensures
        is_text(vstd::utf8::encode_scalar(c as u32)),
{
    let scalar = c as u32;
    assert(scalar <= 0x7F ==> (scalar & 0x7F) as u8 == scalar) by (bit_vector);
    assert(forall|low: u8| 0xC0u8 | low != 4) by (bit_vector);
    assert(forall|low: u8| 0xE0u8 | low != 4) by (bit_vector);
    assert(forall|low: u8| 0xF0u8 | low != 4) by (bit_vector);
    assert(forall|low: u8| 0x80u8 | low != 4) by (bit_vector);
}

/// The UTF-8 bytes of a text without the end-of-text character hold no
/// end-of-text byte.
pub proof fn lemma_utf8_has_no_end_of_text(text: Seq<char>)
    requires
        has_no_end_of_text(text),
    ensures
        is_text(vstd::utf8::encode_utf8(text)),
    decreases text.len(),
{
    if text.len() > 0 {
        lemma_scalar_has_no_end_of_text(text[0]);
        lemma_utf8_has_no_end_of_text(text.drop_first());
    }
}

/// Hiding a message without the end-of-text character and reading the image
/// gives the message back, for every image with room for the bytes of the
/// message and the byte that ends them.
pub proof fn lemma_round_trip(samples: Seq<u8>, message: Seq<char>)
    requires
        has_no_end_of_text(message),
        fits(framed(vstd::utf8::encode_utf8(message)).len(), samples.len()),
    ensures
        hidden_bytes(embedded(samples, framed(vstd::utf8::encode_utf8(message))))
            == vstd::utf8::encode_utf8(message),
        hidden_text(embedded(samples, framed(vstd::utf8::encode_utf8(message)))) == message,
{
    let text = vstd::utf8::encode_utf8(message);
    lemma_utf8_has_no_end_of_text(message);
    lemma_hidden_of_embedded(samples, text);
    vstd::utf8::encode_utf8_valid_utf8(message);
    vstd::utf8::encode_utf8_decode_utf8(message);
}

/// A base64 text holds no end-of-text character.
pub proof fn lemma_base64_has_no_end_of_text(text: Seq<char>)
    requires
        is_base64_text(text),
    ensures
        has_no_end_of_text(text),
{
    assert forall|index: int| 0 <= index < text.len() implies text[index] != EOF_CHAR by {
        assert(is_base64_char(text[index]));
    }
}

/// An image of one pixel has no room for any payload: even the payload of the
/// empty message is one byte, and one pixel carries four bits.
pub proof fn lemma_one_pixel_is_too_small(
    message: Seq<char>,
    password: Option<Seq<char>>,
    samples: Seq<u8>,
)
    requires
        samples.len() == 4 * 1 * 1,
    ensures
        !fits(payload_of(message, password).len(), samples.len()),
{
}

} // verus!
