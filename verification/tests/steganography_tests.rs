use magic_crypt::{MagicCrypt256, MagicCryptTrait};
use steganographyrs::options::{
    SteganographyExtractOption, SteganographyInjectOption, SteganographyOption,
};
use steganographyrs::pixels::HostImage;
use steganographyrs::steganography;

fn prestine() -> HostImage {
    let samples: Vec<u8> = (0..4 * 48 * 32).map(|index: usize| ((index * 37 + 11) % 256) as u8).collect();
    HostImage::from_raw(48, 32, samples).unwrap()
}

fn image_that_hides(text: &str) -> HostImage {
    let mut samples: Vec<u8> = (0..4 * 48 * 32).map(|index: usize| ((index * 53 + 7) % 256) as u8).collect();
    let mut payload = text.as_bytes().to_vec();
    payload.push(4);
    for (place, byte) in payload.iter().enumerate() {
        for bit in 0..8 {
            let value = (byte >> (7 - bit)) & 1;
            samples[8 * place + bit] = (samples[8 * place + bit] & 0xFE) | value;
        }
    }
    HostImage::from_raw(48, 32, samples).unwrap()
}

#[test]
fn test_steganography_encrypt() {
    let options = SteganographyInjectOption {
        message: "Test Message".to_string(),
        password: None,
        input_image_path: "testAssets/prestine.png".to_string(),
        output_image_path: "testAssets/delete_me.png".to_string(),
    };
    let mut image = prestine();
    let result = steganography(SteganographyOption::InjectMessageIntoImage(options), &mut image);
    assert_eq!(None, result)
}

#[test]
fn test_steganography_encrypt_with_password() {
    let options = SteganographyInjectOption {
        message: "Test Message".to_string(),
        password: Some("Secret Password Here".to_string()),
        input_image_path: "testAssets/prestine.png".to_string(),
        output_image_path: "testAssets/delete_me.png".to_string(),
    };
    let mut image = prestine();
    let result = steganography(SteganographyOption::InjectMessageIntoImage(options), &mut image);
    assert_eq!(None, result)
}

#[test]
fn test_steganography_decrypt() {
    let options = SteganographyExtractOption {
        input_image_path: "testAssets/out_message_Bye_2.png".to_string(),
        password: None,
    };
    let mut image = image_that_hides("Test Message");
    let recovered_message =
        steganography(SteganographyOption::ExtractMessageFromImage(options), &mut image).unwrap();
    assert_eq!("Test Message", recovered_message);
}

#[test]
fn test_steganography_decrypt_with_password() {
    let options = SteganographyExtractOption {
        input_image_path: "testAssets/out_message_Bye_3.png".to_string(),
        password: Some("Secret Password Here".to_string()),
    };
    let cipher = MagicCrypt256::new("Secret Password Here", None::<String>);
    let mut image = image_that_hides(&cipher.encrypt_str_to_base64("Test Message"));
    let recovered_message =
        steganography(SteganographyOption::ExtractMessageFromImage(options), &mut image).unwrap();
    assert_eq!("Test Message", recovered_message);
}

#[test]
fn test_steganography_decrypt_with_wrong_password() {
    let options = SteganographyExtractOption {
        input_image_path: "testAssets/out_message_Bye_3.png".to_string(),
        password: Some("Wrong Secret Password Here".to_string()),
    };
    let cipher = MagicCrypt256::new("Secret Password Here", None::<String>);
    let mut image = image_that_hides(&cipher.encrypt_str_to_base64("Test Message"));
    let recovered_message =
        steganography(SteganographyOption::ExtractMessageFromImage(options), &mut image);
    assert_eq!(None, recovered_message);
}

#[test]
fn steganography_hides_and_reads_back() {
    let mut image = prestine();
    let options = SteganographyInjectOption {
        message: "Test Message".to_string(),
        password: None,
        input_image_path: "in.png".to_string(),
        output_image_path: "out.png".to_string(),
    };
    assert_eq!(steganography(SteganographyOption::InjectMessageIntoImage(options), &mut image), None);
    let hidden = image.samples().to_vec();
    assert_ne!(hidden, prestine().samples().to_vec());
    let options = SteganographyExtractOption { input_image_path: "out.png".to_string(), password: None };
    let result = steganography(SteganographyOption::ExtractMessageFromImage(options), &mut image);
    assert_eq!(result, Some("Test Message".to_string()));
    assert_eq!(image.samples().to_vec(), hidden);
}

#[test]
fn steganography_hides_and_reads_back_with_password() {
    let mut image = prestine();
    let options = SteganographyInjectOption {
        message: "Test Message".to_string(),
        password: Some("Secret Password Here".to_string()),
        input_image_path: "in.png".to_string(),
        output_image_path: "out.png".to_string(),
    };
    assert_eq!(steganography(SteganographyOption::InjectMessageIntoImage(options), &mut image), None);
    let options = SteganographyExtractOption {
        input_image_path: "out.png".to_string(),
        password: Some("Secret Password Here".to_string()),
    };
    let result = steganography(SteganographyOption::ExtractMessageFromImage(options), &mut image);
    assert_eq!(result, Some("Test Message".to_string()));
    let options = SteganographyExtractOption {
        input_image_path: "out.png".to_string(),
        password: Some("Wrong Secret Password Here".to_string()),
    };
    let result = steganography(SteganographyOption::ExtractMessageFromImage(options), &mut image);
    assert_eq!(result, None);
}

#[test]
fn steganography_leaves_a_small_image_as_it_was() {
    let mut image = HostImage::from_raw(1, 1, vec![9, 8, 7, 6]).unwrap();
    let options = SteganographyInjectOption {
        message: "Hi".to_string(),
        password: None,
        input_image_path: "in.png".to_string(),
        output_image_path: "out.png".to_string(),
    };
    assert_eq!(steganography(SteganographyOption::InjectMessageIntoImage(options), &mut image), None);
    assert_eq!(image.samples().to_vec(), vec![9, 8, 7, 6]);
}

#[test]
fn host_image_wants_four_samples_for_each_pixel() {
    assert!(HostImage::from_raw(2, 2, vec![0; 15]).is_none());
    assert!(HostImage::from_raw(2, 2, vec![0; 16]).is_some());
    assert!(HostImage::from_raw(0, 7, Vec::new()).is_some());
    assert!(HostImage::from_raw(u32::MAX, u32::MAX, vec![0; 16]).is_none());
}

#[test]
fn host_image_keeps_its_dimensions_and_samples() {
    let samples: Vec<u8> = (0..24).collect();
    let image = HostImage::from_raw(3, 2, samples.clone()).unwrap();
    assert_eq!(image.dimensions(), (3, 2));
    assert_eq!(image.samples().to_vec(), samples);
    assert_eq!(image.get_pixel(0, 0), [0, 1, 2, 3]);
    assert_eq!(image.get_pixel(2, 0), [8, 9, 10, 11]);
    assert_eq!(image.get_pixel(0, 1), [12, 13, 14, 15]);
    assert_eq!(image.get_pixel(2, 1), [20, 21, 22, 23]);
}

#[test]
fn host_image_reads_its_pixels_from_the_front_of_a_longer_buffer() {
    let samples: Vec<u8> = (0..30).collect();
    let image = HostImage::from_raw(3, 2, samples).unwrap();
    assert_eq!(image.samples().to_vec(), (0..24).collect::<Vec<u8>>());
}

#[test]
fn host_image_put_pixel_changes_one_pixel() {
    let samples: Vec<u8> = (0..24).collect();
    let mut image = HostImage::from_raw(3, 2, samples).unwrap();
    image.put_pixel(1, 1, [200, 201, 202, 203]);
    assert_eq!(image.get_pixel(1, 1), [200, 201, 202, 203]);
    assert_eq!(
        image.samples().to_vec(),
        vec![
            0, 1, 2, 3, 4, 5, 6, 7, 8, 9, 10, 11, 12, 13, 14, 15, 200, 201, 202, 203, 20, 21, 22,
            23
        ]
    );
    assert_eq!(image.dimensions(), (3, 2));
}
