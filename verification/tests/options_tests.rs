use steganographyrs::options::{extract_options, join_lines, CliData, Mode, SteganographyOption};

fn arguments(mode: Mode) -> CliData {
    CliData {
        message: Some("from the arguments".to_string()),
        password: Some("secret".to_string()),
        input_image_path: Some("in.png".to_string()),
        output_image_path: Some("out.png".to_string()),
        mode: Some(mode),
    }
}

#[test]
fn extract_options_to_inject() {
    match extract_options(arguments(Mode::Inject), None) {
        Ok(SteganographyOption::InjectMessageIntoImage(options)) => {
            assert_eq!(options.message, "from the arguments");
            assert_eq!(options.password, Some("secret".to_string()));
            assert_eq!(options.input_image_path, "in.png");
            assert_eq!(options.output_image_path, "out.png");
        }
        _ => panic!("a request to hide a message was expected"),
    }
}

#[test]
fn extract_options_prefers_the_piped_message() {
    let mut args = arguments(Mode::Inject);
    args.password = None;
    match extract_options(args, Some("from the pipe".to_string())) {
        Ok(SteganographyOption::InjectMessageIntoImage(options)) => {
            assert_eq!(options.message, "from the pipe");
            assert_eq!(options.password, None);
        }
        _ => panic!("a request to hide a message was expected"),
    }
}

#[test]
fn extract_options_takes_the_piped_message_alone() {
    let mut args = arguments(Mode::Inject);
    args.message = None;
    match extract_options(args, Some("from the pipe".to_string())) {
        Ok(SteganographyOption::InjectMessageIntoImage(options)) => {
            assert_eq!(options.message, "from the pipe");
        }
        _ => panic!("a request to hide a message was expected"),
    }
}

#[test]
fn extract_options_to_extract() {
    let mut args = arguments(Mode::Extract);
    args.message = None;
    args.output_image_path = None;
    match extract_options(args, None) {
        Ok(SteganographyOption::ExtractMessageFromImage(options)) => {
            assert_eq!(options.password, Some("secret".to_string()));
            assert_eq!(options.input_image_path, "in.png");
        }
        _ => panic!("a request to read a message was expected"),
    }
}

#[test]
fn mode_is_read_from_its_name() {
    assert_eq!(Mode::from_str("inject"), Ok(Mode::Inject));
    assert_eq!(Mode::from_str("extract"), Ok(Mode::Extract));
    assert_eq!(Mode::from_str("encrypt"), Ok(Mode::Encrypt));
    assert_eq!(Mode::from_str("decrypt"), Ok(Mode::Decrypt));
}

#[test]
fn mode_of_another_word_is_refused() {
    assert_eq!(Mode::from_str("Inject"), Err("Unknown mode: Inject".to_string()));
    assert_eq!(Mode::from_str(""), Err("Unknown mode: ".to_string()));
}

#[test]
fn mode_is_written_as_its_name() {
    assert_eq!(Mode::Inject.to_string(), "inject");
    assert_eq!(Mode::Extract.to_string(), "extract");
    assert_eq!(Mode::Encrypt.to_string(), "encrypt");
    assert_eq!(Mode::Decrypt.to_string(), "decrypt");
    for mode in [Mode::Inject, Mode::Extract, Mode::Encrypt, Mode::Decrypt] {
        assert_eq!(Mode::from_str(&mode.to_string()), Ok(mode));
    }
}

fn complaint_of(args: CliData, piped_message: Option<String>) -> String {
    match extract_options(args, piped_message) {
        Ok(_) => panic!("a complaint was expected"),
        Err(complaint) => complaint,
    }
}

#[test]
fn extract_options_wants_a_mode() {
    let mut args = arguments(Mode::Inject);
    args.mode = None;
    assert_eq!(complaint_of(args, None), "Encrypt mode is required");
}

#[test]
fn extract_options_wants_a_message_to_inject() {
    let mut args = arguments(Mode::Inject);
    args.message = None;
    args.input_image_path = None;
    assert_eq!(complaint_of(args, None), "Message is required");
}

#[test]
fn extract_options_wants_an_image_to_inject_into() {
    let mut args = arguments(Mode::Inject);
    args.input_image_path = None;
    args.output_image_path = None;
    assert_eq!(complaint_of(args, None), "Input image path");
}

#[test]
fn extract_options_wants_a_place_for_the_result() {
    let mut args = arguments(Mode::Inject);
    args.message = None;
    args.output_image_path = None;
    assert_eq!(complaint_of(args, Some("piped".to_string())), "Output image path is required");
}

#[test]
fn extract_options_wants_an_image_to_extract_from() {
    let mut args = arguments(Mode::Extract);
    args.input_image_path = None;
    assert_eq!(complaint_of(args, None), "Input image is required");
}

#[test]
fn extract_options_makes_no_request_without_an_image() {
    assert_eq!(complaint_of(arguments(Mode::Encrypt), None), "Unsupported mode: encrypt");
    assert_eq!(complaint_of(arguments(Mode::Decrypt), None), "Unsupported mode: decrypt");
}

#[test]
fn join_lines_puts_a_line_feed_between_lines() {
    let lines = vec!["one".to_string(), "two".to_string(), "".to_string(), "four".to_string()];
    assert_eq!(join_lines(&lines), "one\ntwo\n\nfour");
    assert_eq!(join_lines(&vec!["alone".to_string()]), "alone");
    assert_eq!(join_lines(&Vec::new()), "");
    assert_eq!(join_lines(&vec!["".to_string(), "".to_string()]), "\n");
}

#[test]
fn mode_argument_is_a_name_or_a_flag() {
    assert_eq!(Mode::from_argument("true"), Ok(Mode::Inject));
    assert_eq!(Mode::from_argument("false"), Ok(Mode::Extract));
    assert_eq!(Mode::from_argument("inject"), Ok(Mode::Inject));
    assert_eq!(Mode::from_argument("extract"), Ok(Mode::Extract));
    assert_eq!(Mode::from_argument("encrypt"), Ok(Mode::Encrypt));
    assert_eq!(Mode::from_argument("decrypt"), Ok(Mode::Decrypt));
    assert_eq!(Mode::from_argument("True"), Err("Unknown mode: True".to_string()));
    assert_eq!(Mode::from_str("true"), Err("Unknown mode: true".to_string()));
}
