//! What a caller asks for: hiding a message in an image, or reading one back.

use vstd::prelude::*;
use vstd::string::*;

verus! {

/// What the command line can ask for.
#[derive(Copy, Clone, PartialEq, Eq, Debug, Structural)]
pub enum Mode {
    /// Hide a message in an image.
    Inject,
    /// Read the message hidden in an image.
    Extract,
    /// Encrypt a message without an image.
    Encrypt,
    /// Decrypt a message without an image.
    Decrypt,
}

impl Mode {
    /// The word that names a mode on the command line.
    pub open spec fn name(self) -> Seq<char> {
        match self {
            Mode::Inject => "inject"@,
            Mode::Extract => "extract"@,
            Mode::Encrypt => "encrypt"@,
            Mode::Decrypt => "decrypt"@,
        }
    }

    /// The mode that a word names, if it names one.
    pub open spec fn named(word: Seq<char>) -> Option<Mode> {
        if word == "inject"@ {
            Some(Mode::Inject)
        } else if word == "extract"@ {
            Some(Mode::Extract)
        } else if word == "encrypt"@ {
            Some(Mode::Encrypt)
        } else if word == "decrypt"@ {
            Some(Mode::Decrypt)
        } else {
            None
        }
    }

    /// The mode that the mode argument of the command line asks for: the one
    /// that the word names, `true` standing for `inject` and `false` for
    /// `extract`.
    pub open spec fn argued(word: Seq<char>) -> Option<Mode> {
        if word == "true"@ {
            Some(Mode::Inject)
        } else if word == "false"@ {
            Some(Mode::Extract)
        } else {
            Mode::named(word)
        }
    }

    /// The word that names this mode.
    pub fn to_string(&self) -> (result: String)
        ensures
            result@ == self.name(),
    {
        let s = match self {
            Mode::Inject => "inject",
            Mode::Extract => "extract",
            Mode::Encrypt => "encrypt",
            Mode::Decrypt => "decrypt",
        };
        String::from_str(s)
    }

    /// Reads a mode from the word that names it. Any other word is answered
    /// with a message that quotes it.
    pub fn from_str(s: &str) -> (result: Result<Mode, String>)
        ensures
            match Mode::named(s@) {
                Some(mode) => result == Ok::<Mode, String>(mode),
                None => result is Err && result->Err_0@ == "Unknown mode: "@ + s@,
            },
    {
        let word = String::from_str(s);
        if word == String::from_str("inject") {
            Ok(Mode::Inject)
        } else if word == String::from_str("extract") {
            Ok(Mode::Extract)
        } else if word == String::from_str("encrypt") {
            Ok(Mode::Encrypt)
        } else if word == String::from_str("decrypt") {
            Ok(Mode::Decrypt)
        } else {
            Err(String::from_str("Unknown mode: ").concat(s))
        }
    }

    /// Reads the mode argument of the command line: the name of a mode, or
    /// `true` to hide a message and `false` to read one back. Any other word
    /// is answered with a message that quotes it.
    pub fn from_argument(s: &str) -> (result: Result<Mode, String>)
        ensures
            match Mode::argued(s@) {
                Some(mode) => result == Ok::<Mode, String>(mode),
                None => result is Err && result->Err_0@ == "Unknown mode: "@ + s@,
            },
    {
        let word = String::from_str(s);
        if word == String::from_str("true") {
            Ok(Mode::Inject)
        } else if word == String::from_str("false") {
            Ok(Mode::Extract)
        } else {
            Mode::from_str(s)
        }
    }
}

/// Each mode is read back from the word that names it.
pub proof fn lemma_mode_name_round_trip(mode: Mode)
    ensures
        Mode::named(mode.name()) == Some(mode),
{
    reveal_strlit("inject");
    reveal_strlit("extract");
    reveal_strlit("encrypt");
    reveal_strlit("decrypt");
    assert("inject"@.len() == 6);
    assert("extract"@.len() == 7);
    assert("encrypt"@[1] == 'n');
    assert("extract"@[1] == 'x');
    assert("decrypt"@[0] == 'd');
    assert("extract"@[0] == 'e');
    assert("encrypt"@[0] == 'e');
}

/// The arguments of the command line, each as given or absent.
pub struct CliData {
    /// The message to hide; of no use when reading one back.
    pub message: Option<String>,
    /// The password under which the message is encrypted, if any.
    pub password: Option<String>,
    /// Where the image to read is.
    pub input_image_path: Option<String>,
    /// Where the image with the message goes; the image read is left as it is.
    pub output_image_path: Option<String>,
    /// What to do.
    pub mode: Option<Mode>,
}

/// A request: hide a message, or read one back.
#[derive(Clone)]
pub enum SteganographyOption {
    InjectMessageIntoImage(SteganographyInjectOption),
    ExtractMessageFromImage(SteganographyExtractOption),
}

/// What hiding a message needs.
#[derive(Clone)]
pub struct SteganographyInjectOption {
    pub message: String,
    pub password: Option<String>,
    pub input_image_path: String,
    pub output_image_path: String,
}

/// What reading a message back needs.
#[derive(Clone)]
pub struct SteganographyExtractOption {
    pub password: Option<String>,
    pub input_image_path: String,
}

/// Whether the arguments name a request and hold all that it needs: a mode
/// that is to hide or to read back, the image to read, and to hide a message
/// also the message, piped or as an argument, and the place for the result.
pub open spec fn is_complete(args: CliData, piped_message: Option<String>) -> bool {
    match args.mode {
        Some(Mode::Inject) => {
            &&& piped_message is Some || args.message is Some
            &&& args.input_image_path is Some
            &&& args.output_image_path is Some
        },
        Some(Mode::Extract) => args.input_image_path is Some,
        _ => false,
    }
}

/// The request that complete arguments describe. A message that was piped in
/// takes the place of the message argument.
pub open spec fn request_of(args: CliData, piped_message: Option<String>) -> SteganographyOption {
    if args.mode == Some(Mode::Inject) {
        SteganographyOption::InjectMessageIntoImage(
            SteganographyInjectOption {
                message: if piped_message is Some {
                    piped_message->Some_0
                } else {
                    args.message->Some_0
                },
                password: args.password,
                input_image_path: args.input_image_path->Some_0,
                output_image_path: args.output_image_path->Some_0,
            },
        )
    } else {
        SteganographyOption::ExtractMessageFromImage(
            SteganographyExtractOption {
                password: args.password,
                input_image_path: args.input_image_path->Some_0,
            },
        )
    }
}

/// What arguments that are not complete are answered with: the first thing
/// that is missing, the mode before the message, the message before the
/// image to read, and that before the place for the result.
pub open spec fn complaint(args: CliData, piped_message: Option<String>) -> Seq<char> {
    match args.mode {
        None => "Encrypt mode is required"@,
        Some(Mode::Inject) => {
            if piped_message is None && args.message is None {
                "Message is required"@
            } else if args.input_image_path is None {
                "Input image path"@
            } else {
                "Output image path is required"@
            }
        },
        Some(Mode::Extract) => "Input image is required"@,
        Some(mode) => "Unsupported mode: "@ + mode.name(),
    }
}

/// Makes the request that the arguments of the command line describe. A
/// message that was piped in takes the place of the message argument.
/// Arguments that name no request on an image, or lack what the request needs,
/// are answered with a complaint.
pub fn extract_options(args: CliData, piped_message: Option<String>) -> (result: Result<
    SteganographyOption,
    String,
>)
    ensures
        result is Ok <==> is_complete(args, piped_message),
        result is Ok ==> result->Ok_0 == request_of(args, piped_message),
        result is Err ==> result->Err_0@ == complaint(args, piped_message),
{
    match args.mode {
        Some(Mode::Inject) => {
            let message = match piped_message {
                Some(message) => message,
                None => match args.message {
                    Some(message) => message,
                    None => {
                        return Err(String::from_str("Message is required"));
                    },
                },
            };
            let input_image_path = match args.input_image_path {
                Some(path) => path,
                None => {
                    return Err(String::from_str("Input image path"));
                },
            };
            let output_image_path = match args.output_image_path {
                Some(path) => path,
                None => {
                    return Err(String::from_str("Output image path is required"));
                },
            };
            Ok(
                SteganographyOption::InjectMessageIntoImage(
                    SteganographyInjectOption {
                        message,
                        password: args.password,
                        input_image_path,
                        output_image_path,
                    },
                ),
            )
        },
        Some(Mode::Extract) => {
            let input_image_path = match args.input_image_path {
                Some(path) => path,
                None => {
                    return Err(String::from_str("Input image is required"));
                },
            };
            Ok(
                SteganographyOption::ExtractMessageFromImage(
                    SteganographyExtractOption { password: args.password, input_image_path },
                ),
            )
        },
        Some(mode) => {
            let name = mode.to_string();
            Err(String::from_str("Unsupported mode: ").concat(name.as_str()))
        },
        None => Err(String::from_str("Encrypt mode is required")),
    }
}

/// Lines put together as one text, with a line feed between each two.
pub open spec fn joined_lines(lines: Seq<String>) -> Seq<char>
    decreases lines.len(),
{
    if lines.len() == 0 {
        Seq::empty()
    } else if lines.len() == 1 {
        lines[0]@
    } else {
        joined_lines(lines.drop_last()) + seq!['\n'] + lines.last()@
    }
}

/// Makes the message of the lines that were piped in: the lines in order,
/// each but the last followed by a line feed.
pub fn join_lines(lines: &Vec<String>) -> (result: String)
    ensures
        result@ == joined_lines(lines@),
{
    let mut message = String::new();
    let mut index: usize = 0;
    while index < lines.len()
        invariant
            index <= lines@.len(),
            message@ == joined_lines(lines@.take(index as int)),
        decreases lines@.len() - index,
    {
        proof {
            reveal_strlit("\n");
            assert(lines@.take(index + 1).drop_last() =~= lines@.take(index as int));
            assert(lines@.take(index + 1).last() == lines@[index as int]);
        }
        if index > 0 {
            message.append("\n");
        }
        message.append(lines[index].as_str());
        index += 1;
        assert(message@ =~= joined_lines(lines@.take(index as int)));
    }
    assert(lines@.take(index as int) =~= lines@);
    message
}

} // verus!
