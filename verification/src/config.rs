//! The settings of a run, and how they are read from the command line's raw
//! values.

use vstd::prelude::*;
use vstd::string::*;
use vstd::utf8::*;
use crate::number::{parse_i32_spec, read_i32};
use crate::text::str_eq;

verus! {

/// When to colour the output.
#[derive(Clone, Copy, Debug, PartialEq, Eq, Structural)]
pub enum ColorWhen {
    /// Colour whatever the output is.
    Always,
    /// Never colour.
    Never,
    /// Colour where the output is a terminal.
    Auto,
}

/// The word `always`.
pub open spec fn word_always() -> Seq<char> {
    seq!['a', 'l', 'w', 'a', 'y', 's']
}

/// The word `never`.
pub open spec fn word_never() -> Seq<char> {
    seq!['n', 'e', 'v', 'e', 'r']
}

/// The word `auto`.
pub open spec fn word_auto() -> Seq<char> {
    seq!['a', 'u', 't', 'o']
}

impl ColorWhen {
    /// The setting that a word names: `always`, `never` and `auto` name one
    /// each, in lower case; no other word names any.
    pub open spec fn named_by(word: Seq<char>) -> Option<ColorWhen> {
        if word == word_always() {
            Some(ColorWhen::Always)
        } else if word == word_never() {
            Some(ColorWhen::Never)
        } else if word == word_auto() {
            Some(ColorWhen::Auto)
        } else {
            None
        }
    }

    /// Reads the setting that `word` names.
    pub fn from_str(word: &str) -> (setting: Option<ColorWhen>)
        ensures
            setting == ColorWhen::named_by(word@),
    {
        proof {
            reveal_strlit("always");
            reveal_strlit("never");
            reveal_strlit("auto");
            assert("always"@ =~= word_always());
            assert("never"@ =~= word_never());
            assert("auto"@ =~= word_auto());
        }
        if str_eq(word, "always") {
            Some(ColorWhen::Always)
        } else if str_eq(word, "never") {
            Some(ColorWhen::Never)
        } else if str_eq(word, "auto") {
            Some(ColorWhen::Auto)
        } else {
            None
        }
    }

    /// Whether to colour, given whether the output is a terminal: `Auto`
    /// colours on a terminal only.
    pub fn mix_isatty_to_color_flag(&self, isatty: bool) -> (flag: bool)
        ensures
            flag == match *self {
                ColorWhen::Always => true,
                ColorWhen::Never => false,
                ColorWhen::Auto => isatty,
            },
    {
        match self {
            ColorWhen::Always => true,
            ColorWhen::Never => false,
            ColorWhen::Auto => isatty,
        }
    }
}

/// The settings of a run.
#[derive(Debug)]
pub struct Config {
    /// The line that the context window is laid around; no window where it is
    /// not positive.
    pub base_line: i32,
    /// How many lines the window reaches to either side of the base line.
    pub line_context: i32,
    /// When to colour.
    pub color_when: ColorWhen,
    /// The configuration file that was asked for; empty where none was.
    pub config_file: String,
    /// Whether each line is numbered.
    pub line_number: bool,
    /// The inputs, in order; `-` is standard input.
    pub files: Vec<String>,
}

/// The option whose value could not be read.
#[derive(Clone, Copy, Debug, PartialEq, Eq, Structural)]
pub enum ArgError {
    /// `--line` is no 32-bit integer.
    Line,
    /// `--context` is no 32-bit integer.
    Context,
    /// `--color` is none of `always`, `never`, `auto`.
    Color,
}

impl ArgError {
    /// The diagnostic for the error.
    pub fn message(&self) -> (text: &'static str)
        ensures
            text@ == match *self {
                ArgError::Line => "failed parse --line option"@,
                ArgError::Context => "failed parse -C, --context option"@,
                ArgError::Color => "failed parse --color option"@,
            },
    {
        match self {
            ArgError::Line => "failed parse --line option",
            ArgError::Context => "failed parse -C, --context option",
            ArgError::Color => "failed parse --color option",
        }
    }
}

/// The characters of an option's value, or of its default where the option
/// was not given.
pub open spec fn value_or(given: Option<&str>, default: Seq<char>) -> Seq<char> {
    match given {
        Some(value) => value@,
        None => default,
    }
}

/// The inputs of a run: those named, or standard input where none is.
pub open spec fn inputs_or_console(files: Seq<String>, chosen: Seq<String>) -> bool {
    if files.len() == 0 {
        chosen.len() == 1 && chosen[0]@ == seq!['-']
    } else {
        chosen == files
    }
}

/// Whether `config` holds what the raw values say, each option at its
/// default where it was not given: base line 0, context 3, colour `auto`, no
/// configuration file.
pub open spec fn reads_as(
    config: Config,
    line: Option<&str>,
    context: Option<&str>,
    color: Option<&str>,
    config_file: Option<&str>,
    line_number: bool,
    files: Seq<String>,
) -> bool {
    &&& parse_i32_spec(encode_utf8(value_or(line, seq!['0']))) == Some(config.base_line)
    &&& parse_i32_spec(encode_utf8(value_or(context, seq!['3']))) == Some(config.line_context)
    &&& ColorWhen::named_by(value_or(color, word_auto())) == Some(config.color_when)
    &&& config.config_file@ == value_or(config_file, Seq::empty())
    &&& config.line_number == line_number
    &&& inputs_or_console(files, config.files@)
}

/// Reads the settings from the raw values of the command line. The options
/// are read in the order line, context, colour, and the first whose value
/// cannot be read is the error.
pub fn parse_arg(
    line: Option<&str>,
    context: Option<&str>,
    color: Option<&str>,
    config_file: Option<&str>,
    line_number: bool,
    files: Vec<String>,
) -> (parsed: Result<Config, ArgError>)
    ensures
        match parsed {
            Ok(config) => reads_as(config, line, context, color, config_file, line_number, files@),
            Err(ArgError::Line) => parse_i32_spec(encode_utf8(value_or(line, seq!['0']))) is None,
            Err(ArgError::Context) => {
                &&& parse_i32_spec(encode_utf8(value_or(line, seq!['0']))) is Some
                &&& parse_i32_spec(encode_utf8(value_or(context, seq!['3']))) is None
            },
            Err(ArgError::Color) => {
                &&& parse_i32_spec(encode_utf8(value_or(line, seq!['0']))) is Some
                &&& parse_i32_spec(encode_utf8(value_or(context, seq!['3']))) is Some
                &&& ColorWhen::named_by(value_or(color, word_auto())) is None
            },
        },
{
    proof {
        reveal_strlit("0");
        reveal_strlit("3");
        reveal_strlit("auto");
        reveal_strlit("");
        reveal_strlit("-");
        assert("0"@ =~= seq!['0']);
        assert("3"@ =~= seq!['3']);
        assert("auto"@ =~= word_auto());
        assert(""@ =~= Seq::<char>::empty());
        assert("-"@ =~= seq!['-']);
    }
    let line_text = match line {
        Some(value) => value,
        None => "0",
    };
    let base_line = match read_i32(line_text) {
        Some(n) => n,
        None => {
            return Err(ArgError::Line);
        },
    };
    let context_text = match context {
        Some(value) => value,
        None => "3",
    };
    let line_context = match read_i32(context_text) {
        Some(n) => n,
        None => {
            return Err(ArgError::Context);
        },
    };
    let color_text = match color {
        Some(value) => value,
        None => "auto",
    };
    let color_when = match ColorWhen::from_str(color_text) {
        Some(setting) => setting,
        None => {
            return Err(ArgError::Color);
        },
    };
    let config_text = match config_file {
        Some(value) => value,
        None => "",
    };
    let mut files = files;
    if files.len() == 0 {
        files.push(String::from_str("-"));
    }
    Ok(
        Config {
            base_line,
            line_context,
            color_when,
            config_file: config_text.to_owned(),
            line_number,
            files,
        },
    )
}

/// A place where a configuration file is looked for.
#[derive(Debug)]
pub enum ConfigPlace {
    /// The file at this path.
    At(String),
    /// The file at this path below the user's home directory.
    UnderHome(String),
}

/// The path of the configuration file in the current directory.
pub open spec fn local_config() -> Seq<char> {
    "./config.yaml"@
}

/// The path of the user's configuration file, below the home directory.
pub open spec fn home_config() -> Seq<char> {
    ".config/ecat/config.yaml"@
}

/// The places to look in, in order: the file that was asked for, where one
/// was; the file in the current directory; the user's file.
pub open spec fn places_for(asked: Seq<char>, places: Seq<ConfigPlace>) -> bool {
    let shift: int = if asked.len() > 0 {
        1
    } else {
        0
    };
    &&& places.len() == 2 + shift
    &&& asked.len() > 0 ==> (places[0] matches ConfigPlace::At(path) && path@ == asked)
    &&& places[shift] matches ConfigPlace::At(path) && path@ == local_config()
    &&& places[shift + 1] matches ConfigPlace::UnderHome(path) && path@ == home_config()
}

/// Lists the places where the configuration file is looked for, first
/// choice first. `asked` is the path given on the command line, empty where
/// none was given.
pub fn config_places(asked: &str) -> (places: Vec<ConfigPlace>)
    ensures
        places_for(asked@, places@),
{
    let mut places: Vec<ConfigPlace> = Vec::new();
    if asked.unicode_len() > 0 {
        places.push(ConfigPlace::At(asked.to_owned()));
    }
    places.push(ConfigPlace::At(String::from_str("./config.yaml")));
    places.push(ConfigPlace::UnderHome(String::from_str(".config/ecat/config.yaml")));
    places
}

/// Picks the place to load from: the first that exists, and none where none
/// exists. `exists[i]` says whether the `i`-th place holds a file.
pub fn first_existing(exists: &Vec<bool>) -> (pick: Option<usize>)
    ensures
        match pick {
            Some(i) => i < exists@.len() && exists@[i as int] && forall|j: int|
                0 <= j < i ==> !exists@[j],
            None => forall|j: int| 0 <= j < exists@.len() ==> !exists@[j],
        },
{
    let mut i: usize = 0;
    while i < exists.len()
        invariant
            i <= exists@.len(),
            forall|j: int| 0 <= j < i ==> !exists@[j],
        decreases exists@.len() - i,
    {
        if exists[i] {
            return Some(i);
        }
        i += 1;
    }
    None
}

} // verus!
