//! The configuration file: `key=value` lines, `#` comments, and the CAN bus speed.
use vstd::prelude::*;
use crate::text::{
    chars_of, string_from_chars, trim, split_lines, split_once, same_text, trim_spec, lines_spec,
    split_once_spec, char_lines_view, newline_pieces, strip_cr, is_white_space, lemma_pieces_line,
    lemma_trim_fixed, lemma_trimmed_ends, lemma_find_spec, decimal_spec,
};
use vstd::string::StringExecFns;

verus! {

/// Speed of the CAN bus.
#[derive(Clone, Copy, Debug, PartialEq, Eq, Structural)]
pub enum CanBaudRate {
    R5kBd,
    R10kBd,
    R20kBd,
    R50kBd,
    R100kBd,
    R125kBd,
    R200kBd,
    R250kBd,
    R400kBd,
    R500kBd,
    R800kBd,
    R1000kBd,
}

/// The operating system that picks the default device path.
#[derive(Clone, Copy, Debug, PartialEq, Eq, Structural)]
pub enum TargetOs {
    Linux,
    Windows,
    MacOs,
    Other,
}

/// Settings read from the configuration file.
#[derive(Clone, Debug)]
pub struct Config {
    /// Path (or interface name) of the CAN device.
    pub device_port: String,
    pub can_baud_rate: CanBaudRate,
    /// Write the log to a file as well as to the terminal.
    pub save_logs: bool,
    /// Broadcast raw CAN frames over the WebSocket.
    pub broadcast_raw_frames: bool,
}

/// A configuration and the keys of the file that it did not know.
#[derive(Clone, Debug)]
pub struct LoadedConfig {
    pub config: Config,
    pub unknown_keys: Vec<String>,
}

/// Why a configuration file was refused.
#[derive(Clone, Debug)]
pub enum ConfigError {
    /// `can_baud_rate` names no known speed.
    UnknownBaudRate { value: String },
    /// A `true`/`false` key holds something else.
    InvalidFlag { key: String, value: String },
}

/// The default device path of each operating system.
pub open spec fn default_device_port_spec(os: TargetOs) -> Seq<char> {
    match os {
        TargetOs::Windows => "COM4"@,
        TargetOs::MacOs => "/dev/cu.wchusbserial110"@,
        _ => "/dev/ttyUSB0"@,
    }
}

/// Returns the default device path for an operating system.
pub fn get_default_device_port(os: TargetOs) -> (r: String)
    ensures
        r@ == default_device_port_spec(os),
{
    match os {
        TargetOs::Linux => String::from_str("/dev/ttyUSB0"),
        TargetOs::Windows => String::from_str("COM4"),
        TargetOs::MacOs => String::from_str("/dev/cu.wchusbserial110"),
        TargetOs::Other => String::from_str("/dev/ttyUSB0"),
    }
}

/// The lowercase form of a text as `str::to_lowercase` gives it.
pub uninterp spec fn lowercase_of(s: Seq<char>) -> Seq<char>;

/// ASCII lowercase of one character.
pub open spec fn ascii_lower(c: char) -> char {
    if 'A' <= c <= 'Z' { ((c as u32) + 32) as char } else { c }
}

/// ASCII uppercase of one character.
pub open spec fn ascii_upper(c: char) -> char {
    if 'a' <= c <= 'z' { ((c as u32) - 32) as char } else { c }
}

/// Every character is ASCII.
pub open spec fn is_ascii_text(s: Seq<char>) -> bool {
    forall|i: int| 0 <= i < s.len() ==> (#[trigger] s[i] as u32) < 128
}

/// The lowercase form of a text: on ASCII text `A`..`Z` become `a`..`z` and
/// nothing else changes; other text is lowered as `str::to_lowercase` does.
pub open spec fn lowercase_spec(s: Seq<char>) -> Seq<char> {
    if is_ascii_text(s) {
        s.map_values(|c: char| ascii_lower(c))
    } else {
        lowercase_of(s)
    }
}

/// `str::to_lowercase`: the Unicode lowercase of a text. On ASCII text it lowers
/// `A`..`Z` and leaves every other character as it is.
#[verifier::external_body]
fn to_lowercase(s: &str) -> (r: String)
    ensures
        r@ == lowercase_of(s@),
        is_ascii_text(s@) ==> r@ == s@.map_values(|c: char| ascii_lower(c)),
{
    s.to_lowercase()
}

/// The speed that a lowercase speed text names: `Nk` or the plain number of
/// bits per second, and `1m` for 1000k.
pub open spec fn baud_of_name(l: Seq<char>) -> Option<CanBaudRate> {
    if l == "5k"@ || l == "5000"@ {
        Some(CanBaudRate::R5kBd)
    } else if l == "10k"@ || l == "10000"@ {
        Some(CanBaudRate::R10kBd)
    } else if l == "20k"@ || l == "20000"@ {
        Some(CanBaudRate::R20kBd)
    } else if l == "50k"@ || l == "50000"@ {
        Some(CanBaudRate::R50kBd)
    } else if l == "100k"@ || l == "100000"@ {
        Some(CanBaudRate::R100kBd)
    } else if l == "125k"@ || l == "125000"@ {
        Some(CanBaudRate::R125kBd)
    } else if l == "200k"@ || l == "200000"@ {
        Some(CanBaudRate::R200kBd)
    } else if l == "250k"@ || l == "250000"@ {
        Some(CanBaudRate::R250kBd)
    } else if l == "400k"@ || l == "400000"@ {
        Some(CanBaudRate::R400kBd)
    } else if l == "500k"@ || l == "500000"@ {
        Some(CanBaudRate::R500kBd)
    } else if l == "800k"@ || l == "800000"@ {
        Some(CanBaudRate::R800kBd)
    } else if l == "1000k"@ || l == "1000000"@ || l == "1m"@ {
        Some(CanBaudRate::R1000kBd)
    } else {
        None
    }
}

/// Reads an already lowercased speed text.
pub fn baud_rate_from_lowercase(l: &str) -> (r: Option<CanBaudRate>)
    ensures
        r == baud_of_name(l@),
{
    if same_text(l, "5k") || same_text(l, "5000") {
        Some(CanBaudRate::R5kBd)
    } else if same_text(l, "10k") || same_text(l, "10000") {
        Some(CanBaudRate::R10kBd)
    } else if same_text(l, "20k") || same_text(l, "20000") {
        Some(CanBaudRate::R20kBd)
    } else if same_text(l, "50k") || same_text(l, "50000") {
        Some(CanBaudRate::R50kBd)
    } else if same_text(l, "100k") || same_text(l, "100000") {
        Some(CanBaudRate::R100kBd)
    } else if same_text(l, "125k") || same_text(l, "125000") {
        Some(CanBaudRate::R125kBd)
    } else if same_text(l, "200k") || same_text(l, "200000") {
        Some(CanBaudRate::R200kBd)
    } else if same_text(l, "250k") || same_text(l, "250000") {
        Some(CanBaudRate::R250kBd)
    } else if same_text(l, "400k") || same_text(l, "400000") {
        Some(CanBaudRate::R400kBd)
    } else if same_text(l, "500k") || same_text(l, "500000") {
        Some(CanBaudRate::R500kBd)
    } else if same_text(l, "800k") || same_text(l, "800000") {
        Some(CanBaudRate::R800kBd)
    } else if same_text(l, "1000k") || same_text(l, "1000000") || same_text(l, "1m") {
        Some(CanBaudRate::R1000kBd)
    } else {
        None
    }
}

/// Parses a CAN speed, case-insensitively (the text is lowered first).
pub fn parse_can_baud_rate(value: &str) -> (r: Result<CanBaudRate, ConfigError>)
    ensures
        match baud_of_name(lowercase_spec(value@)) {
            Some(rate) => r == Ok::<CanBaudRate, ConfigError>(rate),
            None => (r matches Err(ConfigError::UnknownBaudRate { value: v }) && v@ == value@),
        },
{
    let lowered = to_lowercase(value);
    match baud_rate_from_lowercase(lowered.as_str()) {
        Some(rate) => Ok(rate),
        None => Err(ConfigError::UnknownBaudRate { value: String::from_str(value) }),
    }
}

/// The text that names a speed in the configuration file.
pub open spec fn baud_text(rate: CanBaudRate) -> Seq<char> {
    match rate {
        CanBaudRate::R5kBd => "5k"@,
        CanBaudRate::R10kBd => "10k"@,
        CanBaudRate::R20kBd => "20k"@,
        CanBaudRate::R50kBd => "50k"@,
        CanBaudRate::R100kBd => "100k"@,
        CanBaudRate::R125kBd => "125k"@,
        CanBaudRate::R200kBd => "200k"@,
        CanBaudRate::R250kBd => "250k"@,
        CanBaudRate::R400kBd => "400k"@,
        CanBaudRate::R500kBd => "500k"@,
        CanBaudRate::R800kBd => "800k"@,
        CanBaudRate::R1000kBd => "1000k"@,
    }
}

/// Formats a speed for the configuration file.
pub fn format_can_baud_rate(rate: CanBaudRate) -> (r: &'static str)
    ensures
        r@ == baud_text(rate),
{
    match rate {
        CanBaudRate::R5kBd => "5k",
        CanBaudRate::R10kBd => "10k",
        CanBaudRate::R20kBd => "20k",
        CanBaudRate::R50kBd => "50k",
        CanBaudRate::R100kBd => "100k",
        CanBaudRate::R125kBd => "125k",
        CanBaudRate::R200kBd => "200k",
        CanBaudRate::R250kBd => "250k",
        CanBaudRate::R400kBd => "400k",
        CanBaudRate::R500kBd => "500k",
        CanBaudRate::R800kBd => "800k",
        CanBaudRate::R1000kBd => "1000k",
    }
}

/// Formatting a speed and reading the text back gives the same speed: every
/// speed's text is lowercase ASCII, so lowering it changes nothing, and it names
/// that speed.
pub proof fn lemma_baud_text_reads_back(rate: CanBaudRate)
    ensures
        is_ascii_text(baud_text(rate)),
        lowercase_spec(baud_text(rate)) == baud_text(rate),
        baud_of_name(lowercase_spec(baud_text(rate))) == Some(rate),
{
    reveal_strlit("5k");
    reveal_strlit("5000");
    reveal_strlit("10k");
    reveal_strlit("10000");
    reveal_strlit("20k");
    reveal_strlit("20000");
    reveal_strlit("50k");
    reveal_strlit("50000");
    reveal_strlit("100k");
    reveal_strlit("100000");
    reveal_strlit("125k");
    reveal_strlit("125000");
    reveal_strlit("200k");
    reveal_strlit("200000");
    reveal_strlit("250k");
    reveal_strlit("250000");
    reveal_strlit("400k");
    reveal_strlit("400000");
    reveal_strlit("500k");
    reveal_strlit("500000");
    reveal_strlit("800k");
    reveal_strlit("800000");
    reveal_strlit("1000k");
    reveal_strlit("1000000");
    reveal_strlit("1m");
    let t = baud_text(rate);
    assert(t.map_values(|c: char| ascii_lower(c)) =~= t);
    match rate {
        CanBaudRate::R5kBd => {

        },
        CanBaudRate::R10kBd => {
            assert(t.len() != "5k"@.len());
            assert(t.len() != "5000"@.len());
        },
        CanBaudRate::R20kBd => {
            assert(t.len() != "5k"@.len());
            assert(t.len() != "5000"@.len());
            assert(t[0] != "10k"@[0]);
            assert(t.len() != "10000"@.len());
        },
        CanBaudRate::R50kBd => {
            assert(t.len() != "5k"@.len());
            assert(t.len() != "5000"@.len());
            assert(t[0] != "10k"@[0]);
            assert(t.len() != "10000"@.len());
            assert(t[0] != "20k"@[0]);
            assert(t.len() != "20000"@.len());
        },
        CanBaudRate::R100kBd => {
            assert(t.len() != "5k"@.len());
            assert(t[0] != "5000"@[0]);
            assert(t.len() != "10k"@.len());
            assert(t.len() != "10000"@.len());
            assert(t.len() != "20k"@.len());
            assert(t.len() != "20000"@.len());
            assert(t.len() != "50k"@.len());
            assert(t.len() != "50000"@.len());
        },
        CanBaudRate::R125kBd => {
            assert(t.len() != "5k"@.len());
            assert(t[0] != "5000"@[0]);
            assert(t.len() != "10k"@.len());
            assert(t.len() != "10000"@.len());
            assert(t.len() != "20k"@.len());
            assert(t.len() != "20000"@.len());
            assert(t.len() != "50k"@.len());
            assert(t.len() != "50000"@.len());
            assert(t[1] != "100k"@[1]);
            assert(t.len() != "100000"@.len());
        },
        CanBaudRate::R200kBd => {
            assert(t.len() != "5k"@.len());
            assert(t[0] != "5000"@[0]);
            assert(t.len() != "10k"@.len());
            assert(t.len() != "10000"@.len());
            assert(t.len() != "20k"@.len());
            assert(t.len() != "20000"@.len());
            assert(t.len() != "50k"@.len());
            assert(t.len() != "50000"@.len());
            assert(t[0] != "100k"@[0]);
            assert(t.len() != "100000"@.len());
            assert(t[0] != "125k"@[0]);
            assert(t.len() != "125000"@.len());
        },
        CanBaudRate::R250kBd => {
            assert(t.len() != "5k"@.len());
            assert(t[0] != "5000"@[0]);
            assert(t.len() != "10k"@.len());
            assert(t.len() != "10000"@.len());
            assert(t.len() != "20k"@.len());
            assert(t.len() != "20000"@.len());
            assert(t.len() != "50k"@.len());
            assert(t.len() != "50000"@.len());
            assert(t[0] != "100k"@[0]);
            assert(t.len() != "100000"@.len());
            assert(t[0] != "125k"@[0]);
            assert(t.len() != "125000"@.len());
            assert(t[1] != "200k"@[1]);
            assert(t.len() != "200000"@.len());
        },
        CanBaudRate::R400kBd => {
            assert(t.len() != "5k"@.len());
            assert(t[0] != "5000"@[0]);
            assert(t.len() != "10k"@.len());
            assert(t.len() != "10000"@.len());
            assert(t.len() != "20k"@.len());
            assert(t.len() != "20000"@.len());
            assert(t.len() != "50k"@.len());
            assert(t.len() != "50000"@.len());
            assert(t[0] != "100k"@[0]);
            assert(t.len() != "100000"@.len());
            assert(t[0] != "125k"@[0]);
            assert(t.len() != "125000"@.len());
            assert(t[0] != "200k"@[0]);
            assert(t.len() != "200000"@.len());
            assert(t[0] != "250k"@[0]);
            assert(t.len() != "250000"@.len());
        },
        CanBaudRate::R500kBd => {
            assert(t.len() != "5k"@.len());
            assert(t[3] != "5000"@[3]);
            assert(t.len() != "10k"@.len());
            assert(t.len() != "10000"@.len());
            assert(t.len() != "20k"@.len());
            assert(t.len() != "20000"@.len());
            assert(t.len() != "50k"@.len());
            assert(t.len() != "50000"@.len());
            assert(t[0] != "100k"@[0]);
            assert(t.len() != "100000"@.len());
            assert(t[0] != "125k"@[0]);
            assert(t.len() != "125000"@.len());
            assert(t[0] != "200k"@[0]);
            assert(t.len() != "200000"@.len());
            assert(t[0] != "250k"@[0]);
            assert(t.len() != "250000"@.len());
            assert(t[0] != "400k"@[0]);
            assert(t.len() != "400000"@.len());
        },
        CanBaudRate::R800kBd => {
            assert(t.len() != "5k"@.len());
            assert(t[0] != "5000"@[0]);
            assert(t.len() != "10k"@.len());
            assert(t.len() != "10000"@.len());
            assert(t.len() != "20k"@.len());
            assert(t.len() != "20000"@.len());
            assert(t.len() != "50k"@.len());
            assert(t.len() != "50000"@.len());
            assert(t[0] != "100k"@[0]);
            assert(t.len() != "100000"@.len());
            assert(t[0] != "125k"@[0]);
            assert(t.len() != "125000"@.len());
            assert(t[0] != "200k"@[0]);
            assert(t.len() != "200000"@.len());
            assert(t[0] != "250k"@[0]);
            assert(t.len() != "250000"@.len());
            assert(t[0] != "400k"@[0]);
            assert(t.len() != "400000"@.len());
            assert(t[0] != "500k"@[0]);
            assert(t.len() != "500000"@.len());
        },
        CanBaudRate::R1000kBd => {
            assert(t.len() != "5k"@.len());
            assert(t.len() != "5000"@.len());
            assert(t.len() != "10k"@.len());
            assert(t[4] != "10000"@[4]);
            assert(t.len() != "20k"@.len());
            assert(t[0] != "20000"@[0]);
            assert(t.len() != "50k"@.len());
            assert(t[0] != "50000"@[0]);
            assert(t.len() != "100k"@.len());
            assert(t.len() != "100000"@.len());
            assert(t.len() != "125k"@.len());
            assert(t.len() != "125000"@.len());
            assert(t.len() != "200k"@.len());
            assert(t.len() != "200000"@.len());
            assert(t.len() != "250k"@.len());
            assert(t.len() != "250000"@.len());
            assert(t.len() != "400k"@.len());
            assert(t.len() != "400000"@.len());
            assert(t.len() != "500k"@.len());
            assert(t.len() != "500000"@.len());
            assert(t.len() != "800k"@.len());
            assert(t.len() != "800000"@.len());
        },
    }
}

/// The bus speed in bits per second.
pub open spec fn bits_per_second(rate: CanBaudRate) -> nat {
    match rate {
        CanBaudRate::R5kBd => 5000,
        CanBaudRate::R10kBd => 10000,
        CanBaudRate::R20kBd => 20000,
        CanBaudRate::R50kBd => 50000,
        CanBaudRate::R100kBd => 100000,
        CanBaudRate::R125kBd => 125000,
        CanBaudRate::R200kBd => 200000,
        CanBaudRate::R250kBd => 250000,
        CanBaudRate::R400kBd => 400000,
        CanBaudRate::R500kBd => 500000,
        CanBaudRate::R800kBd => 800000,
        CanBaudRate::R1000kBd => 1000000,
    }
}

/// The decimal number of bits per second of each speed names that speed.
proof fn lemma_number_text_names_speed(rate: CanBaudRate)
    ensures
        baud_of_name(number_text(rate)) == Some(rate),
{
    reveal_strlit("5k");
    reveal_strlit("5000");
    reveal_strlit("10k");
    reveal_strlit("10000");
    reveal_strlit("20k");
    reveal_strlit("20000");
    reveal_strlit("50k");
    reveal_strlit("50000");
    reveal_strlit("100k");
    reveal_strlit("100000");
    reveal_strlit("125k");
    reveal_strlit("125000");
    reveal_strlit("200k");
    reveal_strlit("200000");
    reveal_strlit("250k");
    reveal_strlit("250000");
    reveal_strlit("400k");
    reveal_strlit("400000");
    reveal_strlit("500k");
    reveal_strlit("500000");
    reveal_strlit("800k");
    reveal_strlit("800000");
    reveal_strlit("1000k");
    reveal_strlit("1000000");
    reveal_strlit("1m");
    match rate {
        CanBaudRate::R5kBd => {

        },
        CanBaudRate::R10kBd => {
            assert("10000"@.len() != "5k"@.len());
            assert("10000"@.len() != "5000"@.len());
        },
        CanBaudRate::R20kBd => {
            assert("20000"@.len() != "5k"@.len());
            assert("20000"@.len() != "5000"@.len());
            assert("20000"@.len() != "10k"@.len());
            assert("20000"@[0] != "10000"@[0]);
        },
        CanBaudRate::R50kBd => {
            assert("50000"@.len() != "5k"@.len());
            assert("50000"@.len() != "5000"@.len());
            assert("50000"@.len() != "10k"@.len());
            assert("50000"@[0] != "10000"@[0]);
            assert("50000"@.len() != "20k"@.len());
            assert("50000"@[0] != "20000"@[0]);
        },
        CanBaudRate::R100kBd => {
            assert("100000"@.len() != "5k"@.len());
            assert("100000"@.len() != "5000"@.len());
            assert("100000"@.len() != "10k"@.len());
            assert("100000"@.len() != "10000"@.len());
            assert("100000"@.len() != "20k"@.len());
            assert("100000"@.len() != "20000"@.len());
            assert("100000"@.len() != "50k"@.len());
            assert("100000"@.len() != "50000"@.len());
        },
        CanBaudRate::R125kBd => {
            assert("125000"@.len() != "5k"@.len());
            assert("125000"@.len() != "5000"@.len());
            assert("125000"@.len() != "10k"@.len());
            assert("125000"@.len() != "10000"@.len());
            assert("125000"@.len() != "20k"@.len());
            assert("125000"@.len() != "20000"@.len());
            assert("125000"@.len() != "50k"@.len());
            assert("125000"@.len() != "50000"@.len());
            assert("125000"@.len() != "100k"@.len());
            assert("125000"@[1] != "100000"@[1]);
        },
        CanBaudRate::R200kBd => {
            assert("200000"@.len() != "5k"@.len());
            assert("200000"@.len() != "5000"@.len());
            assert("200000"@.len() != "10k"@.len());
            assert("200000"@.len() != "10000"@.len());
            assert("200000"@.len() != "20k"@.len());
            assert("200000"@.len() != "20000"@.len());
            assert("200000"@.len() != "50k"@.len());
            assert("200000"@.len() != "50000"@.len());
            assert("200000"@.len() != "100k"@.len());
            assert("200000"@[0] != "100000"@[0]);
            assert("200000"@.len() != "125k"@.len());
            assert("200000"@[0] != "125000"@[0]);
        },
        CanBaudRate::R250kBd => {
            assert("250000"@.len() != "5k"@.len());
            assert("250000"@.len() != "5000"@.len());
            assert("250000"@.len() != "10k"@.len());
            assert("250000"@.len() != "10000"@.len());
            assert("250000"@.len() != "20k"@.len());
            assert("250000"@.len() != "20000"@.len());
            assert("250000"@.len() != "50k"@.len());
            assert("250000"@.len() != "50000"@.len());
            assert("250000"@.len() != "100k"@.len());
            assert("250000"@[0] != "100000"@[0]);
            assert("250000"@.len() != "125k"@.len());
            assert("250000"@[0] != "125000"@[0]);
            assert("250000"@.len() != "200k"@.len());
            assert("250000"@[1] != "200000"@[1]);
        },
        CanBaudRate::R400kBd => {
            assert("400000"@.len() != "5k"@.len());
            assert("400000"@.len() != "5000"@.len());
            assert("400000"@.len() != "10k"@.len());
            assert("400000"@.len() != "10000"@.len());
            assert("400000"@.len() != "20k"@.len());
            assert("400000"@.len() != "20000"@.len());
            assert("400000"@.len() != "50k"@.len());
            assert("400000"@.len() != "50000"@.len());
            assert("400000"@.len() != "100k"@.len());
            assert("400000"@[0] != "100000"@[0]);
            assert("400000"@.len() != "125k"@.len());
            assert("400000"@[0] != "125000"@[0]);
            assert("400000"@.len() != "200k"@.len());
            assert("400000"@[0] != "200000"@[0]);
            assert("400000"@.len() != "250k"@.len());
            assert("400000"@[0] != "250000"@[0]);
        },
        CanBaudRate::R500kBd => {
            assert("500000"@.len() != "5k"@.len());
            assert("500000"@.len() != "5000"@.len());
            assert("500000"@.len() != "10k"@.len());
            assert("500000"@.len() != "10000"@.len());
            assert("500000"@.len() != "20k"@.len());
            assert("500000"@.len() != "20000"@.len());
            assert("500000"@.len() != "50k"@.len());
            assert("500000"@.len() != "50000"@.len());
            assert("500000"@.len() != "100k"@.len());
            assert("500000"@[0] != "100000"@[0]);
            assert("500000"@.len() != "125k"@.len());
            assert("500000"@[0] != "125000"@[0]);
            assert("500000"@.len() != "200k"@.len());
            assert("500000"@[0] != "200000"@[0]);
            assert("500000"@.len() != "250k"@.len());
            assert("500000"@[0] != "250000"@[0]);
            assert("500000"@.len() != "400k"@.len());
            assert("500000"@[0] != "400000"@[0]);
        },
        CanBaudRate::R800kBd => {
            assert("800000"@.len() != "5k"@.len());
            assert("800000"@.len() != "5000"@.len());
            assert("800000"@.len() != "10k"@.len());
            assert("800000"@.len() != "10000"@.len());
            assert("800000"@.len() != "20k"@.len());
            assert("800000"@.len() != "20000"@.len());
            assert("800000"@.len() != "50k"@.len());
            assert("800000"@.len() != "50000"@.len());
            assert("800000"@.len() != "100k"@.len());
            assert("800000"@[0] != "100000"@[0]);
            assert("800000"@.len() != "125k"@.len());
            assert("800000"@[0] != "125000"@[0]);
            assert("800000"@.len() != "200k"@.len());
            assert("800000"@[0] != "200000"@[0]);
            assert("800000"@.len() != "250k"@.len());
            assert("800000"@[0] != "250000"@[0]);
            assert("800000"@.len() != "400k"@.len());
            assert("800000"@[0] != "400000"@[0]);
            assert("800000"@.len() != "500k"@.len());
            assert("800000"@[0] != "500000"@[0]);
        },
        CanBaudRate::R1000kBd => {
            assert("1000000"@.len() != "5k"@.len());
            assert("1000000"@.len() != "5000"@.len());
            assert("1000000"@.len() != "10k"@.len());
            assert("1000000"@.len() != "10000"@.len());
            assert("1000000"@.len() != "20k"@.len());
            assert("1000000"@.len() != "20000"@.len());
            assert("1000000"@.len() != "50k"@.len());
            assert("1000000"@.len() != "50000"@.len());
            assert("1000000"@.len() != "100k"@.len());
            assert("1000000"@.len() != "100000"@.len());
            assert("1000000"@.len() != "125k"@.len());
            assert("1000000"@.len() != "125000"@.len());
            assert("1000000"@.len() != "200k"@.len());
            assert("1000000"@.len() != "200000"@.len());
            assert("1000000"@.len() != "250k"@.len());
            assert("1000000"@.len() != "250000"@.len());
            assert("1000000"@.len() != "400k"@.len());
            assert("1000000"@.len() != "400000"@.len());
            assert("1000000"@.len() != "500k"@.len());
            assert("1000000"@.len() != "500000"@.len());
            assert("1000000"@.len() != "800k"@.len());
            assert("1000000"@.len() != "800000"@.len());
        },
    }
}

/// The decimal number of bits per second of a speed, as text.
spec fn number_text(rate: CanBaudRate) -> Seq<char> {
    match rate {
        CanBaudRate::R5kBd => "5000"@,
        CanBaudRate::R10kBd => "10000"@,
        CanBaudRate::R20kBd => "20000"@,
        CanBaudRate::R50kBd => "50000"@,
        CanBaudRate::R100kBd => "100000"@,
        CanBaudRate::R125kBd => "125000"@,
        CanBaudRate::R200kBd => "200000"@,
        CanBaudRate::R250kBd => "250000"@,
        CanBaudRate::R400kBd => "400000"@,
        CanBaudRate::R500kBd => "500000"@,
        CanBaudRate::R800kBd => "800000"@,
        CanBaudRate::R1000kBd => "1000000"@,
    }
}

/// Every speed is named both by its number of kilobits per second followed by
/// `k` and by the decimal number of its bits per second (so `500k` and
/// `500000` both name 500 kbit/s), in either case of letters.
pub proof fn lemma_speed_numbers_name_speed(rate: CanBaudRate)
    ensures
        baud_of_name(lowercase_spec(decimal_spec(bits_per_second(rate)))) == Some(rate),
        baud_of_name(lowercase_spec(decimal_spec(bits_per_second(rate) / 1000) + "k"@)) == Some(rate),
        baud_of_name(lowercase_spec(decimal_spec(bits_per_second(rate) / 1000) + "K"@)) == Some(rate),
{
    reveal_with_fuel(decimal_spec, 8);
    reveal_strlit("k");
    reveal_strlit("K");
    reveal_strlit("5k");
    reveal_strlit("5000");
    reveal_strlit("10k");
    reveal_strlit("10000");
    reveal_strlit("20k");
    reveal_strlit("20000");
    reveal_strlit("50k");
    reveal_strlit("50000");
    reveal_strlit("100k");
    reveal_strlit("100000");
    reveal_strlit("125k");
    reveal_strlit("125000");
    reveal_strlit("200k");
    reveal_strlit("200000");
    reveal_strlit("250k");
    reveal_strlit("250000");
    reveal_strlit("400k");
    reveal_strlit("400000");
    reveal_strlit("500k");
    reveal_strlit("500000");
    reveal_strlit("800k");
    reveal_strlit("800000");
    reveal_strlit("1000k");
    reveal_strlit("1000000");
    reveal_strlit("1m");
    let number = decimal_spec(bits_per_second(rate));
    let kilo = decimal_spec(bits_per_second(rate) / 1000) + "k"@;
    let kilo_upper = decimal_spec(bits_per_second(rate) / 1000) + "K"@;
    assert(number =~= number_text(rate));
    assert(kilo =~= baud_text(rate));
    assert(kilo_upper =~= baud_text(rate).map_values(|c: char| ascii_upper(c)));
    assert(is_ascii_text(number));
    assert(lowercase_spec(number) =~= number);
    lemma_number_text_names_speed(rate);
    lemma_baud_text_reads_back(rate);
    lemma_upper_baud_text_reads_back(rate);
}

/// Lowering the uppercase of a digit or a lowercase ASCII letter gives it back.
proof fn lemma_ascii_case_round(c: char)
    requires
        ('0' <= c <= '9') || ('a' <= c <= 'z'),
    ensures
        (ascii_upper(c) as u32) < 128,
        ascii_lower(ascii_upper(c)) == c,
{
}

/// Speeds are read case-insensitively: the upper-case form of every speed's
/// text (such as `500K`) is ASCII, lowers to the text itself, and names that speed.
pub proof fn lemma_upper_baud_text_reads_back(rate: CanBaudRate)
    ensures
        ({
            let upper = baud_text(rate).map_values(|c: char| ascii_upper(c));
            &&& is_ascii_text(upper)
            &&& lowercase_spec(upper) == baud_text(rate)
            &&& baud_of_name(lowercase_spec(upper)) == Some(rate)
        }),
{
    let t = baud_text(rate);
    let upper = t.map_values(|c: char| ascii_upper(c));
    reveal_strlit("5k");
    reveal_strlit("10k");
    reveal_strlit("20k");
    reveal_strlit("50k");
    reveal_strlit("100k");
    reveal_strlit("125k");
    reveal_strlit("200k");
    reveal_strlit("250k");
    reveal_strlit("400k");
    reveal_strlit("500k");
    reveal_strlit("800k");
    reveal_strlit("1000k");
    assert forall|i: int| 0 <= i < t.len() implies ('0' <= #[trigger] t[i] <= '9') || ('a' <= t[i] <= 'z') by {}
    assert forall|i: int| 0 <= i < upper.len() implies (#[trigger] upper[i] as u32) < 128 by {
        lemma_ascii_case_round(t[i]);
    }
    assert(upper.map_values(|c: char| ascii_lower(c)) =~= t) by {
        assert forall|i: int| 0 <= i < t.len() implies upper.map_values(|c: char| ascii_lower(c))[i] == t[i] by {
            lemma_ascii_case_round(t[i]);
        }
    }
    lemma_baud_text_reads_back(rate);
}

/// The state that reading the file carries from line to line: device port,
/// speed, `save_logs`, `broadcast_raw_frames`, and the unknown keys seen so far.
pub type ConfigState = (Seq<char>, CanBaudRate, bool, bool, Seq<Seq<char>>);

/// A `true`/`false` value as `str::parse::<bool>` reads it.
pub open spec fn flag_of(value: Seq<char>) -> Option<bool> {
    if value == "true"@ {
        Some(true)
    } else if value == "false"@ {
        Some(false)
    } else {
        None
    }
}

/// One line of the file applied to the state: blank lines, `#` comments and
/// lines without `=` change nothing; a known key sets its value (key and value
/// trimmed), a value that its key cannot take refuses the file with that key and
/// value, and any other key is noted as unknown.
pub open spec fn config_line_spec(st: ConfigState, line: Seq<char>) -> Result<ConfigState, (Seq<char>, Seq<char>)> {
    let t = trim_spec(line);
    if t.len() == 0 || t[0] == '#' {
        Ok(st)
    } else {
        match split_once_spec(t, '=') {
            None => Ok(st),
            Some((k, v)) => {
                let key = trim_spec(k);
                let value = trim_spec(v);
                if key == "device_port"@ {
                    Ok((value, st.1, st.2, st.3, st.4))
                } else if key == "can_baud_rate"@ {
                    match baud_of_name(lowercase_spec(value)) {
                        Some(rate) => Ok((st.0, rate, st.2, st.3, st.4)),
                        None => Err((key, value)),
                    }
                } else if key == "save_logs"@ {
                    match flag_of(value) {
                        Some(b) => Ok((st.0, st.1, b, st.3, st.4)),
                        None => Err((key, value)),
                    }
                } else if key == "broadcast_raw_frames"@ {
                    match flag_of(value) {
                        Some(b) => Ok((st.0, st.1, st.2, b, st.4)),
                        None => Err((key, value)),
                    }
                } else {
                    Ok((st.0, st.1, st.2, st.3, st.4.push(key)))
                }
            },
        }
    }
}

/// The lines of the file applied in order.
pub open spec fn config_lines_spec(lines: Seq<Seq<char>>, init: ConfigState) -> Result<ConfigState, (Seq<char>, Seq<char>)>
    decreases lines.len(),
{
    if lines.len() == 0 {
        Ok(init)
    } else {
        match config_lines_spec(lines.drop_last(), init) {
            Err(e) => Err(e),
            Ok(st) => config_line_spec(st, lines.last()),
        }
    }
}

/// The state before the first line: the defaults of `os`.
pub open spec fn default_state(os: TargetOs) -> ConfigState {
    (default_device_port_spec(os), CanBaudRate::R500kBd, true, true, Seq::empty())
}

/// What reading a configuration text gives, starting from the defaults of `os`.
pub open spec fn config_text_spec(content: Seq<char>, os: TargetOs) -> Result<ConfigState, (Seq<char>, Seq<char>)> {
    config_lines_spec(lines_spec(content), default_state(os))
}

/// The error that a refused key and value give.
pub open spec fn config_error_matches(e: ConfigError, key: Seq<char>, value: Seq<char>) -> bool {
    if key == "can_baud_rate"@ {
        e matches ConfigError::UnknownBaudRate { value: v } && v@ == value
    } else {
        e matches ConfigError::InvalidFlag { key: k, value: v } && k@ == key && v@ == value
    }
}

/// Reads a `true`/`false` value.
pub fn parse_flag(value: &str) -> (r: Option<bool>)
    ensures
        r == flag_of(value@),
{
    if same_text(value, "true") {
        Some(true)
    } else if same_text(value, "false") {
        Some(false)
    } else {
        None
    }
}

/// The keys of a list, as character sequences.
pub open spec fn strings_view(v: Seq<String>) -> Seq<Seq<char>> {
    v.map_values(|s: String| s@)
}

impl Config {
    /// The configuration used when there is no file: the default device path of
    /// `os`, 500k, logs saved and raw frames broadcast.
    pub fn default_for(os: TargetOs) -> (r: Config)
        ensures
            r.device_port@ == default_device_port_spec(os),
            r.can_baud_rate == CanBaudRate::R500kBd,
            r.save_logs,
            r.broadcast_raw_frames,
    {
        Config {
            device_port: get_default_device_port(os),
            can_baud_rate: CanBaudRate::R500kBd,
            save_logs: true,
            broadcast_raw_frames: true,
        }
    }

    /// The state that this configuration and these unknown keys stand for.
    pub open spec fn state(self, unknown: Seq<String>) -> ConfigState {
        (self.device_port@, self.can_baud_rate, self.save_logs, self.broadcast_raw_frames, strings_view(unknown))
    }

    /// Reads a configuration text.
    pub fn load_from_text(content: &str, os: TargetOs) -> (r: Result<LoadedConfig, ConfigError>)
        ensures
            match config_text_spec(content@, os) {
                Ok(st) => (r matches Ok(lc) && lc.config.state(lc.unknown_keys@) == st),
                Err((key, value)) => (r matches Err(e) && config_error_matches(e, key, value)),
            },
    {
        let chars = chars_of(content);
        let lines = split_lines(chars.as_slice());
        let ghost all = char_lines_view(lines@);
        let ghost init: ConfigState = default_state(os);
        let mut config = Config::default_for(os);
        let mut unknown_keys: Vec<String> = Vec::new();
        let mut i: usize = 0;
        assert(all.take(0) =~= Seq::<Seq<char>>::empty());
        assert(strings_view(unknown_keys@) =~= Seq::<Seq<char>>::empty());
        while i < lines.len()
            invariant
                i <= lines.len(),
                all == char_lines_view(lines@),
                all == lines_spec(content@),
                init == default_state(os),
                config_lines_spec(all.take(i as int), init) == Ok::<ConfigState, (Seq<char>, Seq<char>)>(
                    config.state(unknown_keys@),
                ),
            decreases lines.len() - i,
        {
            assert(all.take(i + 1).drop_last() =~= all.take(i as int));
            assert(all.take(i + 1).last() == lines@[i as int]@);
            let line = trim(lines[i].as_slice());
            if line.len() == 0 || line[0] == '#' {
                i = i + 1;
                continue;
            }
            match split_once(line.as_slice(), '=') {
                None => {},
                Some((k, v)) => {
                    let key = string_from_chars(trim(k.as_slice()).as_slice());
                    let value = string_from_chars(trim(v.as_slice()).as_slice());
                    if same_text(key.as_str(), "device_port") {
                        config.device_port = value;
                    } else if same_text(key.as_str(), "can_baud_rate") {
                        match parse_can_baud_rate(value.as_str()) {
                            Ok(rate) => {
                                config.can_baud_rate = rate;
                            },
                            Err(e) => {
                                proof {
                                    lemma_config_refused(all, i as int + 1, init);
                                }
                                return Err(e);
                            },
                        }
                    } else if same_text(key.as_str(), "save_logs") {
                        match parse_flag(value.as_str()) {
                            Some(b) => {
                                config.save_logs = b;
                            },
                            None => {
                                proof {
                                    lemma_config_refused(all, i as int + 1, init);
                                    reveal_strlit("save_logs");
                                    reveal_strlit("can_baud_rate");
                                }
                                return Err(ConfigError::InvalidFlag { key, value });
                            },
                        }
                    } else if same_text(key.as_str(), "broadcast_raw_frames") {
                        match parse_flag(value.as_str()) {
                            Some(b) => {
                                config.broadcast_raw_frames = b;
                            },
                            None => {
                                proof {
                                    lemma_config_refused(all, i as int + 1, init);
                                    reveal_strlit("broadcast_raw_frames");
                                    reveal_strlit("can_baud_rate");
                                }
                                return Err(ConfigError::InvalidFlag { key, value });
                            },
                        }
                    } else {
                        let ghost before = unknown_keys@;
                        unknown_keys.push(key);
                        assert(strings_view(unknown_keys@) =~= strings_view(before).push(key@));
                    }
                },
            }
            i = i + 1;
        }
        assert(all.take(lines.len() as int) =~= all);
        Ok(LoadedConfig { config, unknown_keys })
    }

    /// The text that saving this configuration writes: two comment lines, the
    /// device path, an empty line, a comment listing the speeds, and the speed.
    /// The two flags are not written.
    pub open spec fn file_content_spec(self) -> Seq<char> {
        "# CAN Receiver Configuration"@ + "\n"@ + "# Path to CAN device"@ + "\n"@ + "device_port="@ + self.device_port@ + "\n"@
            + "\n"@ + "# CAN transmission speed (5k, 10k, 20k, 50k, 100k, 125k, 200k, 250k, 400k, 500k, 800k, 1000k)"@ + "\n"@ + "can_baud_rate="@ + baud_text(self.can_baud_rate) + "\n"@
    }

    /// The text of the configuration file for this configuration.
    pub fn file_content(&self) -> (r: String)
        ensures
            r@ == self.file_content_spec(),
    {
        let mut s = String::from_str("# CAN Receiver Configuration");
        s.append("\n");
        s.append("# Path to CAN device");
        s.append("\n");
        s.append("device_port=");
        s.append(self.device_port.as_str());
        s.append("\n");
        s.append("\n");
        s.append("# CAN transmission speed (5k, 10k, 20k, 50k, 100k, 125k, 200k, 250k, 400k, 500k, 800k, 1000k)");
        s.append("\n");
        s.append("can_baud_rate=");
        s.append(format_can_baud_rate(self.can_baud_rate));
        s.append("\n");
        s
    }
}

/// A line without a newline followed by a newline, written after text that
/// ends a line (or after nothing), adds that line and an empty last piece.
proof fn lemma_pieces_ended_line(a: Seq<char>, line: Seq<char>)
    requires
        a.len() == 0 || a.last() == '\n',
        forall|i: int| 0 <= i < line.len() ==> line[i] != '\n',
    ensures
        newline_pieces(a + line + "\n"@) == newline_pieces(a).drop_last().push(line).push(Seq::<char>::empty()),
        (a + line + "\n"@).last() == '\n',
{
    reveal_strlit("\n");
    lemma_pieces_line(a, line);
    assert((a + line + "\n"@).drop_last() =~= a + line);
}

/// The first and last characters of a speed's text, and that it holds no newline.
proof fn lemma_baud_text_shape(rate: CanBaudRate)
    ensures
        baud_text(rate).len() > 1,
        !is_white_space(baud_text(rate)[0]),
        baud_text(rate).last() == 'k',
        forall|i: int| 0 <= i < baud_text(rate).len() ==> baud_text(rate)[i] != '\n',
{
    reveal_strlit("5k");
    reveal_strlit("10k");
    reveal_strlit("20k");
    reveal_strlit("50k");
    reveal_strlit("100k");
    reveal_strlit("125k");
    reveal_strlit("200k");
    reveal_strlit("250k");
    reveal_strlit("400k");
    reveal_strlit("500k");
    reveal_strlit("800k");
    reveal_strlit("1000k");
}

/// Reading back the text that saving a configuration writes gives its device
/// path and speed, both flags at their defaults and no unknown keys, for every
/// device path that is one line with no white space at either end.
pub proof fn lemma_file_content_reads_back(config: Config, os: TargetOs)
    requires
        trim_spec(config.device_port@) == config.device_port@,
        forall|i: int| 0 <= i < config.device_port@.len() ==> config.device_port@[i] != '\n',
    ensures
        config_text_spec(config.file_content_spec(), os) == Ok::<ConfigState, (Seq<char>, Seq<char>)>(
            (config.device_port@, config.can_baud_rate, true, true, Seq::<Seq<char>>::empty()),
        ),
{
    let port = config.device_port@;
    let rate = config.can_baud_rate;
    let baud = baud_text(rate);
    let nl = "\n"@;
    let h1 = "# CAN Receiver Configuration"@;
    let h2 = "# Path to CAN device"@;
    let h3 = "# CAN transmission speed (5k, 10k, 20k, 50k, 100k, 125k, 200k, 250k, 400k, 500k, 800k, 1000k)"@;
    let dk = "device_port="@;
    let bk = "can_baud_rate="@;
    let dl = dk + port;
    let bl = bk + baud;
    let e = Seq::<char>::empty();
    reveal_strlit("\n");
    reveal_strlit("# CAN Receiver Configuration");
    reveal_strlit("# Path to CAN device");
    reveal_strlit("# CAN transmission speed (5k, 10k, 20k, 50k, 100k, 125k, 200k, 250k, 400k, 500k, 800k, 1000k)");
    reveal_strlit("device_port=");
    reveal_strlit("can_baud_rate=");
    reveal_strlit("device_port");
    reveal_strlit("can_baud_rate");
    lemma_baud_text_shape(rate);
    lemma_baud_text_reads_back(rate);

    // The text, line by line.
    let a1 = e + h1 + nl;
    let a2 = a1 + h2 + nl;
    let a3 = a2 + dl + nl;
    let a4 = a3 + e + nl;
    let a5 = a4 + h3 + nl;
    let a6 = a5 + bl + nl;
    assert(config.file_content_spec() =~= a6);
    assert(forall|i: int| 0 <= i < dl.len() ==> dl[i] != '\n');
    assert(forall|i: int| 0 <= i < bl.len() ==> bl[i] != '\n');
    lemma_pieces_ended_line(e, h1);
    lemma_pieces_ended_line(a1, h2);
    lemma_pieces_ended_line(a2, dl);
    lemma_pieces_ended_line(a3, e);
    lemma_pieces_ended_line(a4, h3);
    lemma_pieces_ended_line(a5, bl);
    let pieces = seq![h1, h2, dl, e, h3, bl, e];
    assert(newline_pieces(a6) =~= pieces);

    // No line ends with a carriage return.
    if port.len() > 0 {
        lemma_trimmed_ends(port);
        assert(dl.last() == port.last());
    } else {
        assert(dl.last() == '=');
    }
    assert(strip_cr(dl) == dl);
    assert(strip_cr(bl) == bl);
    let lines = seq![h1, h2, dl, e, h3, bl];
    assert(lines_spec(a6) =~= lines);

    // Each line applied to the state.
    let s0 = default_state(os);
    let s2: ConfigState = (port, s0.1, s0.2, s0.3, s0.4);
    let s5: ConfigState = (port, rate, true, true, Seq::<Seq<char>>::empty());
    lemma_trim_fixed(h1);
    lemma_trim_fixed(h2);
    lemma_trim_fixed(h3);
    assert(config_line_spec(s0, h1) == Ok::<ConfigState, (Seq<char>, Seq<char>)>(s0));
    assert(config_line_spec(s0, h2) == Ok::<ConfigState, (Seq<char>, Seq<char>)>(s0));

    lemma_trim_fixed(dl);
    lemma_find_spec(dl, '=', 11);
    assert(dl.take(11) =~= "device_port"@);
    assert(dl.skip(12) =~= port);
    lemma_trim_fixed("device_port"@);
    assert(config_line_spec(s0, dl) == Ok::<ConfigState, (Seq<char>, Seq<char>)>(s2));
    assert(config_line_spec(s2, e) == Ok::<ConfigState, (Seq<char>, Seq<char>)>(s2));
    assert(config_line_spec(s2, h3) == Ok::<ConfigState, (Seq<char>, Seq<char>)>(s2));

    lemma_trim_fixed(bl);
    lemma_find_spec(bl, '=', 13);
    assert(bl.take(13) =~= "can_baud_rate"@);
    assert(bl.skip(14) =~= baud);
    lemma_trim_fixed("can_baud_rate"@);
    lemma_trim_fixed(baud);
    assert(config_line_spec(s2, bl) == Ok::<ConfigState, (Seq<char>, Seq<char>)>(s5));

    assert(lines.drop_last() =~= seq![h1, h2, dl, e, h3]);
    assert(seq![h1, h2, dl, e, h3].drop_last() =~= seq![h1, h2, dl, e]);
    assert(seq![h1, h2, dl, e].drop_last() =~= seq![h1, h2, dl]);
    assert(seq![h1, h2, dl].drop_last() =~= seq![h1, h2]);
    assert(seq![h1, h2].drop_last() =~= seq![h1]);
    assert(seq![h1].drop_last() =~= Seq::<Seq<char>>::empty());
    assert(config_lines_spec(Seq::<Seq<char>>::empty(), s0) == Ok::<ConfigState, (Seq<char>, Seq<char>)>(s0));
    assert(seq![h1].last() == h1);
    assert(config_lines_spec(seq![h1], s0) == Ok::<ConfigState, (Seq<char>, Seq<char>)>(s0));
    assert(config_lines_spec(seq![h1, h2], s0) == Ok::<ConfigState, (Seq<char>, Seq<char>)>(s0));
    assert(config_lines_spec(seq![h1, h2, dl], s0) == Ok::<ConfigState, (Seq<char>, Seq<char>)>(s2));
    assert(config_lines_spec(seq![h1, h2, dl, e], s0) == Ok::<ConfigState, (Seq<char>, Seq<char>)>(s2));
    assert(config_lines_spec(seq![h1, h2, dl, e, h3], s0) == Ok::<ConfigState, (Seq<char>, Seq<char>)>(s2));
    assert(config_lines_spec(lines, s0) == Ok::<ConfigState, (Seq<char>, Seq<char>)>(s5));
}

/// Once a prefix of the lines refuses the file, the whole file is refused the same way.
proof fn lemma_config_refused(lines: Seq<Seq<char>>, k: int, init: ConfigState)
    requires
        0 <= k <= lines.len(),
        config_lines_spec(lines.take(k), init) is Err,
    ensures
        config_lines_spec(lines, init) == config_lines_spec(lines.take(k), init),
    decreases lines.len() - k,
{
    if k == lines.len() {
        assert(lines.take(k) =~= lines);
    } else {
        assert(lines.take(k + 1).drop_last() =~= lines.take(k));
        lemma_config_refused(lines, k + 1, init);
    }
}

} // verus!
