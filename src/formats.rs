//! The output formats a listener can ask for, by name.
use vstd::prelude::*;

verus! {

/// A supported output format.
#[derive(Debug, Clone, Copy, PartialEq, Eq, Structural)]
pub enum OutputFormat {
    Mp3k128,
    Mp3k192,
    Mp3k256,
    Aack64,
    Aack128,
    Aack256,
}

/// The format used where none, or an unknown one, is asked for.
pub const DEFAULT_FORMAT: OutputFormat = OutputFormat::Mp3k256;

/// The format whose external name is `name`.
pub open spec fn format_named(name: Seq<char>) -> Option<OutputFormat> {
    if name == "mp3_128"@ {
        Some(OutputFormat::Mp3k128)
    } else if name == "mp3_192"@ {
        Some(OutputFormat::Mp3k192)
    } else if name == "mp3_256"@ {
        Some(OutputFormat::Mp3k256)
    } else if name == "aac_64"@ {
        Some(OutputFormat::Aack64)
    } else if name == "aac_128"@ {
        Some(OutputFormat::Aack128)
    } else if name == "aac_256"@ {
        Some(OutputFormat::Aack256)
    } else {
        None
    }
}

pub open spec fn is_mp3(f: OutputFormat) -> bool {
    f == OutputFormat::Mp3k128 || f == OutputFormat::Mp3k192 || f == OutputFormat::Mp3k256
}

pub open spec fn bitrate_of(f: OutputFormat) -> u32 {
    match f {
        OutputFormat::Mp3k128 => 128,
        OutputFormat::Mp3k192 => 192,
        OutputFormat::Mp3k256 => 256,
        OutputFormat::Aack64 => 64,
        OutputFormat::Aack128 => 128,
        OutputFormat::Aack256 => 256,
    }
}

fn is_named(name: &String, candidate: &str) -> (r: bool)
    ensures
        r == (name@ == candidate@),
{
    *name == String::from_str(candidate)
}

impl OutputFormat {
    /// The format named `name` (`mp3_256`, `aac_128`, ...), if there is one.
    pub fn from_name(name: &String) -> (r: Option<OutputFormat>)
        ensures
            r == format_named(name@),
    {
        if is_named(name, "mp3_128") {
            Some(OutputFormat::Mp3k128)
        } else if is_named(name, "mp3_192") {
            Some(OutputFormat::Mp3k192)
        } else if is_named(name, "mp3_256") {
            Some(OutputFormat::Mp3k256)
        } else if is_named(name, "aac_64") {
            Some(OutputFormat::Aack64)
        } else if is_named(name, "aac_128") {
            Some(OutputFormat::Aack128)
        } else if is_named(name, "aac_256") {
            Some(OutputFormat::Aack256)
        } else {
            None
        }
    }

    /// The format named `name`, or the default one.
    pub fn from_name_or_default(name: Option<&String>) -> (r: OutputFormat)
        ensures
            r == match name {
                Some(n) => match format_named(n@) {
                    Some(f) => f,
                    None => DEFAULT_FORMAT,
                },
                None => DEFAULT_FORMAT,
            },
    {
        match name {
            Some(n) => match OutputFormat::from_name(n) {
                Some(f) => f,
                None => DEFAULT_FORMAT,
            },
            None => DEFAULT_FORMAT,
        }
    }

    /// Bitrate in kbit/s.
    pub fn bitrate(&self) -> (r: u32)
        ensures
            r == bitrate_of(*self),
    {
        match self {
            OutputFormat::Mp3k128 => 128,
            OutputFormat::Mp3k192 => 192,
            OutputFormat::Mp3k256 => 256,
            OutputFormat::Aack64 => 64,
            OutputFormat::Aack128 => 128,
            OutputFormat::Aack256 => 256,
        }
    }

    /// Name of the encoder of the media toolchain.
    pub fn codec(&self) -> (r: &'static str)
        ensures
            is_mp3(*self) ==> r@ == "libmp3lame"@,
            !is_mp3(*self) ==> r@ == "aac"@,
    {
        match self {
            OutputFormat::Mp3k128 | OutputFormat::Mp3k192 | OutputFormat::Mp3k256 => "libmp3lame",
            _ => "aac",
        }
    }

    /// Name of the container of the media toolchain.
    pub fn container(&self) -> (r: &'static str)
        ensures
            is_mp3(*self) ==> r@ == "mp3"@,
            !is_mp3(*self) ==> r@ == "adts"@,
    {
        match self {
            OutputFormat::Mp3k128 | OutputFormat::Mp3k192 | OutputFormat::Mp3k256 => "mp3",
            _ => "adts",
        }
    }

    /// MIME type of the stream.
    pub fn content_type(&self) -> (r: &'static str)
        ensures
            is_mp3(*self) ==> r@ == "audio/mpeg"@,
            !is_mp3(*self) ==> r@ == "audio/aac"@,
    {
        match self {
            OutputFormat::Mp3k128 | OutputFormat::Mp3k192 | OutputFormat::Mp3k256 => "audio/mpeg",
            _ => "audio/aac",
        }
    }
}

/// Query parameters of a listen request.
pub struct GetChannelAudioStreamQueryParams {
    pub format: Option<String>,
}

impl GetChannelAudioStreamQueryParams {
    /// The format asked for, or the default one where none or an unknown one is.
    pub fn output_format(&self) -> (r: OutputFormat)
        ensures
            r == match self.format {
                Some(n) => match format_named(n@) {
                    Some(f) => f,
                    None => DEFAULT_FORMAT,
                },
                None => DEFAULT_FORMAT,
            },
    {
        OutputFormat::from_name_or_default(self.format.as_ref())
    }
}

} // verus!
