//! Choices made on the command line: the device platform and the language.
use vstd::prelude::*;
use crate::i18n::{lower_of, lowercase, Language};
use crate::text::{chars_of, concat_str, eq_lit};

verus! {

/// The platform whose device tools are used.
#[derive(Debug, Clone, Copy, PartialEq, Eq, Structural)]
pub enum CliDeviceType {
    Adb,
    Hdc,
    Ios,
}

/// The platform that a lower-case name selects.
pub open spec fn platform_named(lowered: Seq<char>) -> Option<CliDeviceType> {
    if lowered == "adb"@ {
        Some(CliDeviceType::Adb)
    } else if lowered == "hdc"@ {
        Some(CliDeviceType::Hdc)
    } else if lowered == "ios"@ {
        Some(CliDeviceType::Ios)
    } else {
        None
    }
}

impl CliDeviceType {
    /// The platform for a name already in lower case, or `None`.
    pub fn from_lowered(lowered: &str) -> (r: Option<CliDeviceType>)
        ensures
            r == platform_named(lowered@),
    {
        let s = chars_of(lowered);
        if eq_lit(&s, "adb") {
            Some(CliDeviceType::Adb)
        } else if eq_lit(&s, "hdc") {
            Some(CliDeviceType::Hdc)
        } else if eq_lit(&s, "ios") {
            Some(CliDeviceType::Ios)
        } else {
            None
        }
    }

    /// The platform for a name in any case; an unknown name is an error naming it.
    pub fn from_str(s: &str) -> (r: Result<CliDeviceType, String>)
        ensures
            r matches Ok(t) ==> platform_named(lower_of(s@)) == Some(t),
            r matches Err(e) ==> platform_named(lower_of(s@)) is None && e@
                == "Invalid device type: "@ + s@,
    {
        let l = lowercase(s);
        match CliDeviceType::from_lowered(l.as_str()) {
            Some(t) => Ok(t),
            None => Err(concat_str("Invalid device type: ", s)),
        }
    }

    /// The name of the platform's device tool.
    pub fn tool_name(&self) -> (r: &'static str)
        ensures
            *self == CliDeviceType::Adb ==> r@ == "ADB"@,
            *self == CliDeviceType::Hdc ==> r@ == "HDC"@,
            *self == CliDeviceType::Ios ==> r@ == "libimobiledevice"@,
    {
        match self {
            CliDeviceType::Adb => "ADB",
            CliDeviceType::Hdc => "HDC",
            CliDeviceType::Ios => "libimobiledevice",
        }
    }

    /// The command that lists the platform's devices.
    pub fn tool_cmd(&self) -> (r: &'static str)
        ensures
            *self == CliDeviceType::Adb ==> r@ == "adb"@,
            *self == CliDeviceType::Hdc ==> r@ == "hdc"@,
            *self == CliDeviceType::Ios ==> r@ == "idevice_id"@,
    {
        match self {
            CliDeviceType::Adb => "adb",
            CliDeviceType::Hdc => "hdc",
            CliDeviceType::Ios => "idevice_id",
        }
    }
}

/// The language that a lower-case command-line code selects: `en` is
/// English, anything else Chinese.
pub open spec fn lang_code_named(lowered: Seq<char>) -> Language {
    if lowered == "en"@ {
        Language::English
    } else {
        Language::Chinese
    }
}

/// The language for a command-line code already in lower case.
pub fn lang_from_lowered(lowered: &str) -> (r: Language)
    ensures
        r == lang_code_named(lowered@),
{
    if eq_lit(&chars_of(lowered), "en") {
        Language::English
    } else {
        Language::Chinese
    }
}

/// The language for a command-line code in any case.
pub fn parse_lang(lang: &str) -> (r: Language)
    ensures
        r == lang_code_named(lower_of(lang@)),
{
    let l = lowercase(lang);
    lang_from_lowered(l.as_str())
}

} // verus!
