//! The file formats that device descriptions and encoder settings are read
//! from and written to, and how a format is told from its name.
use vstd::prelude::*;
use crate::text::str_eq;

verus! {

/// The format of a file of encoder settings.
#[derive(Clone, Copy, Debug, PartialEq, Eq, Structural)]
pub enum ConfigFormat {
    Yaml,
    Json,
}

/// The format a device description is read from.
#[derive(Clone, Copy, Debug, PartialEq, Eq, Structural)]
pub enum InputFormat {
    Xml,
    Yaml,
    Json,
}

/// The format a device description is written in.
#[derive(Clone, Copy, Debug, PartialEq, Eq, Structural)]
pub enum OutputFormat {
    Xml,
    Yaml,
    Json,
}

/// How a device description is read.
#[derive(Clone, Copy, Debug, Default)]
pub struct ParserConfig {
    pub expand: bool,
    pub expand_properties: bool,
    pub ignore_enums: bool,
}

/// A format name that is not known.
#[derive(Debug)]
pub enum FormatError {
    UnknownInput,
    UnknownOutput,
    UnknownConfig,
}

/// The text `s` is one of the names that mean SVD/XML.
pub open spec fn names_xml(s: Seq<char>) -> bool {
    s == seq!['s', 'v', 'd'] || s == seq!['S', 'V', 'D'] || s == seq!['x', 'm', 'l'] || s == seq!['X', 'M', 'L']
}

/// The text `s` is one of the names that mean YAML.
pub open spec fn names_yaml(s: Seq<char>) -> bool {
    s == seq!['y', 'm', 'l'] || s == seq!['y', 'a', 'm', 'l'] || s == seq!['Y', 'A', 'M', 'L']
}

/// The text `s` is one of the names that mean JSON.
pub open spec fn names_json(s: Seq<char>) -> bool {
    s == seq!['j', 's', 'o', 'n'] || s == seq!['J', 'S', 'O', 'N']
}

/// The input format that the name `s` means.
pub open spec fn input_named(s: Seq<char>) -> Result<InputFormat, FormatError> {
    if names_xml(s) {
        Ok(InputFormat::Xml)
    } else if names_yaml(s) {
        Ok(InputFormat::Yaml)
    } else if names_json(s) {
        Ok(InputFormat::Json)
    } else {
        Err(FormatError::UnknownInput)
    }
}

/// The output format that the name `s` means.
pub open spec fn output_named(s: Seq<char>) -> Result<OutputFormat, FormatError> {
    if names_xml(s) {
        Ok(OutputFormat::Xml)
    } else if names_yaml(s) {
        Ok(OutputFormat::Yaml)
    } else if names_json(s) {
        Ok(OutputFormat::Json)
    } else {
        Err(FormatError::UnknownOutput)
    }
}

/// The settings format that the name `s` means.
pub open spec fn config_named(s: Seq<char>) -> Result<ConfigFormat, FormatError> {
    if names_yaml(s) {
        Ok(ConfigFormat::Yaml)
    } else if names_json(s) {
        Ok(ConfigFormat::Json)
    } else {
        Err(FormatError::UnknownConfig)
    }
}

fn is_xml(s: &str) -> (r: bool)
    ensures
        r == names_xml(s@),
{
    proof {
        reveal_strlit("svd");
        assert("svd"@ =~= seq!['s', 'v', 'd']);
        reveal_strlit("SVD");
        assert("SVD"@ =~= seq!['S', 'V', 'D']);
        reveal_strlit("xml");
        assert("xml"@ =~= seq!['x', 'm', 'l']);
        reveal_strlit("XML");
        assert("XML"@ =~= seq!['X', 'M', 'L']);
    }
    str_eq(s, "svd") || str_eq(s, "SVD") || str_eq(s, "xml") || str_eq(s, "XML")
}

fn is_yaml(s: &str) -> (r: bool)
    ensures
        r == names_yaml(s@),
{
    proof {
        reveal_strlit("yml");
        assert("yml"@ =~= seq!['y', 'm', 'l']);
        reveal_strlit("yaml");
        assert("yaml"@ =~= seq!['y', 'a', 'm', 'l']);
        reveal_strlit("YAML");
        assert("YAML"@ =~= seq!['Y', 'A', 'M', 'L']);
    }
    str_eq(s, "yml") || str_eq(s, "yaml") || str_eq(s, "YAML")
}

fn is_json(s: &str) -> (r: bool)
    ensures
        r == names_json(s@),
{
    proof {
        reveal_strlit("json");
        assert("json"@ =~= seq!['j', 's', 'o', 'n']);
        reveal_strlit("JSON");
        assert("JSON"@ =~= seq!['J', 'S', 'O', 'N']);
    }
    str_eq(s, "json") || str_eq(s, "JSON")
}

impl InputFormat {
    /// The input format that the name `s` means (`svd`, `xml`, `yml`,
    /// `yaml`, `json` and their upper-case forms).
    pub fn from_name(s: &str) -> (r: Result<InputFormat, FormatError>)
        ensures
            r == input_named(s@),
    {
        if is_xml(s) {
            Ok(InputFormat::Xml)
        } else if is_yaml(s) {
            Ok(InputFormat::Yaml)
        } else if is_json(s) {
            Ok(InputFormat::Json)
        } else {
            Err(FormatError::UnknownInput)
        }
    }

    /// The format to read a file in: the one given, or else the one that the
    /// file's extension names.
    pub fn pick(given: Option<InputFormat>, extension: Option<&str>) -> (r: Result<InputFormat, FormatError>)
        ensures
            r == match given {
                Some(f) => Ok(f),
                None => match extension {
                    Some(e) => input_named(e@),
                    None => Err(FormatError::UnknownInput),
                },
            },
    {
        match given {
            Some(f) => Ok(f),
            None => match extension {
                Some(e) => InputFormat::from_name(e),
                None => Err(FormatError::UnknownInput),
            },
        }
    }
}

impl OutputFormat {
    /// The output format that the name `s` means (`svd`, `xml`, `yml`,
    /// `yaml`, `json` and their upper-case forms).
    pub fn from_name(s: &str) -> (r: Result<OutputFormat, FormatError>)
        ensures
            r == output_named(s@),
    {
        if is_xml(s) {
            Ok(OutputFormat::Xml)
        } else if is_yaml(s) {
            Ok(OutputFormat::Yaml)
        } else if is_json(s) {
            Ok(OutputFormat::Json)
        } else {
            Err(FormatError::UnknownOutput)
        }
    }

    /// The format to write a file in: the one given, or else the one that
    /// the file's extension names.
    pub fn pick(given: Option<OutputFormat>, extension: Option<&str>) -> (r: Result<OutputFormat, FormatError>)
        ensures
            r == match given {
                Some(f) => Ok(f),
                None => match extension {
                    Some(e) => output_named(e@),
                    None => Err(FormatError::UnknownOutput),
                },
            },
    {
        match given {
            Some(f) => Ok(f),
            None => match extension {
                Some(e) => OutputFormat::from_name(e),
                None => Err(FormatError::UnknownOutput),
            },
        }
    }
}

impl ConfigFormat {
    /// The settings format that the name `s` means (`yml`, `yaml`, `YAML`,
    /// `json`, `JSON`).
    pub fn from_name(s: &str) -> (r: Result<ConfigFormat, FormatError>)
        ensures
            r == config_named(s@),
    {
        if is_yaml(s) {
            Ok(ConfigFormat::Yaml)
        } else if is_json(s) {
            Ok(ConfigFormat::Json)
        } else {
            Err(FormatError::UnknownConfig)
        }
    }
}

} // verus!
