//! The extraction mode: exactly one of fields, bytes or characters, each
//! with its list of positions, and the rules by which it is chosen.

use crate::extract::{extract_bytes, extract_chars, extract_fields, record_fields, texts};
use crate::lossy::lossy_text;
use crate::select::tiles;
use vstd::utf8::{decode_utf8, valid_utf8};
use crate::positions::{outcome, parse_pos, parsed, ParseError, ParseErrorView};
use crate::select::{select, PositionList};
use std::ops::Range;
use vstd::prelude::*;
use vstd::string::{StringExecFns, StringSliceAdditionalSpecFns};

verus! {

/// The unit of extraction together with the positions to extract. Two modes
/// at once cannot be expressed.
#[derive(Debug)]
pub enum Extract {
    Fields(PositionList),
    Bytes(PositionList),
    Chars(PositionList),
}

impl Extract {
    /// The positions of the mode, whichever it is.
    pub open spec fn ranges(&self) -> Seq<Range<usize>> {
        match self {
            Extract::Fields(list) => list@,
            Extract::Bytes(list) => list@,
            Extract::Chars(list) => list@,
        }
    }

    /// The positions of the mode, whichever it is.
    pub fn positions(&self) -> (list: &PositionList)
        ensures
            list@ == self.ranges(),
    {
        match self {
            Extract::Fields(list) => list,
            Extract::Bytes(list) => list,
            Extract::Chars(list) => list,
        }
    }

    /// Routes a line to the extractor of the mode. Field mode works on
    /// tokenized records, not lines, and gives `None`. In the two line
    /// modes, positions that cover the whole line in order give the line
    /// back.
    pub fn project_line(&self, line: &str) -> (out: Option<String>)
        ensures
            match self {
                Extract::Fields(_) => out is None,
                Extract::Bytes(list) => {
                    &&& out is Some
                    &&& out.unwrap()@ == lossy_text(select(line.spec_bytes(), list@))
                    &&& valid_utf8(select(line.spec_bytes(), list@)) ==> out.unwrap()@
                        == decode_utf8(select(line.spec_bytes(), list@))
                    &&& tiles(list@, line.spec_bytes().len() as int) ==> out.unwrap()@ == line@
                },
                Extract::Chars(list) => {
                    &&& out is Some
                    &&& out.unwrap()@ == select(line@, list@)
                    &&& tiles(list@, line@.len() as int) ==> out.unwrap()@ == line@
                },
            },
    {
        match self {
            Extract::Fields(_) => None,
            Extract::Bytes(list) => Some(extract_bytes(line, list.as_slice())),
            Extract::Chars(list) => Some(extract_chars(line, list.as_slice())),
        }
    }

    /// Routes a tokenized record to the field extractor. The line modes give
    /// `None`. Positions that cover the whole record in order give its
    /// fields back.
    pub fn project_record<'a>(&self, record: &'a csv::StringRecord) -> (out: Option<Vec<&'a str>>)
        ensures
            match self {
                Extract::Fields(list) => {
                    &&& out is Some
                    &&& texts(out.unwrap()@) == select(record_fields(*record), list@)
                    &&& tiles(list@, record_fields(*record).len() as int) ==> texts(out.unwrap()@)
                        == record_fields(*record)
                },
                _ => out is None,
            },
    {
        match self {
            Extract::Fields(list) => Some(extract_fields(record, list.as_slice())),
            _ => None,
        }
    }
}

/// Why no configuration could be made of the user's choices.
#[derive(Debug)]
pub enum ConfigError {
    /// The delimiter, quoted, is not exactly one byte long.
    Delimiter(String),
    /// A selector was rejected.
    Selector(ParseError),
    /// None of the three modes was chosen.
    NoMode,
}

/// The mathematical content of a `ConfigError`.
pub enum ConfigErrorView {
    Delimiter(Seq<char>),
    Selector(ParseErrorView),
    NoMode,
}

impl View for ConfigError {
    type V = ConfigErrorView;

    open spec fn view(&self) -> ConfigErrorView {
        match self {
            ConfigError::Delimiter(text) => ConfigErrorView::Delimiter(text@),
            ConfigError::Selector(e) => ConfigErrorView::Selector(e@),
            ConfigError::NoMode => ConfigErrorView::NoMode,
        }
    }
}

impl ConfigErrorView {
    /// The message that reports this error.
    pub open spec fn message(self) -> Seq<char> {
        match self {
            ConfigErrorView::Delimiter(text) => "--delim \""@ + text + "\" must be a single byte"@,
            ConfigErrorView::Selector(e) => e.message(),
            ConfigErrorView::NoMode => "Must have --fields, --bytes, or --chars"@,
        }
    }
}

impl ConfigError {
    /// The message that reports this error.
    pub fn to_string(&self) -> (s: String)
        ensures
            s@ == self@.message(),
    {
        match self {
            ConfigError::Delimiter(text) => {
                let mut s = String::from_str("--delim \"");
                s.append(text.as_str());
                s.append("\" must be a single byte");
                s
            },
            ConfigError::Selector(e) => e.to_string(),
            ConfigError::NoMode => String::from_str("Must have --fields, --bytes, or --chars"),
        }
    }
}

/// The delimiter byte that a delimiter text denotes: the text must be
/// exactly one byte long.
pub fn parse_delimiter(delimiter: &str) -> (r: Result<u8, ConfigError>)
    ensures
        match r {
            Ok(byte) => delimiter.spec_bytes() == seq![byte],
            Err(e) => delimiter.spec_bytes().len() != 1 && e@ == ConfigErrorView::Delimiter(
                delimiter@,
            ),
        },
{
    let bytes = delimiter.as_bytes();
    if bytes.len() != 1 {
        return Err(ConfigError::Delimiter(String::from_str(delimiter)));
    }
    let byte = bytes[0];
    assert(delimiter.spec_bytes() == seq![byte]);
    Ok(byte)
}

/// Compiles a selector where one was given.
pub fn parse_selector(selector: Option<&str>) -> (r: Result<Option<PositionList>, ParseError>)
    ensures
        match selector {
            None => r == Ok::<Option<PositionList>, ParseError>(None),
            Some(text) => match r {
                Ok(list) => list is Some && parsed(text@) == Ok::<
                    Seq<Range<usize>>,
                    ParseErrorView,
                >(list.unwrap()@),
                Err(e) => parsed(text@) == Err::<Seq<Range<usize>>, ParseErrorView>(e@),
            },
        },
{
    match selector {
        None => Ok(None),
        Some(text) => match parse_pos(text) {
            Ok(list) => Ok(Some(list)),
            Err(e) => Err(e),
        },
    }
}

/// Makes the mode of the selectors that were compiled: fields before bytes
/// before characters. With none of the three there is no mode.
pub fn choose_mode(
    fields: Option<PositionList>,
    bytes: Option<PositionList>,
    chars: Option<PositionList>,
) -> (r: Result<Extract, ConfigError>)
    ensures
        match r {
            Ok(mode) => if fields is Some {
                mode == Extract::Fields(fields.unwrap())
            } else if bytes is Some {
                mode == Extract::Bytes(bytes.unwrap())
            } else {
                chars is Some && mode == Extract::Chars(chars.unwrap())
            },
            Err(e) => fields is None && bytes is None && chars is None && e@
                == ConfigErrorView::NoMode,
        },
{
    if let Some(list) = fields {
        Ok(Extract::Fields(list))
    } else if let Some(list) = bytes {
        Ok(Extract::Bytes(list))
    } else if let Some(list) = chars {
        Ok(Extract::Chars(list))
    } else {
        Err(ConfigError::NoMode)
    }
}

/// What a run needs to know: the inputs, the field delimiter and the mode.
#[derive(Debug)]
pub struct Config {
    pub files: Vec<String>,
    pub delimiter: u8,
    pub extract: Extract,
}

/// The error of a selector, where one was given and it does not compile.
pub open spec fn selector_error(selector: Option<&str>) -> Option<ParseErrorView> {
    match selector {
        None => None,
        Some(text) => match parsed(text@) {
            Ok(_) => None,
            Err(e) => Some(e),
        },
    }
}

/// The positions of a selector that was given and compiles.
pub open spec fn selector_ranges(selector: Option<&str>) -> Seq<Range<usize>> {
    match selector {
        None => Seq::empty(),
        Some(text) => match parsed(text@) {
            Ok(ranges) => ranges,
            Err(_) => Seq::empty(),
        },
    }
}

/// The error, if any, that the user's choices lead to. The delimiter is
/// examined first, then the selectors for fields, bytes and characters in
/// that order, and last whether any mode was chosen at all.
pub open spec fn config_error(
    delimiter: &str,
    fields: Option<&str>,
    bytes: Option<&str>,
    chars: Option<&str>,
) -> Option<ConfigErrorView> {
    if delimiter.spec_bytes().len() != 1 {
        Some(ConfigErrorView::Delimiter(delimiter@))
    } else if selector_error(fields) is Some {
        Some(ConfigErrorView::Selector(selector_error(fields).unwrap()))
    } else if selector_error(bytes) is Some {
        Some(ConfigErrorView::Selector(selector_error(bytes).unwrap()))
    } else if selector_error(chars) is Some {
        Some(ConfigErrorView::Selector(selector_error(chars).unwrap()))
    } else if fields is None && bytes is None && chars is None {
        Some(ConfigErrorView::NoMode)
    } else {
        None
    }
}

/// Makes the configuration of a run from the user's choices as plain
/// values. Fields take precedence over bytes, and bytes over characters.
pub fn configure(
    files: Vec<String>,
    delimiter: &str,
    fields: Option<&str>,
    bytes: Option<&str>,
    chars: Option<&str>,
) -> (r: Result<Config, ConfigError>)
    ensures
        match r {
            Err(e) => config_error(delimiter, fields, bytes, chars) == Some(e@),
            Ok(config) => {
                &&& config_error(delimiter, fields, bytes, chars) is None
                &&& config.files == files
                &&& delimiter.spec_bytes() == seq![config.delimiter]
                &&& match config.extract {
                    Extract::Fields(list) => fields is Some && list@ == selector_ranges(fields),
                    Extract::Bytes(list) => fields is None && bytes is Some && list@
                        == selector_ranges(bytes),
                    Extract::Chars(list) => fields is None && bytes is None && chars is Some
                        && list@ == selector_ranges(chars),
                }
            },
        },
{
    let byte = match parse_delimiter(delimiter) {
        Ok(byte) => byte,
        Err(e) => {
            return Err(e);
        },
    };
    let field_pos = match parse_selector(fields) {
        Ok(list) => list,
        Err(e) => {
            return Err(ConfigError::Selector(e));
        },
    };
    let byte_pos = match parse_selector(bytes) {
        Ok(list) => list,
        Err(e) => {
            return Err(ConfigError::Selector(e));
        },
    };
    let char_pos = match parse_selector(chars) {
        Ok(list) => list,
        Err(e) => {
            return Err(ConfigError::Selector(e));
        },
    };
    match choose_mode(field_pos, byte_pos, char_pos) {
        Ok(extract) => Ok(Config { files, delimiter: byte, extract }),
        Err(e) => Err(e),
    }
}

} // verus!
