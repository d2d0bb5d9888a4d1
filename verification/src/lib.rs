//! Recognition of Cloud Foundry application log output.
//!
//! A log line has the shape `TIMESTAMP [COMPONENT] CHANNEL MESSAGE`.
//!
//! - [`grammar`] states the grammar of one line over sequences of
//!   characters, and what follows from it.
//! - [`parser`] holds the executable line parser. It is proved to compute
//!   exactly that grammar.
//! - [`timestamp`] reads the timestamp of a line, with `chrono`.
//! - [`line`] takes the ANSI escape sequences out of a line, with
//!   `strip_ansi_escapes`, before the grammar is tried on it.
//! - [`detector`] counts the lines of a text and the log lines among them,
//!   and decides whether the text as a whole is such a log.
//! - [`entry`] holds the parts of a parsed line, [`text`] the cutting of
//!   `&str` by characters, and [`search`] the first occurrence of a value in
//!   a sequence.

pub mod detector;
pub mod entry;
pub mod grammar;
pub mod line;
pub mod parser;
pub mod search;
pub mod text;
pub mod timestamp;

pub use detector::{CfAppLogDetector, ClassificationTally, DetectorView};
pub use entry::{
    CfAppLogEntry, CfAppLogEntryView, Channel, ChannelValid, ChannelValidView, Component,
    ComponentInfo, ComponentInfoValid, ComponentInfoValidView, NoMatch,
};
pub use line::{decode_line, parse_line, parse_stripped, LineError};
pub use parser::{
    parse_cf_app_log, parse_channel, parse_component, parse_component_info,
    parse_component_name, parse_date, parse_fields, parse_index, parse_message, parse_trailer,
    skip_segment,
};
pub use timestamp::{parse_timestamp, Timestamp, TIMESTAMP_LAYOUT};
