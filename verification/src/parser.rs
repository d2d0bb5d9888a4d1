//! The line parser: one function for each field of the grammar, and
//! [`parse_cf_app_log`] for a whole line.
//!
//! Each function takes the text at hand and gives back the value of the field
//! together with the text that follows it, or [`NoMatch`] where the text does
//! not begin with that field. Each is proved to compute the function of
//! [`crate::grammar`] that is named after it.

use crate::entry::{
    CfAppLogEntry, Channel, ChannelValid, Component, ComponentInfo, ComponentInfoValid, NoMatch,
};
use crate::grammar::{
    all_digits, decimal_value, is_digit, lemma_decimal_value_of_prefix,
    lemma_entries_are_well_formed, spec_parse_channel, spec_parse_component,
    spec_parse_cf_app_log, spec_parse_component_info, spec_parse_component_name, spec_parse_date,
    spec_parse_fields, spec_parse_index, spec_parse_message, spec_parse_trailer,
    spec_skip_segment,
};
use crate::search::lemma_first_index_of;
use crate::text::{
    char_count_bound, find_char, skip_spaces, split_at_char, split_once, strip_char,
    strip_prefix,
};
use crate::timestamp::{parse_timestamp, Timestamp};
use vstd::prelude::*;
use vstd::string::*;

verus! {

/// The timestamp field: the text up to the first space, read as a timestamp.
/// The text that is handed back begins with that space.
pub fn parse_date<'a>(input: &'a str) -> (parsed: Result<(&'a str, Timestamp), NoMatch>)
    ensures
        match parsed {
            Ok((rest, timestamp)) => spec_parse_date(input@) == Some((timestamp, rest@)),
            Err(_) => spec_parse_date(input@) is None,
        },
{
    proof {
        lemma_first_index_of(input@, ' ');
    }
    match find_char(input, ' ') {
        Some(end) => {
            let (field, rest) = split_at_char(input, end);
            match parse_timestamp(field) {
                Some(timestamp) => Ok((rest, timestamp)),
                None => Err(NoMatch),
            }
        },
        None => Err(NoMatch),
    }
}

/// The subsystem whose abbreviation `input` begins with.
pub fn parse_component_name<'a>(input: &'a str) -> (parsed: Result<(&'a str, Component), NoMatch>)
    ensures
        match parsed {
            Ok((rest, name)) => spec_parse_component_name(input@) == Some((name, rest@)),
            Err(_) => spec_parse_component_name(input@) is None,
        },
{
    proof {
        reveal_strlit("APP");
        reveal_strlit("API");
        reveal_strlit("STG");
        reveal_strlit("RTR");
        reveal_strlit("LGR");
        reveal_strlit("SSH");
        reveal_strlit("CELL");
    }
    if let Some(rest) = strip_prefix(input, "APP") {
        Ok((rest, Component::APPLICATION))
    } else if let Some(rest) = strip_prefix(input, "API") {
        Ok((rest, Component::API))
    } else if let Some(rest) = strip_prefix(input, "STG") {
        Ok((rest, Component::STAGING))
    } else if let Some(rest) = strip_prefix(input, "RTR") {
        Ok((rest, Component::ROUTER))
    } else if let Some(rest) = strip_prefix(input, "LGR") {
        Ok((rest, Component::LOGGREGATOR))
    } else if let Some(rest) = strip_prefix(input, "SSH") {
        Ok((rest, Component::SSH))
    } else if let Some(rest) = strip_prefix(input, "CELL") {
        Ok((rest, Component::CELL))
    } else {
        Err(NoMatch)
    }
}

/// An instance index: one or more decimal digits, and nothing else, whose
/// value fits in 32 bits.
pub fn parse_index(text: &str) -> (index: Option<u32>)
    ensures
        index == spec_parse_index(text@),
{
    let bound = char_count_bound(text);
    let mut seen: usize = 0;
    let mut value: u64 = 0;
    assert(text@.take(0) == Seq::<char>::empty());
    for c in it: text.chars()
        invariant
            seen == it.index(),
            it.seq() == text@,
            text@.len() <= bound,
            all_digits(text@.take(seen as int)),
            value == decimal_value(text@.take(seen as int)),
            value <= u32::MAX,
    {
        if c < '0' || c > '9' {
            assert(!is_digit(text@[seen as int]));
            return None;
        }
        let digit: u64 = (c as u32 - '0' as u32) as u64;
        proof {
            let longer = text@.take(seen as int + 1);
            assert(longer.drop_last() == text@.take(seen as int));
            assert(longer.last() == c);
        }
        let next: u64 = value * 10 + digit;
        if next > u32::MAX as u64 {
            proof {
                lemma_decimal_value_of_prefix(text@, seen as int + 1);
            }
            return None;
        }
        value = next;
        seen = seen + 1;
    }
    assert(text@.take(seen as int) == text@);
    if seen == 0 {
        None
    } else {
        Some(value as u32)
    }
}

/// `text` without its first segment: what follows the first `/`, or all of
/// `text` where it holds no `/`.
pub fn skip_segment<'a>(text: &'a str) -> (rest: &'a str)
    ensures
        rest@ == spec_skip_segment(text@),
{
    match split_once(text, '/') {
        Some((_, rest)) => rest,
        None => text,
    }
}

/// The recognized form of what stands between the brackets.
pub fn parse_component_info(interior: &str) -> (info: Option<ComponentInfo>)
    ensures
        info == spec_parse_component_info(interior@),
{
    match parse_component_name(interior) {
        Ok((rest, name)) => match strip_char(rest, '/') {
            Some(tail) => match parse_index(skip_segment(skip_segment(tail))) {
                Some(index) => Some(ComponentInfo { name, index }),
                None => None,
            },
            None => None,
        },
        Err(_) => None,
    }
}

/// The component field: `[`, everything up to the next `]`, and that `]`.
/// What stands between the brackets is recognized, or kept as text.
pub fn parse_component<'a>(input: &'a str) -> (parsed: Result<
    (&'a str, ComponentInfoValid),
    NoMatch,
>)
    ensures
        match parsed {
            Ok((rest, component)) => spec_parse_component(input@) == Some((component@, rest@)),
            Err(_) => spec_parse_component(input@) is None,
        },
{
    match strip_char(input, '[') {
        Some(inner) => match split_once(inner, ']') {
            Some((interior, rest)) => {
                let component = match parse_component_info(interior) {
                    Some(info) => ComponentInfoValid::Valid(info),
                    None => ComponentInfoValid::Invalid(interior.to_owned()),
                };
                Ok((rest, component))
            },
            None => Err(NoMatch),
        },
        None => Err(NoMatch),
    }
}

/// The channel field: `OUT` or `ERR`.
pub fn parse_channel<'a>(input: &'a str) -> (parsed: Result<(&'a str, ChannelValid), NoMatch>)
    ensures
        match parsed {
            Ok((rest, channel)) => spec_parse_channel(input@) == Some((channel@, rest@)),
            Err(_) => spec_parse_channel(input@) is None,
        },
{
    proof {
        reveal_strlit("OUT");
        reveal_strlit("ERR");
    }
    if let Some(rest) = strip_prefix(input, "OUT") {
        Ok((rest, ChannelValid::Valid(Channel::STDOUT)))
    } else if let Some(rest) = strip_prefix(input, "ERR") {
        Ok((rest, ChannelValid::Valid(Channel::STDERR)))
    } else {
        Err(NoMatch)
    }
}

/// The message field: all of `input`, or no message where `input` is empty.
/// It never fails, and leaves nothing of `input`.
pub fn parse_message<'a>(input: &'a str) -> (parsed: Result<(&'a str, Option<&'a str>), NoMatch>)
    ensures
        match parsed {
            Ok((rest, message)) => {
                &&& rest@.len() == 0
                &&& match message {
                    Some(text) => spec_parse_message(input@) == Some(text@),
                    None => spec_parse_message(input@) is None,
                }
            },
            Err(_) => false,
        },
{
    let count = input.unicode_len();
    let rest = input.substring_char(count, count);
    if count > 0 {
        Ok((rest, Some(input)))
    } else {
        Ok((rest, None))
    }
}

/// What may follow the channel field: nothing, or a space and the message.
pub fn parse_trailer<'a>(input: &'a str) -> (parsed: Result<(&'a str, Option<&'a str>), NoMatch>)
    ensures
        match parsed {
            Ok((rest, message)) => {
                &&& rest@.len() == 0
                &&& spec_parse_trailer(input@) matches Some(expected)
                &&& match message {
                    Some(text) => expected == Some(text@),
                    None => expected is None,
                }
            },
            Err(_) => spec_parse_trailer(input@) is None,
        },
{
    if input.is_empty() {
        Ok((input, None))
    } else {
        match strip_char(input, ' ') {
            Some(text) => parse_message(text),
            None => Err(NoMatch),
        }
    }
}

/// The fields that follow the timestamp field of a line, given the timestamp
/// that was read from it: a space, the component field, a space, the channel
/// field and the message. A line that parses is used up: the text that is
/// handed back is empty.
pub fn parse_fields<'a>(input: &'a str, timestamp: Timestamp) -> (parsed: Result<
    (&'a str, CfAppLogEntry<'a>),
    NoMatch,
>)
    ensures
        match parsed {
            Ok((rest, entry)) => {
                &&& rest@.len() == 0
                &&& spec_parse_fields(input@, timestamp) == Some(entry@)
                &&& entry@.well_formed()
            },
            Err(_) => spec_parse_fields(input@, timestamp) is None,
        },
{
    let after_space = match strip_char(input, ' ') {
        Some(text) => text,
        None => {
            return Err(NoMatch);
        },
    };
    let (after_component, component) = match parse_component(after_space) {
        Ok(found) => found,
        Err(no_match) => {
            return Err(no_match);
        },
    };
    let at_channel = match strip_char(after_component, ' ') {
        Some(text) => text,
        None => {
            return Err(NoMatch);
        },
    };
    let (after_channel, channel) = match parse_channel(at_channel) {
        Ok(found) => found,
        Err(no_match) => {
            return Err(no_match);
        },
    };
    let (rest, message) = match parse_trailer(after_channel) {
        Ok(found) => found,
        Err(no_match) => {
            return Err(no_match);
        },
    };
    proof {
        lemma_entries_are_well_formed(input@, timestamp);
    }
    Ok((rest, CfAppLogEntry { timestamp, component, channel, message }))
}

/// Parses one line of text as a log line.
///
/// Spaces at the start are passed over. Then come the timestamp, the
/// component in brackets, the channel and the message, each parted from the
/// next by one space. The line parses if and only if the grammar gives it an
/// entry, and the entry is that one. A line that parses is used up: the text
/// that is handed back is empty.
pub fn parse_cf_app_log<'a>(input: &'a str) -> (parsed: Result<
    (&'a str, CfAppLogEntry<'a>),
    NoMatch,
>)
    ensures
        match parsed {
            Ok((rest, entry)) => {
                &&& rest@.len() == 0
                &&& spec_parse_cf_app_log(input@) == Some(entry@)
                &&& entry@.well_formed()
            },
            Err(_) => spec_parse_cf_app_log(input@) is None,
        },
{
    match parse_date(skip_spaces(input)) {
        Ok((rest, timestamp)) => parse_fields(rest, timestamp),
        Err(no_match) => Err(no_match),
    }
}

} // verus!
