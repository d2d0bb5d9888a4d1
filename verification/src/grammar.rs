//! The grammar of a log line, stated over sequences of characters.
//!
//! A line is read from left to right, field by field:
//!
//! ```text
//! line      = { " " } timestamp " " component " " channel [ " " message ]
//! timestamp = every character up to the next " "
//! component = "[" interior "]"        interior: up to the next "]"
//! channel   = "OUT" | "ERR"
//! message   = the rest of the line, if any
//! ```
//!
//! The interior of a component names a subsystem and an instance,
//! `NAME "/" [ segment "/" [ segment "/" ] ] digits`, or is kept as plain
//! text. Each function below gives, for the text at hand, the value of a field
//! and the text that follows it, or `None` where the text does not begin with
//! that field.

use crate::entry::{
    CfAppLogEntryView, Channel, ChannelValidView, Component, ComponentInfo,
    ComponentInfoValidView,
};
use crate::search::{first_index_of, lemma_first_index_of, lemma_first_occurrence};
use crate::timestamp::{chrono_timestamp, timestamp_layout, Timestamp};
use vstd::prelude::*;

verus! {

/// `text` without the spaces that it begins with.
pub open spec fn spec_skip_spaces(text: Seq<char>) -> Seq<char>
    decreases text.len(),
{
    if text.len() > 0 && text[0] == ' ' {
        spec_skip_spaces(text.drop_first())
    } else {
        text
    }
}

/// What follows `first` in `text`, where `text` begins with it.
pub open spec fn spec_strip_char(text: Seq<char>, first: char) -> Option<Seq<char>> {
    if text.len() > 0 && text[0] == first {
        Some(text.drop_first())
    } else {
        None
    }
}

/// Whether `text` begins with `tag`.
pub open spec fn starts_with(text: Seq<char>, tag: Seq<char>) -> bool {
    tag.len() <= text.len() && forall|i: int| 0 <= i < tag.len() ==> text[i] == tag[i]
}

/// What follows `tag` in `text`, where `text` begins with it.
pub open spec fn spec_strip_prefix(text: Seq<char>, tag: Seq<char>) -> Option<Seq<char>> {
    if starts_with(text, tag) {
        Some(text.skip(tag.len() as int))
    } else {
        None
    }
}

/// The timestamp field: the text up to the first space, read as a timestamp.
/// What remains begins with that space.
pub open spec fn spec_parse_date(text: Seq<char>) -> Option<(Timestamp, Seq<char>)> {
    match first_index_of(text, ' ') {
        Some(end) => match chrono_timestamp(text.take(end), timestamp_layout()) {
            Some(timestamp) => Some((timestamp, text.skip(end))),
            None => None,
        },
        None => None,
    }
}

/// Whether `text` begins with the three characters `a`, `b` and `c`.
pub open spec fn begins_with(text: Seq<char>, a: char, b: char, c: char) -> bool {
    text.len() >= 3 && text[0] == a && text[1] == b && text[2] == c
}

/// The subsystem whose abbreviation `text` begins with, and what follows the
/// abbreviation. The abbreviations are `APP`, `API`, `STG`, `RTR`, `LGR`,
/// `SSH` and `CELL`.
pub open spec fn spec_parse_component_name(text: Seq<char>) -> Option<(Component, Seq<char>)> {
    if begins_with(text, 'A', 'P', 'P') {
        Some((Component::APPLICATION, text.skip(3)))
    } else if begins_with(text, 'A', 'P', 'I') {
        Some((Component::API, text.skip(3)))
    } else if begins_with(text, 'S', 'T', 'G') {
        Some((Component::STAGING, text.skip(3)))
    } else if begins_with(text, 'R', 'T', 'R') {
        Some((Component::ROUTER, text.skip(3)))
    } else if begins_with(text, 'L', 'G', 'R') {
        Some((Component::LOGGREGATOR, text.skip(3)))
    } else if begins_with(text, 'S', 'S', 'H') {
        Some((Component::SSH, text.skip(3)))
    } else if begins_with(text, 'C', 'E', 'L') && text.len() >= 4 && text[3] == 'L' {
        Some((Component::CELL, text.skip(4)))
    } else {
        None
    }
}

/// Whether `c` is one of the ten decimal digits.
pub open spec fn is_digit(c: char) -> bool {
    '0' <= c <= '9'
}

/// The number that the decimal digit `c` stands for.
pub open spec fn digit_value(c: char) -> nat {
    (c as u32 - '0' as u32) as nat
}

/// Whether `text` consists of decimal digits only.
pub open spec fn all_digits(text: Seq<char>) -> bool {
    forall|i: int| 0 <= i < text.len() ==> is_digit(#[trigger] text[i])
}

/// The number that a run of decimal digits stands for.
pub open spec fn decimal_value(digits: Seq<char>) -> nat
    decreases digits.len(),
{
    if digits.len() == 0 {
        0
    } else {
        decimal_value(digits.drop_last()) * 10 + digit_value(digits.last())
    }
}

/// An instance index: one or more decimal digits, and nothing else, whose
/// value fits in 32 bits.
pub open spec fn spec_parse_index(text: Seq<char>) -> Option<u32> {
    if text.len() > 0 && all_digits(text) && decimal_value(text) <= u32::MAX {
        Some(decimal_value(text) as u32)
    } else {
        None
    }
}

/// `text` without its first segment: what follows the first `/`, or all of
/// `text` where it holds no `/`.
pub open spec fn spec_skip_segment(text: Seq<char>) -> Seq<char> {
    match first_index_of(text, '/') {
        Some(end) => text.skip(end + 1),
        None => text,
    }
}

/// The recognized form of what stands between the brackets: the abbreviation
/// of a subsystem, a `/`, up to two further segments that end in `/`, and an
/// instance index that reaches to the end.
pub open spec fn spec_parse_component_info(interior: Seq<char>) -> Option<ComponentInfo> {
    match spec_parse_component_name(interior) {
        Some((name, rest)) => match spec_strip_char(rest, '/') {
            Some(tail) => match spec_parse_index(spec_skip_segment(spec_skip_segment(tail))) {
                Some(index) => Some(ComponentInfo { name, index }),
                None => None,
            },
            None => None,
        },
        None => None,
    }
}

/// What stands between the brackets, as a component: recognized where it has
/// the recognized form, and kept as text where it has not.
pub open spec fn spec_classify_component(interior: Seq<char>) -> ComponentInfoValidView {
    match spec_parse_component_info(interior) {
        Some(info) => ComponentInfoValidView::Valid(info),
        None => ComponentInfoValidView::Invalid(interior),
    }
}

/// The component field: `[`, everything up to the next `]`, and that `]`.
pub open spec fn spec_parse_component(text: Seq<char>) -> Option<
    (ComponentInfoValidView, Seq<char>),
> {
    match spec_strip_char(text, '[') {
        Some(inner) => match first_index_of(inner, ']') {
            Some(end) => Some((spec_classify_component(inner.take(end)), inner.skip(end + 1))),
            None => None,
        },
        None => None,
    }
}

/// The channel field: `OUT` or `ERR`.
pub open spec fn spec_parse_channel(text: Seq<char>) -> Option<(ChannelValidView, Seq<char>)> {
    if begins_with(text, 'O', 'U', 'T') {
        Some((ChannelValidView::Valid(Channel::STDOUT), text.skip(3)))
    } else if begins_with(text, 'E', 'R', 'R') {
        Some((ChannelValidView::Valid(Channel::STDERR), text.skip(3)))
    } else {
        None
    }
}

/// The message field: all of `text`, or no message where `text` is empty.
pub open spec fn spec_parse_message(text: Seq<char>) -> Option<Seq<char>> {
    if text.len() > 0 {
        Some(text)
    } else {
        None
    }
}

/// The message of a line whose channel field is followed by `text`: none
/// where the line ends there; else a space has to follow, and the message is
/// what comes after it. The outer `None` says that `text` is neither.
pub open spec fn spec_parse_trailer(text: Seq<char>) -> Option<Option<Seq<char>>> {
    if text.len() == 0 {
        Some(None)
    } else {
        match spec_strip_char(text, ' ') {
            Some(message) => Some(spec_parse_message(message)),
            None => None,
        }
    }
}

/// The entry of a line with the given timestamp, where `text` is what follows
/// the timestamp field: a space, the component field, a space, the channel
/// field and the message, up to the end of `text`.
pub open spec fn spec_parse_fields(text: Seq<char>, timestamp: Timestamp) -> Option<
    CfAppLogEntryView,
> {
    match spec_strip_char(text, ' ') {
        Some(after_space) => match spec_parse_component(after_space) {
            Some((component, after_component)) => match spec_strip_char(after_component, ' ') {
                Some(at_channel) => match spec_parse_channel(at_channel) {
                    Some((channel, after_channel)) => match spec_parse_trailer(after_channel) {
                        Some(message) => Some(
                            CfAppLogEntryView { timestamp, component, channel, message },
                        ),
                        None => None,
                    },
                    None => None,
                },
                None => None,
            },
            None => None,
        },
        None => None,
    }
}

/// The entry that a whole line stands for, or `None` where the line is not a
/// log line. A line that parses is used up: nothing of it remains.
pub open spec fn spec_parse_cf_app_log(line: Seq<char>) -> Option<CfAppLogEntryView> {
    match spec_parse_date(spec_skip_spaces(line)) {
        Some((timestamp, rest)) => spec_parse_fields(rest, timestamp),
        None => None,
    }
}

/// Every entry that the grammar gives is well formed.
pub proof fn lemma_entries_are_well_formed(text: Seq<char>, timestamp: Timestamp)
    ensures
        spec_parse_fields(text, timestamp) matches Some(entry) ==> entry.well_formed(),
{
}

/// The value of a run of digits is no less than that of any run that it
/// begins with.
pub proof fn lemma_decimal_value_of_prefix(digits: Seq<char>, len: int)
    requires
        0 <= len <= digits.len(),
    ensures
        decimal_value(digits.take(len)) <= decimal_value(digits),
    decreases digits.len(),
{
    if len == digits.len() {
        assert(digits.take(len) == digits);
    } else {
        assert(digits.drop_last().take(len) == digits.take(len));
        lemma_decimal_value_of_prefix(digits.drop_last(), len);
    }
}

/// Whether every character of `text` is a space.
pub open spec fn all_spaces(text: Seq<char>) -> bool {
    forall|i: int| 0 <= i < text.len() ==> #[trigger] text[i] == ' '
}

/// Spaces before a text are passed over.
pub proof fn lemma_skip_spaces_before(spaces: Seq<char>, text: Seq<char>)
    requires
        all_spaces(spaces),
    ensures
        spec_skip_spaces(spaces + text) == spec_skip_spaces(text),
    decreases spaces.len(),
{
    if spaces.len() == 0 {
        assert(spaces + text == text);
    } else {
        assert((spaces + text)[0] == spaces[0]);
        assert((spaces + text).drop_first() == spaces.drop_first() + text);
        let fewer = spaces.drop_first();
        assert forall|i: int| 0 <= i < fewer.len() implies #[trigger] fewer[i] == ' ' by {
            assert(fewer[i] == spaces[i + 1]);
        }
        lemma_skip_spaces_before(fewer, text);
    }
}

/// Spaces before a line change nothing: with them the line is a log line if
/// and only if it is one without them, and the entry is the same.
pub proof fn lemma_leading_spaces_are_ignored(spaces: Seq<char>, line: Seq<char>)
    requires
        all_spaces(spaces),
    ensures
        spec_parse_cf_app_log(spaces + line) == spec_parse_cf_app_log(line),
{
    lemma_skip_spaces_before(spaces, line);
}

/// The timestamp field of a line that begins with `stamp` and a space, where
/// `stamp` is not empty and holds no space: the field is `stamp`, and the
/// line is a log line only if `stamp` reads as a timestamp.
pub proof fn lemma_timestamp_field(stamp: Seq<char>, rest: Seq<char>)
    requires
        stamp.len() > 0,
        !stamp.contains(' '),
    ensures
        spec_parse_cf_app_log(stamp + seq![' '] + rest) == match chrono_timestamp(
            stamp,
            timestamp_layout(),
        ) {
            Some(timestamp) => spec_parse_fields(seq![' '] + rest, timestamp),
            None => None,
        },
{
    let line = stamp + seq![' '] + rest;
    assert(line[0] == stamp[0]);
    assert(stamp[0] != ' ');
    assert forall|j: int| 0 <= j < stamp.len() implies line[j] != ' ' by {
        assert(line[j] == stamp[j]);
    }
    lemma_first_occurrence(line, ' ', stamp.len() as int);
    assert(line.take(stamp.len() as int) == stamp);
    assert(line.skip(stamp.len() as int) == seq![' '] + rest);
}

/// A line whose timestamp field does not read as a timestamp is no log line,
/// whatever follows the field.
pub proof fn lemma_bad_timestamp_is_no_match(stamp: Seq<char>, rest: Seq<char>)
    requires
        stamp.len() > 0,
        !stamp.contains(' '),
        chrono_timestamp(stamp, timestamp_layout()) is None,
    ensures
        spec_parse_cf_app_log(stamp + seq![' '] + rest) is None,
{
    lemma_timestamp_field(stamp, rest);
}

/// The component field of a text that begins with `[`, `interior` and `]`,
/// where `interior` holds no `]`: what stands between the brackets is
/// `interior`.
pub proof fn lemma_component_field(interior: Seq<char>, rest: Seq<char>)
    requires
        !interior.contains(']'),
    ensures
        spec_parse_component(seq!['['] + interior + seq![']'] + rest) == Some(
            (spec_classify_component(interior), rest),
        ),
{
    let text = seq!['['] + interior + seq![']'] + rest;
    let inner = text.drop_first();
    assert(inner == interior + seq![']'] + rest);
    assert forall|j: int| 0 <= j < interior.len() implies inner[j] != ']' by {
        assert(inner[j] == interior[j]);
    }
    lemma_first_occurrence(inner, ']', interior.len() as int);
    assert(inner.take(interior.len() as int) == interior);
    assert(inner.skip(interior.len() as int + 1) == rest);
}

/// A line with anything but `OUT` or `ERR` in the place of the channel is no
/// log line, whatever its timestamp, its component and what follows.
pub proof fn lemma_other_channel_is_no_match(
    stamp: Seq<char>,
    interior: Seq<char>,
    tail: Seq<char>,
)
    requires
        stamp.len() > 0,
        !stamp.contains(' '),
        !interior.contains(']'),
        !begins_with(tail, 'O', 'U', 'T'),
        !begins_with(tail, 'E', 'R', 'R'),
    ensures
        spec_parse_cf_app_log(
            stamp + seq![' '] + (seq!['['] + interior + seq![']'] + (seq![' '] + tail)),
        ) is None,
{
    let after_component = seq![' '] + tail;
    let at_component = seq!['['] + interior + seq![']'] + after_component;
    lemma_timestamp_field(stamp, at_component);
    lemma_component_field(interior, after_component);
    assert((seq![' '] + at_component).drop_first() == at_component);
    assert(after_component.drop_first() == tail);
}

/// Whether `token` is the marker that stands for the stream `channel`.
pub open spec fn is_channel_token(token: Seq<char>, channel: Channel) -> bool {
    ||| token =~= seq!['O', 'U', 'T'] && channel == Channel::STDOUT
    ||| token =~= seq!['E', 'R', 'R'] && channel == Channel::STDERR
}

/// A whole line, put together from its parts: a timestamp field that is not
/// empty and holds no space, a space, a component whose interior holds no
/// `]`, a space, the marker of a channel, and a trailer. It is a log line if
/// and only if the timestamp field reads as a timestamp and the trailer is
/// empty or begins with a space; its entry then holds that timestamp, the
/// component that the interior stands for, the channel of the marker, and
/// the message of the trailer.
pub proof fn lemma_line_of_parts(
    stamp: Seq<char>,
    interior: Seq<char>,
    token: Seq<char>,
    channel: Channel,
    trailer: Seq<char>,
)
    requires
        stamp.len() > 0,
        !stamp.contains(' '),
        !interior.contains(']'),
        is_channel_token(token, channel),
    ensures
        spec_parse_cf_app_log(
            stamp + seq![' '] + (seq!['['] + interior + seq![']'] + (seq![' '] + (token + trailer))),
        ) == match (chrono_timestamp(stamp, timestamp_layout()), spec_parse_trailer(trailer)) {
            (Some(timestamp), Some(message)) => Some(
                CfAppLogEntryView {
                    timestamp,
                    component: spec_classify_component(interior),
                    channel: ChannelValidView::Valid(channel),
                    message,
                },
            ),
            _ => None,
        },
{
    let at_channel = token + trailer;
    let after_component = seq![' '] + at_channel;
    let at_component = seq!['['] + interior + seq![']'] + after_component;
    lemma_timestamp_field(stamp, at_component);
    lemma_component_field(interior, after_component);
    assert((seq![' '] + at_component).drop_first() == at_component);
    assert(after_component.drop_first() == at_channel);
    assert(at_channel[0] == token[0] && at_channel[1] == token[1] && at_channel[2] == token[2]);
    assert(at_channel.skip(3) == trailer);
}

/// Whether `token` is the abbreviation that stands for the subsystem `name`.
pub open spec fn is_component_token(token: Seq<char>, name: Component) -> bool {
    ||| token =~= seq!['A', 'P', 'P'] && name == Component::APPLICATION
    ||| token =~= seq!['A', 'P', 'I'] && name == Component::API
    ||| token =~= seq!['S', 'T', 'G'] && name == Component::STAGING
    ||| token =~= seq!['R', 'T', 'R'] && name == Component::ROUTER
    ||| token =~= seq!['L', 'G', 'R'] && name == Component::LOGGREGATOR
    ||| token =~= seq!['S', 'S', 'H'] && name == Component::SSH
    ||| token =~= seq!['C', 'E', 'L', 'L'] && name == Component::CELL
}

/// A text that begins with the abbreviation of a subsystem names that
/// subsystem, and no other.
pub proof fn lemma_component_name_of_token(token: Seq<char>, name: Component, rest: Seq<char>)
    requires
        is_component_token(token, name),
    ensures
        spec_parse_component_name(token + rest) == Some((name, rest)),
{
    let text = token + rest;
    assert(text[0] == token[0] && text[1] == token[1] && text[2] == token[2]);
    if token.len() == 4 {
        assert(text[3] == token[3]);
    }
    assert(text.skip(token.len() as int) == rest);
}

/// A segment that holds no `/` and is followed by one is passed over whole.
pub proof fn lemma_skip_one_segment(segment: Seq<char>, rest: Seq<char>)
    requires
        !segment.contains('/'),
    ensures
        spec_skip_segment(segment + seq!['/'] + rest) == rest,
{
    let text = segment + seq!['/'] + rest;
    assert forall|j: int| 0 <= j < segment.len() implies text[j] != '/' by {
        assert(text[j] == segment[j]);
    }
    lemma_first_occurrence(text, '/', segment.len() as int);
    assert(text.skip(segment.len() as int + 1) == rest);
}

/// A run of digits holds no segment to pass over.
pub proof fn lemma_digits_hold_no_segment(digits: Seq<char>)
    requires
        all_digits(digits),
    ensures
        spec_skip_segment(digits) == digits,
{
    lemma_first_index_of(digits, '/');
    if digits.contains('/') {
        let at = first_index_of(digits, '/')->0;
        assert(is_digit(digits[at]));
    }
}

/// The short form of a component: the abbreviation of a subsystem, a `/` and
/// an instance index. It is recognized, with the subsystem that the
/// abbreviation stands for and the value of the digits.
pub proof fn lemma_component_with_index(token: Seq<char>, name: Component, digits: Seq<char>)
    requires
        is_component_token(token, name),
        digits.len() > 0,
        all_digits(digits),
        decimal_value(digits) <= u32::MAX,
    ensures
        spec_classify_component(token + (seq!['/'] + digits)) == ComponentInfoValidView::Valid(
            ComponentInfo { name, index: decimal_value(digits) as u32 },
        ),
{
    lemma_component_name_of_token(token, name, seq!['/'] + digits);
    assert((seq!['/'] + digits).drop_first() == digits);
    lemma_digits_hold_no_segment(digits);
}

/// The long forms of a component: between the `/` that follows the
/// abbreviation and the instance index stand one or two segments, each closed
/// by a `/`. They are recognized as the short form is, and the segments
/// count for nothing.
pub proof fn lemma_component_with_segments(
    token: Seq<char>,
    name: Component,
    first: Seq<char>,
    second: Seq<char>,
    digits: Seq<char>,
)
    requires
        is_component_token(token, name),
        !first.contains('/'),
        !second.contains('/'),
        digits.len() > 0,
        all_digits(digits),
        decimal_value(digits) <= u32::MAX,
    ensures
        spec_classify_component(token + (seq!['/'] + (first + seq!['/'] + digits)))
            == ComponentInfoValidView::Valid(
            ComponentInfo { name, index: decimal_value(digits) as u32 },
        ),
        spec_classify_component(
            token + (seq!['/'] + (first + seq!['/'] + (second + seq!['/'] + digits))),
        ) == ComponentInfoValidView::Valid(
            ComponentInfo { name, index: decimal_value(digits) as u32 },
        ),
{
    lemma_digits_hold_no_segment(digits);
    let one = first + seq!['/'] + digits;
    lemma_component_name_of_token(token, name, seq!['/'] + one);
    assert((seq!['/'] + one).drop_first() == one);
    lemma_skip_one_segment(first, digits);
    let two = first + seq!['/'] + (second + seq!['/'] + digits);
    lemma_component_name_of_token(token, name, seq!['/'] + two);
    assert((seq!['/'] + two).drop_first() == two);
    lemma_skip_one_segment(first, second + seq!['/'] + digits);
    lemma_skip_one_segment(second, digits);
}

/// A text that begins with `tag` and goes on with a `/` begins with the two
/// together.
pub proof fn lemma_tag_and_slash(text: Seq<char>, tag: Seq<char>)
    requires
        starts_with(text, tag),
        spec_strip_char(text.skip(tag.len() as int), '/') is Some,
    ensures
        starts_with(text, tag + seq!['/']),
{
    let longer = tag + seq!['/'];
    assert(text.skip(tag.len() as int)[0] == text[tag.len() as int]);
    assert forall|i: int| 0 <= i < longer.len() implies text[i] == longer[i] by {
        if i < tag.len() {
            assert(longer[i] == tag[i]);
        }
    }
}

/// Whatever does not begin with the abbreviation of a subsystem and a `/` is
/// kept as it stands. It is a component all the same.
pub proof fn lemma_unknown_component_is_kept(interior: Seq<char>)
    requires
        forall|token: Seq<char>, name: Component| #[trigger]
            is_component_token(token, name) ==> !starts_with(interior, token + seq!['/']),
    ensures
        spec_classify_component(interior) == ComponentInfoValidView::Invalid(interior),
{
    if let Some((name, rest)) = spec_parse_component_name(interior) {
        if spec_strip_char(rest, '/') is Some {
            let token = interior.take(interior.len() - rest.len());
            assert(is_component_token(token, name));
            assert(starts_with(interior, token));
            assert(interior.skip(token.len() as int) == rest);
            lemma_tag_and_slash(interior, token);
        }
    }
}

/// What does not end in a digit is kept as it stands: it ends in no instance
/// index.
pub proof fn lemma_bad_index_is_kept(interior: Seq<char>)
    requires
        interior.len() > 0,
        !is_digit(interior.last()),
    ensures
        spec_classify_component(interior) == ComponentInfoValidView::Invalid(interior),
{
    match spec_parse_component_name(interior) {
        Some((name, rest)) => {
            if let Some(tail) = spec_strip_char(rest, '/') {
                lemma_first_index_of(tail, '/');
                let once = spec_skip_segment(tail);
                lemma_first_index_of(once, '/');
                let twice = spec_skip_segment(once);
                if twice.len() > 0 {
                    assert(twice.last() == interior.last());
                    assert(twice[twice.len() - 1] == twice.last());
                }
            }
        },
        None => {},
    }
}

/// An instance index that does not fit in 32 bits is none: the component is
/// kept as it stands.
pub proof fn lemma_large_index_is_kept(token: Seq<char>, name: Component, digits: Seq<char>)
    requires
        is_component_token(token, name),
        all_digits(digits),
        decimal_value(digits) > u32::MAX,
    ensures
        spec_classify_component(token + (seq!['/'] + digits)) == ComponentInfoValidView::Invalid(
            token + (seq!['/'] + digits),
        ),
{
    lemma_component_name_of_token(token, name, seq!['/'] + digits);
    assert((seq!['/'] + digits).drop_first() == digits);
    lemma_digits_hold_no_segment(digits);
}

/// No more than two segments are passed over: with a third one the component
/// is kept as it stands.
pub proof fn lemma_third_segment_is_kept(
    token: Seq<char>,
    name: Component,
    first: Seq<char>,
    second: Seq<char>,
    rest: Seq<char>,
)
    requires
        is_component_token(token, name),
        !first.contains('/'),
        !second.contains('/'),
        rest.contains('/'),
    ensures
        ({
            let interior = token + (seq!['/'] + (first + seq!['/'] + (second + seq!['/'] + rest)));
            spec_classify_component(interior) == ComponentInfoValidView::Invalid(interior)
        }),
{
    let tail = first + seq!['/'] + (second + seq!['/'] + rest);
    lemma_component_name_of_token(token, name, seq!['/'] + tail);
    assert((seq!['/'] + tail).drop_first() == tail);
    lemma_skip_one_segment(first, second + seq!['/'] + rest);
    lemma_skip_one_segment(second, rest);
    let at = choose|at: int| 0 <= at < rest.len() && rest[at] == '/';
    assert(!is_digit(rest[at]));
}

} // verus!
