//! The parts of a parsed log line.

use crate::timestamp::Timestamp;
use vstd::prelude::*;

verus! {

/// The subsystem that emitted a log line.
#[derive(Debug, Clone, Copy, PartialEq, Eq, PartialOrd, Structural)]
pub enum Component {
    API,
    STAGING,
    ROUTER,
    LOGGREGATOR,
    APPLICATION,
    SSH,
    CELL,
    /// Stands for no subsystem. The parser never yields it.
    INVALID,
}

/// A recognized component tag: the subsystem and the instance index that
/// follows it.
#[derive(Debug, Clone, Copy, PartialEq, Eq, Structural)]
pub struct ComponentInfo {
    pub name: Component,
    pub index: u32,
}

/// What stood between the brackets of a log line: a tag that was recognized,
/// or the text as it was found.
#[derive(Debug)]
pub enum ComponentInfoValid {
    Valid(ComponentInfo),
    Invalid(String),
}

/// The stream that a log line was written to.
#[derive(Debug, Clone, Copy, PartialEq, Eq, PartialOrd, Structural)]
pub enum Channel {
    STDOUT,
    STDERR,
    /// Stands for no stream. The parser never yields it.
    INVALID,
}

/// The channel marker of a log line. The parser only yields `Valid`: a line
/// with any other marker does not parse.
#[derive(Debug)]
pub enum ChannelValid {
    Valid(Channel),
    Invalid(String),
}

/// One parsed log line. The message borrows from the parsed text.
#[derive(Debug)]
pub struct CfAppLogEntry<'a> {
    pub timestamp: Timestamp,
    pub component: ComponentInfoValid,
    pub channel: ChannelValid,
    pub message: Option<&'a str>,
}

/// The outcome for a text that is not a log line.
#[derive(Debug, Clone, Copy, PartialEq, Eq, Structural)]
pub struct NoMatch;

/// [`ComponentInfoValid`] with its text as a sequence of characters.
pub enum ComponentInfoValidView {
    Valid(ComponentInfo),
    Invalid(Seq<char>),
}

/// [`ChannelValid`] with its text as a sequence of characters.
pub enum ChannelValidView {
    Valid(Channel),
    Invalid(Seq<char>),
}

/// [`CfAppLogEntry`] with its texts as sequences of characters.
pub struct CfAppLogEntryView {
    pub timestamp: Timestamp,
    pub component: ComponentInfoValidView,
    pub channel: ChannelValidView,
    pub message: Option<Seq<char>>,
}

impl View for ComponentInfoValid {
    type V = ComponentInfoValidView;

    open spec fn view(&self) -> ComponentInfoValidView {
        match self {
            ComponentInfoValid::Valid(info) => ComponentInfoValidView::Valid(*info),
            ComponentInfoValid::Invalid(text) => ComponentInfoValidView::Invalid(text@),
        }
    }
}

impl View for ChannelValid {
    type V = ChannelValidView;

    open spec fn view(&self) -> ChannelValidView {
        match self {
            ChannelValid::Valid(channel) => ChannelValidView::Valid(*channel),
            ChannelValid::Invalid(text) => ChannelValidView::Invalid(text@),
        }
    }
}

impl<'a> View for CfAppLogEntry<'a> {
    type V = CfAppLogEntryView;

    open spec fn view(&self) -> CfAppLogEntryView {
        CfAppLogEntryView {
            timestamp: self.timestamp,
            component: self.component@,
            channel: self.channel@,
            message: match self.message {
                Some(text) => Some(text@),
                None => None,
            },
        }
    }
}

impl CfAppLogEntryView {
    /// What holds of every entry that the parser yields: the component, where
    /// it was recognized, names a subsystem; the channel is one of the two
    /// streams; and a message that is present is not empty.
    pub open spec fn well_formed(self) -> bool {
        &&& self.component matches ComponentInfoValidView::Valid(info) ==> info.name
            != Component::INVALID
        &&& self.channel == ChannelValidView::Valid(Channel::STDOUT) || self.channel
            == ChannelValidView::Valid(Channel::STDERR)
        &&& self.message matches Some(text) ==> text.len() > 0
    }
}

} // verus!
