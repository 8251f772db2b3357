//! The errors of the broker's operations.

use crate::decimal::{decimal, decimal_string};
use vstd::prelude::*;
use vstd::string::*;

verus! {

/// Why an operation of the broker was refused.
#[derive(Debug, PartialEq, Eq)]
pub enum BrokerError {
    /// A channel of this name is registered already.
    ChannelAlreadyExists(String),
    /// No channel of this name is registered.
    ChannelNotFound(String),
    /// The channel of this name has no subscription with this id.
    SubscriberNotFound(u64, String),
}

/// A [`BrokerError`] as a mathematical value, with names as sequences of
/// characters.
pub enum BrokerErrorView {
    ChannelAlreadyExists(Seq<char>),
    ChannelNotFound(Seq<char>),
    SubscriberNotFound(u64, Seq<char>),
}

impl BrokerErrorView {
    /// The sentence that describes the error to a human reader.
    pub open spec fn text(self) -> Seq<char> {
        match self {
            BrokerErrorView::ChannelAlreadyExists(name) => "Channel '"@ + name
                + "' already exists"@,
            BrokerErrorView::ChannelNotFound(name) => "Channel '"@ + name + "' not found"@,
            BrokerErrorView::SubscriberNotFound(id, name) => "Subscriber '"@ + decimal(id as nat)
                + "' not found in channel '"@ + name + "'"@,
        }
    }
}

impl View for BrokerError {
    type V = BrokerErrorView;

    open spec fn view(&self) -> BrokerErrorView {
        match self {
            BrokerError::ChannelAlreadyExists(name) => BrokerErrorView::ChannelAlreadyExists(
                name@,
            ),
            BrokerError::ChannelNotFound(name) => BrokerErrorView::ChannelNotFound(name@),
            BrokerError::SubscriberNotFound(id, name) => BrokerErrorView::SubscriberNotFound(
                *id,
                name@,
            ),
        }
    }
}

impl BrokerError {
    /// Describes the error in one sentence.
    pub fn to_string(&self) -> (text: String)
        ensures
            text@ == self@.text(),
    {
        match self {
            BrokerError::ChannelAlreadyExists(name) => {
                let mut text = String::from_str("Channel '");
                text.append(name.as_str());
                text.append("' already exists");
                text
            },
            BrokerError::ChannelNotFound(name) => {
                let mut text = String::from_str("Channel '");
                text.append(name.as_str());
                text.append("' not found");
                text
            },
            BrokerError::SubscriberNotFound(id, name) => {
                let mut text = String::from_str("Subscriber '");
                let number = decimal_string(*id);
                text.append(number.as_str());
                text.append("' not found in channel '");
                text.append(name.as_str());
                text.append("'");
                text
            },
        }
    }
}

} // verus!
