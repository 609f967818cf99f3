//! The structured outcomes of loading that are not values: the faults that
//! abort a load, and the warnings that do not.

use vstd::prelude::*;
use crate::numtext::{spec_int_text, i128_to_text};

verus! {

/// The spec-level shape of a load fault.
pub enum FaultView {
    /// A command-line token named no registered flag; the token is kept as
    /// it stood, dashes included.
    UnknownFlag { token: Seq<char> },
    /// A value did not parse at its flag's shape.
    ParseFailure { flag: Seq<char>, text: Seq<char> },
}

/// A fault that aborts a load: they arise from environment variables and
/// command-line arguments, whose content is user intent and must be correct.
#[derive(Debug)]
pub enum LoadFault {
    /// A command-line token named no registered flag.
    UnknownFlag { token: String },
    /// A value did not parse at its flag's shape.
    ParseFailure { flag: String, text: String },
}

impl View for LoadFault {
    type V = FaultView;

    open spec fn view(&self) -> FaultView {
        match self {
            LoadFault::UnknownFlag { token } => FaultView::UnknownFlag { token: token@ },
            LoadFault::ParseFailure { flag, text } => FaultView::ParseFailure {
                flag: flag@,
                text: text@,
            },
        }
    }
}

/// The one-line text of a fault.
pub open spec fn fault_message(f: FaultView) -> Seq<char> {
    match f {
        FaultView::UnknownFlag { token } => "Unknown flag: "@ + token,
        FaultView::ParseFailure { flag, text } => "Invalid value \""@ + text + "\" for flag --"@
            + flag,
    }
}

impl LoadFault {
    /// The one-line text of this fault.
    pub fn message(&self) -> (r: String)
        ensures
            r@ == fault_message(self@),
    {
        match self {
            LoadFault::UnknownFlag { token } => {
                let mut out = "Unknown flag: ".to_owned();
                out.append(token.as_str());
                out
            },
            LoadFault::ParseFailure { flag, text } => {
                let mut out = "Invalid value \"".to_owned();
                out.append(text.as_str());
                out.append("\" for flag --");
                out.append(flag.as_str());
                out
            },
        }
    }
}

/// The spec-level shape of a warning.
pub enum WarningView {
    FileUnreadable { index: usize },
    MalformedJson { index: usize },
    UnknownProperty { index: usize, key: Seq<char> },
    TypeMismatch { index: usize, key: Seq<char> },
    NoDelimiter { flag: Seq<char> },
}

/// A warning: a config-file problem, or an environment variable that could
/// not be used. Warnings never abort a load; they are collected and may be
/// printed by the caller. The index names the config file, in registration
/// order.
#[derive(Debug)]
pub enum Warning {
    /// The config file was missing or unreadable.
    FileUnreadable { index: usize },
    /// The config file's text was not a JSON object.
    MalformedJson { index: usize },
    /// A key of the config file named no registered flag.
    UnknownProperty { index: usize, key: String },
    /// A value of the config file did not fit its flag's shape.
    TypeMismatch { index: usize, key: String },
    /// An environment variable was set for an array flag that has no
    /// delimiter configured.
    NoDelimiter { flag: String },
}

impl View for Warning {
    type V = WarningView;

    open spec fn view(&self) -> WarningView {
        match self {
            Warning::FileUnreadable { index } => WarningView::FileUnreadable { index: *index },
            Warning::MalformedJson { index } => WarningView::MalformedJson { index: *index },
            Warning::UnknownProperty { index, key } => WarningView::UnknownProperty {
                index: *index,
                key: key@,
            },
            Warning::TypeMismatch { index, key } => WarningView::TypeMismatch {
                index: *index,
                key: key@,
            },
            Warning::NoDelimiter { flag } => WarningView::NoDelimiter { flag: flag@ },
        }
    }
}

/// The one-line text of a warning.
pub open spec fn warning_message(w: WarningView) -> Seq<char> {
    match w {
        WarningView::FileUnreadable { index } => "Could not read config file "@ + spec_int_text(
            index as int,
        ),
        WarningView::MalformedJson { index } => "Config file "@ + spec_int_text(index as int)
            + " is not a JSON object"@,
        WarningView::UnknownProperty { index, key } => "Config file "@ + spec_int_text(
            index as int,
        ) + " names an unknown property \""@ + key + "\""@,
        WarningView::TypeMismatch { index, key } => "Config file "@ + spec_int_text(index as int)
            + " holds a value of the wrong type for \""@ + key + "\""@,
        WarningView::NoDelimiter { flag } => "Environment variable for array flag \""@ + flag
            + "\" ignored: no delimiter configured"@,
    }
}

impl Warning {
    /// The one-line text of this warning.
    pub fn message(&self) -> (r: String)
        ensures
            r@ == warning_message(self@),
    {
        match self {
            Warning::FileUnreadable { index } => {
                let mut out = "Could not read config file ".to_owned();
                let num = i128_to_text(*index as i128);
                out.append(num.as_str());
                out
            },
            Warning::MalformedJson { index } => {
                let mut out = "Config file ".to_owned();
                let num = i128_to_text(*index as i128);
                out.append(num.as_str());
                out.append(" is not a JSON object");
                out
            },
            Warning::UnknownProperty { index, key } => {
                let mut out = "Config file ".to_owned();
                let num = i128_to_text(*index as i128);
                out.append(num.as_str());
                out.append(" names an unknown property \"");
                out.append(key.as_str());
                out.append("\"");
                out
            },
            Warning::TypeMismatch { index, key } => {
                let mut out = "Config file ".to_owned();
                let num = i128_to_text(*index as i128);
                out.append(num.as_str());
                out.append(" holds a value of the wrong type for \"");
                out.append(key.as_str());
                out.append("\"");
                out
            },
            Warning::NoDelimiter { flag } => {
                let mut out = "Environment variable for array flag \"".to_owned();
                out.append(flag.as_str());
                out.append("\" ignored: no delimiter configured");
                out
            },
        }
    }
}

} // verus!
