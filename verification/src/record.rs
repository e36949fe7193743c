//! The records of an assertion log, and what each of them is to the
//! specifications.
//!
//! Every record type has a view in which strings are sequences of
//! characters. The payload of a record, `details`, is a JSON document that
//! is carried along and never looked into.

use crate::text::same_text;
use serde_json::Value;
use vstd::prelude::*;

verus! {

/// The kind of an assertion.
#[derive(Debug, Clone, Copy, PartialEq, Eq, Structural)]
pub enum AssertType {
    /// The condition must hold every time it is evaluated.
    Always,
    /// The condition must hold at least once.
    Sometimes,
    /// The place in the code must be reached, or must never be.
    Reachability,
}

impl AssertType {
    /// The kind that `name` spells: `always`, `sometimes` or `reachability`,
    /// in lower case.
    pub open spec fn named(name: Seq<char>) -> Option<AssertType> {
        if name == "always"@ {
            Some(AssertType::Always)
        } else if name == "sometimes"@ {
            Some(AssertType::Sometimes)
        } else if name == "reachability"@ {
            Some(AssertType::Reachability)
        } else {
            None
        }
    }

    /// Reads the kind of an assertion from its name in a log.
    pub fn from_name(name: &str) -> (r: Option<AssertType>)
        ensures
            r == AssertType::named(name@),
    {
        if same_text(name, "always") {
            Some(AssertType::Always)
        } else if same_text(name, "sometimes") {
            Some(AssertType::Sometimes)
        } else if same_text(name, "reachability") {
            Some(AssertType::Reachability)
        } else {
            None
        }
    }
}

/// Where in the source an assertion was declared.
#[derive(Debug, Clone, PartialEq, Eq)]
pub struct Location {
    pub begin_column: i32,
    pub begin_line: i32,
    pub class: String,
    pub file: String,
    pub function: String,
}

/// A [`Location`] in specifications.
pub struct LocationView {
    pub begin_column: i32,
    pub begin_line: i32,
    pub class: Seq<char>,
    pub file: Seq<char>,
    pub function: Seq<char>,
}

impl View for Location {
    type V = LocationView;

    open spec fn view(&self) -> LocationView {
        LocationView {
            begin_column: self.begin_column,
            begin_line: self.begin_line,
            class: self.class@,
            file: self.file@,
            function: self.function@,
        }
    }
}

/// One record about one assertion: its catalog entry (`hit` is false) or
/// one evaluation of it at run time (`hit` is true).
#[derive(Debug, Clone, PartialEq)]
pub struct AntithesisAssert {
    pub assert_type: AssertType,
    /// What the condition evaluated to; it means something only where `hit` is true.
    pub condition: bool,
    pub display_type: String,
    pub hit: bool,
    pub must_hit: bool,
    /// The identity that all records of one assertion share.
    pub id: String,
    pub message: String,
    pub location: Location,
    pub details: Value,
}

/// An [`AntithesisAssert`] in specifications.
pub struct AssertView {
    pub assert_type: AssertType,
    pub condition: bool,
    pub display_type: Seq<char>,
    pub hit: bool,
    pub must_hit: bool,
    pub id: Seq<char>,
    pub message: Seq<char>,
    pub location: LocationView,
    pub details: Value,
}

impl View for AntithesisAssert {
    type V = AssertView;

    open spec fn view(&self) -> AssertView {
        AssertView {
            assert_type: self.assert_type,
            condition: self.condition,
            display_type: self.display_type@,
            hit: self.hit,
            must_hit: self.must_hit,
            id: self.id@,
            message: self.message@,
            location: self.location@,
            details: self.details,
        }
    }
}

/// The record in which the instrumentation names itself.
#[derive(Debug, Clone, PartialEq, Eq)]
pub struct AntithesisSdk {
    pub language: String,
    pub version: String,
}

/// An [`AntithesisSdk`] in specifications.
pub struct SdkView {
    pub language: Seq<char>,
    pub version: Seq<char>,
}

impl View for AntithesisSdk {
    type V = SdkView;

    open spec fn view(&self) -> SdkView {
        SdkView { language: self.language@, version: self.version@ }
    }
}

/// The record that reports the state of the program's setup.
#[derive(Debug, Clone, PartialEq)]
pub struct AntithesisSetup {
    pub status: String,
    pub details: Value,
}

/// An [`AntithesisSetup`] in specifications.
pub struct SetupView {
    pub status: Seq<char>,
    pub details: Value,
}

impl View for AntithesisSetup {
    type V = SetupView;

    open spec fn view(&self) -> SetupView {
        SetupView { status: self.status@, details: self.details }
    }
}

/// One record of the log, classified.
#[derive(Debug, Clone, PartialEq)]
pub enum SDKInput {
    AntithesisSdk(AntithesisSdk),
    AntithesisAssert(AntithesisAssert),
    AntithesisSetup(AntithesisSetup),
    /// An event under a name of the program's own choosing.
    SendEvent { event_name: String, details: Value },
}

/// An [`SDKInput`] in specifications.
pub enum InputView {
    AntithesisSdk(SdkView),
    AntithesisAssert(AssertView),
    AntithesisSetup(SetupView),
    SendEvent { event_name: Seq<char>, details: Value },
}

impl View for SDKInput {
    type V = InputView;

    open spec fn view(&self) -> InputView {
        match *self {
            SDKInput::AntithesisSdk(sdk) => InputView::AntithesisSdk(sdk@),
            SDKInput::AntithesisAssert(a) => InputView::AntithesisAssert(a@),
            SDKInput::AntithesisSetup(setup) => InputView::AntithesisSetup(setup@),
            SDKInput::SendEvent { event_name, details } => InputView::SendEvent {
                event_name: event_name@,
                details,
            },
        }
    }
}

impl SDKInput {
    /// Whether the record is an assertion record. Only those take part in
    /// the verdicts; a record of another kind is worth a note to the user
    /// and is otherwise left out.
    pub fn is_assertion(&self) -> (r: bool)
        ensures
            r == (self@ is AntithesisAssert),
    {
        match self {
            SDKInput::AntithesisAssert(_) => true,
            _ => false,
        }
    }
}

/// The views of a sequence of assertion records, in the same order.
pub open spec fn assert_views(records: Seq<AntithesisAssert>) -> Seq<AssertView> {
    records.map_values(|a: AntithesisAssert| a@)
}

/// The views of a sequence of records, in the same order.
pub open spec fn input_views(records: Seq<SDKInput>) -> Seq<InputView> {
    records.map_values(|r: SDKInput| r@)
}

} // verus!
