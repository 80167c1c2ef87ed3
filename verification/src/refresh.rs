//! One download of a rule set, step by step.

use crate::json::json_parsed;
use crate::remote_rule_auto::{
    begins_binary, both_ways_failed, is_binary_set, scan_of, validate_source, BinaryScan,
    RuleSetFileFormat,
};
use crate::text::{concat2, opt_view};
use vstd::prelude::*;

verus! {

/// Where a download stands.
#[derive(Debug)]
pub enum RefreshState {
    /// The file is being fetched, through the core or not; what the way through the core
    /// said is kept.
    Fetching { through_core: bool, first_error: Option<String> },
    /// The structure of a binary set is being read.
    ReadingBinary,
    /// The file of a source set is being written.
    WritingSource { count: u32, contains_ip: bool },
    /// The file of a binary set is being written.
    WritingBinary(BinaryScan),
    /// The core takes a binary set apart.
    TakingApart(BinaryScan),
    Over,
}

/// What happened.
#[derive(Debug)]
pub enum RefreshEvent {
    Fetched(Vec<u8>),
    FetchFailed(String),
    BinaryRead(BinaryScan),
    BinaryUnreadable(String),
    Written,
    WriteFailed(String),
    /// No core was found that could take the set apart.
    NoCore,
    TakenApart(Vec<u8>),
    NotTakenApart(String),
}

/// What is to be done.
#[derive(Debug)]
pub enum RefreshAction {
    Fetch { through_core: bool },
    ReadBinary,
    Write(RuleSetFileFormat),
    /// Have the core take the file apart.
    TakeApart,
    /// The set notes the file.
    Complete { format: RuleSetFileFormat, count: u32, contains_ip: bool },
    /// The set notes the failure.
    Fail(String),
    /// The file is removed, and the set notes the failure.
    RemoveAndFail(String),
    /// The event does not belong here.
    Ignore,
}

/// The action, with its text taken by its view.
pub enum RefreshStep {
    Fetch(bool),
    ReadBinary,
    Write(RuleSetFileFormat),
    TakeApart,
    Complete(RuleSetFileFormat, u32, bool),
    Fail(Seq<char>),
    RemoveAndFail(Seq<char>),
    Ignore,
}

impl View for RefreshAction {
    type V = RefreshStep;

    open spec fn view(&self) -> RefreshStep {
        match self {
            RefreshAction::Fetch { through_core } => RefreshStep::Fetch(*through_core),
            RefreshAction::ReadBinary => RefreshStep::ReadBinary,
            RefreshAction::Write(f) => RefreshStep::Write(*f),
            RefreshAction::TakeApart => RefreshStep::TakeApart,
            RefreshAction::Complete { format, count, contains_ip } => RefreshStep::Complete(
                *format,
                *count,
                *contains_ip,
            ),
            RefreshAction::Fail(e) => RefreshStep::Fail(e@),
            RefreshAction::RemoveAndFail(e) => RefreshStep::RemoveAndFail(e@),
            RefreshAction::Ignore => RefreshStep::Ignore,
        }
    }
}

/// What a download does next. It is fetched through the core where that runs, then directly;
/// a source set is read, a binary one is read by its structure and, but for ad filters, taken
/// apart by the core where there is one.
pub open spec fn next_refresh(s: RefreshState, e: RefreshEvent) -> RefreshStep {
    match (s, e) {
        (RefreshState::Fetching { through_core, first_error }, RefreshEvent::FetchFailed(x)) =>
            if through_core {
                RefreshStep::Fetch(false)
            } else {
                RefreshStep::Fail(
                    match opt_view(first_error) {
                        Some(f) => "代理下载失败: "@ + f + "; 直连下载失败: "@ + x@,
                        None => x@,
                    },
                )
            },
        (RefreshState::Fetching { through_core, first_error }, RefreshEvent::Fetched(bytes)) =>
            match scan_of(json_parsed(bytes@)) {
                Ok(_) => RefreshStep::Write(RuleSetFileFormat::Source),
                Err(x) => if begins_binary(bytes@) {
                    RefreshStep::ReadBinary
                } else {
                    RefreshStep::Fail(x)
                },
            },
        (RefreshState::ReadingBinary, RefreshEvent::BinaryRead(_)) => RefreshStep::Write(
            RuleSetFileFormat::Binary,
        ),
        (RefreshState::ReadingBinary, RefreshEvent::BinaryUnreadable(x)) => RefreshStep::Fail(
            "SRS 校验失败: "@ + x@,
        ),
        (RefreshState::WritingSource { count, contains_ip }, RefreshEvent::Written) =>
            RefreshStep::Complete(RuleSetFileFormat::Source, count, contains_ip),
        (RefreshState::WritingSource { count, contains_ip }, RefreshEvent::WriteFailed(x)) =>
            RefreshStep::Fail(x@),
        (RefreshState::WritingBinary(b), RefreshEvent::Written) => if b.has_adguard {
            RefreshStep::Complete(RuleSetFileFormat::Binary, b.display_count, false)
        } else {
            RefreshStep::TakeApart
        },
        (RefreshState::WritingBinary(b), RefreshEvent::WriteFailed(x)) => RefreshStep::Fail(x@),
        (RefreshState::TakingApart(b), RefreshEvent::NoCore) => RefreshStep::Complete(
            RuleSetFileFormat::Binary,
            b.display_count,
            false,
        ),
        (RefreshState::TakingApart(b), RefreshEvent::TakenApart(bytes)) => match scan_of(
            json_parsed(bytes@),
        ) {
            Ok(x) => RefreshStep::Complete(RuleSetFileFormat::Binary, x.0, x.1),
            Err(x) => RefreshStep::RemoveAndFail(x),
        },
        (RefreshState::TakingApart(b), RefreshEvent::NotTakenApart(x)) =>
            RefreshStep::RemoveAndFail(x@),
        _ => RefreshStep::Ignore,
    }
}

/// Where a download stands after an event.
pub open spec fn after_refresh(s: RefreshState, e: RefreshEvent) -> RefreshState {
    match (s, e) {
        (RefreshState::Fetching { through_core, first_error }, RefreshEvent::FetchFailed(x)) =>
            if through_core {
                RefreshState::Fetching { through_core: false, first_error: Some(x) }
            } else {
                RefreshState::Over
            },
        (RefreshState::Fetching { through_core, first_error }, RefreshEvent::Fetched(bytes)) =>
            match scan_of(json_parsed(bytes@)) {
                Ok(x) => RefreshState::WritingSource { count: x.0, contains_ip: x.1 },
                Err(_) => if begins_binary(bytes@) {
                    RefreshState::ReadingBinary
                } else {
                    RefreshState::Over
                },
            },
        (RefreshState::ReadingBinary, RefreshEvent::BinaryRead(b)) => RefreshState::WritingBinary(
            b,
        ),
        (RefreshState::WritingBinary(b), RefreshEvent::Written) => if b.has_adguard {
            RefreshState::Over
        } else {
            RefreshState::TakingApart(b)
        },
        _ => if next_refresh(s, e) is Ignore {
            s
        } else {
            RefreshState::Over
        },
    }
}

/// A download.
#[derive(Debug)]
pub struct Refresh {
    pub state: RefreshState,
}

impl Refresh {
    /// The download begins: through the core where that runs.
    pub fn begin(core_running: bool) -> (r: (Self, RefreshAction))
        ensures
            r.0.state == (RefreshState::Fetching {
                through_core: core_running,
                first_error: None,
            }),
            r.1@ == RefreshStep::Fetch(core_running),
    {
        (
            Refresh {
                state: RefreshState::Fetching { through_core: core_running, first_error: None },
            },
            RefreshAction::Fetch { through_core: core_running },
        )
    }

    /// What the download does next.
    pub fn step(self, event: RefreshEvent) -> (r: (Self, RefreshAction))
        ensures
            r.0.state == after_refresh(self.state, event),
            r.1@ == next_refresh(self.state, event),
    {
        let (state, action) = match (self.state, event) {
            (
                RefreshState::Fetching { through_core, first_error },
                RefreshEvent::FetchFailed(x),
            ) => {
                if through_core {
                    (
                        RefreshState::Fetching { through_core: false, first_error: Some(x) },
                        RefreshAction::Fetch { through_core: false },
                    )
                } else {
                    let text = match first_error {
                        Some(f) => both_ways_failed(f.as_str(), x.as_str()),
                        None => x,
                    };
                    (RefreshState::Over, RefreshAction::Fail(text))
                }
            },
            (
                RefreshState::Fetching { through_core, first_error },
                RefreshEvent::Fetched(bytes),
            ) => match validate_source(bytes.as_slice()) {
                Ok((count, contains_ip)) => (
                    RefreshState::WritingSource { count, contains_ip },
                    RefreshAction::Write(RuleSetFileFormat::Source),
                ),
                Err(x) => {
                    if is_binary_set(bytes.as_slice()) {
                        (RefreshState::ReadingBinary, RefreshAction::ReadBinary)
                    } else {
                        (RefreshState::Over, RefreshAction::Fail(x))
                    }
                },
            },
            (RefreshState::ReadingBinary, RefreshEvent::BinaryRead(b)) => (
                RefreshState::WritingBinary(b),
                RefreshAction::Write(RuleSetFileFormat::Binary),
            ),
            (RefreshState::ReadingBinary, RefreshEvent::BinaryUnreadable(x)) => (
                RefreshState::Over,
                RefreshAction::Fail(concat2("SRS 校验失败: ", x.as_str())),
            ),
            (RefreshState::WritingSource { count, contains_ip }, RefreshEvent::Written) => (
                RefreshState::Over,
                RefreshAction::Complete { format: RuleSetFileFormat::Source, count, contains_ip },
            ),
            (
                RefreshState::WritingSource { count, contains_ip },
                RefreshEvent::WriteFailed(x),
            ) => (RefreshState::Over, RefreshAction::Fail(x)),
            (RefreshState::WritingBinary(b), RefreshEvent::Written) => {
                if b.has_adguard {
                    (
                        RefreshState::Over,
                        RefreshAction::Complete {
                            format: RuleSetFileFormat::Binary,
                            count: b.display_count,
                            contains_ip: false,
                        },
                    )
                } else {
                    (RefreshState::TakingApart(b), RefreshAction::TakeApart)
                }
            },
            (RefreshState::WritingBinary(b), RefreshEvent::WriteFailed(x)) => (
                RefreshState::Over,
                RefreshAction::Fail(x),
            ),
            (RefreshState::TakingApart(b), RefreshEvent::NoCore) => (
                RefreshState::Over,
                RefreshAction::Complete {
                    format: RuleSetFileFormat::Binary,
                    count: b.display_count,
                    contains_ip: false,
                },
            ),
            (RefreshState::TakingApart(b), RefreshEvent::TakenApart(bytes)) =>
                match validate_source(bytes.as_slice()) {
                Ok((count, contains_ip)) => (
                    RefreshState::Over,
                    RefreshAction::Complete {
                        format: RuleSetFileFormat::Binary,
                        count,
                        contains_ip,
                    },
                ),
                Err(x) => (RefreshState::Over, RefreshAction::RemoveAndFail(x)),
            },
            (RefreshState::TakingApart(b), RefreshEvent::NotTakenApart(x)) => (
                RefreshState::Over,
                RefreshAction::RemoveAndFail(x),
            ),
            (s, _) => (s, RefreshAction::Ignore),
        };
        (Refresh { state }, action)
    }
}

/// How far a download is from its end.
pub open spec fn steps_left(s: RefreshState) -> int {
    match s {
        RefreshState::Fetching { through_core, first_error } => if through_core {
            5
        } else {
            4
        },
        RefreshState::ReadingBinary => 3,
        RefreshState::WritingSource { count, contains_ip } => 1,
        RefreshState::WritingBinary(_) => 2,
        RefreshState::TakingApart(_) => 1,
        RefreshState::Over => 0,
    }
}

/// Every download ends: each event that belongs to it brings it nearer to its end, and with
/// its end the set notes a file or a failure.
pub proof fn law_downloads_end(s: RefreshState, e: RefreshEvent)
    ensures
        !(next_refresh(s, e) is Ignore) ==> steps_left(after_refresh(s, e)) < steps_left(s),
        !(next_refresh(s, e) is Ignore) ==> (after_refresh(s, e) is Over <==> (next_refresh(
            s,
            e,
        ) is Complete || next_refresh(s, e) is Fail || next_refresh(s, e) is RemoveAndFail)),
        next_refresh(s, e) is Ignore ==> after_refresh(s, e) == s,
{
}

/// A file is only kept of a set that was read: nothing is written of one that was not.
pub proof fn law_only_read_sets_are_written(s: RefreshState, e: RefreshEvent)
    requires
        next_refresh(s, e) is Write,
    ensures
        (e is Fetched && scan_of(json_parsed(e->Fetched_0@)) is Ok) || e is BinaryRead,
{
}

} // verus!
