//! The rules that drive one upload: which parts are archives, how each is
//! decoded, and when a reload is requested.

use crate::sanitize::{sanitize_with_options, sanitized};
use crate::text::ends_with;
use vstd::prelude::*;

verus! {

/// How the bytes of an uploaded part are decoded.
#[derive(Debug, Clone, Copy, PartialEq, Eq, Structural)]
pub enum Decoding {
    /// A tar archive: the bytes go to the extractor as they are.
    Tar,
    /// A tar archive compressed with zstd: the bytes go through a streaming
    /// decompressor first.
    TarZst,
    /// Not an archive: the part is passed over, and that is no error.
    Skip,
}

/// The characters of `.tar`.
pub open spec fn tar_suffix() -> Seq<char> {
    seq!['.', 't', 'a', 'r']
}

/// The characters of `.tar.zst`.
pub open spec fn tar_zst_suffix() -> Seq<char> {
    seq!['.', 't', 'a', 'r', '.', 'z', 's', 't']
}

/// The decoding that a file name asks for, by its suffix.
pub open spec fn decoding_of(name: Seq<char>) -> Decoding {
    if tar_suffix().is_suffix_of(name) {
        Decoding::Tar
    } else if tar_zst_suffix().is_suffix_of(name) {
        Decoding::TarZst
    } else {
        Decoding::Skip
    }
}

/// The decoding that a sanitized file name asks for.
pub fn decoding_for(name: &str) -> (d: Decoding)
    ensures
        d == decoding_of(name@),
{
    proof {
        reveal_strlit(".tar");
        reveal_strlit(".tar.zst");
        assert(".tar"@ =~= tar_suffix());
        assert(".tar.zst"@ =~= tar_zst_suffix());
    }
    if ends_with(name, ".tar") {
        Decoding::Tar
    } else if ends_with(name, ".tar.zst") {
        Decoding::TarZst
    } else {
        Decoding::Skip
    }
}

/// The file name of a part as the upload works with it: sanitized, cut to
/// 255 bytes, with nothing put in place of what was taken out.
pub open spec fn clean_name(raw: Seq<char>, windows: bool) -> Seq<char> {
    sanitized(raw, windows, true, Seq::empty())
}

/// Sanitizes the file name that a part came with. `windows` says whether the
/// rules for Windows file names are applied as well.
pub fn sanitize(raw: &str, windows: bool) -> (clean: String)
    ensures
        clean@ == clean_name(raw@, windows),
{
    proof {
        reveal_strlit("");
        assert(""@ =~= Seq::<char>::empty());
    }
    sanitize_with_options(raw, windows, true, "")
}

/// What went wrong, by where it went wrong.
#[derive(Debug, Clone, Copy, PartialEq, Eq, Structural)]
pub enum ErrorKind {
    /// The push source failed or ended before its time.
    Transport,
    /// The decompressor met data that is not what it decodes.
    Decode,
    /// An archive entry is malformed, or would leave the destination.
    Extract,
    /// The file system refused a write.
    Io,
}

/// A failure of the upload, as it is handed to the caller.
#[derive(Debug, PartialEq, Eq)]
pub struct Failure {
    pub kind: ErrorKind,
    pub message: String,
}

/// Where an upload stands.
#[derive(Debug, Clone, Copy, PartialEq, Eq, Structural)]
pub enum UploadState {
    /// Between parts: the next part, or the end of the parts, is awaited.
    AwaitingPart,
    /// A part is being extracted.
    Extracting,
    /// All parts are done and the upload has succeeded.
    Finished,
    /// The upload has failed.
    Failed,
}

/// What happened outside, as far as the upload's rules depend on it.
pub enum UploadEvent {
    /// A part arrived, with the file name of its content disposition where it
    /// has one, as the client sent it.
    Part(Option<String>),
    /// The parts have come to their end.
    PartsEnded,
    /// The transport failed while the next part was awaited.
    PartFailed(String),
    /// The extractor reached the end of the archive with no entry left.
    Extracted,
    /// Decompression or extraction failed.
    ExtractionFailed(Failure),
}

/// What is to be done next.
#[derive(Debug, PartialEq, Eq)]
pub enum UploadAction {
    /// Read the part through the given decoding into the extractor, and
    /// report how the extraction ended.
    Extract(Decoding),
    /// Pass the part over, run the hooks for updated content, and await the
    /// next part.
    PassOver,
    /// Request a reload, run the hooks for updated content, and await the
    /// next part.
    RequestReload,
    /// Answer the request with success.
    Succeed,
    /// Give up at once, drain nothing, undo nothing, and hand the failure to
    /// the caller.
    Abort(Failure),
    /// The event has no place where the upload stands: do nothing.
    Ignore,
}

/// The decoding of a part, from the file name that it came with, if any.
pub open spec fn part_decoding(file_name: Option<String>, windows: bool) -> Decoding {
    match file_name {
        Some(raw) => decoding_of(clean_name(raw@, windows)),
        None => Decoding::Skip,
    }
}

/// The state that follows `state` on `event`.
pub open spec fn state_after(state: UploadState, event: UploadEvent, windows: bool) -> UploadState {
    match (state, event) {
        (UploadState::AwaitingPart, UploadEvent::Part(file_name)) => {
            if part_decoding(file_name, windows) == Decoding::Skip {
                UploadState::AwaitingPart
            } else {
                UploadState::Extracting
            }
        },
        (UploadState::AwaitingPart, UploadEvent::PartsEnded) => UploadState::Finished,
        (UploadState::AwaitingPart, UploadEvent::PartFailed(_)) => UploadState::Failed,
        (UploadState::Extracting, UploadEvent::Extracted) => UploadState::AwaitingPart,
        (UploadState::Extracting, UploadEvent::ExtractionFailed(_)) => UploadState::Failed,
        _ => state,
    }
}

/// The action that `event` calls for in `state`.
pub open spec fn action_on(state: UploadState, event: UploadEvent, windows: bool) -> UploadAction {
    match (state, event) {
        (UploadState::AwaitingPart, UploadEvent::Part(file_name)) => {
            let decoding = part_decoding(file_name, windows);
            if decoding == Decoding::Skip {
                UploadAction::PassOver
            } else {
                UploadAction::Extract(decoding)
            }
        },
        (UploadState::AwaitingPart, UploadEvent::PartsEnded) => UploadAction::Succeed,
        (UploadState::AwaitingPart, UploadEvent::PartFailed(message)) => UploadAction::Abort(
            Failure { kind: ErrorKind::Transport, message },
        ),
        (UploadState::Extracting, UploadEvent::Extracted) => UploadAction::RequestReload,
        (UploadState::Extracting, UploadEvent::ExtractionFailed(failure)) => UploadAction::Abort(
            failure,
        ),
        _ => UploadAction::Ignore,
    }
}

/// One upload request, from its first part to its answer.
pub struct IngestionPipeline {
    state: UploadState,
    windows: bool,
}

impl IngestionPipeline {
    /// Where the upload stands.
    pub closed spec fn state(self) -> UploadState {
        self.state
    }

    /// Whether file names are sanitized by the rules for Windows as well.
    pub closed spec fn windows(self) -> bool {
        self.windows
    }

    /// An upload that awaits its first part.
    pub fn new(windows: bool) -> (p: Self)
        ensures
            p.state() == UploadState::AwaitingPart,
            p.windows() == windows,
    {
        IngestionPipeline { state: UploadState::AwaitingPart, windows }
    }

    /// Where the upload stands.
    pub fn current(&self) -> (s: UploadState)
        ensures
            s == self.state(),
    {
        self.state
    }

    /// Takes in one event and says what is to be done next.
    pub fn step(&mut self, event: UploadEvent) -> (action: UploadAction)
        ensures
            final(self).windows() == old(self).windows(),
            final(self).state() == state_after(old(self).state(), event, old(self).windows()),
            action == action_on(old(self).state(), event, old(self).windows()),
    {
        match self.state {
            UploadState::AwaitingPart => match event {
                UploadEvent::Part(file_name) => {
                    let decoding = match &file_name {
                        Some(raw) => {
                            let clean = sanitize(raw.as_str(), self.windows);
                            decoding_for(clean.as_str())
                        },
                        None => Decoding::Skip,
                    };
                    match decoding {
                        Decoding::Skip => UploadAction::PassOver,
                        _ => {
                            self.state = UploadState::Extracting;
                            UploadAction::Extract(decoding)
                        },
                    }
                },
                UploadEvent::PartsEnded => {
                    self.state = UploadState::Finished;
                    UploadAction::Succeed
                },
                UploadEvent::PartFailed(message) => {
                    self.state = UploadState::Failed;
                    UploadAction::Abort(Failure { kind: ErrorKind::Transport, message })
                },
                _ => UploadAction::Ignore,
            },
            UploadState::Extracting => match event {
                UploadEvent::Extracted => {
                    self.state = UploadState::AwaitingPart;
                    UploadAction::RequestReload
                },
                UploadEvent::ExtractionFailed(failure) => {
                    self.state = UploadState::Failed;
                    UploadAction::Abort(failure)
                },
                _ => UploadAction::Ignore,
            },
            _ => UploadAction::Ignore,
        }
    }
}

/// The state that an upload is in after a run of events.
pub open spec fn state_after_all(
    state: UploadState,
    events: Seq<UploadEvent>,
    windows: bool,
) -> UploadState
    decreases events.len(),
{
    if events.len() == 0 {
        state
    } else {
        state_after_all(state_after(state, events[0], windows), events.drop_first(), windows)
    }
}

/// How many times a run of events has a reload requested.
pub open spec fn reloads_requested(
    state: UploadState,
    events: Seq<UploadEvent>,
    windows: bool,
) -> nat
    decreases events.len(),
{
    if events.len() == 0 {
        0
    } else {
        let here: nat = if action_on(state, events[0], windows) == UploadAction::RequestReload {
            1
        } else {
            0
        };
        here + reloads_requested(
            state_after(state, events[0], windows),
            events.drop_first(),
            windows,
        )
    }
}

/// How many times a run of events has an extraction started.
pub open spec fn extractions_started(
    state: UploadState,
    events: Seq<UploadEvent>,
    windows: bool,
) -> nat
    decreases events.len(),
{
    if events.len() == 0 {
        0
    } else {
        let here: nat = if action_on(state, events[0], windows) is Extract {
            1
        } else {
            0
        };
        here + extractions_started(
            state_after(state, events[0], windows),
            events.drop_first(),
            windows,
        )
    }
}

/// An upload that has failed or finished stays as it is: whatever comes
/// after, nothing is done, and above all no reload is requested.
pub proof fn lemma_end_is_final(state: UploadState, events: Seq<UploadEvent>, windows: bool)
    requires
        state == UploadState::Failed || state == UploadState::Finished,
    ensures
        state_after_all(state, events, windows) == state,
        reloads_requested(state, events, windows) == 0,
        extractions_started(state, events, windows) == 0,
        forall|i: int| 0 <= i < events.len() ==> action_on(state, #[trigger] events[i], windows)
            == UploadAction::Ignore,
    decreases events.len(),
{
    if events.len() > 0 {
        lemma_end_is_final(state, events.drop_first(), windows);
        assert forall|i: int| 0 <= i < events.len() implies action_on(
            state,
            #[trigger] events[i],
            windows,
        ) == UploadAction::Ignore by {}
    }
}

/// A failure ends the upload without a reload: when an extraction fails, or
/// the transport does between parts, the failure is handed on as it came and
/// no event that follows has a reload requested.
pub proof fn lemma_failure_requests_no_reload(
    state: UploadState,
    failed: UploadEvent,
    later: Seq<UploadEvent>,
    windows: bool,
)
    requires
        (state == UploadState::Extracting && failed is ExtractionFailed) || (state
            == UploadState::AwaitingPart && failed is PartFailed),
    ensures
        action_on(state, failed, windows) is Abort,
        failed matches UploadEvent::ExtractionFailed(failure) ==> action_on(state, failed, windows)
            == UploadAction::Abort(failure),
        state_after_all(state, seq![failed] + later, windows) == UploadState::Failed,
        reloads_requested(state, seq![failed] + later, windows) == 0,
{
    let events = seq![failed] + later;
    assert(events[0] == failed);
    assert(events.drop_first() =~= later);
    lemma_end_is_final(UploadState::Failed, later, windows);
}

/// Each extraction is answered by one reload request at most, and no reload
/// is requested but for an extraction that has been started: however many
/// entries an archive holds, its extraction is one event, and a success is
/// one request.
pub proof fn lemma_one_reload_for_each_extraction(
    state: UploadState,
    events: Seq<UploadEvent>,
    windows: bool,
)
    ensures
        reloads_requested(state, events, windows) <= extractions_started(state, events, windows)
            + if state == UploadState::Extracting {
            1nat
        } else {
            0nat
        },
    decreases events.len(),
{
    if events.len() > 0 {
        lemma_one_reload_for_each_extraction(
            state_after(state, events[0], windows),
            events.drop_first(),
            windows,
        );
    }
}

/// A reload is requested for nothing but a success: a run of events in which
/// no extraction comes to a good end has no reload requested.
pub proof fn lemma_reload_needs_success(
    state: UploadState,
    events: Seq<UploadEvent>,
    windows: bool,
)
    requires
        forall|i: int| 0 <= i < events.len() ==> !(#[trigger] events[i] is Extracted),
    ensures
        reloads_requested(state, events, windows) == 0,
    decreases events.len(),
{
    if events.len() > 0 {
        assert(!(events[0] is Extracted));
        let rest = events.drop_first();
        assert forall|i: int| 0 <= i < rest.len() implies !(#[trigger] rest[i] is Extracted) by {
            assert(rest[i] == events[i + 1]);
        }
        lemma_reload_needs_success(state_after(state, events[0], windows), rest, windows);
    }
}

} // verus!
