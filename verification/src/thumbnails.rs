//! The thumbnail pipeline: tool checks, duration probe, and one frame for
//! each of five offsets, as a state machine that the host drives.
//!
//! The pipeline names the command to run next; the host runs it and hands the
//! outcome back. Commands follow each other strictly in order, so the frames
//! of a set are in the order of their offsets.

use vstd::prelude::*;

use crate::decimal::{lemma_text_round_trip, numeral_of, numeral_text, Decimal, Numeral};
use crate::duration::{
    duration_of, lemma_sample_time_is_tenths, read_duration, sample_time, sample_times, SAMPLES,
};
use crate::files::{file_refusal, require_file, InputError, PathStatus, Refusal};
use crate::frame::{
    base64_text, encodable, frame_payload, has_frame, lemma_fallback_frame,
    lemma_slot_is_empty_without_frame, payload_of, slot_text, wants_fallback,
};
use crate::process::{
    duration_command, duration_query, fallback_command, fallback_extraction, primary_command,
    answers_as, primary_extraction, texts, tool_available, version_command, version_query,
    CommandLine, Invocation, Outcome, Report, Tool,
};

verus! {

/// The command whose outcome a pipeline waits for.
#[derive(Clone, Copy, Debug, PartialEq, Eq, Structural)]
pub enum Stage {
    /// The version query of the encoder.
    EncoderCheck,
    /// The version query of the prober.
    ProberCheck,
    /// The duration query.
    DurationProbe,
    /// The first extraction for the next open slot.
    Primary,
    /// The second extraction for the next open slot.
    Fallback,
}

/// The model of a [`ThumbnailPipeline`].
pub struct PipelineModel {
    /// The file that thumbnails are made of.
    pub path: Seq<char>,
    /// The command that is awaited.
    pub stage: Stage,
    /// The offsets of the samples; empty until the duration is known.
    pub times: Seq<Numeral>,
    /// The slots filled so far, in the order of the offsets.
    pub frames: Seq<Seq<char>>,
}

/// The model of a [`Progress`].
pub enum ProgressModel {
    Continue(PipelineModel),
    Finished(Seq<Seq<char>>),
}

/// A thumbnail set in which every slot is empty.
pub open spec fn blanks() -> Seq<Seq<char>> {
    Seq::new(SAMPLES as nat, |i: int| Seq::<char>::empty())
}

/// The offsets of the samples for a duration.
pub open spec fn sample_offsets(duration: Numeral) -> Seq<Numeral> {
    Seq::new(SAMPLES as nat, |i: int| sample_time(duration, i))
}

impl PipelineModel {
    /// The pipeline for the file at `path`, before any command has run.
    pub open spec fn initial(path: Seq<char>) -> PipelineModel {
        PipelineModel {
            path,
            stage: Stage::EncoderCheck,
            times: Seq::empty(),
            frames: Seq::empty(),
        }
    }

    /// Whether the pipeline waits for an extraction.
    pub open spec fn awaits_frame(self) -> bool {
        self.stage is Primary || self.stage is Fallback
    }

    /// Until the duration is known there are neither offsets nor frames;
    /// afterwards there are five offsets and at least one open slot. Every
    /// offset is written out.
    pub open spec fn wf(self) -> bool {
        &&& if self.awaits_frame() {
            self.times.len() == SAMPLES && self.frames.len() < SAMPLES
        } else {
            self.times.len() == 0 && self.frames.len() == 0
        }
        &&& forall|i: int| 0 <= i < self.times.len() ==> (#[trigger] self.times[i]).writable()
    }

    /// The offset of the next open slot, as the encoder is given it.
    pub open spec fn offset(self) -> Seq<char> {
        numeral_text(self.times[self.frames.len() as int])
    }

    /// The command whose outcome the pipeline waits for.
    pub open spec fn pending(self) -> CommandLine {
        match self.stage {
            Stage::EncoderCheck => version_query(Tool::Encoder),
            Stage::ProberCheck => version_query(Tool::Prober),
            Stage::DurationProbe => duration_query(self.path),
            Stage::Primary => primary_extraction(self.path, self.offset()),
            Stage::Fallback => fallback_extraction(self.path, self.offset()),
        }
    }

    /// The pipeline with another stage.
    pub open spec fn at(self, stage: Stage) -> PipelineModel {
        PipelineModel { stage, ..self }
    }

    /// What follows when the next open slot is filled with `text`: the set is
    /// finished with the fifth slot, else the next slot is taken up.
    pub open spec fn filled(self, text: Seq<char>) -> ProgressModel {
        let frames = self.frames.push(text);
        if frames.len() >= SAMPLES {
            ProgressModel::Finished(frames)
        } else {
            ProgressModel::Continue(PipelineModel { stage: Stage::Primary, frames, ..self })
        }
    }

    /// Most commands that are still to be run, the awaited one included.
    pub open spec fn remaining(self) -> nat {
        match self.stage {
            Stage::EncoderCheck => (3 + 2 * SAMPLES) as nat,
            Stage::ProberCheck => (2 + 2 * SAMPLES) as nat,
            Stage::DurationProbe => (1 + 2 * SAMPLES) as nat,
            Stage::Primary => (2 * (SAMPLES - self.frames.len())) as nat,
            Stage::Fallback => (2 * (SAMPLES - self.frames.len()) - 1) as nat,
        }
    }

    /// What follows when the awaited command has the outcome `report`.
    pub open spec fn advance(self, report: Report) -> ProgressModel {
        match self.stage {
            Stage::EncoderCheck => if report is Exited {
                ProgressModel::Continue(self.at(Stage::ProberCheck))
            } else {
                ProgressModel::Finished(blanks())
            },
            Stage::ProberCheck => if report is Exited {
                ProgressModel::Continue(self.at(Stage::DurationProbe))
            } else {
                ProgressModel::Finished(blanks())
            },
            Stage::DurationProbe => match duration_of(report) {
                Some(duration) => ProgressModel::Continue(
                    PipelineModel {
                        stage: Stage::Primary,
                        times: sample_offsets(duration),
                        ..self
                    },
                ),
                None => ProgressModel::Finished(blanks()),
            },
            Stage::Primary => match payload_of(report) {
                Some(text) => self.filled(text),
                None => if wants_fallback(report) {
                    ProgressModel::Continue(self.at(Stage::Fallback))
                } else {
                    self.filled(Seq::empty())
                },
            },
            Stage::Fallback => match payload_of(report) {
                Some(text) => self.filled(text),
                None => self.filled(Seq::empty()),
            },
        }
    }
}

/// The frame for one offset, as a host yields it: what the slot holds after
/// the first extraction and, where that is called for, the second.
pub open spec fn frame_in(
    host: spec_fn(CommandLine) -> Report,
    path: Seq<char>,
    offset: Numeral,
) -> Seq<char> {
    slot_text(
        host(primary_extraction(path, numeral_text(offset))),
        host(fallback_extraction(path, numeral_text(offset))),
    )
}

/// The frames for the samples of a duration, in the order of their offsets.
pub open spec fn frames_in(
    host: spec_fn(CommandLine) -> Report,
    path: Seq<char>,
    duration: Numeral,
) -> Seq<Seq<char>> {
    Seq::new(SAMPLES as nat, |i: int| frame_in(host, path, sample_time(duration, i)))
}

/// The thumbnail set of the file at `path`, where `host` says what each
/// command yields: all blanks where a tool cannot run or no duration is to be
/// had, else one frame for each sample.
pub open spec fn thumbnails_in(host: spec_fn(CommandLine) -> Report, path: Seq<char>) -> Seq<
    Seq<char>,
> {
    if !(host(version_query(Tool::Encoder)) is Exited) {
        blanks()
    } else if !(host(version_query(Tool::Prober)) is Exited) {
        blanks()
    } else {
        match duration_of(host(duration_query(path))) {
            Some(duration) => frames_in(host, path, duration),
            None => blanks(),
        }
    }
}

/// Whether the slot with index `i` gets a frame, where `host` says what each
/// command yields: it does where both tools run, the duration is known, and
/// the first extraction at the offset of the slot, or the second where that
/// is tried, gives one.
pub open spec fn frame_found_in(
    host: spec_fn(CommandLine) -> Report,
    path: Seq<char>,
    i: int,
) -> bool {
    &&& host(version_query(Tool::Encoder)) is Exited
    &&& host(version_query(Tool::Prober)) is Exited
    &&& match duration_of(host(duration_query(path))) {
        Some(duration) => has_frame(
            host(primary_extraction(path, numeral_text(sample_time(duration, i)))),
            host(fallback_extraction(path, numeral_text(sample_time(duration, i)))),
        ),
        None => false,
    }
}

/// What a request for thumbnails comes to: a refusal where the path holds no
/// regular file, whatever the host would yield, else the thumbnail set.
pub open spec fn thumbnails_requested(
    host: spec_fn(CommandLine) -> Report,
    path: Seq<char>,
    status: PathStatus,
) -> Result<Seq<Seq<char>>, Refusal> {
    match file_refusal(path, status) {
        Some(refusal) => Err(refusal),
        None => Ok(thumbnails_in(host, path)),
    }
}

/// What comes of driving a pipeline against a host for at most `steps`
/// commands: the thumbnail set, if the pipeline finishes within them.
pub open spec fn drive(
    host: spec_fn(CommandLine) -> Report,
    pipeline: PipelineModel,
    steps: nat,
) -> Option<Seq<Seq<char>>>
    decreases steps,
{
    if steps == 0 {
        None
    } else {
        match pipeline.advance(host(pipeline.pending())) {
            ProgressModel::Finished(frames) => Some(frames),
            ProgressModel::Continue(next) => drive(host, next, (steps - 1) as nat),
        }
    }
}

/// What a pipeline comes to when the host is asked the commands of `heard`
/// one after another and gives their outcomes: the thumbnail set, provided
/// that each command is the one the pipeline then waits for, that each
/// outcome is one that the host gives for its command, and that the pipeline
/// finishes with the last of them.
pub open spec fn heard_run<H: Fn(&Invocation) -> Outcome>(
    host: H,
    pipeline: PipelineModel,
    heard: Seq<(Invocation, Outcome)>,
) -> Option<Seq<Seq<char>>>
    decreases heard.len(),
{
    if heard.len() == 0 {
        None
    } else if heard[0].0@ == pipeline.pending() && call_ensures(host, (&heard[0].0,), heard[0].1) {
        match pipeline.advance(heard[0].1@) {
            ProgressModel::Finished(frames) => if heard.len() == 1 {
                Some(frames)
            } else {
                None
            },
            ProgressModel::Continue(next) => heard_run(host, next, heard.drop_first()),
        }
    } else {
        None
    }
}

/// Most commands that a run takes: three before the frames, and two for each
/// frame.
pub open spec fn longest_drive() -> nat {
    (3 + 2 * SAMPLES) as nat
}

/// The values of a list of decimals, in order.
pub open spec fn numerals(list: Seq<Decimal>) -> Seq<Numeral> {
    Seq::new(list.len(), |i: int| list[i]@)
}

/// A run of the thumbnail pipeline for one file, between two commands.
#[derive(Debug)]
pub struct ThumbnailPipeline {
    path: String,
    stage: Stage,
    times: Vec<Decimal>,
    frames: Vec<String>,
}

impl View for ThumbnailPipeline {
    type V = PipelineModel;

    closed spec fn view(&self) -> PipelineModel {
        PipelineModel {
            path: self.path@,
            stage: self.stage,
            times: numerals(self.times@),
            frames: texts(self.frames@),
        }
    }
}

/// What a pipeline asks of the host after an outcome.
#[derive(Debug)]
pub enum Progress {
    /// Run the command and hand its outcome to the pipeline.
    Continue(ThumbnailPipeline, Invocation),
    /// The thumbnail set is complete.
    Finished(Vec<String>),
}

impl View for Progress {
    type V = ProgressModel;

    open spec fn view(&self) -> ProgressModel {
        match self {
            Progress::Continue(pipeline, _) => ProgressModel::Continue(pipeline@),
            Progress::Finished(frames) => ProgressModel::Finished(texts(frames@)),
        }
    }
}

impl Progress {
    /// A pipeline that goes on is well formed, and the command beside it is
    /// the one it waits for.
    pub open spec fn wf(&self) -> bool {
        match self {
            Progress::Continue(pipeline, command) => pipeline@.wf() && command@
                == pipeline@.pending(),
            Progress::Finished(_) => true,
        }
    }
}

/// A thumbnail set in which every slot is empty.
pub fn blank_frames() -> (frames: Vec<String>)
    ensures
        texts(frames@) == blanks(),
{
    let mut frames: Vec<String> = Vec::new();
    let mut i: usize = 0;
    while i < SAMPLES
        invariant
            i <= SAMPLES,
            frames@.len() == i,
            forall|k: int| 0 <= k < i ==> (#[trigger] frames@[k])@ == Seq::<char>::empty(),
        decreases SAMPLES - i,
    {
        frames.push(String::new());
        i += 1;
    }
    assert(texts(frames@) =~= blanks());
    frames
}

impl ThumbnailPipeline {
    /// The model is well formed.
    #[verifier::type_invariant]
    spec fn well_formed(&self) -> bool {
        self@.wf()
    }

    /// Begins a run for the file at `path`, given what the host found there.
    /// A path that holds no regular file is refused before any command is
    /// named; otherwise the first command is the encoder's version query.
    pub fn start(path: &str, status: &PathStatus) -> (started: Result<
        (ThumbnailPipeline, Invocation),
        InputError,
    >)
        ensures
            match started {
                Ok((pipeline, command)) => {
                    &&& file_refusal(path@, *status) is None
                    &&& pipeline@ == PipelineModel::initial(path@)
                    &&& command@ == pipeline@.pending()
                },
                Err(error) => file_refusal(path@, *status) == Some(error@),
            },
    {
        match require_file(path, status) {
            Err(error) => Err(error),
            Ok(_) => {
                let pipeline = ThumbnailPipeline {
                    path: path.to_owned(),
                    stage: Stage::EncoderCheck,
                    times: Vec::new(),
                    frames: Vec::new(),
                };
                assert(pipeline@.times =~= Seq::empty());
                assert(pipeline@.frames =~= Seq::empty());
                Ok((pipeline, version_command(Tool::Encoder)))
            },
        }
    }

    /// Goes on with the command that the pipeline now waits for.
    fn request(self) -> (progress: Progress)
        ensures
            progress.wf(),
            progress@ == ProgressModel::Continue(self@),
    {
        proof {
            use_type_invariant(&self);
            if self@.awaits_frame() {
                let k = self.frames@.len() as int;
                assert(self@.times[k] == self.times@[k]@);
                assert(self@.times[k].writable());
            }
        }
        let command = match self.stage {
            Stage::EncoderCheck => version_command(Tool::Encoder),
            Stage::ProberCheck => version_command(Tool::Prober),
            Stage::DurationProbe => duration_command(self.path.as_str()),
            Stage::Primary => {
                let offset = self.times[self.frames.len()].to_text().unwrap();
                primary_command(self.path.as_str(), offset.as_str())
            },
            Stage::Fallback => {
                let offset = self.times[self.frames.len()].to_text().unwrap();
                fallback_command(self.path.as_str(), offset.as_str())
            },
        };
        Progress::Continue(self, command)
    }

    /// Fills the next open slot with `text`.
    fn fill(self, text: String) -> (progress: Progress)
        requires
            self@.awaits_frame(),
        ensures
            progress.wf(),
            progress@ == self@.filled(text@),
    {
        proof {
            use_type_invariant(&self);
        }
        let ghost before = self@;
        let ThumbnailPipeline { path, stage, times, mut frames } = self;
        frames.push(text);
        assert(texts(frames@) =~= before.frames.push(text@));
        if frames.len() >= SAMPLES {
            Progress::Finished(frames)
        } else {
            let next = ThumbnailPipeline { path, stage: Stage::Primary, times, frames };
            next.request()
        }
    }

    /// Whether the pipeline waits for an extraction.
    pub fn awaits_frame(&self) -> (waiting: bool)
        ensures
            waiting == self@.awaits_frame(),
    {
        match self.stage {
            Stage::Primary => true,
            Stage::Fallback => true,
            _ => false,
        }
    }

    /// Takes the outcome of the awaited command and says what to do next: the
    /// command to run, or the finished set of exactly five thumbnails. A
    /// frame that an extraction yields is never the empty text, so a slot is
    /// left empty only where no frame was obtained.
    pub fn advance(self, outcome: &Outcome) -> (progress: Progress)
        ensures
            progress.wf(),
            progress@ == self@.advance(outcome@),
            progress matches Progress::Finished(frames) ==> frames@.len() == SAMPLES,
            self@.awaits_frame() ==> (payload_of(outcome@) matches Some(text) ==> text.len() > 0),
    {
        proof {
            use_type_invariant(&self);
            lemma_advance_keeps_shape(self@, outcome@);
        }
        match self.stage {
            Stage::EncoderCheck => {
                if tool_available(outcome) {
                    let ThumbnailPipeline { path, stage, times, frames } = self;
                    let next = ThumbnailPipeline { path, stage: Stage::ProberCheck, times, frames };
                    next.request()
                } else {
                    Progress::Finished(blank_frames())
                }
            },
            Stage::ProberCheck => {
                if tool_available(outcome) {
                    let ThumbnailPipeline { path, stage, times, frames } = self;
                    let next = ThumbnailPipeline {
                        path,
                        stage: Stage::DurationProbe,
                        times,
                        frames,
                    };
                    next.request()
                } else {
                    Progress::Finished(blank_frames())
                }
            },
            Stage::DurationProbe => {
                match read_duration(outcome) {
                    Some(duration) => {
                        let ThumbnailPipeline { path, stage, times, frames } = self;
                        let times = sample_times(&duration);
                        assert(numerals(times@) =~= sample_offsets(duration@));
                        let next = ThumbnailPipeline { path, stage: Stage::Primary, times, frames };
                        next.request()
                    },
                    None => Progress::Finished(blank_frames()),
                }
            },
            Stage::Primary => {
                match frame_payload(outcome) {
                    Some(text) => self.fill(text),
                    None => {
                        if tool_available(outcome) {
                            let ThumbnailPipeline { path, stage, times, frames } = self;
                            let next = ThumbnailPipeline {
                                path,
                                stage: Stage::Fallback,
                                times,
                                frames,
                            };
                            next.request()
                        } else {
                            self.fill(String::new())
                        }
                    },
                }
            },
            Stage::Fallback => {
                match frame_payload(outcome) {
                    Some(text) => self.fill(text),
                    None => self.fill(String::new()),
                }
            },
        }
    }
}

/// Makes the thumbnails of the file at `file_path`: five frames, taken at
/// one to five tenths of its duration, each as base64 text, or as the empty
/// text where no frame could be had. `status` is what is found at the path,
/// and `host` runs a command and reports its outcome.
///
/// A path that holds no regular file is refused, and `host` is not asked.
/// Otherwise the set is what the pipeline comes to on outcomes that the host
/// gave for the commands of the pipeline, one after another. Where the host
/// has one answer to each command, that is the set that its answers define,
/// and a slot of it is empty exactly where no frame was had for it.
pub fn generate_video_thumbnails<H: Fn(&Invocation) -> Outcome>(
    file_path: &str,
    status: &PathStatus,
    host: H,
) -> (result: Result<Vec<String>, InputError>)
    requires
        forall|command: &Invocation| call_requires(host, (command,)),
    ensures
        match result {
            Ok(frames) => {
                &&& file_refusal(file_path@, *status) is None
                &&& frames@.len() == SAMPLES
                &&& exists|heard: Seq<(Invocation, Outcome)>| #[trigger]
                    heard_run(host, PipelineModel::initial(file_path@), heard) == Some(
                        texts(frames@),
                    )
                &&& forall|answers: spec_fn(CommandLine) -> Report| #[trigger]
                    answers_as(host, answers) ==> texts(frames@) == thumbnails_in(
                        answers,
                        file_path@,
                    )
                &&& forall|answers: spec_fn(CommandLine) -> Report, i: int|
                    #![trigger answers_as(host, answers), frames@[i]]
                    answers_as(host, answers) && 0 <= i < SAMPLES ==> (frames@[i]@.len() > 0
                        <==> frame_found_in(answers, file_path@, i))
            },
            Err(error) => file_refusal(file_path@, *status) == Some(error@),
        },
{
    let (mut pipeline, mut command) = match ThumbnailPipeline::start(file_path, status) {
        Ok(started) => started,
        Err(error) => {
            return Err(error);
        },
    };
    let ghost first = PipelineModel::initial(file_path@);
    let ghost mut so_far: Seq<(Invocation, Outcome)> = Seq::empty();
    proof {
        assert forall|rest: Seq<(Invocation, Outcome)>| #[trigger]
            heard_run(host, pipeline@, rest) is Some implies heard_run(host, first, so_far + rest)
            == heard_run(host, pipeline@, rest) by {
            assert(so_far + rest =~= rest);
        }
    }
    proof {
        assert forall|answers: spec_fn(CommandLine) -> Report| #[trigger]
            answers_as(host, answers) implies drive(answers, pipeline@, longest_drive()) == Some(
            thumbnails_in(answers, file_path@),
        ) by {
            lemma_drive_yields_thumbnails(answers, file_path@);
        }
    }
    loop
        invariant
            command@ == pipeline@.pending(),
            file_refusal(file_path@, *status) is None,
            first == PipelineModel::initial(file_path@),
            forall|rest: Seq<(Invocation, Outcome)>| #[trigger]
                heard_run(host, pipeline@, rest) is Some ==> heard_run(host, first, so_far + rest)
                    == heard_run(host, pipeline@, rest),
            forall|command: &Invocation| call_requires(host, (command,)),
            forall|answers: spec_fn(CommandLine) -> Report| #[trigger]
                answers_as(host, answers) ==> drive(answers, pipeline@, longest_drive()) == Some(
                    thumbnails_in(answers, file_path@),
                ),
        decreases pipeline@.remaining(),
    {
        let ghost before = pipeline@;
        let outcome = host(&command);
        proof {
            use_type_invariant(&pipeline);
            lemma_advance_keeps_shape(before, outcome@);
        }
        let ghost step = seq![(command, outcome)];
        match pipeline.advance(&outcome) {
            Progress::Continue(next, following) => {
                proof {
                    assert forall|rest: Seq<(Invocation, Outcome)>| #[trigger]
                        heard_run(host, next@, rest) is Some implies heard_run(
                        host,
                        first,
                        so_far.push((command, outcome)) + rest,
                    ) == heard_run(host, next@, rest) by {
                        let longer = step + rest;
                        assert(longer.drop_first() =~= rest);
                        assert(heard_run(host, before, longer) == heard_run(host, next@, rest));
                        assert(so_far + longer =~= so_far.push((command, outcome)) + rest);
                    }
                    so_far = so_far.push((command, outcome));
                    assert forall|answers: spec_fn(CommandLine) -> Report| #[trigger]
                        answers_as(host, answers) implies drive(
                        answers,
                        next@,
                        longest_drive(),
                    ) == Some(thumbnails_in(answers, file_path@)) by {
                        assert(outcome@ == answers(before.pending()));
                        assert(drive(answers, before, longest_drive()) == drive(
                            answers,
                            next@,
                            (longest_drive() - 1) as nat,
                        ));
                        lemma_drive_is_stable(
                            answers,
                            next@,
                            (longest_drive() - 1) as nat,
                            longest_drive(),
                        );
                    }
                }
                pipeline = next;
                command = following;
            },
            Progress::Finished(frames) => {
                proof {
                    assert(heard_run(host, before, step) == Some(texts(frames@)));
                    assert(heard_run(host, first, so_far + step) == Some(texts(frames@)));
                    assert forall|answers: spec_fn(CommandLine) -> Report, i: int|
                        #![trigger answers_as(host, answers), frames@[i]]
                        answers_as(host, answers) && 0 <= i < SAMPLES implies (frames@[i]@.len()
                        > 0 <==> frame_found_in(answers, file_path@, i)) by {
                        assert(outcome@ == answers(before.pending()));
                        assert(drive(answers, before, longest_drive()) == Some(texts(frames@)));
                        assert(texts(frames@)[i] == frames@[i]@);
                        lemma_slot_is_empty_without_frame_in(answers, file_path@, i);
                    }
                    assert forall|answers: spec_fn(CommandLine) -> Report| #[trigger]
                        answers_as(host, answers) implies texts(frames@) == thumbnails_in(
                        answers,
                        file_path@,
                    ) by {
                        assert(outcome@ == answers(before.pending()));
                        assert(drive(answers, before, longest_drive()) == Some(texts(frames@)));
                    }
                }
                return Ok(frames);
            },
        }
    }
}

/// A finished thumbnail set has exactly five slots, and a pipeline that goes
/// on stays well formed, keeps its file, and has fewer commands to come.
pub proof fn lemma_advance_keeps_shape(pipeline: PipelineModel, report: Report)
    requires
        pipeline.wf(),
    ensures
        match pipeline.advance(report) {
            ProgressModel::Finished(frames) => frames.len() == SAMPLES,
            ProgressModel::Continue(next) => {
                &&& next.wf()
                &&& next.path == pipeline.path
                &&& next.remaining() < pipeline.remaining()
            },
        },
{
}

/// More steps do not change what a run that finished came to.
pub proof fn lemma_drive_is_stable(
    host: spec_fn(CommandLine) -> Report,
    pipeline: PipelineModel,
    steps: nat,
    more: nat,
)
    requires
        drive(host, pipeline, steps) is Some,
        more >= steps,
    ensures
        drive(host, pipeline, more) == drive(host, pipeline, steps),
    decreases steps,
{
    if steps > 0 {
        match pipeline.advance(host(pipeline.pending())) {
            ProgressModel::Finished(frames) => {},
            ProgressModel::Continue(next) => {
                lemma_drive_is_stable(host, next, (steps - 1) as nat, (more - 1) as nat);
            },
        }
    }
}

/// From a pipeline that waits for the first extraction of a slot, with the
/// slots before it filled as the host yields them, the run comes to the frames
/// of all samples within two commands for each open slot.
proof fn lemma_drive_fills_slots(
    host: spec_fn(CommandLine) -> Report,
    pipeline: PipelineModel,
    duration: Numeral,
)
    requires
        pipeline.wf(),
        pipeline.stage is Primary,
        pipeline.times == sample_offsets(duration),
        pipeline.frames == frames_in(host, pipeline.path, duration).take(
            pipeline.frames.len() as int,
        ),
    ensures
        drive(host, pipeline, (2 * (SAMPLES - pipeline.frames.len())) as nat) == Some(
            frames_in(host, pipeline.path, duration),
        ),
    decreases SAMPLES - pipeline.frames.len(),
{
    let k = pipeline.frames.len() as int;
    let steps = (2 * (SAMPLES - k)) as nat;
    let all = frames_in(host, pipeline.path, duration);
    let primary = host(pipeline.pending());
    let fallback = host(pipeline.at(Stage::Fallback).pending());
    let slot = slot_text(primary, fallback);
    assert(pipeline.times[k] == sample_time(duration, k));
    assert(all[k] == slot);
    let filled = pipeline.frames.push(slot);
    assert(filled =~= all.take(k + 1));
    let after = PipelineModel { stage: Stage::Primary, frames: filled, ..pipeline };
    if k + 1 < SAMPLES {
        lemma_drive_fills_slots(host, after, duration);
        lemma_drive_is_stable(host, after, (steps - 2) as nat, (steps - 1) as nat);
    } else {
        assert(filled =~= all);
    }
    assert(pipeline.filled(slot) == if k + 1 < SAMPLES {
        ProgressModel::Continue(after)
    } else {
        ProgressModel::Finished(all)
    });
    if wants_fallback(primary) {
        let waiting = pipeline.at(Stage::Fallback);
        assert(pipeline.advance(primary) == ProgressModel::Continue(waiting));
        assert(waiting.advance(fallback) == pipeline.filled(slot));
        assert(drive(host, waiting, (steps - 1) as nat) == Some(all));
    } else {
        assert(pipeline.advance(primary) == pipeline.filled(slot));
    }
}

/// Driving a fresh pipeline against a host comes, within the longest run, to
/// the thumbnail set that the host's answers define.
pub proof fn lemma_drive_yields_thumbnails(host: spec_fn(CommandLine) -> Report, path: Seq<char>)
    ensures
        drive(host, PipelineModel::initial(path), longest_drive()) == Some(thumbnails_in(host, path)),
{
    let first = PipelineModel::initial(path);
    let second = first.at(Stage::ProberCheck);
    let third = first.at(Stage::DurationProbe);
    if host(version_query(Tool::Encoder)) is Exited {
        if host(version_query(Tool::Prober)) is Exited {
            match duration_of(host(duration_query(path))) {
                Some(duration) => {
                    let fourth = PipelineModel {
                        stage: Stage::Primary,
                        times: sample_offsets(duration),
                        ..third
                    };
                    assert(fourth.frames =~= frames_in(host, path, duration).take(0));
                    lemma_drive_fills_slots(host, fourth, duration);
                    assert(third.advance(host(third.pending())) == ProgressModel::Continue(
                        fourth,
                    ));
                    assert(drive(host, third, third.remaining()) == Some(thumbnails_in(host, path)));
                },
                None => {
                    assert(drive(host, third, third.remaining()) == Some(thumbnails_in(host, path)));
                },
            }
            assert(second.advance(host(second.pending())) == ProgressModel::Continue(third));
            assert(drive(host, second, second.remaining()) == Some(thumbnails_in(host, path)));
        } else {
            assert(drive(host, second, second.remaining()) == Some(thumbnails_in(host, path)));
        }
        assert(first.advance(host(first.pending())) == ProgressModel::Continue(second));
    }
}

/// A run that came to a set began with the command that the pipeline waited
/// for and with an outcome that the host gives for it; the set is what the
/// pipeline finished with on that outcome, or what the rest of the run came
/// to from the pipeline that went on.
pub proof fn lemma_heard_run_begins<H: Fn(&Invocation) -> Outcome>(
    host: H,
    pipeline: PipelineModel,
    heard: Seq<(Invocation, Outcome)>,
)
    requires
        heard_run(host, pipeline, heard) is Some,
    ensures
        heard.len() > 0,
        heard[0].0@ == pipeline.pending(),
        call_ensures(host, (&heard[0].0,), heard[0].1),
        match pipeline.advance(heard[0].1@) {
            ProgressModel::Finished(frames) => heard.len() == 1 && heard_run(
                host,
                pipeline,
                heard,
            ) == Some(frames),
            ProgressModel::Continue(next) => heard_run(host, pipeline, heard) == heard_run(
                host,
                next,
                heard.drop_first(),
            ),
        },
{
}

/// A slot of a thumbnail set is empty exactly where no frame was had for it.
pub proof fn lemma_slot_is_empty_without_frame_in(
    host: spec_fn(CommandLine) -> Report,
    path: Seq<char>,
    i: int,
)
    requires
        0 <= i < SAMPLES,
    ensures
        thumbnails_in(host, path)[i].len() > 0 <==> frame_found_in(host, path, i),
{
    match duration_of(host(duration_query(path))) {
        Some(duration) => {
            lemma_slot_is_empty_without_frame(
                host(primary_extraction(path, numeral_text(sample_time(duration, i)))),
                host(fallback_extraction(path, numeral_text(sample_time(duration, i)))),
            );
        },
        None => {},
    }
}

/// A thumbnail set has exactly five slots, whatever the host yields.
pub proof fn lemma_set_is_full(host: spec_fn(CommandLine) -> Report, path: Seq<char>)
    ensures
        thumbnails_in(host, path).len() == SAMPLES,
{
}

/// Where the encoder or the prober cannot be started, every slot is empty.
pub proof fn lemma_missing_tool_gives_blanks(host: spec_fn(CommandLine) -> Report, path: Seq<char>)
    requires
        host(version_query(Tool::Encoder)) is NotStarted || host(version_query(Tool::Prober))
            is NotStarted,
    ensures
        thumbnails_in(host, path) == blanks(),
        forall|i: int| 0 <= i < SAMPLES ==> #[trigger] thumbnails_in(host, path)[i].len() == 0,
{
}

/// Where the duration query yields no duration, every slot is empty.
pub proof fn lemma_missing_duration_gives_blanks(
    host: spec_fn(CommandLine) -> Report,
    path: Seq<char>,
)
    requires
        duration_of(host(duration_query(path))) is None,
    ensures
        thumbnails_in(host, path) == blanks(),
        forall|i: int| 0 <= i < SAMPLES ==> #[trigger] thumbnails_in(host, path)[i].len() == 0,
{
}

/// Where both tools run and the duration is known, the slot with index `i`
/// holds the frame for `i + 1` tenths of the duration, and depends on nothing
/// but what the host yields for the two extractions at that offset.
pub proof fn lemma_slot_holds_its_sample(
    host: spec_fn(CommandLine) -> Report,
    path: Seq<char>,
    duration: Numeral,
    i: int,
)
    requires
        host(version_query(Tool::Encoder)) is Exited,
        host(version_query(Tool::Prober)) is Exited,
        duration_of(host(duration_query(path))) == Some(duration),
        0 <= i < SAMPLES,
    ensures
        thumbnails_in(host, path)[i] == slot_text(
            host(primary_extraction(path, numeral_text(sample_time(duration, i)))),
            host(fallback_extraction(path, numeral_text(sample_time(duration, i)))),
        ),
{
}

/// Where both tools run, the duration is known, the first extraction for the
/// slot with index `i` ran without giving a frame, and the second exits with
/// success and prints bytes that are short enough to encode, the slot holds
/// the encoding of those bytes and is not empty.
pub proof fn lemma_fallback_frame_in(
    host: spec_fn(CommandLine) -> Report,
    path: Seq<char>,
    duration: Numeral,
    i: int,
    output: Seq<u8>,
)
    requires
        host(version_query(Tool::Encoder)) is Exited,
        host(version_query(Tool::Prober)) is Exited,
        duration_of(host(duration_query(path))) == Some(duration),
        0 <= i < SAMPLES,
        wants_fallback(host(primary_extraction(path, numeral_text(sample_time(duration, i))))),
        host(fallback_extraction(path, numeral_text(sample_time(duration, i)))) == (
        Report::Exited { success: true, output }),
        output.len() > 0,
        encodable(output.len()),
    ensures
        thumbnails_in(host, path)[i] == base64_text(output),
        thumbnails_in(host, path)[i].len() > 0,
{
    lemma_fallback_frame(
        host(primary_extraction(path, numeral_text(sample_time(duration, i)))),
        output,
    );
}

/// A slot holds the same under two hosts that agree on the tools, on the
/// duration and on the two extractions at the offset of that slot, whatever
/// they yield for the other slots.
pub proof fn lemma_other_slots_are_unaffected(
    first: spec_fn(CommandLine) -> Report,
    second: spec_fn(CommandLine) -> Report,
    path: Seq<char>,
    duration: Numeral,
    j: int,
)
    requires
        first(version_query(Tool::Encoder)) is Exited,
        first(version_query(Tool::Prober)) is Exited,
        second(version_query(Tool::Encoder)) is Exited,
        second(version_query(Tool::Prober)) is Exited,
        duration_of(first(duration_query(path))) == Some(duration),
        duration_of(second(duration_query(path))) == Some(duration),
        0 <= j < SAMPLES,
        first(primary_extraction(path, numeral_text(sample_time(duration, j)))) == second(
            primary_extraction(path, numeral_text(sample_time(duration, j))),
        ),
        first(fallback_extraction(path, numeral_text(sample_time(duration, j)))) == second(
            fallback_extraction(path, numeral_text(sample_time(duration, j))),
        ),
    ensures
        thumbnails_in(first, path)[j] == thumbnails_in(second, path)[j],
{
}

/// The offset that the encoder is given for the slot with index `i` is a
/// decimal text, and it denotes exactly `i + 1` tenths of the duration.
pub proof fn lemma_offset_denotes_sample(duration: Numeral, i: int, places: int)
    requires
        0 <= i < SAMPLES,
        places > duration.scale,
    ensures
        numeral_of(numeral_text(sample_time(duration, i))) matches Some(offset)
            && offset.same_value(sample_time(duration, i)),
        10 * sample_time(duration, i).units(places) == (i + 1) * duration.units(places),
{
    lemma_text_round_trip(sample_time(duration, i));
    lemma_sample_time_is_tenths(duration, i, places);
}

/// A path that holds no regular file is refused whatever the host would
/// yield: no command bears on the result.
pub proof fn lemma_refusal_ignores_host(
    first: spec_fn(CommandLine) -> Report,
    second: spec_fn(CommandLine) -> Report,
    path: Seq<char>,
    status: PathStatus,
)
    requires
        !status.exists || !status.is_file,
    ensures
        thumbnails_requested(first, path, status) is Err,
        thumbnails_requested(first, path, status) == thumbnails_requested(second, path, status),
{
}

} // verus!
