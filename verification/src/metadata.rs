//! Metadata of a video, read from the prober's description of its container.
//!
//! The description is a JSON document with a list of streams and a block for
//! the container's format. Every field of the metadata is optional: what the
//! document lacks, or holds in another shape, is left unset.

use vstd::prelude::*;
use vstd::string::*;

use crate::decimal::{
    is_decimal_char, is_decimal_text, lemma_decimal_text_alphabet, lemma_decimal_text_is_ascii,
    numeral_of, Decimal, Numeral,
};
use crate::files::{file_refusal, require_file, InputError, PathStatus, Refusal};
use crate::json::{
    json_document, member_of, models, parse_document, text_of, unsigned_of, JsonModel, JsonValue,
};
use crate::process::{
    answers_as, metadata_command, metadata_query, CommandLine, Invocation, Outcome, Report,
};
use crate::text::{
    decode_lossy, first_index, lemma_first_index, lemma_first_index_at, lossy_text, same_text,
};

verus! {

/// A frame rate as a quotient of two numbers: the model of a [`FrameRate`].
pub struct RateModel {
    pub numerator: Numeral,
    pub denominator: Numeral,
}

/// A frame rate in frames per second, as the quotient of two numbers. The
/// denominator is never zero.
#[derive(Debug)]
pub struct FrameRate {
    pub numerator: Decimal,
    pub denominator: Decimal,
}

impl View for FrameRate {
    type V = RateModel;

    open spec fn view(&self) -> RateModel {
        RateModel { numerator: self.numerator@, denominator: self.denominator@ }
    }
}

impl FrameRate {
    /// The denominator is not zero.
    pub open spec fn wf(&self) -> bool {
        !self.denominator@.is_zero()
    }
}

/// The model of a [`VideoMetadata`].
pub struct MetadataModel {
    pub width: Option<u32>,
    pub height: Option<u32>,
    pub duration: Option<Numeral>,
    pub bitrate: Option<Seq<char>>,
    pub codec: Option<Seq<char>>,
    pub fps: Option<RateModel>,
}

/// What is known of a video: the size and the codec of its first video
/// stream, that stream's frame rate, and the container's duration in seconds
/// and bit rate. The bit rate is kept as the prober wrote it.
#[derive(Debug)]
pub struct VideoMetadata {
    pub width: Option<u32>,
    pub height: Option<u32>,
    pub duration: Option<Decimal>,
    pub bitrate: Option<String>,
    pub codec: Option<String>,
    pub fps: Option<FrameRate>,
}

/// The view of a text that may be absent.
pub open spec fn text_view(text: Option<String>) -> Option<Seq<char>> {
    match text {
        Some(inner) => Some(inner@),
        None => None,
    }
}

impl View for VideoMetadata {
    type V = MetadataModel;

    open spec fn view(&self) -> MetadataModel {
        MetadataModel {
            width: self.width,
            height: self.height,
            duration: match self.duration {
                Some(number) => Some(number@),
                None => None,
            },
            bitrate: text_view(self.bitrate),
            codec: text_view(self.codec),
            fps: match self.fps {
                Some(rate) => Some(rate@),
                None => None,
            },
        }
    }
}

impl VideoMetadata {
    /// The frame rate, where there is one, has a denominator other than zero.
    pub open spec fn wf(&self) -> bool {
        self.fps matches Some(rate) ==> rate.wf()
    }
}

/// Why the metadata of a file could not be had from the prober.
#[derive(Debug)]
pub enum ProbeFailure {
    /// The prober could not be started; `reason` is the system's message.
    NotStarted { reason: String },
    /// The prober exited with a failure.
    Unsuccessful,
    /// The prober printed something that is no JSON document.
    Unreadable,
}

/// The model of a [`ProbeFailure`].
pub enum FailureModel {
    NotStarted { reason: Seq<char> },
    Unsuccessful,
    Unreadable,
}

impl View for ProbeFailure {
    type V = FailureModel;

    open spec fn view(&self) -> FailureModel {
        match self {
            ProbeFailure::NotStarted { reason } => FailureModel::NotStarted { reason: reason@ },
            ProbeFailure::Unsuccessful => FailureModel::Unsuccessful,
            ProbeFailure::Unreadable => FailureModel::Unreadable,
        }
    }
}

impl FailureModel {
    /// The failure in words.
    pub open spec fn message(self) -> Seq<char> {
        match self {
            FailureModel::NotStarted { reason } => "Failed to execute ffprobe: "@ + reason,
            FailureModel::Unsuccessful => "FFprobe command failed"@,
            FailureModel::Unreadable => "Failed to parse video metadata JSON"@,
        }
    }
}

impl ProbeFailure {
    /// The failure in words.
    pub fn message(&self) -> (text: String)
        ensures
            text@ == self@.message(),
    {
        match self {
            ProbeFailure::NotStarted { reason } => {
                let mut text = "Failed to execute ffprobe: ".to_owned();
                text.append(reason.as_str());
                text
            },
            ProbeFailure::Unsuccessful => "FFprobe command failed".to_owned(),
            ProbeFailure::Unreadable => "Failed to parse video metadata JSON".to_owned(),
        }
    }
}

/// Whether a stream is tagged as video.
pub open spec fn is_video(stream: JsonModel) -> bool {
    text_of(stream.member("codec_type"@)) == Some("video"@)
}

/// The first of `streams` that is tagged as video.
pub open spec fn first_video(streams: Seq<JsonModel>) -> Option<JsonModel>
    decreases streams.len(),
{
    if streams.len() == 0 {
        None
    } else if is_video(streams[0]) {
        Some(streams[0])
    } else {
        first_video(streams.drop_first())
    }
}

/// The first video stream of a document: the first entry tagged as video of
/// its list of streams, where it has such a list.
pub open spec fn video_stream(document: JsonModel) -> Option<JsonModel> {
    match document.member("streams"@) {
        Some(list) => match list.elements() {
            Some(streams) => first_video(streams),
            None => None,
        },
        None => None,
    }
}

/// A width or height as the metadata holds it: the low 32 bits of the number
/// in the document.
pub open spec fn dimension(value: Option<u64>) -> Option<u32> {
    match value {
        Some(number) => Some((number % 0x1_0000_0000) as u32),
        None => None,
    }
}

/// The frame rate that a text of the form `numerator/denominator` denotes.
/// There is none where the text has no slash, where either side of the first
/// slash is no number (as whenever there is a second slash), or where the
/// denominator is zero.
pub open spec fn frame_rate_of(text: Seq<char>) -> Option<RateModel> {
    let slash = first_index(text, '/');
    if slash >= text.len() {
        None
    } else {
        match (numeral_of(text.take(slash)), numeral_of(text.skip(slash + 1))) {
            (Some(numerator), Some(denominator)) => if denominator.is_zero() {
                None
            } else {
                Some(RateModel { numerator, denominator })
            },
            _ => None,
        }
    }
}

/// The frame rate that an optional text denotes.
pub open spec fn optional_rate(text: Option<Seq<char>>) -> Option<RateModel> {
    match text {
        Some(inner) => frame_rate_of(inner),
        None => None,
    }
}

/// The number that an optional text denotes.
pub open spec fn optional_number(text: Option<Seq<char>>) -> Option<Numeral> {
    match text {
        Some(inner) => numeral_of(inner),
        None => None,
    }
}

/// The metadata that a document describes.
pub open spec fn metadata_of(document: JsonModel) -> MetadataModel {
    let stream = video_stream(document);
    let format = document.member("format"@);
    MetadataModel {
        width: dimension(unsigned_of(member_of(stream, "width"@))),
        height: dimension(unsigned_of(member_of(stream, "height"@))),
        duration: optional_number(text_of(member_of(format, "duration"@))),
        bitrate: text_of(member_of(format, "bit_rate"@)),
        codec: text_of(member_of(stream, "codec_name"@)),
        fps: optional_rate(text_of(member_of(stream, "r_frame_rate"@))),
    }
}

/// What a metadata query yields: the metadata of the document that the
/// prober printed, or the reason why there is none.
pub open spec fn metadata_reading(report: Report) -> Result<MetadataModel, FailureModel> {
    match report {
        Report::NotStarted { reason } => Err(FailureModel::NotStarted { reason }),
        Report::Exited { success, output } => if !success {
            Err(FailureModel::Unsuccessful)
        } else {
            match json_document(lossy_text(output)) {
                Some(document) => Ok(metadata_of(document)),
                None => Err(FailureModel::Unreadable),
            }
        },
    }
}

/// Why a request for metadata has no answer.
#[derive(Debug)]
pub enum MetadataError {
    /// The path holds no regular file.
    Refused(InputError),
    /// The prober gave no document.
    Failed(ProbeFailure),
}

impl MetadataError {
    /// The reason in words.
    pub fn message(&self) -> (text: String)
        ensures
            text@ == match self {
                MetadataError::Refused(refusal) => refusal@.message(),
                MetadataError::Failed(failure) => failure@.message(),
            },
    {
        match self {
            MetadataError::Refused(refusal) => refusal.message(),
            MetadataError::Failed(failure) => failure.message(),
        }
    }
}

/// What a request for metadata comes to.
pub enum RequestModel {
    /// The path holds no regular file.
    Refused(Refusal),
    /// The prober gave no document.
    Failed(FailureModel),
    /// The metadata of the document that the prober printed.
    Read(MetadataModel),
}

/// What a request for the metadata of the file at `path` comes to, where
/// `host` says what each command yields: a refusal where the path holds no
/// regular file, else the reading of the one metadata query.
pub open spec fn metadata_requested(
    host: spec_fn(CommandLine) -> Report,
    path: Seq<char>,
    status: PathStatus,
) -> RequestModel {
    match file_refusal(path, status) {
        Some(refusal) => RequestModel::Refused(refusal),
        None => reading_model(metadata_reading(host(metadata_query(path)))),
    }
}

/// The model of the answer to a request.
pub open spec fn answer_model(answer: Result<VideoMetadata, MetadataError>) -> RequestModel {
    match answer {
        Ok(metadata) => RequestModel::Read(metadata@),
        Err(MetadataError::Refused(refusal)) => RequestModel::Refused(refusal@),
        Err(MetadataError::Failed(failure)) => RequestModel::Failed(failure@),
    }
}

/// What a reading comes to as the answer to a request.
pub open spec fn reading_model(reading: Result<MetadataModel, FailureModel>) -> RequestModel {
    match reading {
        Ok(metadata) => RequestModel::Read(metadata),
        Err(failure) => RequestModel::Failed(failure),
    }
}

/// The model of a value that may be absent.
pub open spec fn optional_model(value: Option<&JsonValue>) -> Option<JsonModel> {
    match value {
        Some(inner) => Some(inner@),
        None => None,
    }
}

/// A text that denotes a frame rate holds ASCII characters only.
proof fn lemma_rate_text_is_ascii(text: Seq<char>)
    requires
        frame_rate_of(text) is Some,
    ensures
        vstd::utf8::is_ascii_chars(text),
{
    let slash = first_index(text, '/');
    let left = text.take(slash);
    let right = text.skip(slash + 1);
    lemma_first_index(text, '/');
    lemma_decimal_text_is_ascii(left);
    lemma_decimal_text_is_ascii(right);
    assert forall|i: int| 0 <= i < text.len() implies '\0' <= #[trigger] text[i] <= '\u{7f}' by {
        if i < slash {
            assert(left[i] == text[i]);
        } else if i > slash {
            assert(right[i - slash - 1] == text[i]);
        }
    }
}

/// Reads a frame rate written as `numerator/denominator`.
pub fn read_frame_rate(text: &str) -> (rate: Option<FrameRate>)
    ensures
        match rate {
            Some(found) => found.wf() && frame_rate_of(text@) == Some(found@),
            None => frame_rate_of(text@) is None,
        },
{
    if !text.is_ascii() {
        proof {
            if frame_rate_of(text@) is Some {
                lemma_rate_text_is_ascii(text@);
            }
        }
        return None;
    }
    let bytes = text.as_bytes();
    let n = bytes.len();
    proof {
        is_ascii_spec_bytes(text);
    }
    let mut slash: usize = 0;
    while slash < n && bytes[slash] != 47
        invariant
            slash <= n,
            n == text@.len(),
            bytes@.len() == n,
            is_ascii(text),
            forall|k: int| 0 <= k < n ==> bytes@[k] == #[trigger] text@[k] as u8,
            forall|k: int| 0 <= k < slash ==> #[trigger] text@[k] != '/',
        decreases n - slash,
    {
        slash += 1;
    }
    proof {
        lemma_first_index_at(text@, '/', slash as int);
    }
    if slash >= n {
        return None;
    }
    let left = text.substring_ascii(0, slash);
    let right = text.substring_ascii(slash + 1, n);
    assert(left@ =~= text@.take(slash as int));
    assert(right@ =~= text@.skip(slash + 1));
    match Decimal::parse(left) {
        Some(numerator) => match Decimal::parse(right) {
            Some(denominator) => {
                if denominator.is_zero() {
                    None
                } else {
                    Some(FrameRate { numerator, denominator })
                }
            },
            None => None,
        },
        None => None,
    }
}

/// Looks up the member named `key` of a value that may be absent.
fn member_in<'a>(value: Option<&'a JsonValue>, key: &str) -> (found: Option<&'a JsonValue>)
    ensures
        optional_model(found) == member_of(optional_model(value), key@),
{
    match value {
        Some(outer) => outer.member(key),
        None => None,
    }
}

/// The text of a value that may be absent.
fn text_in<'a>(value: Option<&'a JsonValue>) -> (found: Option<&'a str>)
    ensures
        match found {
            Some(text) => text_of(optional_model(value)) == Some(text@),
            None => text_of(optional_model(value)) is None,
        },
{
    match value {
        Some(inner) => inner.text(),
        None => None,
    }
}

/// A copy of the text of a value that may be absent.
fn owned_text_in(value: Option<&JsonValue>) -> (found: Option<String>)
    ensures
        text_view(found) == text_of(optional_model(value)),
{
    match text_in(value) {
        Some(text) => Some(text.to_owned()),
        None => None,
    }
}

/// The width or height that a value holds.
fn dimension_in(value: Option<&JsonValue>) -> (found: Option<u32>)
    ensures
        found == dimension(unsigned_of(optional_model(value))),
{
    match value {
        Some(inner) => match inner.unsigned() {
            Some(number) => Some((number % 0x1_0000_0000) as u32),
            None => None,
        },
        None => None,
    }
}

/// Whether a stream is tagged as video.
fn tagged_as_video(stream: &JsonValue) -> (video: bool)
    ensures
        video == is_video(stream@),
{
    match text_in(stream.member("codec_type")) {
        Some(tag) => same_text(tag, "video"),
        None => false,
    }
}

/// Finds the first video stream of a document.
fn find_video_stream(document: &JsonValue) -> (found: Option<&JsonValue>)
    ensures
        optional_model(found) == video_stream(document@),
{
    match document.member("streams") {
        Some(list) => match list.elements() {
            Some(streams) => {
                let ghost all = models(streams@);
                let mut i: usize = 0;
                assert(all.skip(0) =~= all);
                while i < streams.len()
                    invariant
                        i <= streams@.len(),
                        all == models(streams@),
                        video_stream(document@) == first_video(all),
                        first_video(all) == first_video(all.skip(i as int)),
                    decreases streams@.len() - i,
                {
                    let ghost rest = all.skip(i as int);
                    assert(rest[0] == streams@[i as int]@);
                    assert(rest.drop_first() =~= all.skip(i + 1));
                    if tagged_as_video(&streams[i]) {
                        return Some(&streams[i]);
                    }
                    i += 1;
                }
                None
            },
            None => None,
        },
        None => None,
    }
}

/// Reads the metadata that a document describes.
pub fn extract_metadata(document: &JsonValue) -> (metadata: VideoMetadata)
    ensures
        metadata.wf(),
        metadata@ == metadata_of(document@),
{
    let stream = find_video_stream(document);
    let format = document.member("format");
    let duration = match text_in(member_in(format, "duration")) {
        Some(text) => Decimal::parse(text),
        None => None,
    };
    let fps = match text_in(member_in(stream, "r_frame_rate")) {
        Some(text) => read_frame_rate(text),
        None => None,
    };
    VideoMetadata {
        width: dimension_in(member_in(stream, "width")),
        height: dimension_in(member_in(stream, "height")),
        duration,
        bitrate: owned_text_in(member_in(format, "bit_rate")),
        codec: owned_text_in(member_in(stream, "codec_name")),
        fps,
    }
}

/// Reads the outcome of a metadata query.
pub fn read_metadata(outcome: &Outcome) -> (reading: Result<VideoMetadata, ProbeFailure>)
    ensures
        match reading {
            Ok(metadata) => metadata.wf() && metadata_reading(outcome@) == Ok::<
                MetadataModel,
                FailureModel,
            >(metadata@),
            Err(failure) => metadata_reading(outcome@) == Err::<MetadataModel, FailureModel>(
                failure@,
            ),
        },
{
    match outcome {
        Outcome::NotStarted { reason } => Err(ProbeFailure::NotStarted { reason: reason.clone() }),
        Outcome::Exited { success, output } => {
            if !*success {
                Err(ProbeFailure::Unsuccessful)
            } else {
                let text = decode_lossy(output.as_slice());
                match parse_document(text.as_str()) {
                    Some(document) => Ok(extract_metadata(&document)),
                    None => Err(ProbeFailure::Unreadable),
                }
            }
        },
    }
}

/// Names the metadata query for the file at `path`, given what the host
/// found there. A path that holds no regular file is refused, and no command
/// is named.
pub fn request_metadata(path: &str, status: &PathStatus) -> (request: Result<
    Invocation,
    InputError,
>)
    ensures
        match request {
            Ok(command) => file_refusal(path@, *status) is None && command@ == metadata_query(
                path@,
            ),
            Err(error) => file_refusal(path@, *status) == Some(error@),
        },
{
    match require_file(path, status) {
        Ok(_) => Ok(metadata_command(path)),
        Err(error) => Err(error),
    }
}

/// Reads the metadata of the video at `file_path`. `status` is what is found
/// at the path, and `host` runs a command and reports its outcome.
///
/// A path that holds no regular file is refused, and `host` is not asked.
/// Otherwise the answer is the reading of an outcome that the host gave for
/// the one metadata query.
pub fn get_video_metadata<H: Fn(&Invocation) -> Outcome>(
    file_path: &str,
    status: &PathStatus,
    host: H,
) -> (result: Result<VideoMetadata, MetadataError>)
    requires
        forall|command: &Invocation| call_requires(host, (command,)),
    ensures
        result matches Ok(metadata) ==> metadata.wf(),
        match file_refusal(file_path@, *status) {
            Some(refusal) => answer_model(result) == RequestModel::Refused(refusal),
            None => exists|command: &Invocation, outcome: Outcome|
                (command@ == metadata_query(file_path@) && #[trigger] call_ensures(
                    host,
                    (command,),
                    outcome,
                ) && answer_model(result) == reading_model(metadata_reading(outcome@))),
        },
        forall|answers: spec_fn(CommandLine) -> Report| #[trigger]
            answers_as(host, answers) ==> answer_model(result) == metadata_requested(
                answers,
                file_path@,
                *status,
            ),
{
    let command = match request_metadata(file_path, status) {
        Ok(command) => command,
        Err(refusal) => {
            return Err(MetadataError::Refused(refusal));
        },
    };
    let outcome = host(&command);
    match read_metadata(&outcome) {
        Ok(metadata) => Ok(metadata),
        Err(failure) => Err(MetadataError::Failed(failure)),
    }
}

/// The quotient of two numbers written with a slash between them is their
/// frame rate, unless the denominator is zero: then there is no frame rate.
pub proof fn lemma_frame_rate_of_quotient(left: Seq<char>, right: Seq<char>)
    requires
        is_decimal_text(left),
        is_decimal_text(right),
    ensures
        frame_rate_of(left + seq!['/'] + right) == if numeral_of(right)->0.is_zero() {
            None
        } else {
            Some(RateModel { numerator: numeral_of(left)->0, denominator: numeral_of(right)->0 })
        },
{
    let text = left + seq!['/'] + right;
    lemma_decimal_text_alphabet(left);
    assert forall|j: int| 0 <= j < left.len() implies #[trigger] text[j] != '/' by {
        assert(is_decimal_char(left[j]));
    }
    lemma_first_index_at(text, '/', left.len() as int);
    assert(text.take(left.len() as int) =~= left);
    assert(text.skip(left.len() as int + 1) =~= right);
}

/// A text whose denominator denotes zero has no frame rate.
pub proof fn lemma_zero_denominator_has_no_rate(text: Seq<char>)
    requires
        numeral_of(text.skip(first_index(text, '/') + 1)) matches Some(denominator)
            && denominator.is_zero(),
    ensures
        frame_rate_of(text) is None,
{
}

/// A frame rate that was read has a denominator other than zero.
pub proof fn lemma_rate_has_denominator(text: Seq<char>)
    ensures
        frame_rate_of(text) matches Some(rate) ==> !rate.denominator.is_zero(),
{
}

/// A request is answered from the path, what the host found there, and what
/// the host yields for the one metadata query: hosts that agree on that
/// query give the same answer, whatever else they differ in.
pub proof fn lemma_request_is_repeatable(
    first: spec_fn(CommandLine) -> Report,
    second: spec_fn(CommandLine) -> Report,
    path: Seq<char>,
    status: PathStatus,
)
    requires
        first(metadata_query(path)) == second(metadata_query(path)),
    ensures
        metadata_requested(first, path, status) == metadata_requested(second, path, status),
{
}

/// A path that holds no regular file is refused whatever the host would
/// yield: no command bears on the answer.
pub proof fn lemma_refused_request_ignores_host(
    first: spec_fn(CommandLine) -> Report,
    second: spec_fn(CommandLine) -> Report,
    path: Seq<char>,
    status: PathStatus,
)
    requires
        !status.exists || !status.is_file,
    ensures
        metadata_requested(first, path, status) is Refused,
        metadata_requested(first, path, status) == metadata_requested(second, path, status),
{
}

/// A reading fails only where the prober did not start, exited with a
/// failure, or printed what is no JSON document. What a document lacks is
/// left unset and fails nothing.
pub proof fn lemma_reading_fails_only_on_probe(report: Report)
    ensures
        metadata_reading(report) is Ok <==> (report matches Report::Exited { success, output }
            && success && json_document(lossy_text(output)) is Some),
{
}

/// A document without a video stream leaves all that comes from the stream
/// unset, and one without a format block all that comes from the format.
pub proof fn lemma_absent_parts_are_unset(document: JsonModel)
    ensures
        video_stream(document) is None ==> (metadata_of(document).width is None && metadata_of(
            document,
        ).height is None && metadata_of(document).codec is None && metadata_of(document).fps
            is None),
        document.member("format"@) is None ==> (metadata_of(document).duration is None
            && metadata_of(document).bitrate is None),
{
}

/// A field that the video stream or the format block lacks is left unset,
/// and the other fields are read all the same.
pub proof fn lemma_absent_field_is_unset(document: JsonModel)
    ensures
        member_of(video_stream(document), "r_frame_rate"@) is None ==> metadata_of(
            document,
        ).fps is None,
        member_of(video_stream(document), "width"@) is None ==> metadata_of(document).width
            is None,
        member_of(video_stream(document), "height"@) is None ==> metadata_of(document).height
            is None,
        member_of(video_stream(document), "codec_name"@) is None ==> metadata_of(
            document,
        ).codec is None,
        member_of(document.member("format"@), "duration"@) is None ==> metadata_of(
            document,
        ).duration is None,
        member_of(document.member("format"@), "bit_rate"@) is None ==> metadata_of(
            document,
        ).bitrate is None,
{
}

} // verus!
