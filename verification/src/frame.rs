//! Frames as the encoder prints them, and the text that stands for them.

use base64::Engine;
use vstd::prelude::*;

use crate::process::{Outcome, Report};

verus! {

/// The character that stands for the six bits `v` in the standard base64
/// alphabet: `A` to `Z`, `a` to `z`, `0` to `9`, `+` and `/`.
pub open spec fn base64_char(v: int) -> char {
    if v < 26 {
        (65 + v) as char
    } else if v < 52 {
        (71 + v) as char
    } else if v < 62 {
        (v - 4) as char
    } else if v == 62 {
        '+'
    } else {
        '/'
    }
}

/// The standard base64 encoding of `bytes`, with padding: four characters
/// for every three bytes, six bits to a character, and a last group of one
/// or two bytes filled up with `=`.
pub open spec fn base64_text(bytes: Seq<u8>) -> Seq<char>
    decreases bytes.len(),
{
    if bytes.len() == 0 {
        Seq::empty()
    } else if bytes.len() == 1 {
        seq![base64_char((bytes[0] / 4) as int), base64_char((bytes[0] % 4) * 16), '=', '=']
    } else if bytes.len() == 2 {
        seq![
            base64_char((bytes[0] / 4) as int),
            base64_char((bytes[0] % 4) * 16 + bytes[1] / 16),
            base64_char((bytes[1] % 16) * 4),
            '=',
        ]
    } else {
        seq![
            base64_char((bytes[0] / 4) as int),
            base64_char((bytes[0] % 4) * 16 + bytes[1] / 16),
            base64_char((bytes[1] % 16) * 4 + bytes[2] / 64),
            base64_char((bytes[2] % 64) as int),
        ] + base64_text(bytes.skip(3))
    }
}

/// The encoding of `n` bytes has four characters for every three bytes or
/// part of three.
pub proof fn lemma_base64_length(bytes: Seq<u8>)
    ensures
        base64_text(bytes).len() == base64_length(bytes.len()),
    decreases bytes.len(),
{
    if bytes.len() >= 3 {
        lemma_base64_length(bytes.skip(3));
    }
}

/// Length of the padded base64 encoding of `n` bytes.
pub open spec fn base64_length(n: nat) -> nat {
    4 * ((n + 2) / 3)
}

/// Whether the encoding of `n` bytes fits in one allocation.
pub open spec fn encodable(n: nat) -> bool {
    base64_length(n) <= isize::MAX
}

/// Encodes bytes with the `STANDARD` engine of the base64 crate.
///
/// Trusted: the result is the standard encoding with padding. Inputs whose
/// encoding would not fit in an allocation are left out, since the engine
/// panics on them.
#[verifier::external_body]
pub(crate) fn encode_base64(bytes: &[u8]) -> (text: String)
    requires
        encodable(bytes@.len()),
    ensures
        text@ == base64_text(bytes@),
{
    base64::engine::general_purpose::STANDARD.encode(bytes)
}

/// The frame that an extraction yields, as text: the encoding of the output
/// where the encoder exited with success and printed anything, else none.
/// An output too long to be encoded counts as none.
pub open spec fn payload_of(report: Report) -> Option<Seq<char>> {
    match report {
        Report::Exited { success, output } => if success && output.len() > 0 && encodable(
            output.len(),
        ) {
            Some(base64_text(output))
        } else {
            None
        },
        Report::NotStarted { .. } => None,
    }
}

/// Whether the second extraction is tried after the first: only where the
/// encoder ran and gave no frame. Where it could not even be started, the
/// slot is given up at once.
pub open spec fn wants_fallback(primary: Report) -> bool {
    primary is Exited && payload_of(primary) is None
}

/// What a slot of the thumbnail set holds, given what the first extraction
/// yields and what the second would yield: the first frame obtained, or the
/// empty text where there is none.
pub open spec fn slot_text(primary: Report, fallback: Report) -> Seq<char> {
    match payload_of(primary) {
        Some(text) => text,
        None => if wants_fallback(primary) {
            match payload_of(fallback) {
                Some(text) => text,
                None => Seq::empty(),
            }
        } else {
            Seq::empty()
        },
    }
}

/// Whether a number of output bytes can be encoded as a frame.
pub fn output_fits(length: usize) -> (fits: bool)
    ensures
        fits == encodable(length as nat),
{
    let groups = if length % 3 == 0 {
        length / 3
    } else {
        length / 3 + 1
    };
    assert(groups == (length + 2) / 3);
    groups <= (isize::MAX as usize) / 4
}

/// Reads the outcome of an extraction: the encoded frame, or none where the
/// encoder did not start, failed, or printed nothing. A frame is never the
/// empty text.
pub fn frame_payload(outcome: &Outcome) -> (payload: Option<String>)
    ensures
        match payload {
            Some(text) => payload_of(outcome@) == Some(text@) && text@.len() > 0,
            None => payload_of(outcome@) is None,
        },
{
    match outcome {
        Outcome::Exited { success, output } => {
            if *success && output.len() > 0 && output_fits(output.len()) {
                proof {
                    lemma_base64_length(output@);
                }
                Some(encode_base64(output.as_slice()))
            } else {
                None
            }
        },
        Outcome::NotStarted { .. } => None,
    }
}

/// Where the first extraction ran without giving a frame and the second
/// gives one, the slot holds the frame of the second.
pub proof fn lemma_fallback_fills_slot(primary: Report, fallback: Report, text: Seq<char>)
    requires
        wants_fallback(primary),
        payload_of(fallback) == Some(text),
    ensures
        slot_text(primary, fallback) == text,
{
}

/// A frame is never the empty text.
pub proof fn lemma_payload_is_not_empty(report: Report)
    ensures
        payload_of(report) matches Some(text) ==> text.len() > 0,
{
    if let Report::Exited { output, .. } = report {
        lemma_base64_length(output);
    }
}

/// Whether a slot gets a frame: from the first extraction, or from the
/// second where that is tried.
pub open spec fn has_frame(primary: Report, fallback: Report) -> bool {
    payload_of(primary) is Some || (wants_fallback(primary) && payload_of(fallback) is Some)
}

/// A slot is empty exactly where it got no frame: the empty text stands for
/// nothing else.
pub proof fn lemma_slot_is_empty_without_frame(primary: Report, fallback: Report)
    ensures
        slot_text(primary, fallback).len() > 0 <==> has_frame(primary, fallback),
{
    lemma_payload_is_not_empty(primary);
    lemma_payload_is_not_empty(fallback);
}

/// Where the first extraction ran without giving a frame and the second
/// exits with success and prints bytes that are short enough to encode, the
/// slot holds the encoding of those bytes, which is not empty.
pub proof fn lemma_fallback_frame(primary: Report, output: Seq<u8>)
    requires
        wants_fallback(primary),
        output.len() > 0,
        encodable(output.len()),
    ensures
        slot_text(primary, Report::Exited { success: true, output }) == base64_text(output),
        base64_text(output).len() > 0,
{
    lemma_base64_length(output);
}

/// Where neither extraction gives a frame, the slot is empty.
pub proof fn lemma_no_frame_leaves_slot_empty(primary: Report, fallback: Report)
    requires
        payload_of(primary) is None,
        payload_of(fallback) is None,
    ensures
        slot_text(primary, fallback) == Seq::<char>::empty(),
{
}

} // verus!
