//! The duration of a container, as the prober prints it, and the offsets at
//! which frames are sampled.

use vstd::prelude::*;

use crate::decimal::{
    lemma_small_scale_is_writable, numeral_of, pow10, Decimal, Numeral, PADDING_LIMIT,
};
use crate::process::{Outcome, Report};
use crate::text::{decode_lossy, lossy_text, trim_text, trimmed};

verus! {

/// Number of thumbnails in a set.
pub const SAMPLES: usize = 5;

/// Whether a number serves as a duration: it does where it is greater than
/// zero and the offsets of its samples are written out.
pub open spec fn usable(number: Numeral) -> bool {
    &&& number.is_positive()
    &&& forall|i: int| 0 <= i < SAMPLES ==> (#[trigger] sample_time(number, i)).writable()
}

/// The number that a printed duration denotes, where it serves as one.
pub open spec fn positive_duration(text: Seq<char>) -> Option<Numeral> {
    match numeral_of(trimmed(text)) {
        Some(number) => if usable(number) {
            Some(number)
        } else {
            None
        },
        None => None,
    }
}

/// The duration that a duration query yields. There is none where the prober
/// did not start, exited with a failure, or printed anything but a number
/// that serves as a duration.
pub open spec fn duration_of(report: Report) -> Option<Numeral> {
    match report {
        Report::Exited { success, output } => if success {
            positive_duration(lossy_text(output))
        } else {
            None
        },
        Report::NotStarted { .. } => None,
    }
}

/// The offset of the sample with the given index: `index + 1` tenths of the
/// duration.
pub open spec fn sample_time(duration: Numeral, index: int) -> Numeral {
    Numeral {
        negative: duration.negative,
        mantissa: (duration.mantissa * (index + 1)) as nat,
        scale: duration.scale + 1,
    }
}

/// Reads a printed duration: white space around it is ignored, and it counts
/// only where it is a number greater than zero whose sample offsets are
/// written out.
pub fn read_duration_text(text: &str) -> (duration: Option<Decimal>)
    ensures
        match duration {
            Some(d) => positive_duration(text@) == Some(d@),
            None => positive_duration(text@) is None,
        },
{
    match Decimal::parse(trim_text(text)) {
        Some(number) => {
            if !number.is_positive() {
                return None;
            }
            let mut k: u8 = 0;
            while k < 5
                invariant
                    k <= 5,
                    numeral_of(trimmed(text@)) == Some(number@),
                    number@.is_positive(),
                    forall|i: int| 0 <= i < k ==> (#[trigger] sample_time(number@, i)).writable(),
                decreases 5 - k,
            {
                let offset = number.tenths(k + 1);
                assert(offset@ == sample_time(number@, k as int));
                if !offset.is_writable() {
                    assert(!sample_time(number@, k as int).writable());
                    return None;
                }
                k += 1;
            }
            Some(number)
        },
        None => None,
    }
}

/// Reads the outcome of a duration query.
pub fn read_duration(outcome: &Outcome) -> (duration: Option<Decimal>)
    ensures
        match duration {
            Some(d) => duration_of(outcome@) == Some(d@),
            None => duration_of(outcome@) is None,
        },
{
    match outcome {
        Outcome::Exited { success, output } => {
            if *success {
                let text = decode_lossy(output.as_slice());
                read_duration_text(text.as_str())
            } else {
                None
            }
        },
        Outcome::NotStarted { .. } => None,
    }
}

/// The offsets at which frames are sampled: one, two, three, four and five
/// tenths of the duration, in that order.
pub fn sample_times(duration: &Decimal) -> (times: Vec<Decimal>)
    ensures
        times@.len() == SAMPLES,
        forall|i: int| 0 <= i < SAMPLES ==> (#[trigger] times@[i])@ == sample_time(duration@, i),
{
    let mut times: Vec<Decimal> = Vec::new();
    let mut k: u8 = 0;
    while k < 5
        invariant
            k <= 5,
            times@.len() == k,
            forall|i: int| 0 <= i < k ==> (#[trigger] times@[i])@ == sample_time(duration@, i),
        decreases 5 - k,
    {
        times.push(duration.tenths(k + 1));
        k += 1;
    }
    times
}

/// The sample with index `i` lies at exactly `i + 1` tenths of the duration:
/// counted in units of any `10^-places` that both can be counted in, ten
/// times the offset is `i + 1` times the duration.
pub proof fn lemma_sample_time_is_tenths(duration: Numeral, i: int, places: int)
    requires
        0 <= i < SAMPLES,
        places > duration.scale,
    ensures
        10 * sample_time(duration, i).units(places) == (i + 1) * duration.units(places),
{
    let m = duration.mantissa;
    let low = pow10((places - duration.scale - 1) as nat);
    assert(sample_time(duration, i).scale == duration.scale + 1);
    assert(pow10((places - duration.scale) as nat) == 10 * low);
    assert(10 * ((m * (i + 1)) * low) == (i + 1) * (m * (10 * low))) by (nonlinear_arith);
    assert(10 * (-((m * (i + 1)) * low)) == (i + 1) * (-(m * (10 * low)))) by (nonlinear_arith);
}

/// The samples of a duration greater than zero lie in ascending order,
/// after the start and before the end: counted in units of
/// `10^-(scale + 1)`, they are `1, 2, 3, 4, 5` times the mantissa, and the
/// duration is ten times the mantissa.
pub proof fn lemma_sample_times_ascend(duration: Numeral, i: int, j: int)
    requires
        duration.is_positive(),
        0 <= i < j < SAMPLES,
    ensures
        sample_time(duration, i).scale == sample_time(duration, j).scale == duration.scale + 1,
        0 < sample_time(duration, i).mantissa < sample_time(duration, j).mantissa,
        sample_time(duration, j).mantissa < 10 * duration.mantissa,
        sample_time(duration, i).is_positive(),
        sample_time(duration, j).is_positive(),
{
    let m = duration.mantissa;
    assert(0 < m * (i + 1) < m * (j + 1) < 10 * m) by (nonlinear_arith)
        requires
            m > 0,
            0 <= i < j < 5,
    ;
}

/// Every number greater than zero whose scale lies within the limit of added
/// zeros serves as a duration: one read from a text with up to 1023 digits
/// after the point and no exponent, among others.
pub proof fn lemma_usable_by_scale(number: Numeral)
    requires
        number.is_positive(),
        -PADDING_LIMIT <= number.scale < PADDING_LIMIT,
    ensures
        usable(number),
{
    assert forall|i: int| 0 <= i < SAMPLES implies (#[trigger] sample_time(
        number,
        i,
    )).writable() by {
        lemma_small_scale_is_writable(sample_time(number, i));
    }
}

/// A duration query that did not start, that failed, or that printed
/// anything but a number that serves as a duration yields none; any other
/// yields the number printed.
pub proof fn lemma_duration_cases(report: Report)
    ensures
        match report {
            Report::NotStarted { .. } => duration_of(report) is None,
            Report::Exited { success, output } => if !success {
                duration_of(report) is None
            } else {
                match numeral_of(trimmed(lossy_text(output))) {
                    Some(number) => if usable(number) {
                        duration_of(report) == Some(number)
                    } else {
                        duration_of(report) is None
                    },
                    None => duration_of(report) is None,
                }
            },
        },
        duration_of(report) matches Some(duration) ==> duration.is_positive(),
{
}

} // verus!
