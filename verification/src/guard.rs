//! Which payload lengths the codec reads in a window, and whether it can add
//! to each of them.
//!
//! The codec adds two to the length of a payload without a test. The walk
//! below goes through a window the way the codec does, from type byte to type
//! byte, and stops where the codec stops; a `$` in a text or in a payload is
//! passed over with the bytes around it.

use vstd::prelude::*;

verus! {

/// Whether `b` is an ASCII digit.
pub open spec fn is_digit(b: u8) -> bool {
    48 <= b <= 57
}

/// The number that the run of digits from index `from` on denotes, when the
/// digits before it have given `acc`.
pub open spec fn run_value(bytes: Seq<u8>, from: int, acc: int) -> int
    decreases bytes.len() - from,
{
    if 0 <= from < bytes.len() && is_digit(bytes[from]) {
        run_value(bytes, from + 1, acc * 10 + (bytes[from] - 48))
    } else {
        acc
    }
}

/// The number that the codec reads at index `from`: the digits there, if there
/// is one at least and their number fits in 64 bits.
pub open spec fn number_at(bytes: Seq<u8>, from: int) -> Option<int> {
    if 0 <= from < bytes.len() && is_digit(bytes[from]) && run_value(bytes, from, 0) <= u64::MAX {
        Some(run_value(bytes, from, 0))
    } else {
        None
    }
}

/// Where the line that starts at index `from` ends: the index of the first
/// carriage return with a line feed behind it, or `-1` where there is none.
pub open spec fn line_end_from(bytes: Seq<u8>, from: int) -> int
    decreases bytes.len() - from,
{
    if from < 0 || from + 1 >= bytes.len() {
        -1
    } else if bytes[from] == 13u8 && bytes[from + 1] == 10u8 {
        from
    } else {
        line_end_from(bytes, from + 1)
    }
}

/// Whether the codec, reading `pending` more frames from index `at` on, adds to
/// no payload length beyond `usize`.
///
/// A status, an error and an integer are a type byte and a line. A payload is
/// `$`, then either `-` and three more bytes, or a line with the length, that
/// many bytes and two more: this length is the one added to. A sequence is `*`
/// and a line with the count of frames that follow. The codec stops, and so
/// does the walk, where a line has no end, a number cannot be read or does not
/// fit, bytes are missing, or the type byte is none of these.
pub open spec fn walk_fits(bytes: Seq<u8>, at: int, pending: int) -> bool
    decreases bytes.len() - at,
{
    if pending <= 0 || at < 0 || at >= bytes.len() {
        true
    } else {
        let kind = bytes[at];
        let end = line_end_from(bytes, at + 1);
        if kind == 36u8 && at + 1 < bytes.len() && bytes[at + 1] == 45u8 {
            at + 5 > bytes.len() || walk_fits(bytes, at + 5, pending - 1)
        } else if end <= at || end + 2 > bytes.len() {
            true
        } else if kind == 43u8 || kind == 45u8 {
            walk_fits(bytes, end + 2, pending - 1)
        } else {
            match number_at(bytes, at + 1) {
                None => true,
                Some(number) => if number < 0 {
                    true
                } else if kind == 58u8 {
                    walk_fits(bytes, end + 2, pending - 1)
                } else if kind == 42u8 {
                    walk_fits(bytes, end + 2, pending - 1 + number)
                } else if kind == 36u8 {
                    number > usize::MAX || (number + 2 <= usize::MAX && (end + 2 + number + 2
                        > bytes.len() || walk_fits(bytes, end + 2 + number + 2, pending - 1)))
                } else {
                    true
                },
            }
        }
    }
}

/// Whether the codec can read `bytes` as the start of one frame without adding
/// to a payload length beyond `usize`.
pub open spec fn lengths_fit(bytes: Seq<u8>) -> bool {
    walk_fits(bytes, 0, 1)
}

/// A window that starts a status, an error or an integer, or no frame at all,
/// always fits: the codec reads a payload length only behind a `$` that is a
/// type byte, and a `$` in a text is none.
pub proof fn lemma_lines_always_fit(bytes: Seq<u8>)
    requires
        bytes.len() > 0 ==> bytes[0] != 36u8 && bytes[0] != 42u8,
    ensures
        lengths_fit(bytes),
{
    reveal_with_fuel(walk_fits, 2);
}

/// A window that starts a payload fits unless the codec reads its length and
/// that length is within two of the largest `usize`; a `$` in the payload
/// itself plays no part.
pub proof fn lemma_payload_fits_by_its_own_length(bytes: Seq<u8>)
    requires
        bytes.len() > 0,
        bytes[0] == 36u8,
    ensures
        lengths_fit(bytes) <==> !(bytes.len() > 1 && bytes[1] != 45u8 && line_end_from(bytes, 1)
            > 0 && number_at(bytes, 1) is Some && usize::MAX - 2 < number_at(bytes, 1)->Some_0
            <= usize::MAX),
{
    reveal_with_fuel(walk_fits, 2);
    lemma_line_end_in_range(bytes, 1);
    lemma_run_value_grows(bytes, 1, 0);
}

/// A line end lies at or behind where the search began, with its line feed
/// still in the bytes.
pub proof fn lemma_line_end_in_range(bytes: Seq<u8>, from: int)
    requires
        from >= 0,
    ensures
        line_end_from(bytes, from) == -1 || from <= line_end_from(bytes, from) < bytes.len() - 1,
    decreases bytes.len() - from,
{
    if from + 1 < bytes.len() && !(bytes[from] == 13u8 && bytes[from + 1] == 10u8) {
        lemma_line_end_in_range(bytes, from + 1);
    }
}

/// A run of digits never denotes less than what its first digits gave.
pub proof fn lemma_run_value_grows(bytes: Seq<u8>, from: int, acc: int)
    requires
        acc >= 0,
    ensures
        run_value(bytes, from, acc) >= acc,
    decreases bytes.len() - from,
{
    if 0 <= from < bytes.len() && is_digit(bytes[from]) {
        lemma_run_value_grows(bytes, from + 1, acc * 10 + (bytes[from] - 48));
    }
}

/// Finds the end of the line that starts at `from`.
fn find_line_end(bytes: &[u8], from: usize) -> (end: Option<usize>)
    requires
        from <= bytes@.len(),
    ensures
        match end {
            Some(at) => line_end_from(bytes@, from as int) == at && from <= at && at + 1
                < bytes@.len(),
            None => line_end_from(bytes@, from as int) == -1,
        },
{
    let total: usize = bytes.len();
    let mut at: usize = from;
    while at < total && at + 1 < total
        invariant
            total == bytes@.len(),
            from <= at <= total,
            line_end_from(bytes@, from as int) == line_end_from(bytes@, at as int),
        decreases total - at,
    {
        if bytes[at] == 13u8 && bytes[at + 1] == 10u8 {
            return Some(at);
        }
        at = at + 1;
    }
    None
}

/// Reads the number at `from` as the codec does.
fn read_number(bytes: &[u8], from: usize) -> (number: Option<u64>)
    requires
        from <= bytes@.len(),
    ensures
        match number {
            Some(value) => number_at(bytes@, from as int) == Some(value as int),
            None => number_at(bytes@, from as int) is None,
        },
{
    let total: usize = bytes.len();
    if from >= total || bytes[from] < 48u8 || bytes[from] > 57u8 {
        return None;
    }
    let mut next: usize = from;
    let mut acc: u64 = 0;
    while next < total && 48u8 <= bytes[next] && bytes[next] <= 57u8
        invariant
            total == bytes@.len(),
            from <= next <= total,
            run_value(bytes@, from as int, 0) == run_value(bytes@, next as int, acc as int),
        decreases total - next,
    {
        let d: u64 = (bytes[next] - 48u8) as u64;
        if acc > (u64::MAX - d) / 10 {
            proof {
                lemma_run_value_grows(bytes@, next + 1, acc * 10 + d);
            }
            return None;
        }
        acc = acc * 10 + d;
        next = next + 1;
    }
    Some(acc)
}

/// Tests [`lengths_fit`].
pub fn lengths_fit_in(bytes: &[u8]) -> (fit: bool)
    ensures
        fit == lengths_fit(bytes@),
{
    let total: usize = bytes.len();
    let mut at: usize = 0;
    let mut pending: u128 = 1;
    while pending > 0 && at < total
        invariant
            total == bytes@.len(),
            at <= total,
            pending <= 1 + at * 0xffff_ffff_ffff_ffff,
            lengths_fit(bytes@) == walk_fits(bytes@, at as int, pending as int),
        decreases total - at,
    {
        let kind: u8 = bytes[at];
        if kind == 36u8 && at + 1 < total && bytes[at + 1] == 45u8 {
            if total - at < 5 {
                return true;
            }
            assert(pending - 1 <= 1 + (at + 5) * 0xffff_ffff_ffff_ffff) by (nonlinear_arith)
                requires
                    pending <= 1 + at * 0xffff_ffff_ffff_ffff,
            ;
            at = at + 5;
            pending = pending - 1;
        } else {
            let end: usize = match find_line_end(bytes, at + 1) {
                Some(end) => end,
                None => {
                    return true;
                },
            };
            assert(pending - 1 + 0xffff_ffff_ffff_ffff <= 1 + (end + 2) * 0xffff_ffff_ffff_ffff
                && pending - 1 + 0xffff_ffff_ffff_ffff
                <= 0xffff_ffff_ffff_ffff_ffff_ffff_ffff_ffff) by (nonlinear_arith)
                requires
                    pending <= 1 + at * 0xffff_ffff_ffff_ffff,
                    at < end,
                    end <= 0xffff_ffff_ffff_ffff,
            ;
            if kind == 43u8 || kind == 45u8 {
                at = end + 2;
                pending = pending - 1;
            } else {
                let number: u64 = match read_number(bytes, at + 1) {
                    Some(number) => number,
                    None => {
                        return true;
                    },
                };
                if kind == 58u8 {
                    at = end + 2;
                    pending = pending - 1;
                } else if kind == 42u8 {
                    at = end + 2;
                    pending = pending - 1 + number as u128;
                } else if kind == 36u8 {
                    if number > usize::MAX as u64 {
                        return true;
                    }
                    if number > (usize::MAX - 2) as u64 {
                        return false;
                    }
                    let length: usize = number as usize;
                    if total - (end + 2) < length + 2 {
                        return true;
                    }
                    at = end + 2 + length + 2;
                    pending = pending - 1;
                } else {
                    return true;
                }
            }
        }
    }
    true
}

} // verus!
