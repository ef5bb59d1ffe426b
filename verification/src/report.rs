//! Errors as text for the user: what went wrong, and where in the source.

use crate::beats::Beats;
use crate::beats::Ratio;
use crate::text::decimal_text;
use crate::text::push_decimal;
use crate::types::beats_total;
use crate::types::literal_text;
use crate::types::CompileError;
use crate::types::CompileErrorView;
use crate::types::Literal;
use crate::types::LiteralView;
use vstd::prelude::*;
use vstd::string::*;

verus! {

/// The ending of a noun that is counted: none for one, `s` for any other
/// number.
pub open spec fn plural_ending(count: usize) -> Seq<char> {
    if count == 1 {
        Seq::empty()
    } else {
        "s"@
    }
}

/// The ending of a counted noun.
pub fn pluralize(count: usize) -> (r: &'static str)
    ensures
        r@ == plural_ending(count),
{
    proof {
        reveal_strlit("");
        assert(""@ =~= Seq::<char>::empty());
    }
    if count == 1 {
        ""
    } else {
        "s"
    }
}

/// Where a literal stands: its text in quotes, its line and its column.
pub open spec fn place_text(l: LiteralView) -> Seq<char> {
    "\""@ + l.literal + "\", line "@ + decimal_text(l.lineno as nat) + ", col "@ + decimal_text(
        l.colno as nat,
    )
}

/// A number of beats: the numerator, and after a slash the denominator
/// unless it is one; a question mark for a sum that could not be held.
pub open spec fn beats_text(total: Option<Ratio>) -> Seq<char> {
    match total {
        Some(beats) => if beats.denom == 1 {
            decimal_text(beats.numer)
        } else {
            decimal_text(beats.numer) + "/"@ + decimal_text(beats.denom)
        },
        None => "?"@,
    }
}

/// One track's line of a report on measure counts.
pub open spec fn count_line(track: u32, count: usize) -> Seq<char> {
    "    Track "@ + decimal_text(track as nat) + " has "@ + decimal_text(count as nat)
        + " measure"@ + plural_ending(count)
}

/// The message for an error.
pub open spec fn error_text(e: CompileErrorView) -> Seq<char> {
    match e {
        CompileErrorView::InvalidSyntax(literal) => "\n    Invalid syntax.\n\n    "@ + place_text(
            literal,
        ) + "\n"@,
        CompileErrorView::Generic(message) => "\n  Generic error: "@ + message + "\n"@,
        CompileErrorView::GenericSyntax(message) => "\n  Generic error: "@ + message + "\n"@,
        CompileErrorView::Unexpected(message, token, literal) => "\n  Unexpected token: "@
            + message + "\n    Problematic token -- "@ + place_text(literal) + "\n"@,
        CompileErrorView::PreambleOrder(section, first, offender) =>
            "\n  Cannot declare preamble element after staff has begun.\n    In this section --          "@
            + place_text(section) + "\n    Staff begins here --        "@ + place_text(first)
            + "\n    Problematic element is --   "@ + place_text(offender) + "\n"@,
        CompileErrorView::EmptyMeasure(start, end) =>
            "\n  Empty measure.\n    Measure starts here -- "@ + place_text(start)
            + "\n    Measure ends here -- "@ + place_text(end) + "\n"@,
        CompileErrorView::TimeSignatureViolation { measure, time_signature, nominal } =>
            "\n    Time signature violation.\n\n    This measure is "@ + beats_text(
            beats_total(measure.notes),
        ) + " beats, which violates time signature ("@ + decimal_text(nominal.0 as nat) + ", "@
            + decimal_text(nominal.1 as nat) + ")\n    Time signature declared here -- "@
            + literal_text(time_signature) + "\n    Initiating element --  "@ + literal_text(
            measure.start,
        ) + "\n    Terminating element -- "@ + literal_text(measure.end) + "\n"@,
        CompileErrorView::NetworkError(message) => "\n    Network error.\n\n    "@ + message
            + "\n"@,
        CompileErrorView::FileError(message) => "\n    File IO error.\n\n    "@ + message + "\n"@,
        CompileErrorView::TrackTooLarge => "\n    Track too large; API call failed.\n\n"@,
        CompileErrorView::TooManyRequests => "\n    Too many requests; API call failed.\n\n"@,
        CompileErrorView::DifferingMeasureCounts(a, a_count, b, b_count) =>
            "\n    Tracks have inconsistent length.\n\n"@ + count_line(a, a_count) + ";\n"@
            + count_line(b, b_count) + ".\n"@,
        CompileErrorView::EmptyTrack(track) => "\n    Track "@ + decimal_text(track as nat)
            + " contains no measures.\n\n"@,
    }
}

/// Appends where a literal stands.
fn push_place(out: &mut String, literal: &Literal)
    ensures
        final(out)@ == old(out)@ + place_text(literal@),
{
    let ghost head = out@;
    out.append("\"");
    out.append(literal.literal.as_str());
    out.append("\", line ");
    push_decimal(out, literal.lineno as u64);
    out.append(", col ");
    push_decimal(out, literal.colno as u64);
    assert(out@ =~= head + place_text(literal@));
}

/// Appends a number of beats.
fn push_beats(out: &mut String, total: &Option<Beats>)
    ensures
        final(out)@ == old(out)@ + beats_text(
            match *total {
                Some(beats) => Some(beats@),
                None => None,
            },
        ),
{
    let ghost head = out@;
    match total {
        Some(beats) => {
            push_decimal(out, beats.numer());
            if beats.denom() != 1 {
                out.append("/");
                push_decimal(out, beats.denom());
            }
            assert(out@ =~= head + beats_text(Some(beats@)));
        },
        None => {
            out.append("?");
        },
    }
}

/// Appends one track's line of a report on measure counts.
fn push_count_line(out: &mut String, track: u32, count: usize)
    ensures
        final(out)@ == old(out)@ + count_line(track, count),
{
    let ghost head = out@;
    out.append("    Track ");
    push_decimal(out, track as u64);
    out.append(" has ");
    push_decimal(out, count as u64);
    out.append(" measure");
    out.append(pluralize(count));
    assert(out@ =~= head + count_line(track, count));
}

/// The message that tells the user of an error.
pub fn error_message(error: &CompileError) -> (r: String)
    ensures
        r@ == error_text(error@),
{
    let mut out = String::new();
    match error {
        CompileError::InvalidSyntax(literal) => {
            out.append("\n    Invalid syntax.\n\n    ");
            push_place(&mut out, literal);
            out.append("\n");
        },
        CompileError::Generic(message) => {
            out.append("\n  Generic error: ");
            out.append(message.as_str());
            out.append("\n");
        },
        CompileError::GenericSyntax(message) => {
            out.append("\n  Generic error: ");
            out.append(message.as_str());
            out.append("\n");
        },
        CompileError::Unexpected(message, token, literal) => {
            out.append("\n  Unexpected token: ");
            out.append(message.as_str());
            out.append("\n    Problematic token -- ");
            push_place(&mut out, literal);
            out.append("\n");
        },
        CompileError::PreambleOrder(section, first, offender) => {
            out.append(
                "\n  Cannot declare preamble element after staff has begun.\n    In this section --          ",
            );
            push_place(&mut out, section);
            out.append("\n    Staff begins here --        ");
            push_place(&mut out, first);
            out.append("\n    Problematic element is --   ");
            push_place(&mut out, offender);
            out.append("\n");
        },
        CompileError::EmptyMeasure(start, end) => {
            out.append("\n  Empty measure.\n    Measure starts here -- ");
            push_place(&mut out, start);
            out.append("\n    Measure ends here -- ");
            push_place(&mut out, end);
            out.append("\n");
        },
        CompileError::TimeSignatureViolation { measure, time_signature, nominal } => {
            out.append("\n    Time signature violation.\n\n    This measure is ");
            let total = measure.count_beats();
            push_beats(&mut out, &total);
            out.append(" beats, which violates time signature (");
            push_decimal(&mut out, nominal.0 as u64);
            out.append(", ");
            push_decimal(&mut out, nominal.1 as u64);
            out.append(")\n    Time signature declared here -- ");
            let declared = time_signature.to_string();
            out.append(declared.as_str());
            out.append("\n    Initiating element --  ");
            let start = measure.start.to_string();
            out.append(start.as_str());
            out.append("\n    Terminating element -- ");
            let end = measure.end.to_string();
            out.append(end.as_str());
            out.append("\n");
        },
        CompileError::NetworkError(message) => {
            out.append("\n    Network error.\n\n    ");
            out.append(message.as_str());
            out.append("\n");
        },
        CompileError::FileError(message) => {
            out.append("\n    File IO error.\n\n    ");
            out.append(message.as_str());
            out.append("\n");
        },
        CompileError::TrackTooLarge => {
            out.append("\n    Track too large; API call failed.\n\n");
        },
        CompileError::TooManyRequests => {
            out.append("\n    Too many requests; API call failed.\n\n");
        },
        CompileError::DifferingMeasureCounts(a, a_count, b, b_count) => {
            out.append("\n    Tracks have inconsistent length.\n\n");
            push_count_line(&mut out, *a, *a_count);
            out.append(";\n");
            push_count_line(&mut out, *b, *b_count);
            out.append(".\n");
        },
        CompileError::EmptyTrack(track) => {
            out.append("\n    Track ");
            push_decimal(&mut out, *track as u64);
            out.append(" contains no measures.\n\n");
        },
    }
    assert(out@ =~= error_text(error@));
    out
}

} // verus!
