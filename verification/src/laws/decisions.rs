//! What the command line decides and what is said to its user.

use serde_json::Value;
use vstd::prelude::*;
use crate::cli;
use crate::cli::{ArgumentError, ArgumentErrorView, Outcome, PathUpdate, ProcessingProfile};
use crate::error;
use crate::error::{EwfErrorView, IoErrorKind, IoErrorView};
use crate::text;

verus! {

/// An option that takes a JSON object takes any object as it is and nothing
/// else, and the error names the option.
pub proof fn law_objects_are_taken(value: Value, cause: Seq<char>, field: Seq<char>)
    ensures
        cli::json_is_object(value) ==> cli::required_object(Ok(value), field) == Ok::<
            Value,
            ArgumentErrorView,
        >(value),
        !cli::json_is_object(value) ==> cli::required_object(Ok(value), field) == Err::<
            Value,
            ArgumentErrorView,
        >(ArgumentErrorView::NotObject { field }),
        cli::required_object(Err(cause), field) == Err::<Value, ArgumentErrorView>(
            ArgumentErrorView::NotJson { field, cause },
        ),
{
}

/// What is said of wrong arguments.
pub proof fn law_argument_errors_are_told(field: Seq<char>, cause: Seq<char>)
    ensures
        (ArgumentErrorView::NotJson { field, cause }).message() == "parsing --"@ + field
            + " as JSON"@,
        (ArgumentErrorView::NotObject { field }).message() == "--"@ + field
            + " must be a JSON object"@,
        (ArgumentErrorView::Conflict { field }).message() == "--"@ + field
            + " conflicts with --clear-"@ + field,
{
}

/// What is said of what a command has done.
pub proof fn law_outcomes_are_told(a: String, b: String, c: String, d: String, e: String)
    ensures
        cli::outcome_line((Outcome::CaseCreated { id: a, path: b })) == "Created case "@ + a@
            + " at "@ + b@,
        cli::outcome_line((Outcome::EvidenceAttached { id: a })) == "Attached evidence source "@
            + a@ + "; no indexing was run."@,
        cli::outcome_line(
            (Outcome::HistoryImported { label: a, path: b, records: c, visits: d, profile: e }),
        ) == "Detected "@ + a@ + " history database at "@ + b@ + " - parsed "@ + c@
            + " records ("@ + d@ + " visits) from profile "@ + e@ + "."@,
        cli::outcome_line((Outcome::FolderCreated { id: a })) == "Created bookmark folder "@ + a@,
        cli::outcome_line((Outcome::BookmarkCreated { id: a })) == "Created bookmark "@ + a@,
        cli::outcome_line((Outcome::ItemAdded { id: a })) == "Added bookmark item "@ + a@,
        cli::outcome_line((Outcome::ReportWritten { path: a, sha256: b })) == "Wrote report "@ + a@
            + " (file SHA-256 "@ + b@ + ")"@,
{
}

/// What is said of an image that cannot be read.
pub proof fn law_image_errors_are_told(io: IoErrorView, a: nat, b: nat, m: Seq<char>)
    ensures
        EwfErrorView::Io(io).message() == "I/O error: "@ + io.message,
        EwfErrorView::InvalidSignature.message() == "invalid EWF signature"@,
        (EwfErrorView::BufferTooShort { expected: a as int, got: b as int }).message()
            == "buffer too short: expected "@ + text::decimal(a) + ", got "@ + text::decimal(b),
        EwfErrorView::InvalidChunkSize(a as int).message() == "invalid chunk size: "@
            + text::decimal(a),
        EwfErrorView::MissingVolume.message() == "missing volume section"@,
        EwfErrorView::Decompression(m).message() == "decompression error: "@ + m,
        (EwfErrorView::SegmentGap { expected: a as int, got: b as int }).message()
            == "segment gap: expected segment "@ + text::decimal(a) + ", got "@ + text::decimal(b),
        EwfErrorView::NoSegments(m).message() == "no segment files found matching: "@ + m,
        EwfErrorView::Parse(m).message() == "parse error: "@ + m,
        EwfErrorView::EncryptedNotSupported.message()
            == "encrypted EWF2 images are not supported"@,
        error::short_read() matches EwfErrorView::Io(e) && e.kind == IoErrorKind::UnexpectedEof
            && e.message == "failed to fill whole buffer"@,
{
}

/// A job on metadata alone reads no content, and emails can be left out.
pub proof fn law_processing_profile(metadata_only: bool, skip_emails: bool, r: ProcessingProfile)
    requires
        call_ensures(cli::processing_profile, (metadata_only, skip_emails), r),
    ensures
        r.capture_content <==> !metadata_only,
        r.parse_browsers <==> !metadata_only,
        r.parse_emails <==> !metadata_only && !skip_emails,
{
}

/// A path is replaced if one is given, cleared if that is asked for, left as it
/// is if neither, and both together are refused.
pub proof fn law_path_update<P>(
    value: Option<P>,
    clear: bool,
    field: &str,
    r: Result<Option<PathUpdate<P>>, ArgumentError>,
)
    requires
        call_ensures(cli::path_update::<P>, (value, clear, field), r),
    ensures
        r is Err <==> value is Some && clear,
        r matches Err(e) ==> (e matches ArgumentError::Conflict { field: f } && f@ == field@),
        value is None && !clear ==> (r matches Ok(None)),
        value is None && clear ==> (r matches Ok(Some(PathUpdate::Clear))),
        value is Some && !clear ==> (r matches Ok(Some(PathUpdate::Replace(p))) && Some(p)
            == value),
{
    if r is Err {
        assert(r->Err_0@ is Conflict);
    }
}

/// The file system is read if that is said, and otherwise unless it is said that
/// it should not be.
pub proof fn law_reading_the_file_system(read: Option<bool>, no_read: bool, r: bool)
    requires
        call_ensures(cli::read_file_system_requested, (read, no_read), r),
    ensures
        read matches Some(b) ==> r == b,
        read is None ==> r == !no_read,
{
}

/// A directory is made for a report exactly if its path names one.
pub proof fn law_report_directory(parent: Option<String>, r: Option<String>)
    requires
        call_ensures(cli::report_directory, (parent,), r),
    ensures
        r is Some <==> (parent matches Some(p) && p@.len() > 0),
        r is Some ==> r == parent,
{
}

/// What is said is the text of what it is about.
pub proof fn law_lines(
    family: &str,
    database: String,
    outcome: Outcome,
    line: String,
    e: ArgumentError,
    text_of: String,
)
    requires
        call_ensures(cli::detected_database, (family,), database),
        call_ensures(Outcome::line, (&outcome,), line),
        call_ensures(ArgumentError::message, (&e,), text_of),
    ensures
        database@ == family@ + "_history_database"@,
        line@ == cli::outcome_line(outcome),
        text_of@ == e@.message(),
{
}

/// An option that takes a JSON object takes any object as it is and nothing
/// else. One that is not given is what an empty pair of braces is read as.
pub proof fn law_object_options(
    given: Option<String>,
    field: &str,
    r: Result<Value, ArgumentError>,
)
    requires
        call_ensures(cli::parse_optional_json_object, (given, field), r),
    ensures
        ({
            let written = match given {
                Some(s) => s@,
                None => "{}"@,
            };
            match cli::json_parsed(written) {
                Err(cause) => r matches Err(e) && e@ == (ArgumentErrorView::NotJson {
                    field: field@,
                    cause,
                }),
                Ok(value) => if cli::json_is_object(value) {
                    r matches Ok(v) && v == value
                } else {
                    r matches Err(e) && e@ == (ArgumentErrorView::NotObject { field: field@ })
                },
            }
        }),
{
}

/// What reading the text of an option came to decides about the option.
pub proof fn law_objects_are_required(
    parsed: Result<Value, String>,
    field: &str,
    r: Result<Value, ArgumentError>,
)
    requires
        call_ensures(cli::require_object, (parsed, field), r),
    ensures
        match parsed {
            Err(m) => r matches Err(e) && e@ == (ArgumentErrorView::NotJson {
                field: field@,
                cause: m@,
            }),
            Ok(value) => if cli::json_is_object(value) {
                r matches Ok(v) && v == value
            } else {
                r matches Err(e) && e@ == (ArgumentErrorView::NotObject { field: field@ })
            },
        },
{
    assert(cli::argument_view(r) == cli::required_object(cli::json_view(parsed), field@));
}

} // verus!
