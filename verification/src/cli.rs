//! Decisions of the command line: what its arguments ask for.

use serde_json::Value;
use vstd::prelude::*;

verus! {

/// What is wrong with the arguments of a command.
#[derive(Debug, PartialEq, Eq)]
pub enum ArgumentError {
    /// An option that takes JSON got something else; `cause` says where.
    NotJson { field: String, cause: String },
    /// An option that takes a JSON object got another value.
    NotObject { field: String },
    /// An option was both set and cleared.
    Conflict { field: String },
}

/// An [`ArgumentError`] over sequences of characters.
#[verifier::ext_equal]
pub enum ArgumentErrorView {
    NotJson { field: Seq<char>, cause: Seq<char> },
    NotObject { field: Seq<char> },
    Conflict { field: Seq<char> },
}

impl View for ArgumentError {
    type V = ArgumentErrorView;

    open spec fn view(&self) -> ArgumentErrorView {
        match *self {
            ArgumentError::NotJson { field, cause } => ArgumentErrorView::NotJson {
                field: field@,
                cause: cause@,
            },
            ArgumentError::NotObject { field } => ArgumentErrorView::NotObject { field: field@ },
            ArgumentError::Conflict { field } => ArgumentErrorView::Conflict { field: field@ },
        }
    }
}

impl ArgumentErrorView {
    /// The error as a line of text.
    pub open spec fn message(self) -> Seq<char> {
        match self {
            ArgumentErrorView::NotJson { field, .. } => "parsing --"@ + field + " as JSON"@,
            ArgumentErrorView::NotObject { field } => "--"@ + field + " must be a JSON object"@,
            ArgumentErrorView::Conflict { field } => "--"@ + field + " conflicts with --clear-"@
                + field,
        }
    }
}

impl ArgumentError {
    /// The error as a line of text.
    pub fn message(&self) -> (r: String)
        ensures
            r@ == self@.message(),
    {
        match self {
            ArgumentError::NotJson { field, .. } => {
                let mut m: String = "parsing --".to_owned();
                m.append(field.as_str());
                m.append(" as JSON");
                m
            },
            ArgumentError::NotObject { field } => {
                let mut m: String = "--".to_owned();
                m.append(field.as_str());
                m.append(" must be a JSON object");
                m
            },
            ArgumentError::Conflict { field } => {
                let mut m: String = "--".to_owned();
                m.append(field.as_str());
                m.append(" conflicts with --clear-");
                m.append(field.as_str());
                m
            },
        }
    }
}

/// `serde_json::Value`: a JSON value.
#[verifier::external_type_specification]
#[verifier::external_body]
pub struct ExValue(serde_json::Value);

/// The JSON value that a text writes, or what is wrong with the text.
pub uninterp spec fn json_parsed(text: Seq<char>) -> Result<Value, Seq<char>>;

/// Whether a JSON value is an object.
pub uninterp spec fn json_is_object(value: Value) -> bool;

/// The outcome of reading JSON, with the message as a sequence.
pub open spec fn json_view(r: Result<Value, String>) -> Result<Value, Seq<char>> {
    match r {
        Ok(v) => Ok(v),
        Err(m) => Err(m@),
    }
}

/// `serde_json::from_str` reads a JSON value. The name stands for which value
/// or error it is.
#[verifier::external_body]
fn json_from_str(text: &str) -> (r: Result<Value, String>)
    ensures
        json_view(r) == json_parsed(text@),
{
    serde_json::from_str(text).map_err(|e| e.to_string())
}

/// `Value::is_object` tells whether a value is an object.
#[verifier::external_body]
fn check_object(value: &Value) -> (r: bool)
    ensures
        r == json_is_object(*value),
{
    value.is_object()
}

/// `Value::Object` over `serde_json::Map::new`: the empty object, which is what
/// `serde_json::from_str` reads from an empty pair of braces.
#[verifier::external_body]
fn empty_object() -> (r: Value)
    ensures
        json_is_object(r),
        json_view(Ok(r)) == json_parsed("{}"@),
{
    Value::Object(serde_json::Map::new())
}

/// The object that an option gives, from what reading its text came to.
pub open spec fn required_object(parsed: Result<Value, Seq<char>>, field: Seq<char>) -> Result<
    Value,
    ArgumentErrorView,
> {
    match parsed {
        Err(cause) => Err(ArgumentErrorView::NotJson { field, cause }),
        Ok(value) => if json_is_object(value) {
            Ok(value)
        } else {
            Err(ArgumentErrorView::NotObject { field })
        },
    }
}

/// A value or an argument error, over sequences.
pub open spec fn argument_view<T>(r: Result<T, ArgumentError>) -> Result<T, ArgumentErrorView> {
    match r {
        Ok(v) => Ok(v),
        Err(e) => Err(e@),
    }
}

/// Takes the object out of what reading the text of an option came to.
pub fn require_object(parsed: Result<Value, String>, field: &str) -> (r: Result<
    Value,
    ArgumentError,
>)
    ensures
        argument_view(r) == required_object(json_view(parsed), field@),
{
    match parsed {
        Err(cause) => Err(ArgumentError::NotJson { field: field.to_owned(), cause }),
        Ok(value) => if check_object(&value) {
            Ok(value)
        } else {
            Err(ArgumentError::NotObject { field: field.to_owned() })
        },
    }
}

/// Reads an option that takes a JSON object. An option that is not given is
/// the empty object, which always does.
pub fn parse_optional_json_object(value: Option<String>, field: &str) -> (r: Result<
    Value,
    ArgumentError,
>)
    ensures
        argument_view(r) == required_object(
            json_parsed(
                match value {
                    Some(text) => text@,
                    None => "{}"@,
                },
            ),
            field@,
        ),
{
    match value {
        Some(text) => require_object(json_from_str(text.as_str()), field),
        None => Ok(empty_object()),
    }
}

/// What becomes of an option that holds a path.
#[derive(Debug, PartialEq, Eq)]
pub enum PathUpdate<P> {
    Replace(P),
    Clear,
}

/// Reads a path option and its `clear` counterpart. Neither leaves the path as
/// it is; both are an error.
pub fn path_update<P>(value: Option<P>, clear: bool, field: &str) -> (r: Result<
    Option<PathUpdate<P>>,
    ArgumentError,
>)
    ensures
        argument_view(r) == match (value, clear) {
            (Some(_), true) => Err(ArgumentErrorView::Conflict { field: field@ }),
            (Some(path), false) => Ok(Some(PathUpdate::Replace(path))),
            (None, true) => Ok(Some(PathUpdate::Clear)),
            (None, false) => Ok(None),
        },
{
    match (value, clear) {
        (Some(_), true) => Err(ArgumentError::Conflict { field: field.to_owned() }),
        (Some(path), false) => Ok(Some(PathUpdate::Replace(path))),
        (None, true) => Ok(Some(PathUpdate::Clear)),
        (None, false) => Ok(None),
    }
}

/// Which parts of the evidence a processing job reads.
#[derive(Debug, Clone, Copy, PartialEq, Eq, Structural)]
pub struct ProcessingProfile {
    pub capture_content: bool,
    pub parse_emails: bool,
    pub parse_browsers: bool,
}

/// The profile of a processing job. A job on metadata alone reads no content.
pub fn processing_profile(metadata_only: bool, skip_emails: bool) -> (r: ProcessingProfile)
    ensures
        r.capture_content == !metadata_only,
        r.parse_emails == (!metadata_only && !skip_emails),
        r.parse_browsers == !metadata_only,
{
    ProcessingProfile {
        capture_content: !metadata_only,
        parse_emails: !metadata_only && !skip_emails,
        parse_browsers: !metadata_only,
    }
}

/// Whether reading the file system is asked for: it is, unless an option says
/// otherwise.
pub fn read_file_system_requested(read: Option<bool>, no_read: bool) -> (r: bool)
    ensures
        r == match read {
            Some(b) => b,
            None => !no_read,
        },
{
    match read {
        Some(b) => b,
        None => !no_read,
    }
}

/// The directory that has to exist before a report with this parent directory
/// is written, if there is one to name.
pub fn report_directory(parent: Option<String>) -> (r: Option<String>)
    ensures
        r == match parent {
            Some(p) => if p@.len() > 0 {
                Some(p)
            } else {
                None
            },
            None => None,
        },
{
    match parent {
        Some(p) => if crate::text::chars_of(p.as_str()).len() > 0 {
            Some(p)
        } else {
            None
        },
        None => None,
    }
}

/// What is reported of a browser history database of this family.
pub fn detected_database(family: &str) -> (r: String)
    ensures
        r@ == family@ + "_history_database"@,
{
    let mut m: String = family.to_owned();
    m.append("_history_database");
    m
}

/// What a command has done. Numbers are given as they are written.
#[derive(Debug, PartialEq, Eq)]
pub enum Outcome {
    /// A case was created.
    CaseCreated { id: String, path: String },
    /// Evidence was attached to a case.
    EvidenceAttached { id: String },
    /// A browser history database was given as evidence and imported.
    HistoryImported {
        label: String,
        path: String,
        records: String,
        visits: String,
        profile: String,
    },
    /// A bookmark folder was created.
    FolderCreated { id: String },
    /// A bookmark was created.
    BookmarkCreated { id: String },
    /// An item was added to a bookmark.
    ItemAdded { id: String },
    /// A report was written.
    ReportWritten { path: String, sha256: String },
}

/// The line of text in which an outcome is reported.
pub open spec fn outcome_line(outcome: Outcome) -> Seq<char> {
    match outcome {
        Outcome::CaseCreated { id, path } => "Created case "@ + id@ + " at "@ + path@,
        Outcome::EvidenceAttached { id } => "Attached evidence source "@ + id@
            + "; no indexing was run."@,
        Outcome::HistoryImported { label, path, records, visits, profile } => "Detected "@ + label@
            + " history database at "@ + path@ + " - parsed "@ + records@ + " records ("@ + visits@
            + " visits) from profile "@ + profile@ + "."@,
        Outcome::FolderCreated { id } => "Created bookmark folder "@ + id@,
        Outcome::BookmarkCreated { id } => "Created bookmark "@ + id@,
        Outcome::ItemAdded { id } => "Added bookmark item "@ + id@,
        Outcome::ReportWritten { path, sha256 } => "Wrote report "@ + path@ + " (file SHA-256 "@
            + sha256@ + ")"@,
    }
}

impl Outcome {
    /// The outcome as a line of text.
    pub fn line(&self) -> (r: String)
        ensures
            r@ == outcome_line(*self),
    {
        match self {
            Outcome::CaseCreated { id, path } => {
                let mut m: String = "Created case ".to_owned();
                m.append(id.as_str());
                m.append(" at ");
                m.append(path.as_str());
                m
            },
            Outcome::EvidenceAttached { id } => {
                let mut m: String = "Attached evidence source ".to_owned();
                m.append(id.as_str());
                m.append("; no indexing was run.");
                m
            },
            Outcome::HistoryImported { label, path, records, visits, profile } => {
                let mut m: String = "Detected ".to_owned();
                m.append(label.as_str());
                m.append(" history database at ");
                m.append(path.as_str());
                m.append(" - parsed ");
                m.append(records.as_str());
                m.append(" records (");
                m.append(visits.as_str());
                m.append(" visits) from profile ");
                m.append(profile.as_str());
                m.append(".");
                m
            },
            Outcome::FolderCreated { id } => {
                let mut m: String = "Created bookmark folder ".to_owned();
                m.append(id.as_str());
                m
            },
            Outcome::BookmarkCreated { id } => {
                let mut m: String = "Created bookmark ".to_owned();
                m.append(id.as_str());
                m
            },
            Outcome::ItemAdded { id } => {
                let mut m: String = "Added bookmark item ".to_owned();
                m.append(id.as_str());
                m
            },
            Outcome::ReportWritten { path, sha256 } => {
                let mut m: String = "Wrote report ".to_owned();
                m.append(path.as_str());
                m.append(" (file SHA-256 ");
                m.append(sha256.as_str());
                m.append(")");
                m
            },
        }
    }
}

} // verus!
