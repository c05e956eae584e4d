//! What is done with a finished segment of the log.
//!
//! The server asks for each segment to be archived and keeps it until that succeeds. So where
//! nothing is to be done, that is a success: otherwise the log would fill the disk.
use crate::text::{chars_of, literals, owned, push_chars, strings, trim_end_char, trimmed_end_char};
use vstd::prelude::*;

verus! {

/// Where the metadata names the archive.
pub const TARGET_POINTER: &'static str = "/latest/meta-data/BEYOND_PG_ARCHIVE_TARGET";

/// The string at a JSON pointer in a document: none where the text is no document, or nothing or
/// no string stands there.
pub uninterp spec fn json_string_at(data: Seq<char>, pointer: Seq<char>) -> Option<Seq<char>>;

/// `serde_json::from_str` into a `Value`, then `Value::pointer` and `Value::as_str`: the string at
/// the pointer, which depends on the document and the pointer alone. An empty text is no document.
#[verifier::external_body]
pub(crate) fn read_json_string(data: &str, pointer: &str) -> (r: Option<String>)
    ensures
        match r {
            Some(s) => json_string_at(data@, pointer@) == Some(s@) && data@.len() > 0,
            None => json_string_at(data@, pointer@) is None,
        },
{
    let value: serde_json::Value = serde_json::from_str(data).unwrap_or_default();
    value.pointer(pointer).and_then(|v| v.as_str()).map(|s| s.to_owned())
}

/// The archive that the metadata names, if it names one.
pub open spec fn archive_target(found: Option<Seq<char>>) -> Option<Seq<char>> {
    match found {
        Some(t) => if t.len() > 0 {
            Some(t)
        } else {
            None
        },
        None => None,
    }
}

/// The arguments of the program that copies a segment to the archive.
pub open spec fn copy_args(target: Seq<char>, path: Seq<char>, filename: Seq<char>) -> Seq<
    Seq<char>,
> {
    seq![
        "s3"@,
        "cp"@,
        path,
        trim_end_char(target, '/') + "/"@ + filename,
        "--no-progress"@,
    ]
}

/// Lists the arguments of the program that copies a segment to the archive that was found; none
/// where no archive is named.
pub fn archive_command(found: Option<&str>, path: &str, filename: &str) -> (r: Option<Vec<String>>)
    ensures
        match r {
            Some(args) => archive_target(crate::tls::opt_text(found)) matches Some(t) && strings(
                args@,
            ) == copy_args(t, path@, filename@),
            None => archive_target(crate::tls::opt_text(found)) is None,
        },
{
    let target: &str = match found {
        Some(t) => t,
        None => return None,
    };
    let cs: Vec<char> = chars_of(target);
    if cs.len() == 0 {
        return None;
    }
    let mut dest = String::new();
    push_chars(&mut dest, trimmed_end_char(cs.as_slice(), '/'));
    dest.append("/");
    dest.append(filename);
    assert(dest@ =~= trim_end_char(target@, '/') + "/"@ + filename@);
    let items = ["s3", "cp", path, dest.as_str(), "--no-progress"];
    let r = owned(items.as_slice());
    assert(literals(items@) =~= copy_args(target@, path@, filename@));
    Some(r)
}

/// Lists the arguments of the program that copies a segment to the archive that the metadata
/// names. Metadata that cannot be read, given as an empty text, names none.
pub fn archive_plan(metadata: &str, path: &str, filename: &str) -> (r: Option<Vec<String>>)
    ensures
        match r {
            Some(args) => archive_target(json_string_at(metadata@, TARGET_POINTER@)) matches Some(t)
                && strings(args@) == copy_args(t, path@, filename@) && metadata@.len() > 0,
            None => archive_target(json_string_at(metadata@, TARGET_POINTER@)) is None,
        },
{
    match read_json_string(metadata, TARGET_POINTER) {
        Some(t) => archive_command(Some(t.as_str()), path, filename),
        None => archive_command(None, path, filename),
    }
}

/// What the copying came to.
#[derive(Clone, Copy, Debug, PartialEq, Eq, Structural)]
pub enum CopyOutcome {
    /// There was nothing to copy.
    Nothing,
    Copied,
    /// The program failed, or could not be run.
    Failed,
}

/// The exit code for the server.
pub open spec fn exit_code(outcome: CopyOutcome) -> int {
    if outcome == CopyOutcome::Failed {
        1
    } else {
        0
    }
}

/// The exit code for the server: it keeps a segment whose copying failed, and that one only.
pub fn archive_exit_code(outcome: CopyOutcome) -> (r: i32)
    ensures
        r == exit_code(outcome),
{
    if outcome == CopyOutcome::Failed {
        1
    } else {
        0
    }
}

/// A slash at the end of the archive's name makes no difference.
pub proof fn law_archive_slash_changes_nothing(
    target: Seq<char>,
    path: Seq<char>,
    filename: Seq<char>,
)
    ensures
        copy_args(target.push('/'), path, filename) == copy_args(target, path, filename),
{
    assert(target.push('/').drop_last() =~= target);
}

/// A segment is copied from where the server keeps it to the archive, under its own name and behind
/// one slash, however many slashes end the archive's name.
pub proof fn law_segment_keeps_its_name(target: Seq<char>, path: Seq<char>, filename: Seq<char>)
    requires
        target.len() > 0,
        target.last() != '/',
    ensures
        copy_args(target, path, filename) == seq![
            "s3"@,
            "cp"@,
            path,
            target + "/"@ + filename,
            "--no-progress"@,
        ],
        archive_target(Some(target)) == Some(target),
        archive_target(Some(Seq::<char>::empty())) is None,
        archive_target(None) is None,
{
    assert(copy_args(target, path, filename) =~= seq![
        "s3"@,
        "cp"@,
        path,
        target + "/"@ + filename,
        "--no-progress"@,
    ]);
}

/// The archive stands in the platform's document at this place.
pub proof fn law_archive_is_named_in_the_document()
    ensures
        TARGET_POINTER@ == "/latest/meta-data/BEYOND_PG_ARCHIVE_TARGET"@,
{
}

/// The server keeps a segment whose copying failed, and lets go of it in every other case, also where
/// there is no archive.
pub proof fn law_only_failure_keeps_a_segment(outcome: CopyOutcome)
    ensures
        exit_code(outcome) == 0 <==> outcome == CopyOutcome::Copied || outcome
            == CopyOutcome::Nothing,
        exit_code(CopyOutcome::Failed) == 1,
{
}

} // verus!
