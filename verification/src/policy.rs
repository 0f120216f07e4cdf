//! Invocation and archive-health policy.
//!
//! Three one-shot decisions: which of the two given paths drives a build or
//! an extraction; whether an existing archive is healthy enough to reopen or
//! corrupt enough to delete; and which ignore rule set governs the walk.

use vstd::prelude::*;
use crate::names::has_archive_suffix;

verus! {

/// What an invocation with two paths does.
#[derive(Clone, Copy, PartialEq, Eq, Structural, Debug)]
pub enum Mode {
    /// The output names an archive, the input a directory: build.
    Build,
    /// The input names an archive, the output a directory: extract.
    Extract,
    /// Both or neither name an archive: reject with a logged error.
    Rejected,
}

/// Which operation two paths select: extraction reads an archive into a
/// directory, a build packs a directory into an archive, anything else is
/// rejected.
pub fn select_mode(input: &str, output: &str) -> (m: Mode)
    ensures
        (m == Mode::Extract) == (has_archive_suffix(input@) && !has_archive_suffix(output@)),
        (m == Mode::Build) == (!has_archive_suffix(input@) && has_archive_suffix(output@)),
        (m == Mode::Rejected) == (has_archive_suffix(input@) == has_archive_suffix(output@)),
{
    let input_is_archive = crate::names::is_archive_path(input);
    let output_is_archive = crate::names::is_archive_path(output);
    if input_is_archive && !output_is_archive {
        Mode::Extract
    } else if !input_is_archive && output_is_archive {
        Mode::Build
    } else {
        Mode::Rejected
    }
}

/// How a build begins against the archive path.
#[derive(Clone, Copy, PartialEq, Eq, Structural, Debug)]
pub enum BuildOpen {
    /// No archive there: create a fresh container, sized for the scanned
    /// files, with its metadata entries.
    CreateNew,
    /// The archive exists but its listfile or its attributes entry cannot be
    /// read: it is corrupt. Delete the archive file and end the build as a
    /// success; the next build creates a fresh one.
    DeleteCorrupt,
    /// The archive exists and both metadata entries are readable: reopen it
    /// and reconcile.
    UseExisting,
}

/// The archive health decision: an existing container must have a readable
/// listfile and a readable attributes entry; a failure to read either counts
/// as missing. This check applies only when reopening, never to a container
/// just created.
pub fn decide_build_open(
    archive_exists: bool,
    listfile_readable: bool,
    attributes_readable: bool,
) -> (d: BuildOpen)
    ensures
        (d == BuildOpen::CreateNew) == !archive_exists,
        (d == BuildOpen::DeleteCorrupt) == (archive_exists && !(listfile_readable
            && attributes_readable)),
        (d == BuildOpen::UseExisting) == (archive_exists && listfile_readable
            && attributes_readable),
{
    if !archive_exists {
        BuildOpen::CreateNew
    } else if listfile_readable && attributes_readable {
        BuildOpen::UseExisting
    } else {
        BuildOpen::DeleteCorrupt
    }
}

/// Which ignore rule set governs the walk.
#[derive(Clone, Copy, PartialEq, Eq, Structural, Debug)]
pub enum IgnoreSource {
    /// A `.patchignore` file sits at the source root: its rules, and those
    /// of any nested `.patchignore` files, govern with the matcher's normal
    /// precedence.
    CustomFile,
    /// No `.patchignore` at the root: the built-in default rules govern, and
    /// the driver warns that the fallback is in effect.
    BuiltinDefault,
}

/// The one-time, root-level choice of ignore rules, made before scanning
/// begins.
pub fn choose_ignore_source(patchignore_at_root: bool) -> (s: IgnoreSource)
    ensures
        (s == IgnoreSource::CustomFile) == patchignore_at_root,
        (s == IgnoreSource::BuiltinDefault) == !patchignore_at_root,
{
    if patchignore_at_root {
        IgnoreSource::CustomFile
    } else {
        IgnoreSource::BuiltinDefault
    }
}

/// The built-in default ignore rules: version-control metadata, a fixed list
/// of non-content file extensions, the container's special entry names, and
/// the ignore file itself. One glob pattern per line, in the matcher's
/// ignore-file syntax.
pub fn default_ignore_rules() -> (r: Vec<String>)
    ensures
        r@.len() == 20,
        r@[0]@ == ".git/**"@,
        r@[1]@ == ".github/**"@,
        r@[2]@ == ".gitignore"@,
        r@[3]@ == "**/*.json"@,
        r@[4]@ == "**/*.yml"@,
        r@[5]@ == "**/*.yaml"@,
        r@[6]@ == "**/*.exe"@,
        r@[7]@ == "**/*.dll"@,
        r@[8]@ == "**/*.db"@,
        r@[9]@ == "**/*.csv"@,
        r@[10]@ == "**/*.png"@,
        r@[11]@ == "**/*.psd"@,
        r@[12]@ == "**/*.txt"@,
        r@[13]@ == "**/*.md"@,
        r@[14]@ == "**/*.sql"@,
        r@[15]@ == "(listfile)"@,
        r@[16]@ == "(attributes)"@,
        r@[17]@ == "(signature)"@,
        r@[18]@ == "(user data)"@,
        r@[19]@ == ".patchignore"@,
{
    let mut r: Vec<String> = Vec::new();
    r.push(String::from_str(".git/**"));
    r.push(String::from_str(".github/**"));
    r.push(String::from_str(".gitignore"));
    r.push(String::from_str("**/*.json"));
    r.push(String::from_str("**/*.yml"));
    r.push(String::from_str("**/*.yaml"));
    r.push(String::from_str("**/*.exe"));
    r.push(String::from_str("**/*.dll"));
    r.push(String::from_str("**/*.db"));
    r.push(String::from_str("**/*.csv"));
    r.push(String::from_str("**/*.png"));
    r.push(String::from_str("**/*.psd"));
    r.push(String::from_str("**/*.txt"));
    r.push(String::from_str("**/*.md"));
    r.push(String::from_str("**/*.sql"));
    r.push(String::from_str("(listfile)"));
    r.push(String::from_str("(attributes)"));
    r.push(String::from_str("(signature)"));
    r.push(String::from_str("(user data)"));
    r.push(String::from_str(".patchignore"));
    r
}

} // verus!
