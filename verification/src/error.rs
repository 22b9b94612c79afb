//! The library's errors: one variant for each way an operation refuses its input.
use vstd::prelude::*;

use crate::http::parse::{decimal, decimal_exec};
use crate::text::{chars_of, push_all, string_of};

verus! {

/// What the `Debug` formatting of a string (`format!("{:?}", s)`) writes:
/// the string quoted, with its special characters escaped.
pub uninterp spec fn str_debug(s: Seq<char>) -> Seq<char>;

/// Calls `format!("{:?}", s)`.
#[verifier::external_body]
fn debug_text(s: &str) -> (r: String)
    ensures
        r@ == str_debug(s@),
{
    format!("{:?}", s)
}

/// The two texts one after the other.
fn cat2(a: &str, b: &str) -> (r: String)
    ensures
        r@ == a@ + b@,
{
    let mut v = chars_of(a);
    push_all(&mut v, chars_of(b).as_slice());
    string_of(v.as_slice())
}

/// The three texts one after the other.
fn cat3(a: &str, b: &str, c: &str) -> (r: String)
    ensures
        r@ == a@ + b@ + c@,
{
    let mut v = chars_of(a);
    push_all(&mut v, chars_of(b).as_slice());
    push_all(&mut v, chars_of(c).as_slice());
    string_of(v.as_slice())
}

/// Why an operation of the library failed.
#[derive(Debug)]
pub enum VdmError {
    /// An explicit `git:` input is not a URL.
    InvalidGitRepositoryUrl,
    /// A Git repository URL uses a scheme other than http, https, ssh, git or file.
    UnsupportedGitScheme,
    /// A Git repository URL carries a query or a fragment.
    GitUrlWithQueryOrFragment,
    /// A Git repository URL has no host.
    GitUrlWithoutHost,
    /// A Git repository URL has no repository path.
    GitUrlWithoutRepositoryPath,
    /// A repository path climbs above the repository root.
    PathEscapesRepository,
    /// A repository path holds an absolute or traversal component.
    UnsafeRepositoryPath,
    /// A version is neither a valid Git ref nor a commit SHA.
    InvalidVersion,
    /// A repository path, which is held, is a glob that `globset` refuses or cannot compile.
    InvalidGlob(String),
    /// A GitHub file path, which is held, is a glob that `globset` refuses or cannot compile.
    InvalidGitHubGlob(String),
    /// A GitHub URL could not be parsed to find its host; the parser's error text is held.
    InvalidGitHubUrl(String),
    /// A GitHub target, which is held, does not have the form `gh:owner/repo[:path][@version]`.
    InvalidGitHubTarget(String),
    /// A GitHub target ends with an empty version.
    EmptyGitHubVersion,
    /// A repository owner is empty.
    EmptyRepositoryOwner,
    /// A repository name is empty.
    EmptyRepositoryName,
    /// A repository owner or name is not a plain path component.
    UnsafeRepositoryComponent,
    /// A repository name is empty, `.` or `..` once `.git` is removed.
    InvalidGitHubRepository,
    /// A GitHub file target has no `@version`.
    MissingGitHubVersion(String),
    /// A GitHub file target has an empty path.
    EmptyRepositoryFilePath,
    /// An HTTP URL, which is held, could not be parsed.
    InvalidHttpUrl(String),
    /// An HTTP URL has no host.
    HttpUrlWithoutHost,
    /// An HTTP URL does not name a file.
    HttpUrlWithoutFile,
    /// An HTTP URL ends with a directory.
    HttpUrlIsDirectory,
    /// An HTTP URL path holds a traversal component.
    HttpUrlWithTraversal,
    /// Downloaded HTTP content does not have the pinned hash; the target's
    /// key, the pinned hash and the content's hash are held.
    HttpContentHashMismatch(String, String, String),
    /// No source recognizes the input, which is held.
    UnsupportedSource(String),
    /// A grouped manifest source is not a recognized source.
    UnsupportedManifestSource,
    /// A manifest entry's version differs from the version its key carries;
    /// the entry's version and key are held.
    ManifestVersionMismatch(String, String),
    /// Two manifest sources normalize to the same key, which is held.
    DuplicateManifestSource(String),
    /// Two manifest entries expand to the same target, whose key is held.
    DuplicateManifestTarget(String),
    /// The target to update, whose key is held, is not in the manifest.
    NotInManifest(String),
    /// Two lock entries for one key, which is held, differ.
    ConflictingLockEntries(String),
    /// A lock file array does not belong to a GitHub target.
    LockArrayRequiresGitHubTarget,
    /// A path recorded in the lock is not a plain path inside `vendor/`.
    UnsafeLockPath(String),
    /// A lock file array key is not a glob.
    LockArrayKeyNotGlob,
    /// A locked glob member lies outside its repository's vendor folder.
    GlobFileOutsideRepository,
    /// A resolved Git path, which is held, lies outside its repository.
    PathOutsideRepository(String),
    /// A resolved GitHub file path, which is held, lies outside its repository.
    GitHubPathOutsideRepository(String),
    /// A Git glob matched no file of the tree; the target's path and the commit are held.
    GlobMatchedNothing(String, String),
    /// The Git origin does not advertise the requested version, which is held.
    MissingRemoteRef(String),
    /// The Git origin does not advertise a default branch.
    NoDefaultBranch,
    /// Two resolved graphs hold one key, which is held, at different revisions or contents.
    ConflictingGraphRevisions(String),
    /// A resolved file, whose key is held, is already locked at another revision or content.
    LockedAtConflictingRevision(String),
    /// A resolved dependency graph holds no file.
    EmptyGraph,
    /// An HTTP dependency resolved to a target of another source.
    DependencyOfOtherSource,
    /// A resolved dependency, whose path is held, lies outside its source.
    DependencyOutsideSource(String),
    /// A resolved dependency, whose path is held, lies outside its HTTP origin.
    DependencyOutsideOrigin(String),
    /// A dependency could not be resolved; its specifier and the importing file are held.
    UnresolvedDependency(String, String),
    /// A Rust path, which is held, leaves its source tree.
    RustPathEscapes(String),
    /// A Rust module's `#[path]` attribute is not a string literal.
    RustPathAttributeNotString,
    /// A Rust module declaration, whose name is held, matches more than one file.
    RustModuleAmbiguous(String),
    /// No file holds a declared Rust module, whose name is held, that has no `#[cfg]`.
    RustModuleFileMissing(String),
    /// One Rust source file, which is held, is mounted as two different modules.
    RustModuleMountedTwice(String),
    /// A Rust file, which is held, is not part of the loaded crate.
    RustFileNotInCrate(String),
    /// A file pulled in by a Rust source does not exist; the file and the source are held.
    RustIncludedFileMissing(String, String),
    /// No `Cargo.toml` lies in a folder above the Rust file, which is held.
    RustManifestMissing(String),
    /// A Cargo manifest names no readable crate root.
    RustCrateRootMissing(String),
    /// The Rust file, which is held, belongs to this number of crate roots instead of exactly one.
    RustCrateRootCount(String, usize),
    /// The local directories of the tool cannot be located.
    DirsUnavailable,
    /// The local data folder of the tool cannot be located.
    DataDirUnavailable,
    /// The state was already initialized.
    AlreadyInitialized,
    /// The lock cannot be loaded before the state is initialized.
    LockWhileInitializing,
    /// The lock is already loaded.
    AlreadyLocked,
    /// Creating the state failed.
    StateCreation(Box<VdmError>),
    /// Initializing the state failed.
    StateInitialization(Box<VdmError>),
    /// The command line names no command.
    MissingCliCommand,
    /// The command line names an unknown command.
    UnknownCliCommand,
    /// The command line holds an option the command does not take.
    UnknownCliOption,
    /// The command line holds an argument the command does not take.
    UnexpectedCliArgument,
    /// An option of the command line lacks its value.
    MissingCliValue,
    /// The command line lacks the file argument.
    MissingCliArgument,
    /// A failure reported from outside the library, such as an I/O error.
    External(String),
}

/// The error with the texts it holds left out: reading a target is specified
/// up to these texts, which the functions that make such an error state apart.
pub open spec fn error_kind(e: VdmError) -> VdmError {
    match e {
        VdmError::UnsupportedSource(_) => VdmError::UnsupportedSource(arbitrary()),
        VdmError::InvalidGitHubTarget(_) => VdmError::InvalidGitHubTarget(arbitrary()),
        VdmError::InvalidHttpUrl(_) => VdmError::InvalidHttpUrl(arbitrary()),
        VdmError::InvalidGlob(_) => VdmError::InvalidGlob(arbitrary()),
        VdmError::InvalidGitHubUrl(_) => VdmError::InvalidGitHubUrl(arbitrary()),
        VdmError::UnsafeLockPath(_) => VdmError::UnsafeLockPath(arbitrary()),
        VdmError::MissingGitHubVersion(_) => VdmError::MissingGitHubVersion(arbitrary()),
        VdmError::PathOutsideRepository(_) => VdmError::PathOutsideRepository(arbitrary()),
        VdmError::DependencyOutsideSource(_) => VdmError::DependencyOutsideSource(arbitrary()),
        VdmError::DependencyOutsideOrigin(_) => VdmError::DependencyOutsideOrigin(arbitrary()),
        VdmError::UnresolvedDependency(_, _) => VdmError::UnresolvedDependency(arbitrary(), arbitrary()),
        VdmError::RustPathEscapes(_) => VdmError::RustPathEscapes(arbitrary()),
        VdmError::RustModuleAmbiguous(_) => VdmError::RustModuleAmbiguous(arbitrary()),
        VdmError::RustModuleFileMissing(_) => VdmError::RustModuleFileMissing(arbitrary()),
        VdmError::RustModuleMountedTwice(_) => VdmError::RustModuleMountedTwice(arbitrary()),
        VdmError::RustFileNotInCrate(_) => VdmError::RustFileNotInCrate(arbitrary()),
        VdmError::RustIncludedFileMissing(_, _) => VdmError::RustIncludedFileMissing(arbitrary(), arbitrary()),
        VdmError::RustManifestMissing(_) => VdmError::RustManifestMissing(arbitrary()),
        VdmError::RustCrateRootMissing(_) => VdmError::RustCrateRootMissing(arbitrary()),
        VdmError::RustCrateRootCount(_, n) => VdmError::RustCrateRootCount(arbitrary(), n),
        VdmError::ManifestVersionMismatch(_, _) => VdmError::ManifestVersionMismatch(arbitrary(), arbitrary()),
        _ => e,
    }
}

impl VdmError {
    /// The message that tells a user what went wrong.
    pub open spec fn spec_message(&self) -> Seq<char> {
        match self {
            VdmError::InvalidGitRepositoryUrl => "Invalid Git repository URL"@,
            VdmError::UnsupportedGitScheme => "Unsupported Git repository URL scheme"@,
            VdmError::GitUrlWithQueryOrFragment => "Git repository URL must not contain a query or fragment"@,
            VdmError::GitUrlWithoutHost => "Git repository URL must have a host"@,
            VdmError::GitUrlWithoutRepositoryPath => "Git repository URL must have a repository path"@,
            VdmError::PathEscapesRepository => "Repository path must not escape the repository"@,
            VdmError::UnsafeRepositoryPath => "Repository file path must not contain absolute or traversal components"@,
            VdmError::InvalidVersion => "Version must be a valid Git ref or commit SHA"@,
            VdmError::InvalidGlob(path) => "Invalid Git glob "@ + str_debug(path@),
            VdmError::InvalidGitHubGlob(path) => "Invalid GitHub glob "@ + str_debug(path@),
            VdmError::InvalidGitHubUrl(text) => text@,
            VdmError::InvalidGitHubTarget(input) => "Invalid GitHub target "@ + str_debug(input@)
                + "; expected gh:owner/repo:path[@version]"@,
            VdmError::EmptyGitHubVersion => "GitHub version must not be empty"@,
            VdmError::EmptyRepositoryOwner => "Repository owner must not be empty"@,
            VdmError::EmptyRepositoryName => "Repository name must not be empty"@,
            VdmError::UnsafeRepositoryComponent => "Repository owner and name must be safe path components"@,
            VdmError::InvalidGitHubRepository => "Invalid GitHub repository name"@,
            VdmError::MissingGitHubVersion(input) => "Invalid GitHub target "@ + str_debug(input@) + "; expected gh:owner/repo/path@version"@,
            VdmError::EmptyRepositoryFilePath => "Repository file path must not be empty"@,
            VdmError::InvalidHttpUrl(url) => "invalid HTTP URL "@ + str_debug(url@),
            VdmError::HttpUrlWithoutHost => "HTTP URL must include a host"@,
            VdmError::HttpUrlWithoutFile => "HTTP URL must identify a file"@,
            VdmError::HttpUrlIsDirectory => "HTTP URL must not end with a directory"@,
            VdmError::HttpUrlWithTraversal => "HTTP URL path must not contain traversal components"@,
            VdmError::HttpContentHashMismatch(key, expected, got) => "HTTP content hash mismatch for "@ + key@ + ": expected "@
                + expected@ + ", got "@ + got@,
            VdmError::UnsupportedSource(input) => "Unsupported source "@ + str_debug(input@)
                + "; expected gh:owner/repo:path[@ref], <repository-url>:path[@ref], or an HTTP URL"@,
            VdmError::UnsupportedManifestSource => "Unsupported manifest source"@,
            VdmError::ManifestVersionMismatch(version, key) => "Manifest version "@ + str_debug(version@)
                + " does not match source "@ + str_debug(key@),
            VdmError::DuplicateManifestSource(key) => "Manifest source "@ + key@ + " is defined more than once"@,
            VdmError::DuplicateManifestTarget(key) => "Manifest target "@ + str_debug(key@) + " is defined more than once"@,
            VdmError::NotInManifest(url) => url@ + " is not present in the manifest"@,
            VdmError::ConflictingLockEntries(key) => "Conflicting lock entries for "@ + key@,
            VdmError::LockArrayRequiresGitHubTarget => "Lockfile arrays require a GitHub glob"@,
            VdmError::UnsafeLockPath(value) => "Lockfile path "@ + str_debug(value@) + " is not a safe vendor path"@,
            VdmError::LockArrayKeyNotGlob => "Lockfile array key must be a glob"@,
            VdmError::GlobFileOutsideRepository => "Glob file is outside its repository"@,
            VdmError::PathOutsideRepository(path) => "Resolved Git path "@ + path@ + " is outside the repository"@,
            VdmError::GitHubPathOutsideRepository(path) => "Resolved GitHub path "@ + path@ + " is outside the repository"@,
            VdmError::GlobMatchedNothing(path, commit) => "Git glob "@ + path@ + " matched no files at commit "@ + commit@,
            VdmError::MissingRemoteRef(version) => "Git origin does not contain ref "@ + str_debug(version@),
            VdmError::NoDefaultBranch => "Git remote did not advertise a default branch"@,
            VdmError::ConflictingGraphRevisions(key) => key@ + " resolves to conflicting revisions"@,
            VdmError::LockedAtConflictingRevision(key) => key@ + " is already locked at a conflicting revision"@,
            VdmError::EmptyGraph => "Resolved graph is empty"@,
            VdmError::DependencyOfOtherSource => "Resolved HTTP dependency has a different source"@,
            VdmError::DependencyOutsideSource(path) => "Resolved dependency "@ + path@ + " is outside its source"@,
            VdmError::DependencyOutsideOrigin(path) => "Resolved dependency "@ + path@ + " is outside its HTTP origin"@,
            VdmError::UnresolvedDependency(specifier, importer) => "Failed to resolve "@ + str_debug(specifier@) + " from "@ + importer@,
            VdmError::RustPathEscapes(path) => "Rust path "@ + path@ + " escapes its source"@,
            VdmError::RustPathAttributeNotString => "Rust module #[path] must be a string literal"@,
            VdmError::RustModuleAmbiguous(name) => "Rust module "@ + name@ + " resolves to multiple files"@,
            VdmError::RustModuleFileMissing(name) => "Cannot find source file for Rust module "@ + name@,
            VdmError::RustModuleMountedTwice(path) => "Rust source "@ + path@ + " is mounted as multiple modules"@,
            VdmError::RustFileNotInCrate(path) => path@ + " is not part of the discovered Rust crate"@,
            VdmError::RustIncludedFileMissing(file, source) => "Rust include "@ + file@ + " from "@ + source@ + " does not exist"@,
            VdmError::RustManifestMissing(path) => "Cannot find a Cargo.toml containing "@ + path@,
            VdmError::RustCrateRootMissing(manifest) => manifest@ + " does not define a readable Rust crate root"@,
            VdmError::RustCrateRootCount(path, count) => path@ + " belongs to "@ + decimal(*count as nat) + " discovered Rust crate roots; expected exactly one"@,
            VdmError::DirsUnavailable => "Failed to resolve Vdm dirs"@,
            VdmError::DataDirUnavailable => "Failed to locate the local data directory"@,
            VdmError::AlreadyInitialized => "Already initialized"@,
            VdmError::LockWhileInitializing => "Cannot load lock while initializing"@,
            VdmError::AlreadyLocked => "Already in locked state"@,
            VdmError::StateCreation(_) => "Failed to create Vdm state"@,
            VdmError::StateInitialization(_) => "Failed to initialize Vdm state"@,
            VdmError::MissingCliCommand => "Missing command"@,
            VdmError::UnknownCliCommand => "Unknown command"@,
            VdmError::UnknownCliOption => "Unknown option"@,
            VdmError::UnexpectedCliArgument => "Unexpected argument"@,
            VdmError::MissingCliValue => "Missing option value"@,
            VdmError::MissingCliArgument => "Missing file argument"@,
            VdmError::External(text) => text@,
        }
    }

    /// The message that tells a user what went wrong.
    pub fn message(&self) -> (r: String)
        ensures
            r@ == self.spec_message(),
    {
        let text = match self {
            VdmError::InvalidGitRepositoryUrl => "Invalid Git repository URL",
            VdmError::UnsupportedGitScheme => "Unsupported Git repository URL scheme",
            VdmError::GitUrlWithQueryOrFragment => "Git repository URL must not contain a query or fragment",
            VdmError::GitUrlWithoutHost => "Git repository URL must have a host",
            VdmError::GitUrlWithoutRepositoryPath => "Git repository URL must have a repository path",
            VdmError::PathEscapesRepository => "Repository path must not escape the repository",
            VdmError::UnsafeRepositoryPath => "Repository file path must not contain absolute or traversal components",
            VdmError::InvalidVersion => "Version must be a valid Git ref or commit SHA",
            VdmError::InvalidGlob(path) => return cat2("Invalid Git glob ", debug_text(path.as_str()).as_str()),
            VdmError::InvalidGitHubGlob(path) => return cat2("Invalid GitHub glob ", debug_text(path.as_str()).as_str()),
            VdmError::InvalidGitHubUrl(text) => return text.clone(),
            VdmError::InvalidGitHubTarget(input) => return cat3(
                "Invalid GitHub target ",
                debug_text(input.as_str()).as_str(),
                "; expected gh:owner/repo:path[@version]",
            ),
            VdmError::EmptyGitHubVersion => "GitHub version must not be empty",
            VdmError::EmptyRepositoryOwner => "Repository owner must not be empty",
            VdmError::EmptyRepositoryName => "Repository name must not be empty",
            VdmError::UnsafeRepositoryComponent => "Repository owner and name must be safe path components",
            VdmError::InvalidGitHubRepository => "Invalid GitHub repository name",
            VdmError::MissingGitHubVersion(input) => return cat3(
                "Invalid GitHub target ",
                debug_text(input.as_str()).as_str(),
                "; expected gh:owner/repo/path@version",
            ),
            VdmError::EmptyRepositoryFilePath => "Repository file path must not be empty",
            VdmError::InvalidHttpUrl(url) => return cat2("invalid HTTP URL ", debug_text(url.as_str()).as_str()),
            VdmError::HttpUrlWithoutHost => "HTTP URL must include a host",
            VdmError::HttpUrlWithoutFile => "HTTP URL must identify a file",
            VdmError::HttpUrlIsDirectory => "HTTP URL must not end with a directory",
            VdmError::HttpUrlWithTraversal => "HTTP URL path must not contain traversal components",
            VdmError::HttpContentHashMismatch(key, expected, got) => {
                let head = cat3("HTTP content hash mismatch for ", key.as_str(), ": expected ");
                let middle = cat3(head.as_str(), expected.as_str(), ", got ");
                return cat2(middle.as_str(), got.as_str());
            },
            VdmError::UnsupportedSource(input) => return cat3(
                "Unsupported source ",
                debug_text(input.as_str()).as_str(),
                "; expected gh:owner/repo:path[@ref], <repository-url>:path[@ref], or an HTTP URL",
            ),
            VdmError::UnsupportedManifestSource => "Unsupported manifest source",
            VdmError::ManifestVersionMismatch(version, key) => {
                let head = cat3("Manifest version ", debug_text(version.as_str()).as_str(), " does not match source ");
                return cat2(head.as_str(), debug_text(key.as_str()).as_str());
            },
            VdmError::DuplicateManifestSource(key) => return cat3("Manifest source ", key.as_str(), " is defined more than once"),
            VdmError::DuplicateManifestTarget(key) => return cat3("Manifest target ", debug_text(key.as_str()).as_str(), " is defined more than once"),
            VdmError::NotInManifest(url) => return cat2(url.as_str(), " is not present in the manifest"),
            VdmError::ConflictingLockEntries(key) => return cat2("Conflicting lock entries for ", key.as_str()),
            VdmError::LockArrayRequiresGitHubTarget => "Lockfile arrays require a GitHub glob",
            VdmError::UnsafeLockPath(value) => return cat3("Lockfile path ", debug_text(value.as_str()).as_str(), " is not a safe vendor path"),
            VdmError::LockArrayKeyNotGlob => "Lockfile array key must be a glob",
            VdmError::GlobFileOutsideRepository => "Glob file is outside its repository",
            VdmError::PathOutsideRepository(path) => return cat3("Resolved Git path ", path.as_str(), " is outside the repository"),
            VdmError::GitHubPathOutsideRepository(path) => return cat3("Resolved GitHub path ", path.as_str(), " is outside the repository"),
            VdmError::GlobMatchedNothing(path, commit) => {
                let head = cat3("Git glob ", path.as_str(), " matched no files at commit ");
                return cat2(head.as_str(), commit.as_str());
            },
            VdmError::MissingRemoteRef(version) => return cat2("Git origin does not contain ref ", debug_text(version.as_str()).as_str()),
            VdmError::NoDefaultBranch => "Git remote did not advertise a default branch",
            VdmError::ConflictingGraphRevisions(key) => return cat2(key.as_str(), " resolves to conflicting revisions"),
            VdmError::LockedAtConflictingRevision(key) => return cat2(key.as_str(), " is already locked at a conflicting revision"),
            VdmError::EmptyGraph => "Resolved graph is empty",
            VdmError::DependencyOfOtherSource => "Resolved HTTP dependency has a different source",
            VdmError::DependencyOutsideSource(path) => return cat3("Resolved dependency ", path.as_str(), " is outside its source"),
            VdmError::DependencyOutsideOrigin(path) => return cat3("Resolved dependency ", path.as_str(), " is outside its HTTP origin"),
            VdmError::UnresolvedDependency(specifier, importer) => {
                let head = cat3("Failed to resolve ", debug_text(specifier.as_str()).as_str(), " from ");
                return cat2(head.as_str(), importer.as_str());
            },
            VdmError::RustPathEscapes(path) => return cat3("Rust path ", path.as_str(), " escapes its source"),
            VdmError::RustPathAttributeNotString => "Rust module #[path] must be a string literal",
            VdmError::RustModuleAmbiguous(name) => return cat3("Rust module ", name.as_str(), " resolves to multiple files"),
            VdmError::RustModuleFileMissing(name) => return cat2("Cannot find source file for Rust module ", name.as_str()),
            VdmError::RustModuleMountedTwice(path) => return cat3("Rust source ", path.as_str(), " is mounted as multiple modules"),
            VdmError::RustFileNotInCrate(path) => return cat2(path.as_str(), " is not part of the discovered Rust crate"),
            VdmError::RustIncludedFileMissing(file, source) => {
                let head = cat3("Rust include ", file.as_str(), " from ");
                return cat3(head.as_str(), source.as_str(), " does not exist");
            },
            VdmError::RustManifestMissing(path) => return cat2("Cannot find a Cargo.toml containing ", path.as_str()),
            VdmError::RustCrateRootMissing(manifest) => return cat2(manifest.as_str(), " does not define a readable Rust crate root"),
            VdmError::RustCrateRootCount(path, count) => {
                let head = cat2(path.as_str(), " belongs to ");
                let n = string_of(decimal_exec(*count).as_slice());
                return cat3(head.as_str(), n.as_str(), " discovered Rust crate roots; expected exactly one");
            },
            VdmError::DirsUnavailable => "Failed to resolve Vdm dirs",
            VdmError::DataDirUnavailable => "Failed to locate the local data directory",
            VdmError::AlreadyInitialized => "Already initialized",
            VdmError::LockWhileInitializing => "Cannot load lock while initializing",
            VdmError::AlreadyLocked => "Already in locked state",
            VdmError::StateCreation(_) => "Failed to create Vdm state",
            VdmError::StateInitialization(_) => "Failed to initialize Vdm state",
            VdmError::MissingCliCommand => "Missing command",
            VdmError::UnknownCliCommand => "Unknown command",
            VdmError::UnknownCliOption => "Unknown option",
            VdmError::UnexpectedCliArgument => "Unexpected argument",
            VdmError::MissingCliValue => "Missing option value",
            VdmError::MissingCliArgument => "Missing file argument",
            VdmError::External(text) => text.as_str(),
        };
        text.to_owned()
    }
}

} // verus!
