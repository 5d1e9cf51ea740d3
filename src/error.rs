//! The errors of metadata and artifact resolution, and their messages.
use vstd::prelude::*;
use vstd::string::StringExecFns;

verus! {

/// What can go wrong while resolving a package's metadata or its artifacts.
#[derive(Debug, Clone)]
pub enum ScarbError {
    /// No compilation unit, or no package, has the given id.
    PackageNotFound { package: String },
    /// The selected compilation unit has no core-library component.
    CorelibNotFound,
    /// A path that should name a file has no parent directory.
    ParentNotFound { path: String },
    /// A file could not be read.
    ReadFailed { path: String },
    /// A directory that exists could not be listed.
    ReadDirFailed { path: String },
    /// An artifact index does not match its schema.
    ParseFailed { path: String },
    /// A package's tool configuration could not be decoded.
    ConfigInvalid { message: String },
}

/// What `{:?}` writes for a string: the string in double quotes, with its
/// special characters escaped.
pub uninterp spec fn debug_quoted(s: Seq<char>) -> Seq<char>;

/// Relies on `<str as Debug>::fmt`, the quoted and escaped form of a string,
/// which depends on its characters alone.
#[verifier::external_body]
fn debug_str(s: &str) -> (r: String)
    ensures
        r@ == debug_quoted(s@),
{
    format!("{:?}", s)
}

impl ScarbError {
    /// The message shown to the user for this error.
    pub open spec fn message_spec(&self) -> Seq<char> {
        match self {
            ScarbError::PackageNotFound { package } => "Failed to find metadata for package = "@
                + package@,
            ScarbError::CorelibNotFound => "corelib could not be found"@,
            ScarbError::ParentNotFound { path } => "Failed to get parent for path = "@ + path@,
            ScarbError::ReadFailed { path } => "Failed to read "@ + debug_quoted(path@)
                + " contents"@,
            ScarbError::ReadDirFailed { path } => "Failed to read directory "@ + debug_quoted(
                path@,
            ),
            ScarbError::ParseFailed { path } => "Failed to parse "@ + debug_quoted(path@)
                + " contents. Make sure you have enabled sierra code generation in Scarb.toml"@,
            ScarbError::ConfigInvalid { message } => message@,
        }
    }

    /// The message shown to the user for this error.
    pub fn message(&self) -> (r: String)
        ensures
            r@ == self.message_spec(),
    {
        match self {
            ScarbError::PackageNotFound { package } => {
                let mut s = String::from_str("Failed to find metadata for package = ");
                s.append(package.as_str());
                s
            },
            ScarbError::CorelibNotFound => String::from_str("corelib could not be found"),
            ScarbError::ParentNotFound { path } => {
                let mut s = String::from_str("Failed to get parent for path = ");
                s.append(path.as_str());
                s
            },
            ScarbError::ReadFailed { path } => {
                let mut s = String::from_str("Failed to read ");
                let quoted = debug_str(path.as_str());
                s.append(quoted.as_str());
                s.append(" contents");
                s
            },
            ScarbError::ReadDirFailed { path } => {
                let mut s = String::from_str("Failed to read directory ");
                let quoted = debug_str(path.as_str());
                s.append(quoted.as_str());
                s
            },
            ScarbError::ParseFailed { path } => {
                let mut s = String::from_str("Failed to parse ");
                let quoted = debug_str(path.as_str());
                s.append(quoted.as_str());
                s.append(
                    " contents. Make sure you have enabled sierra code generation in Scarb.toml",
                );
                s
            },
            ScarbError::ConfigInvalid { message } => message.clone(),
        }
    }
}

} // verus!
