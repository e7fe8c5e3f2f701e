//! The Flutter project the monitor runs for.

use vstd::prelude::*;

verus! {

/// A Flutter project directory, as named in its `pubspec.yaml`.
#[derive(Debug, Clone, PartialEq, Eq)]
pub struct ProjectInfo {
    /// The directory, as text.
    pub path: String,
    pub name: String,
    pub is_flutter: bool,
}

/// Why a directory is no Flutter project.
#[derive(Debug, Clone, PartialEq, Eq)]
pub enum ProjectError {
    /// The directory holds no `pubspec.yaml`.
    MissingPubspec { path: String },
    /// The `pubspec.yaml` names no `flutter` dependency.
    NotFlutter { name: String, path: String },
}

impl ProjectError {
    /// The message shown to the user.
    pub fn message(&self) -> (r: String)
        ensures
            match self {
                ProjectError::MissingPubspec { path } => r@ == "No pubspec.yaml found at "@ + path@
                    + ". Please run from a Flutter project directory or use --project."@,
                ProjectError::NotFlutter { name, path } => r@ == "Project '"@ + name@ + "' at "@ + path@
                    + " does not appear to be a Flutter project (no flutter dependency found)."@,
            },
    {
        match self {
            ProjectError::MissingPubspec { path } => {
                let mut out = String::from_str("No pubspec.yaml found at ");
                out.append(path.as_str());
                out.append(". Please run from a Flutter project directory or use --project.");
                out
            },
            ProjectError::NotFlutter { name, path } => {
                let mut out = String::from_str("Project '");
                out.append(name.as_str());
                out.append("' at ");
                out.append(path.as_str());
                out.append(" does not appear to be a Flutter project (no flutter dependency found).");
                out
            },
        }
    }
}

impl ProjectInfo {
    /// Decides on a directory given what its `pubspec.yaml` says: `None`
    /// when there is none, else the package name and whether a `flutter`
    /// dependency is listed. Only a Flutter project is accepted.
    pub fn from_pubspec(path: String, pubspec: Option<(String, bool)>) -> (r: Result<ProjectInfo, ProjectError>)
        ensures
            match pubspec {
                None => r == Err::<ProjectInfo, ProjectError>(ProjectError::MissingPubspec { path }),
                Some((name, true)) => r == Ok::<ProjectInfo, ProjectError>(
                    ProjectInfo { path, name, is_flutter: true },
                ),
                Some((name, false)) => r == Err::<ProjectInfo, ProjectError>(
                    ProjectError::NotFlutter { name, path },
                ),
            },
    {
        match pubspec {
            None => Err(ProjectError::MissingPubspec { path }),
            Some((name, is_flutter)) => if is_flutter {
                Ok(ProjectInfo { path, name, is_flutter })
            } else {
                Err(ProjectError::NotFlutter { name, path })
            },
        }
    }
}

} // verus!
