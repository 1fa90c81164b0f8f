//! The command-line option model: which command runs, over which
//! packages, and in which output shape.  Argument parsing itself lives
//! with the binary; these are the values it produces.

use vstd::prelude::*;
use vstd::string::StringExecFns;

verus! {

/// A package selector given on the command line.
pub type PackageIdSpec = String;

/// Whether to list crates per license or licenses per crate.
#[derive(Copy, Clone, Debug)]
pub enum By {
    License,
    Crate,
}

/// Which packages a command applies to.
#[derive(Clone, Debug, Eq, PartialEq)]
pub enum SelectedPackage {
    All,
    Default,
    Specific(PackageIdSpec),
}

/// How the collected license information is written out.
#[derive(Clone, Debug)]
pub enum Bundle {
    /// Write both the name and content of the license used by each
    /// dependency.
    Inline { file: Option<String> },
    /// Write only the name of the license used by each dependency.
    NameOnly { file: Option<String> },
    /// Output source code that can itself output the name and content of
    /// the license used by each dependency.
    Source { file: Option<String> },
    /// Write the license names to a file, and each license's content to a
    /// separate file under a directory.
    Split { file: Option<String>, dir: String },
}

/// The command to run.
#[derive(Clone, Debug)]
pub enum Cmd {
    /// List licensing of all dependencies.
    List { by: By, package: SelectedPackage },
    /// Check that all dependencies have a compatible license with a
    /// package.
    Check { package: SelectedPackage },
    /// Bundle all dependencies' licenses ready for distribution.
    Bundle { variant: Bundle, package: SelectedPackage },
    /// List this tool's own dependencies.
    ThirdParty { full: bool },
}

/// The parsed command-line options.
#[derive(Clone, Debug)]
pub struct Options {
    /// Use verbose output.
    pub verbose: u32,
    /// Use quiet output.
    pub quiet: bool,
    /// Use color in outputs.
    pub color: Option<String>,
    /// Require that the lock file and cache are up to date.
    pub frozen: bool,
    /// Require that the lock file is up to date.
    pub locked: bool,
    /// The command to run.
    pub cmd: Cmd,
}

impl SelectedPackage {
    /// The help text for the package-selection arguments.
    pub fn help() -> &'static str {
        "\
            If the --package argument is given, then NAME is a package name which \
            indicates which package this command should apply to. If it is not given, \
            then the current package is used.

\
            All packages in the workspace are used if the `--all` flag is supplied. \
            The `--all` flag may be supplied in the presence of a virtual manifest. \
        "
    }
}

impl core::str::FromStr for By {
    type Err = String;

    fn from_str(s: &str) -> Result<Self, String> {
        if crate::textops::str_eq(s, "license") {
            Ok(By::License)
        } else if crate::textops::str_eq(s, "crate") {
            Ok(By::Crate)
        } else {
            let mut msg = "Cannot parse By from '".to_owned();
            msg.append(s);
            msg.append("'");
            Err(msg)
        }
    }
}

} // verus!
