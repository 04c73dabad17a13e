use vstd::prelude::*;

verus! {

/// The failures reported while loading, materializing or scanning vendor
/// dependencies, as a single sum.
#[derive(Debug, Clone, PartialEq, Eq)]
pub enum Error {
    /// The HTTP layer failed or answered with a non-success status.
    Transport,
    /// The manifest JSON could not be decoded into a vendor dependency.
    Parse,
    /// An archive could not be opened, or one of its members could not be
    /// read back.
    Zip,
    /// An archive member's path is absolute or escapes the extraction root.
    ZipSecurity,
    /// A filesystem read or write failed.
    Io,
    /// Every mirror was exhausted for a coordinate; carries the coordinate
    /// as `group:artifact:version`.
    NotFound(String),
    /// A directory traversal failed while scanning a materialized layout.
    Walk,
}

/// The mathematical value of an [`Error`]: the same sum with the carried
/// coordinate as a character sequence.
pub enum ErrorView {
    Transport,
    Parse,
    Zip,
    ZipSecurity,
    Io,
    NotFound(Seq<char>),
    Walk,
}

impl DeepView for Error {
    type V = ErrorView;

    open spec fn deep_view(&self) -> ErrorView {
        match self {
            Error::Transport => ErrorView::Transport,
            Error::Parse => ErrorView::Parse,
            Error::Zip => ErrorView::Zip,
            Error::ZipSecurity => ErrorView::ZipSecurity,
            Error::Io => ErrorView::Io,
            Error::NotFound(coordinate) => ErrorView::NotFound(coordinate@),
            Error::Walk => ErrorView::Walk,
        }
    }
}

impl Error {
    /// A one-line description of the failure, for display by callers.
    pub fn message(&self) -> (r: String)
        ensures
            r@ == self.spec_message(),
    {
        match self {
            Error::Transport => String::from_str("Error getting dependency from the internet."),
            Error::Parse => String::from_str("Could not parse the vendor dependency manifest."),
            Error::Zip => String::from_str("Package was not a valid zip."),
            Error::ZipSecurity => String::from_str(
                "Zipped file has an absolute file location. This is not allowed.",
            ),
            Error::Io => String::from_str("Error reading/writing files."),
            Error::NotFound(coordinate) => {
                let mut r = String::from_str("Could not find Maven artifact ");
                r.append(coordinate.as_str());
                r.concat(".")
            },
            Error::Walk => String::from_str(
                "Could not search directory for C++ library objects.",
            ),
        }
    }

    /// What `message` returns, variant by variant.
    pub open spec fn spec_message(&self) -> Seq<char> {
        match self {
            Error::Transport => "Error getting dependency from the internet."@,
            Error::Parse => "Could not parse the vendor dependency manifest."@,
            Error::Zip => "Package was not a valid zip."@,
            Error::ZipSecurity => "Zipped file has an absolute file location. This is not allowed."@,
            Error::Io => "Error reading/writing files."@,
            Error::NotFound(coordinate) => "Could not find Maven artifact "@ + coordinate@ + "."@,
            Error::Walk => "Could not search directory for C++ library objects."@,
        }
    }
}

} // verus!
