//! The error type shared by every asset loader.

use vstd::prelude::*;

verus! {

#[verifier::external_type_specification]
#[verifier::external_body]
pub struct ExIoError(std::io::Error);

/// Unified error type for all loaders.
#[derive(Debug)]
pub enum LoadError {
    Io(std::io::Error),
    Obj(String),
    Gltf(String),
    UnsupportedFormat(String),
}

impl From<std::io::Error> for LoadError {
    fn from(e: std::io::Error) -> (r: Self) {
        LoadError::Io(e)
    }
}

impl vstd::std_specs::convert::FromSpecImpl<std::io::Error> for LoadError {
    open spec fn obeys_from_spec() -> bool {
        true
    }

    open spec fn from_spec(e: std::io::Error) -> Self {
        LoadError::Io(e)
    }
}

impl LoadError {
    /// The text a user sees for this error (what the `Display` form prints):
    /// for an I/O error, the text the error itself displays (`to_string`).
    pub fn message(&self) -> (r: String)
        ensures
            match self {
                LoadError::Io(e) => exists|d: String|
                    #[trigger] vstd::string::to_string_from_display_ensures::<std::io::Error>(e, d)
                        && r@ == "I/O error: "@ + d@,
                LoadError::Obj(m) => r@ == "OBJ error: "@ + m@,
                LoadError::Gltf(m) => r@ == "glTF error: "@ + m@,
                LoadError::UnsupportedFormat(ext) => r@ == "unsupported format: ."@ + ext@,
            },
    {
        match self {
            LoadError::Io(e) => {
                let detail = e.to_string();
                let r = String::from_str("I/O error: ").concat(detail.as_str());
                assert(r@ == "I/O error: "@ + detail@);
                r
            },
            LoadError::Obj(m) => String::from_str("OBJ error: ").concat(m.as_str()),
            LoadError::Gltf(m) => String::from_str("glTF error: ").concat(m.as_str()),
            LoadError::UnsupportedFormat(ext) => String::from_str("unsupported format: .").concat(
                ext.as_str(),
            ),
        }
    }
}

} // verus!
