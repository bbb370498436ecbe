//! The languages the analyzer can process.
use crate::text_util::str_eq;
use vstd::prelude::*;

verus! {

/// The programming languages the analyzer can process.
#[derive(Debug, Clone, Copy, PartialEq, Eq, Structural)]
pub enum SupportedLanguage {
    Rust,
    Java,
    Python,
    C,
    Cpp,
}

/// The language of a file extension.
pub open spec fn language_of_extension(ext: Seq<char>) -> Option<SupportedLanguage> {
    if ext == "rs"@ {
        Some(SupportedLanguage::Rust)
    } else if ext == "java"@ {
        Some(SupportedLanguage::Java)
    } else if ext == "py"@ {
        Some(SupportedLanguage::Python)
    } else if ext == "c"@ || ext == "h"@ {
        Some(SupportedLanguage::C)
    } else if ext == "cpp"@ || ext == "cxx"@ || ext == "cc"@ || ext == "hxx"@ || ext == "hpp"@ {
        Some(SupportedLanguage::Cpp)
    } else {
        None
    }
}

/// The extension of a path as `std::path::Path::extension` computes it (the part of the file
/// name after its last `.`, unless the name starts with its only `.`), read as UTF-8.
pub uninterp spec fn path_extension(path: Seq<char>) -> Option<Seq<char>>;

/// The extension of `path` (`Path::extension`).
#[verifier::external_body]
fn extension_of(path: &str) -> (r: Option<String>)
    ensures
        match r {
            Some(e) => path_extension(path@) == Some(e@),
            None => path_extension(path@) is None,
        },
{
    std::path::Path::new(path).extension().and_then(|e| e.to_str()).map(|e| e.to_string())
}

/// The identifier of a language, used for configuration and primitive loading.
pub open spec fn language_name(l: SupportedLanguage) -> Seq<char> {
    match l {
        SupportedLanguage::Rust => "rust"@,
        SupportedLanguage::Java => "java"@,
        SupportedLanguage::Python => "python"@,
        SupportedLanguage::C => "c"@,
        SupportedLanguage::Cpp => "cpp"@,
    }
}

impl SupportedLanguage {
    /// The language of a file extension, if it is supported.
    pub fn from_extension(ext: &str) -> (r: Option<SupportedLanguage>)
        ensures
            r == language_of_extension(ext@),
    {
        if str_eq(ext, "rs") {
            Some(SupportedLanguage::Rust)
        } else if str_eq(ext, "java") {
            Some(SupportedLanguage::Java)
        } else if str_eq(ext, "py") {
            Some(SupportedLanguage::Python)
        } else if str_eq(ext, "c") || str_eq(ext, "h") {
            Some(SupportedLanguage::C)
        } else if str_eq(ext, "cpp") || str_eq(ext, "cxx") || str_eq(ext, "cc") || str_eq(ext, "hxx")
            || str_eq(ext, "hpp") {
            Some(SupportedLanguage::Cpp)
        } else {
            None
        }
    }

    /// The language of a file path, from its extension.
    pub fn from_path(path: &str) -> (r: Option<SupportedLanguage>)
        ensures
            r == match path_extension(path@) {
                Some(e) => language_of_extension(e),
                None => None,
            },
    {
        match extension_of(path) {
            Some(e) => SupportedLanguage::from_extension(e.as_str()),
            None => None,
        }
    }

    /// The identifier of the language (`rust`, `java`, `python`, `c`, `cpp`).
    pub fn name(&self) -> (r: &'static str)
        ensures
            r@ == language_name(*self),
    {
        match self {
            SupportedLanguage::Rust => "rust",
            SupportedLanguage::Java => "java",
            SupportedLanguage::Python => "python",
            SupportedLanguage::C => "c",
            SupportedLanguage::Cpp => "cpp",
        }
    }
}

} // verus!
