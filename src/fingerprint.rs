use vstd::prelude::*;

use vstd::string::StringSliceAdditionalSpecFns;

use crate::pattern::{occurs_in, starts_in_window, BinPattern};

verus! {

broadcast use vstd::string::is_ascii_spec_bytes;

/// The bytes of `text` occur somewhere in `d`.
///
/// Every marker searched for is ASCII, and lossy UTF-8 decoding keeps each
/// ASCII byte as the same character in the same place while turning every
/// other byte into a non-ASCII character, so a marker occurs in the decoded
/// text exactly when its bytes occur in the raw buffer.
pub open spec fn has_text(d: Seq<u8>, text: &str) -> bool {
    occurs_in(d, text.spec_bytes())
}

/// Some window of 16 bytes of `d` starts with an MSVC CRT initializer
/// section name.
pub open spec fn has_msvc_marker(d: Seq<u8>) -> bool {
    starts_in_window(d, ".CRT$XCA".spec_bytes(), 16) || starts_in_window(
        d,
        ".CRT$XCU".spec_bytes(),
        16,
    ) || starts_in_window(d, ".CRT$XCL".spec_bytes(), 16)
}

/// The toolchain label of a binary: the first rule that matches, in order.
pub open spec fn compiler_label(d: Seq<u8>) -> Seq<char> {
    if has_text(d, "rust_panic") || has_text(d, "rust_begin_unwind") {
        "Rust"@
    } else if has_text(d, "Go build ID:") || has_text(d, "golang") {
        "Golang"@
    } else if has_text(d, "GCC: (GNU)") || has_text(d, "__MINGW_IMPORT") {
        "MinGW/GCC"@
    } else if has_text(d, "Borland\\Delphi") || has_text(d, "FastMM") {
        "Delphi"@
    } else if has_msvc_marker(d) {
        "MSVC"@
    } else if has_text(d, "clang version") || has_text(d, "LLVM") {
        "Clang/LLVM"@
    } else {
        "Unknown"@
    }
}

/// Whether the bytes of `text` occur in `d`.
fn contains_text(d: &[u8], text: &str) -> (r: bool)
    ensures
        r == has_text(d@, text),
{
    BinPattern::contains_pattern(d, text.as_bytes())
}

/// Whether a window of 16 bytes of `d` starts with the 8-byte `name`.
fn section_name_in_window(d: &[u8], name: &str) -> (r: bool)
    requires
        name.spec_bytes().len() == 8,
    ensures
        r == starts_in_window(d@, name.spec_bytes(), 16),
{
    crate::pattern::find_in_windows(d, name.as_bytes(), 16)
}

impl BinPattern {
    /// A best-effort guess at the toolchain that produced a binary, from
    /// marker strings and section names found in its bytes.
    pub fn detect_compiler(data: &[u8]) -> (r: &'static str)
        ensures
            r@ == compiler_label(data@),
    {
        if contains_text(data, "rust_panic") || contains_text(data, "rust_begin_unwind") {
            return "Rust";
        }
        if contains_text(data, "Go build ID:") || contains_text(data, "golang") {
            return "Golang";
        }
        if contains_text(data, "GCC: (GNU)") || contains_text(data, "__MINGW_IMPORT") {
            return "MinGW/GCC";
        }
        if contains_text(data, "Borland\\Delphi") || contains_text(data, "FastMM") {
            return "Delphi";
        }
        proof {
            reveal_strlit(".CRT$XCA");
            reveal_strlit(".CRT$XCU");
            reveal_strlit(".CRT$XCL");
            assert(vstd::string::is_ascii(".CRT$XCA"));
            assert(vstd::string::is_ascii(".CRT$XCU"));
            assert(vstd::string::is_ascii(".CRT$XCL"));
        }
        if section_name_in_window(data, ".CRT$XCA") || section_name_in_window(data, ".CRT$XCU")
            || section_name_in_window(data, ".CRT$XCL") {
            return "MSVC";
        }
        if contains_text(data, "clang version") || contains_text(data, "LLVM") {
            return "Clang/LLVM";
        }
        "Unknown"
    }
}

} // verus!
