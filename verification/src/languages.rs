//! Language support: extension-based detection, the file skip policy, and
//! the tree query sources used for symbol and reference extraction.

use vstd::prelude::*;
use vstd::string::StrSliceExecFns;
use crate::text::{after_last, after_last_char, str_eq};

verus! {

/// The number of bytes above which a file is always skipped.
pub const MAX_FILE_BYTES: u64 = 1048576;

/// The codepoint of `c` with ASCII uppercase letters folded to lowercase.
pub open spec fn lower_u32(c: char) -> int {
    if 65 <= c as u32 <= 90 {
        c as u32 + 32
    } else {
        c as int
    }
}

/// Whether `a` equals `b` after folding ASCII uppercase in `a`.
/// `b` is expected to be lowercase already.
pub open spec fn lower_eq(a: Seq<char>, b: Seq<char>) -> bool {
    a.len() == b.len() && forall|i: int| 0 <= i < a.len() ==> lower_u32(#[trigger] a[i]) == b[i]
        as int
}

/// Compare `a` against the lowercase string `b`, folding ASCII case in `a`.
pub fn eq_lower(a: &str, b: &str) -> (r: bool)
    ensures
        r == lower_eq(a@, b@),
{
    let na = a.unicode_len();
    let nb = b.unicode_len();
    if na != nb {
        return false;
    }
    let mut i: usize = 0;
    while i < na
        invariant
            0 <= i <= na == a@.len(),
            na == nb,
            nb == b@.len(),
            forall|k: int| 0 <= k < i ==> lower_u32(#[trigger] a@[k]) == b@[k] as int,
        decreases na - i,
    {
        let ca = a.get_char(i) as u32;
        let cb = b.get_char(i) as u32;
        let folded: u32 = if 65 <= ca && ca <= 90 {
            ca + 32
        } else {
            ca
        };
        if folded != cb {
            return false;
        }
        i = i + 1;
    }
    true
}

/// The language detected for a file extension, by exact match.
pub open spec fn lang_for_ext(e: Seq<char>) -> Option<Seq<char>> {
    if e == "rs"@ {
        Some("rust"@)
    } else if e == "py"@ || e == "pyi"@ {
        Some("python"@)
    } else if e == "ts"@ || e == "tsx"@ {
        Some("typescript"@)
    } else if e == "js"@ || e == "jsx"@ || e == "mjs"@ || e == "cjs"@ {
        Some("javascript"@)
    } else if e == "go"@ {
        Some("go"@)
    } else if e == "java"@ {
        Some("java"@)
    } else if e == "c"@ || e == "h"@ {
        Some("c"@)
    } else if e == "cpp"@ || e == "cc"@ || e == "cxx"@ || e == "hpp"@ || e == "hxx"@ || e
        == "hh"@ {
        Some("cpp"@)
    } else if e == "kt"@ || e == "kts"@ {
        Some("kotlin"@)
    } else {
        None
    }
}

/// The language detected for a path: its extension is the part after the
/// last `'.'` (the whole path when it has no dot).
pub open spec fn detected_language(path: Seq<char>) -> Option<Seq<char>> {
    lang_for_ext(after_last(path, '.'))
}

/// Map a file path to a supported language name by its extension.
pub fn detect_language(path: &str) -> (r: Option<&'static str>)
    ensures
        match r {
            Some(l) => detected_language(path@) == Some(l@),
            None => detected_language(path@) is None,
        },
{
    let ext_string = after_last_char(path, '.');
    let ext = ext_string.as_str();
    if str_eq(ext, "rs") {
        Some("rust")
    } else if str_eq(ext, "py") || str_eq(ext, "pyi") {
        Some("python")
    } else if str_eq(ext, "ts") || str_eq(ext, "tsx") {
        Some("typescript")
    } else if str_eq(ext, "js") || str_eq(ext, "jsx") || str_eq(ext, "mjs") || str_eq(
        ext,
        "cjs",
    ) {
        Some("javascript")
    } else if str_eq(ext, "go") {
        Some("go")
    } else if str_eq(ext, "java") {
        Some("java")
    } else if str_eq(ext, "c") || str_eq(ext, "h") {
        Some("c")
    } else if str_eq(ext, "cpp") || str_eq(ext, "cc") || str_eq(ext, "cxx") || str_eq(ext, "hpp")
        || str_eq(ext, "hxx") || str_eq(ext, "hh") {
        Some("cpp")
    } else if str_eq(ext, "kt") || str_eq(ext, "kts") {
        Some("kotlin")
    } else {
        None
    }
}

/// Whether an extension (after ASCII case folding) is on the deny list of
/// binary and asset extensions.
pub open spec fn denied_ext(e: Seq<char>) -> bool {
    ||| lower_eq(e, "png"@)
    ||| lower_eq(e, "jpg"@)
    ||| lower_eq(e, "jpeg"@)
    ||| lower_eq(e, "gif"@)
    ||| lower_eq(e, "ico"@)
    ||| lower_eq(e, "svg"@)
    ||| lower_eq(e, "webp"@)
    ||| lower_eq(e, "bmp"@)
    ||| lower_eq(e, "pdf"@)
    ||| lower_eq(e, "doc"@)
    ||| lower_eq(e, "docx"@)
    ||| lower_eq(e, "xls"@)
    ||| lower_eq(e, "xlsx"@)
    ||| lower_eq(e, "ppt"@)
    ||| lower_eq(e, "pptx"@)
    ||| lower_eq(e, "zip"@)
    ||| lower_eq(e, "tar"@)
    ||| lower_eq(e, "gz"@)
    ||| lower_eq(e, "bz2"@)
    ||| lower_eq(e, "xz"@)
    ||| lower_eq(e, "7z"@)
    ||| lower_eq(e, "rar"@)
    ||| lower_eq(e, "exe"@)
    ||| lower_eq(e, "dll"@)
    ||| lower_eq(e, "so"@)
    ||| lower_eq(e, "dylib"@)
    ||| lower_eq(e, "o"@)
    ||| lower_eq(e, "a"@)
    ||| lower_eq(e, "lib"@)
    ||| lower_eq(e, "wasm"@)
    ||| lower_eq(e, "class"@)
    ||| lower_eq(e, "pyc"@)
    ||| lower_eq(e, "pyo"@)
    ||| lower_eq(e, "ttf"@)
    ||| lower_eq(e, "otf"@)
    ||| lower_eq(e, "woff"@)
    ||| lower_eq(e, "woff2"@)
    ||| lower_eq(e, "eot"@)
    ||| lower_eq(e, "mp3"@)
    ||| lower_eq(e, "mp4"@)
    ||| lower_eq(e, "wav"@)
    ||| lower_eq(e, "avi"@)
    ||| lower_eq(e, "mov"@)
    ||| lower_eq(e, "mkv"@)
    ||| lower_eq(e, "db"@)
    ||| lower_eq(e, "sqlite"@)
    ||| lower_eq(e, "sqlite3"@)
    ||| lower_eq(e, "lock"@)
    ||| lower_eq(e, "min.js"@)
    ||| lower_eq(e, "min.css"@)
    ||| lower_eq(e, "lance"@)
    ||| lower_eq(e, "parquet"@)
    ||| lower_eq(e, "arrow"@)
}

/// Whether a file should be skipped: larger than [`MAX_FILE_BYTES`], or an
/// extension on the deny list.
pub open spec fn should_skip(path: Seq<char>, size_bytes: u64) -> bool {
    size_bytes > MAX_FILE_BYTES || denied_ext(after_last(path, '.'))
}

/// Decide whether a file is skipped by the walkers (too large, or a binary
/// or asset extension).
pub fn should_skip_file(path: &str, size_bytes: u64) -> (r: bool)
    ensures
        r == should_skip(path@, size_bytes),
{
    if size_bytes > 1048576 {
        return true;
    }
    let ext_string = after_last_char(path, '.');
    let e = ext_string.as_str();
    eq_lower(e, "png") || eq_lower(e, "jpg") || eq_lower(e, "jpeg") || eq_lower(e, "gif")
        || eq_lower(e, "ico") || eq_lower(e, "svg") || eq_lower(e, "webp") || eq_lower(e, "bmp")
        || eq_lower(e, "pdf") || eq_lower(e, "doc") || eq_lower(e, "docx") || eq_lower(e, "xls")
        || eq_lower(e, "xlsx") || eq_lower(e, "ppt") || eq_lower(e, "pptx") || eq_lower(e, "zip")
        || eq_lower(e, "tar") || eq_lower(e, "gz") || eq_lower(e, "bz2") || eq_lower(e, "xz")
        || eq_lower(e, "7z") || eq_lower(e, "rar") || eq_lower(e, "exe") || eq_lower(e, "dll")
        || eq_lower(e, "so") || eq_lower(e, "dylib") || eq_lower(e, "o") || eq_lower(e, "a")
        || eq_lower(e, "lib") || eq_lower(e, "wasm") || eq_lower(e, "class") || eq_lower(
        e,
        "pyc",
    ) || eq_lower(e, "pyo") || eq_lower(e, "ttf") || eq_lower(e, "otf") || eq_lower(e, "woff")
        || eq_lower(e, "woff2") || eq_lower(e, "eot") || eq_lower(e, "mp3") || eq_lower(e, "mp4")
        || eq_lower(e, "wav") || eq_lower(e, "avi") || eq_lower(e, "mov") || eq_lower(e, "mkv")
        || eq_lower(e, "db") || eq_lower(e, "sqlite") || eq_lower(e, "sqlite3") || eq_lower(
        e,
        "lock",
    ) || eq_lower(e, "min.js") || eq_lower(e, "min.css") || eq_lower(e, "lance") || eq_lower(
        e,
        "parquet",
    ) || eq_lower(e, "arrow")
}

/// Whether `l` names one of the supported languages.
pub open spec fn supported_lang(l: Seq<char>) -> bool {
    l == "rust"@ || l == "python"@ || l == "typescript"@ || l == "javascript"@ || l == "go"@
        || l == "java"@ || l == "c"@ || l == "cpp"@ || l == "kotlin"@
}

/// The symbol query for the Rust grammar.
pub const RUST_QUERY: &'static str = "\n(function_item name: (identifier) @symbol_name) @function\n(struct_item name: (type_identifier) @symbol_name) @struct\n(enum_item name: (type_identifier) @symbol_name) @enum\n(trait_item name: (type_identifier) @symbol_name) @trait\n(impl_item type: (type_identifier) @symbol_name) @impl\n(mod_item name: (identifier) @symbol_name) @module\n";

/// The symbol query for the Python grammar.
pub const PYTHON_QUERY: &'static str = "\n(function_definition name: (identifier) @symbol_name) @function\n(class_definition name: (identifier) @symbol_name) @class\n";

/// The symbol query for the TypeScript grammar.
pub const TYPESCRIPT_QUERY: &'static str = "\n(function_declaration name: (identifier) @symbol_name) @function\n(class_declaration name: (type_identifier) @symbol_name) @class\n(interface_declaration name: (type_identifier) @symbol_name) @interface\n(type_alias_declaration name: (type_identifier) @symbol_name) @type_alias\n";

/// The symbol query for the JavaScript grammar.
pub const JAVASCRIPT_QUERY: &'static str = "\n(function_declaration name: (identifier) @symbol_name) @function\n(class_declaration name: (identifier) @symbol_name) @class\n";

/// The symbol query for the Go grammar.
pub const GO_QUERY: &'static str = "\n(function_declaration name: (identifier) @symbol_name) @function\n(method_declaration name: (field_identifier) @symbol_name) @function\n(type_declaration (type_spec name: (type_identifier) @symbol_name)) @struct\n";

/// The symbol query for the Java grammar.
pub const JAVA_QUERY: &'static str = "\n(method_declaration name: (identifier) @symbol_name) @function\n(class_declaration name: (identifier) @symbol_name) @class\n(interface_declaration name: (identifier) @symbol_name) @interface\n(enum_declaration name: (identifier) @symbol_name) @enum\n";

/// The symbol query for the C grammar.
pub const C_QUERY: &'static str = "\n(function_definition declarator: (function_declarator declarator: (identifier) @symbol_name)) @function\n(struct_specifier name: (type_identifier) @symbol_name) @struct\n(enum_specifier name: (type_identifier) @symbol_name) @enum\n";

/// The symbol query for the C++ grammar.
pub const CPP_QUERY: &'static str = "\n(function_definition declarator: (function_declarator declarator: (identifier) @symbol_name)) @function\n(class_specifier name: (type_identifier) @symbol_name) @class\n(struct_specifier name: (type_identifier) @symbol_name) @struct\n(enum_specifier name: (type_identifier) @symbol_name) @enum\n";

/// The symbol query for the Kotlin grammar.
pub const KOTLIN_QUERY: &'static str = "\n(function_declaration (simple_identifier) @symbol_name) @function\n(class_declaration (type_identifier) @symbol_name) @class\n(object_declaration (type_identifier) @symbol_name) @class\n(interface_declaration (type_identifier) @symbol_name) @interface\n";

/// The reference query for the Rust grammar.
pub const RUST_REF_QUERY: &'static str = "\n(call_expression function: (identifier) @call_target) @calls\n(call_expression function: (field_expression field: (field_identifier) @call_target)) @calls\n(call_expression function: (scoped_identifier name: (identifier) @call_target)) @calls\n(use_declaration argument: (identifier) @import_target) @imports\n(use_declaration argument: (scoped_identifier name: (identifier) @import_target)) @imports\n(impl_item trait: (type_identifier) @impl_target) @implements\n(impl_item trait: (scoped_type_identifier name: (type_identifier) @impl_target)) @implements\n";

/// The reference query for the Python grammar.
pub const PYTHON_REF_QUERY: &'static str = "\n(call function: (identifier) @call_target) @calls\n(call function: (attribute attribute: (identifier) @call_target)) @calls\n(import_statement name: (dotted_name) @import_target) @imports\n(import_from_statement module_name: (dotted_name) @import_module name: (dotted_name) @import_target) @imports\n(class_definition superclasses: (argument_list (identifier) @impl_target)) @implements\n";

/// The reference query for the TypeScript grammar.
pub const TYPESCRIPT_REF_QUERY: &'static str = "\n(call_expression function: (identifier) @call_target) @calls\n(call_expression function: (member_expression property: (property_identifier) @call_target)) @calls\n(import_statement source: (string) @import_target) @imports\n(class_declaration (class_heritage (implements_clause (type) @impl_target))) @implements\n";

/// The reference query for the JavaScript grammar.
pub const JAVASCRIPT_REF_QUERY: &'static str = "\n(call_expression function: (identifier) @call_target) @calls\n(call_expression function: (member_expression property: (property_identifier) @call_target)) @calls\n(import_statement source: (string) @import_target) @imports\n";

/// The reference query for the Go grammar.
pub const GO_REF_QUERY: &'static str = "\n(call_expression function: (identifier) @call_target) @calls\n(call_expression function: (selector_expression field: (field_identifier) @call_target)) @calls\n(import_spec path: (interpreted_string_literal) @import_target) @imports\n";

/// The reference query for the Java grammar.
pub const JAVA_REF_QUERY: &'static str = "\n(method_invocation name: (identifier) @call_target) @calls\n(import_declaration (scoped_identifier name: (identifier) @import_target)) @imports\n(class_declaration interfaces: (super_interfaces (type_list (type_identifier) @impl_target))) @implements\n";

/// The reference query for the C grammar.
pub const C_REF_QUERY: &'static str = "\n(call_expression function: (identifier) @call_target) @calls\n(preproc_include path: (string_literal) @import_target) @imports\n(preproc_include path: (system_lib_string) @import_target) @imports\n";

/// The reference query for the C++ grammar.
pub const CPP_REF_QUERY: &'static str = "\n(call_expression function: (identifier) @call_target) @calls\n(call_expression function: (field_expression field: (field_identifier) @call_target)) @calls\n(preproc_include path: (string_literal) @import_target) @imports\n(preproc_include path: (system_lib_string) @import_target) @imports\n(class_specifier (base_class_clause (type_identifier) @impl_target)) @implements\n";

/// The reference query for the Kotlin grammar.
pub const KOTLIN_REF_QUERY: &'static str = "\n(call_expression (simple_identifier) @call_target) @calls\n(call_expression (navigation_expression (simple_identifier) @call_target)) @calls\n(import_header (identifier) @import_target) @imports\n(class_declaration (delegation_specifier (user_type (type_identifier) @impl_target))) @implements\n";

/// The symbol query source for a supported language name.
pub open spec fn sym_query_of(l: Seq<char>) -> Option<Seq<char>> {
    if l == "rust"@ {
        Some(RUST_QUERY@)
    } else if l == "python"@ {
        Some(PYTHON_QUERY@)
    } else if l == "typescript"@ {
        Some(TYPESCRIPT_QUERY@)
    } else if l == "javascript"@ {
        Some(JAVASCRIPT_QUERY@)
    } else if l == "go"@ {
        Some(GO_QUERY@)
    } else if l == "java"@ {
        Some(JAVA_QUERY@)
    } else if l == "c"@ {
        Some(C_QUERY@)
    } else if l == "cpp"@ {
        Some(CPP_QUERY@)
    } else if l == "kotlin"@ {
        Some(KOTLIN_QUERY@)
    } else {
        None
    }
}

/// The reference query source for a supported language name.
pub open spec fn ref_query_of(l: Seq<char>) -> Option<Seq<char>> {
    if l == "rust"@ {
        Some(RUST_REF_QUERY@)
    } else if l == "python"@ {
        Some(PYTHON_REF_QUERY@)
    } else if l == "typescript"@ {
        Some(TYPESCRIPT_REF_QUERY@)
    } else if l == "javascript"@ {
        Some(JAVASCRIPT_REF_QUERY@)
    } else if l == "go"@ {
        Some(GO_REF_QUERY@)
    } else if l == "java"@ {
        Some(JAVA_REF_QUERY@)
    } else if l == "c"@ {
        Some(C_REF_QUERY@)
    } else if l == "cpp"@ {
        Some(CPP_REF_QUERY@)
    } else if l == "kotlin"@ {
        Some(KOTLIN_REF_QUERY@)
    } else {
        None
    }
}

/// The reference query source for a language name, `Some` exactly for the
/// supported languages.
pub fn get_ref_query_source(lang: &str) -> (r: Option<&'static str>)
    ensures
        match r {
            Some(q) => supported_lang(lang@) && ref_query_of(lang@) == Some(q@),
            None => !supported_lang(lang@),
        },
{
    if str_eq(lang, "rust") {
        Some(RUST_REF_QUERY)
    } else if str_eq(lang, "python") {
        Some(PYTHON_REF_QUERY)
    } else if str_eq(lang, "typescript") {
        Some(TYPESCRIPT_REF_QUERY)
    } else if str_eq(lang, "javascript") {
        Some(JAVASCRIPT_REF_QUERY)
    } else if str_eq(lang, "go") {
        Some(GO_REF_QUERY)
    } else if str_eq(lang, "java") {
        Some(JAVA_REF_QUERY)
    } else if str_eq(lang, "c") {
        Some(C_REF_QUERY)
    } else if str_eq(lang, "cpp") {
        Some(CPP_REF_QUERY)
    } else if str_eq(lang, "kotlin") {
        Some(KOTLIN_REF_QUERY)
    } else {
        None
    }
}

} // verus!
