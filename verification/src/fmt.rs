//! Source-file formatting dispatch.
//!
//! A file is formatted by the engine matching its extension:
//! TypeScript-family files, JSON-family files and Markdown files each go to
//! their third-party formatting engine, reached through one trusted wrapper
//! apiece, with the project's fixed configuration; any other extension is
//! left untouched. Code blocks inside Markdown are formatted by dispatching
//! on the block's language tag through the same entry point.

use dprint_plugin_markdown::configuration::TextWrap;
use dprint_plugin_typescript::configuration::{QuoteProps, SortOrder};
use vstd::prelude::*;
use vstd::string::*;

verus! {

/// Options for a formatting pass: whether only to check (leaving files
/// unwritten), and the glob pattern of the files to cover.
pub struct FormatOptions {
    pub check: bool,
    pub glob: String,
}

impl FormatOptions {
    pub fn new(check: bool, glob: String) -> (r: FormatOptions)
        ensures
            r.check == check,
            r.glob@ == glob@,
    {
        FormatOptions { check, glob }
    }
}

/// A formatting failure, carrying the engine's message.
#[derive(Debug)]
pub struct FormatError {
    pub message: String,
}

/// A formatting outcome as the contracts see it: the formatted text when
/// the file changed, nothing when it was already formatted (or is not
/// formatted at all), or the failure message.
pub open spec fn fmt_result_view(r: Result<Option<String>, FormatError>) -> Result<
    Option<Seq<char>>,
    Seq<char>,
> {
    match r {
        Ok(None) => Ok(None),
        Ok(Some(s)) => Ok(Some(s@)),
        Err(e) => Err(e.message@),
    }
}

/// What the TypeScript engine makes of a file under the project's fixed
/// configuration: a function of the path and the contents alone.
pub uninterp spec fn typescript_format_of(path: Seq<char>, text: Seq<char>) -> Result<
    Option<Seq<char>>,
    Seq<char>,
>;

/// What the JSON engine makes of a file under the project's fixed
/// configuration: a function of the path and the contents alone.
pub uninterp spec fn json_format_of(path: Seq<char>, text: Seq<char>) -> Result<
    Option<Seq<char>>,
    Seq<char>,
>;

/// What the Markdown engine makes of a file under the project's fixed
/// configuration, with code blocks dispatched through [`format_file`]: a
/// function of the path and the contents alone.
pub uninterp spec fn markdown_format_of(path: Seq<char>, text: Seq<char>) -> Result<
    Option<Seq<char>>,
    Seq<char>,
>;

/// Relies on `dprint_plugin_typescript::format_text`, a deterministic
/// formatter, called with the project's fixed configuration (deno style,
/// tabs, as-needed quote props, case-insensitive import/export sorting,
/// `bueno-fmt-ignore` directives).
#[verifier::external_body]
fn format_typescript(path: &str, contents: &str) -> (r: Result<Option<String>, FormatError>)
    ensures
        fmt_result_view(r) == typescript_format_of(path@, contents@),
{
    let mut b = dprint_plugin_typescript::configuration::ConfigurationBuilder::new();
    b.deno().use_tabs(true).quote_props(QuoteProps::AsNeeded);
    b.comment_line_force_space_after_slashes(true).ignore_node_comment_text("bueno-fmt-ignore");
    b.ignore_file_comment_text("bueno-fmt-ignore-file");
    b.module_sort_import_declarations(SortOrder::CaseInsensitive);
    b.module_sort_export_declarations(SortOrder::CaseInsensitive);
    dprint_plugin_typescript::format_text(dprint_plugin_typescript::FormatTextOptions {
        path: std::path::Path::new(path),
        extension: None,
        text: contents.to_string(),
        config: &b.build(),
        external_formatter: None,
    }).map_err(|e| FormatError { message: format!("{:#}", e) })
}

/// Relies on `dprint_plugin_json::format_text`, a deterministic formatter,
/// called with the project's fixed configuration (line width 80, tabs,
/// `bueno-fmt-ignore` directives).
#[verifier::external_body]
fn format_json(path: &str, contents: &str) -> (r: Result<Option<String>, FormatError>)
    ensures
        fmt_result_view(r) == json_format_of(path@, contents@),
{
    let mut b = dprint_plugin_json::configuration::ConfigurationBuilder::new();
    b.line_width(80).use_tabs(true).ignore_node_comment_text("bueno-fmt-ignore");
    b.comment_line_force_space_after_slashes(true);
    dprint_plugin_json::format_text(std::path::Path::new(path), contents, &b.build()).map_err(
        |e| FormatError { message: format!("{}", e) },
    )
}

/// Relies on `dprint_plugin_markdown::format_text`, a deterministic
/// formatter, called with the project's fixed configuration (always wrap,
/// `bueno-fmt-ignore` directives); code blocks are handed back to the
/// verified [`format_file`] keyed by their language tag.
#[verifier::external_body]
fn format_markdown(path: &str, contents: &str) -> (r: Result<Option<String>, FormatError>)
    ensures
        fmt_result_view(r) == markdown_format_of(path@, contents@),
{
    let mut b = dprint_plugin_markdown::configuration::ConfigurationBuilder::new();
    b.text_wrap(TextWrap::Always).ignore_directive("bueno-fmt-ignore");
    b.ignore_start_directive("bueno-fmt-ignore-start").ignore_end_directive(
        "bueno-fmt-ignore-end",
    );
    b.ignore_file_directive("bueno-fmt-ignore-file");
    dprint_plugin_markdown::format_text(contents, &b.build(), |tag, text, _line| {
        format_file(path, tag, text).map_err(
            |e| dprint_plugin_markdown::FormatError::CodeBlock(e.message.into()),
        )
    }).map_err(|e| FormatError { message: format!("{}", e) })
}

fn str_eq(a: &str, b: &str) -> (r: bool)
    ensures
        r == (a@ == b@),
{
    let na = a.unicode_len();
    let nb = b.unicode_len();
    if na != nb {
        return false;
    }
    let mut i: usize = 0;
    while i < na
        invariant
            i <= na,
            na == a@.len(),
            na == b@.len(),
            forall|j: int| 0 <= j < i ==> a@[j] == b@[j],
        decreases na - i,
    {
        if a.get_char(i) != b.get_char(i) {
            return false;
        }
        i = i + 1;
    }
    proof {
        assert(a@ =~= b@);
    }
    true
}

/// The extensions the TypeScript engine formats.
pub open spec fn is_typescript_ext(e: Seq<char>) -> bool {
    e == "js"@ || e == "ts"@ || e == "jsx"@ || e == "tsx"@
}

/// The extensions the JSON engine formats.
pub open spec fn is_json_ext(e: Seq<char>) -> bool {
    e == "json"@ || e == "jsonc"@
}

/// The extensions the Markdown engine formats.
pub open spec fn is_markdown_ext(e: Seq<char>) -> bool {
    e == "md"@ || e == "markdown"@
}

proof fn lemma_ext_literals_distinct()
    ensures
        !is_json_ext("js"@) && !is_json_ext("ts"@) && !is_json_ext("jsx"@) && !is_json_ext("tsx"@),
        !is_markdown_ext("js"@) && !is_markdown_ext("ts"@) && !is_markdown_ext("jsx"@)
            && !is_markdown_ext("tsx"@),
        !is_typescript_ext("json"@) && !is_typescript_ext("jsonc"@),
        !is_markdown_ext("json"@) && !is_markdown_ext("jsonc"@),
        !is_typescript_ext("md"@) && !is_typescript_ext("markdown"@),
        !is_json_ext("md"@) && !is_json_ext("markdown"@),
{
    reveal_strlit("js");
    reveal_strlit("ts");
    reveal_strlit("jsx");
    reveal_strlit("tsx");
    reveal_strlit("json");
    reveal_strlit("jsonc");
    reveal_strlit("md");
    reveal_strlit("markdown");
    assert("js"@.len() == 2 && "ts"@.len() == 2 && "jsx"@.len() == 3 && "tsx"@.len() == 3);
    assert("json"@.len() == 4 && "jsonc"@.len() == 5 && "md"@.len() == 2 && "markdown"@.len() == 8);
    assert("js"@[0] == 'j' && "ts"@[0] == 't' && "md"@[0] == 'm');
}

/// Formats one file's contents by the engine matching its extension. A
/// file of any other extension is untouched: the result is `Ok(None)`.
pub fn format_file(path: &str, ext: &str, contents: &str) -> (r: Result<
    Option<String>,
    FormatError,
>)
    ensures
        is_typescript_ext(ext@) ==> fmt_result_view(r) == typescript_format_of(path@, contents@),
        is_json_ext(ext@) ==> fmt_result_view(r) == json_format_of(path@, contents@),
        is_markdown_ext(ext@) ==> fmt_result_view(r) == markdown_format_of(path@, contents@),
        !(is_typescript_ext(ext@) || is_json_ext(ext@) || is_markdown_ext(ext@))
            ==> fmt_result_view(r) == Ok::<Option<Seq<char>>, Seq<char>>(None),
{
    proof {
        lemma_ext_literals_distinct();
    }
    if str_eq(ext, "js") || str_eq(ext, "ts") || str_eq(ext, "jsx") || str_eq(ext, "tsx") {
        format_typescript(path, contents)
    } else if str_eq(ext, "json") || str_eq(ext, "jsonc") {
        format_json(path, contents)
    } else if str_eq(ext, "md") || str_eq(ext, "markdown") {
        format_markdown(path, contents)
    } else {
        Ok(None)
    }
}

} // verus!
