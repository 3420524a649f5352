//! Phase 2: syntax-tree parsing and strategy extraction.
//!
//! Each parser produces the Full/NoTests/Summary variants of a source file,
//! with their token counts, so that scheduling is pure arithmetic.

pub mod lang;
pub mod strategy;
pub mod syntax;

use vstd::prelude::*;
use vstd::string::StringSliceAdditionalSpecFns;
use vstd::utf8::encode_utf8;
use crate::config::OutputStrategy;
use crate::error::AstDocError;
use crate::parser::strategy::{
    RemovalRange, build_strategies, lemma_fitting_ranges_ok, ranges_fit, variant_content,
};
use crate::parser::syntax::{SyntaxFailure, SyntaxNode, nodes_fit};
use crate::text::{push_str, starts_with, string_from};
use crate::tokens::cl100k_token_count;
use crate::ingestion::DiscoveredFile;
use crate::parser::lang::c_parser::{CParser, c_ranges, c_syntax};
use crate::parser::lang::go_parser::{GoParser, go_ranges, go_syntax};
use crate::parser::lang::python_parser::{PythonParser, python_ranges, python_syntax};
use crate::parser::lang::rust_parser::{RustParser, rust_ranges, rust_syntax};
use crate::parser::lang::typescript_parser::{TypeScriptParser, typescript_ranges, typescript_syntax};
use crate::paths::{extension, path_extension};
use crate::text::str_eq;

verus! {

/// Supported programming languages.
#[derive(Debug, PartialEq, Eq, Hash)]
pub enum Language {
    /// Rust source files (.rs).
    Rust,
    /// Python source files (.py).
    Python,
    /// TypeScript/JavaScript source files (.ts, .tsx, .js, .jsx).
    TypeScript,
    /// Go source files (.go).
    Go,
    /// C source files (.c, .h).
    C,
    /// Any other language supported by tree-sitter-language-pack.
    /// Contains the language name (e.g., "java", "kotlin", "ruby").
    Generic(String),
}

impl Clone for Language {
    fn clone(&self) -> (res: Self)
        ensures
            res == *self,
    {
        match self {
            Language::Rust => Language::Rust,
            Language::Python => Language::Python,
            Language::TypeScript => Language::TypeScript,
            Language::Go => Language::Go,
            Language::C => Language::C,
            Language::Generic(name) => Language::Generic(name.clone()),
        }
    }
}

impl Language {
    /// The display name: the variant's name, or the language name of `Generic`.
    pub open spec fn spec_display_name(&self) -> Seq<char> {
        match self {
            Language::Rust => "Rust"@,
            Language::Python => "Python"@,
            Language::TypeScript => "TypeScript"@,
            Language::Go => "Go"@,
            Language::C => "C"@,
            Language::Generic(name) => name@,
        }
    }

    /// The display name: the variant's name, or the language name of `Generic`.
    pub fn display_name(&self) -> (res: &str)
        ensures
            res@ == self.spec_display_name(),
    {
        match self {
            Language::Rust => "Rust",
            Language::Python => "Python",
            Language::TypeScript => "TypeScript",
            Language::Go => "Go",
            Language::C => "C",
            Language::Generic(name) => name.as_str(),
        }
    }

    /// The language name used by `tree-sitter-language-pack`.
    pub open spec fn spec_ts_pack_name(&self) -> Seq<char> {
        match self {
            Language::Rust => "rust"@,
            Language::Python => "python"@,
            Language::TypeScript => "typescript"@,
            Language::Go => "go"@,
            Language::C => "c"@,
            Language::Generic(name) => name@,
        }
    }

    /// Return the tree-sitter language name used by `tree-sitter-language-pack`.
    pub fn ts_pack_name(&self) -> (res: &str)
        ensures
            res@ == self.spec_ts_pack_name(),
    {
        match self {
            Language::Rust => "rust",
            Language::Python => "python",
            Language::TypeScript => "typescript",
            Language::Go => "go",
            Language::C => "c",
            Language::Generic(name) => name.as_str(),
        }
    }

    /// Return `true` if this is one of the core 5 languages with deep analysis.
    pub fn is_core(&self) -> (res: bool)
        ensures
            res == !(self is Generic),
    {
        match self {
            Language::Generic(_) => false,
            _ => true,
        }
    }
}

/// Pre-computed content and token count for a single strategy.
#[derive(Debug)]
pub struct StrategyData {
    /// The rendered source text for this strategy.
    pub content: String,
    /// Token count of content (computed once via tiktoken-rs during parsing).
    pub token_count: usize,
}

impl Clone for StrategyData {
    fn clone(&self) -> (res: Self)
        ensures
            res == *self,
    {
        StrategyData { content: self.content.clone(), token_count: self.token_count }
    }
}

/// The pre-computed data of a file, at most one entry per output strategy.
#[derive(Debug)]
pub struct StrategyTable {
    full: Option<StrategyData>,
    no_tests: Option<StrategyData>,
    summary: Option<StrategyData>,
}

fn clone_entry(entry: &Option<StrategyData>) -> (res: Option<StrategyData>)
    ensures
        res == *entry,
{
    match entry {
        Some(data) => Some(data.clone()),
        None => None,
    }
}

impl Clone for StrategyTable {
    fn clone(&self) -> (res: Self)
        ensures
            res == *self,
    {
        StrategyTable {
            full: clone_entry(&self.full),
            no_tests: clone_entry(&self.no_tests),
            summary: clone_entry(&self.summary),
        }
    }
}

impl StrategyTable {
    /// The entry stored for a strategy.
    pub closed spec fn entry(self, strategy: OutputStrategy) -> Option<StrategyData> {
        match strategy {
            OutputStrategy::Full => self.full,
            OutputStrategy::NoTests => self.no_tests,
            OutputStrategy::Summary => self.summary,
        }
    }

    /// The token count stored for a strategy, 0 when there is no entry.
    pub open spec fn tokens(self, strategy: OutputStrategy) -> nat {
        match self.entry(strategy) {
            Some(data) => data.token_count as nat,
            None => 0,
        }
    }

    /// An empty table.
    pub fn new() -> (res: Self)
        ensures
            forall|s: OutputStrategy| #[trigger] res.entry(s) is None,
    {
        StrategyTable { full: None, no_tests: None, summary: None }
    }

    /// Store the data of a strategy, replacing any previous entry.
    pub fn insert(&mut self, strategy: OutputStrategy, data: StrategyData)
        ensures
            final(self).entry(strategy) == Some(data),
            forall|s: OutputStrategy| s != strategy ==> #[trigger] final(self).entry(s) == old(self).entry(s),
    {
        match strategy {
            OutputStrategy::Full => self.full = Some(data),
            OutputStrategy::NoTests => self.no_tests = Some(data),
            OutputStrategy::Summary => self.summary = Some(data),
        }
    }

    /// The data stored for a strategy, if any.
    pub fn get(&self, strategy: &OutputStrategy) -> (res: Option<&StrategyData>)
        ensures
            res == match self.entry(*strategy) {
                Some(data) => Some(&data),
                None => None::<&StrategyData>,
            },
    {
        match strategy {
            OutputStrategy::Full => self.full.as_ref(),
            OutputStrategy::NoTests => self.no_tests.as_ref(),
            OutputStrategy::Summary => self.summary.as_ref(),
        }
    }

    /// Whether an entry is stored for the strategy.
    pub fn contains_key(&self, strategy: &OutputStrategy) -> (res: bool)
        ensures
            res == self.entry(*strategy) is Some,
    {
        self.get(strategy).is_some()
    }

    /// The token count stored for a strategy, 0 when there is no entry.
    pub fn token_count(&self, strategy: &OutputStrategy) -> (res: usize)
        ensures
            res == self.tokens(*strategy),
    {
        match self.get(strategy) {
            Some(data) => data.token_count,
            None => 0,
        }
    }
}

/// A parsed file with pre-computed strategy data for all output modes.
#[derive(Debug)]
pub struct ParsedFile {
    /// Relative path from the project root.
    pub path: String,
    /// Detected language.
    pub language: Language,
    /// Original source content.
    pub source: String,
    /// Pre-computed strategy data for each output mode.
    pub strategies_data: StrategyTable,
}

impl Clone for ParsedFile {
    fn clone(&self) -> (res: Self)
        ensures
            res == *self,
    {
        ParsedFile {
            path: self.path.clone(),
            language: self.language.clone(),
            source: self.source.clone(),
            strategies_data: self.strategies_data.clone(),
        }
    }
}


/// Trait for language-specific parsers.
pub trait LanguageParser {
    /// Parse the source code at `path` and produce a `ParsedFile`.
    fn parse(&self, source: &str, path: &str) -> Result<ParsedFile, AstDocError>;
}

/// `p` is the parsed file of `source` at `path` in `language`, whose variants are
/// cut by `ranges`, each with its token count.
pub open spec fn parsed_as(
    p: ParsedFile,
    path: Seq<char>,
    language: Language,
    source: Seq<char>,
    ranges: Seq<RemovalRange>,
) -> bool {
    &&& p.path@ == path
    &&& p.language == language
    &&& p.source@ == source
    &&& forall|s: OutputStrategy| #[trigger] p.strategies_data.entry(s) matches Some(data)
        && data.content@ == variant_content(source, ranges, s) && data.token_count
        == cl100k_token_count(data.content@)
}

/// Assemble the parsed file of `source`, cutting its variants by the test ranges
/// followed by the summary ranges.
pub fn assemble(
    source: &str,
    path: &str,
    language: Language,
    test_ranges: &[RemovalRange],
    summary_ranges: &[RemovalRange],
) -> (res: ParsedFile)
    requires
        ranges_fit(source.spec_bytes(), test_ranges@ + summary_ranges@),
    ensures
        parsed_as(res, path@, language, source@, test_ranges@ + summary_ranges@),
{
    proof {
        lemma_fitting_ranges_ok(source, test_ranges@ + summary_ranges@);
    }
    let strategies_data = build_strategies(source, test_ranges, summary_ranges);
    ParsedFile {
        path: String::from_str(path),
        language,
        source: String::from_str(source),
        strategies_data,
    }
}

/// The message of a failed syntax-tree parse in the language called `name`.
pub open spec fn syntax_message(name: Seq<char>, failure: SyntaxFailure) -> Seq<char> {
    match failure {
        SyntaxFailure::Grammar(text) => "Failed to set "@ + name + " language: "@ + text@,
        SyntaxFailure::NoTree => "Failed to parse "@ + name + " source"@,
    }
}

/// The error of a failed syntax-tree parse, reported for the path `<inline>`.
pub fn syntax_error(language: &Language, failure: SyntaxFailure) -> (res: AstDocError)
    ensures
        res matches AstDocError::Parse { path, message } && path@ == "<inline>"@ && message@
            == syntax_message(language.spec_display_name(), failure),
{
    let mut msg: Vec<char> = Vec::new();
    match failure {
        SyntaxFailure::Grammar(text) => {
            push_str(&mut msg, "Failed to set ");
            push_str(&mut msg, language.display_name());
            push_str(&mut msg, " language: ");
            push_str(&mut msg, text.as_str());
        },
        SyntaxFailure::NoTree => {
            push_str(&mut msg, "Failed to parse ");
            push_str(&mut msg, language.display_name());
            push_str(&mut msg, " source");
        },
    }
    AstDocError::Parse { path: String::from_str("<inline>"), message: string_from(&msg) }
}

/// The message reported when a syntax tree's byte ranges do not fit its source.
pub open spec fn misfit_message() -> Seq<char> {
    "syntax tree does not fit the source"@
}

/// The error reported when a syntax tree's byte ranges do not fit its source.
pub fn misfit_error(path: &str) -> (res: AstDocError)
    ensures
        res matches AstDocError::Parse { path: p, message } && p@ == path@ && message@
            == misfit_message(),
{
    AstDocError::Parse {
        path: String::from_str(path),
        message: String::from_str("syntax tree does not fit the source"),
    }
}

/// The outcome of parsing `source` at `path` in `language`, given what the
/// syntax-tree parser gave back and how the ranges follow from a tree.
pub open spec fn parse_outcome(
    res: Result<ParsedFile, AstDocError>,
    path: Seq<char>,
    language: Language,
    source: Seq<char>,
    syntax: Result<Vec<SyntaxNode>, SyntaxFailure>,
    ranges: spec_fn(Seq<SyntaxNode>) -> Seq<RemovalRange>,
) -> bool {
    match syntax {
        Err(failure) => res matches Err(AstDocError::Parse { path: p, message }) && p@
            == "<inline>"@ && message@ == syntax_message(language.spec_display_name(), failure),
        Ok(nodes) => if nodes_fit(nodes@, encode_utf8(source)) {
            res matches Ok(p) && parsed_as(p, path, language, source, ranges(nodes@))
        } else {
            res matches Err(AstDocError::Parse { path: p, message }) && p@ == path && message@
                == misfit_message()
        },
    }
}

/// What parsing `source` at `path` in `language` gives when its syntax tree is
/// `nodes` and the removal ranges of that tree are `ranges`: the parsed file when
/// the tree's byte ranges fit the source, else a `Parse` error for the path.
pub open spec fn parse_claim(
    res: Result<ParsedFile, AstDocError>,
    path: Seq<char>,
    language: Language,
    source: Seq<char>,
    nodes: Seq<SyntaxNode>,
    ranges: Seq<RemovalRange>,
) -> bool {
    if nodes_fit(nodes, encode_utf8(source)) {
        res matches Ok(p) && parsed_as(p, path, language, source, ranges)
    } else {
        res matches Err(AstDocError::Parse { path: p, message }) && p@ == path && message@
            == misfit_message()
    }
}

/// A parse outcome from the syntax tree `nodes` is what the claim states.
pub proof fn lemma_outcome_claim(
    res: Result<ParsedFile, AstDocError>,
    path: Seq<char>,
    language: Language,
    source: Seq<char>,
    syntax: Result<Vec<SyntaxNode>, SyntaxFailure>,
    ranges: spec_fn(Seq<SyntaxNode>) -> Seq<RemovalRange>,
    nodes: Seq<SyntaxNode>,
)
    requires
        parse_outcome(res, path, language, source, syntax, ranges),
        syntax matches Ok(v) && v@ == nodes,
    ensures
        parse_claim(res, path, language, source, nodes, ranges(nodes)),
{
}


/// The core language of a file extension.
pub open spec fn core_language(ext: Seq<char>) -> Option<Language> {
    if ext == "rs"@ {
        Some(Language::Rust)
    } else if ext == "py"@ {
        Some(Language::Python)
    } else if ext == "ts"@ || ext == "tsx"@ || ext == "js"@ || ext == "jsx"@ {
        Some(Language::TypeScript)
    } else if ext == "go"@ {
        Some(Language::Go)
    } else if ext == "c"@ || ext == "h"@ {
        Some(Language::C)
    } else {
        None
    }
}

/// The core language of a path, by the extension of its final component.
pub open spec fn detected_language(path: Seq<char>) -> Option<Language> {
    match path_extension(path) {
        Some(ext) => core_language(ext),
        None => None,
    }
}

/// Detect the language from a file extension: `.rs`, `.py`, `.ts`/`.tsx`/`.js`/`.jsx`,
/// `.go`, `.c`/`.h`.
pub fn detect_language(path: &str) -> (res: Option<Language>)
    ensures
        res == detected_language(path@),
{
    let ext = match extension(path) {
        Some(e) => e,
        None => return None,
    };
    let e = ext.as_str();
    if str_eq(e, "rs") {
        Some(Language::Rust)
    } else if str_eq(e, "py") {
        Some(Language::Python)
    } else if str_eq(e, "ts") || str_eq(e, "tsx") || str_eq(e, "js") || str_eq(e, "jsx") {
        Some(Language::TypeScript)
    } else if str_eq(e, "go") {
        Some(Language::Go)
    } else if str_eq(e, "c") || str_eq(e, "h") {
        Some(Language::C)
    } else {
        None
    }
}

/// The names under which the language pack knows the core languages.
pub open spec fn is_core_pack_name(name: Seq<char>) -> bool {
    ||| name == "rust"@
    ||| name == "python"@
    ||| name == "typescript"@
    ||| name == "tsx"@
    ||| name == "javascript"@
    ||| name == "go"@
    ||| name == "c"@
}

/// The generic language of a language-pack name, given whether the pack has it.
pub fn pack_language(name: &str, available: bool) -> (res: Option<Language>)
    ensures
        match res {
            Some(lang) => !is_core_pack_name(name@) && available && (lang matches Language::Generic(n)
                && n@ == name@),
            None => is_core_pack_name(name@) || !available,
        },
{
    if str_eq(name, "rust") || str_eq(name, "python") || str_eq(name, "typescript") || str_eq(
        name,
        "tsx",
    ) || str_eq(name, "javascript") || str_eq(name, "go") || str_eq(name, "c") {
        None
    } else if available {
        Some(Language::Generic(String::from_str(name)))
    } else {
        None
    }
}

/// What parsing a discovered file in a language gives: for a core language,
/// what its parser claims; for a generic language, `UnsupportedLanguage`.
pub open spec fn file_parse_claim(file: DiscoveredFile, lang: Language, res: Result<ParsedFile, AstDocError>) -> bool {
    match lang {
        Language::Rust => parse_claim(
            res,
            file.path@,
            Language::Rust,
            file.content@,
            rust_syntax(file.content@),
            rust_ranges(rust_syntax(file.content@), encode_utf8(file.content@)),
        ),
        Language::Python => parse_claim(
            res,
            file.path@,
            Language::Python,
            file.content@,
            python_syntax(file.content@),
            python_ranges(python_syntax(file.content@), encode_utf8(file.content@)),
        ),
        Language::TypeScript => parse_claim(
            res,
            file.path@,
            Language::TypeScript,
            file.content@,
            typescript_syntax(file.content@),
            typescript_ranges(typescript_syntax(file.content@), encode_utf8(file.content@), file.path@),
        ),
        Language::Go => parse_claim(
            res,
            file.path@,
            Language::Go,
            file.content@,
            go_syntax(file.content@),
            go_ranges(go_syntax(file.content@), encode_utf8(file.content@), file.path@),
        ),
        Language::C => parse_claim(
            res,
            file.path@,
            Language::C,
            file.content@,
            c_syntax(file.content@),
            c_ranges(c_syntax(file.content@)),
        ),
        Language::Generic(name) => res matches Err(AstDocError::UnsupportedLanguage { language })
            && language@ == name@,
    }
}

/// Whether parsing a discovered file in a language succeeds: for a core
/// language, when the byte ranges of its syntax tree fit its content; never for
/// a generic language.
pub open spec fn file_parses(file: DiscoveredFile, lang: Language) -> bool {
    let src = file.content@;
    match lang {
        Language::Rust => nodes_fit(rust_syntax(src), encode_utf8(src)),
        Language::Python => nodes_fit(python_syntax(src), encode_utf8(src)),
        Language::TypeScript => nodes_fit(typescript_syntax(src), encode_utf8(src)),
        Language::Go => nodes_fit(go_syntax(src), encode_utf8(src)),
        Language::C => nodes_fit(c_syntax(src), encode_utf8(src)),
        Language::Generic(_) => false,
    }
}

/// Parse a discovered file with the parser of its language.
///
/// The generic languages need `tree-sitter-language-pack`, which this library
/// does not call; for them this reports `UnsupportedLanguage`.
pub fn parse_file(file: &DiscoveredFile, lang: &Language) -> (res: Result<ParsedFile, AstDocError>)
    ensures
        file_parse_claim(*file, *lang, res),
        res is Ok <==> file_parses(*file, *lang),
{
    let source = file.content.as_str();
    let path = file.path.as_str();
    match lang {
        Language::Rust => RustParser::new().parse(source, path),
        Language::Python => PythonParser::new().parse(source, path),
        Language::TypeScript => TypeScriptParser::new().parse(source, path),
        Language::Go => GoParser::new().parse(source, path),
        Language::C => CParser::new().parse(source, path),
        Language::Generic(name) => Err(AstDocError::UnsupportedLanguage { language: name.clone() }),
    }
}

} // verus!
