//! Language detection from file extensions and the language servers that
//! serve each language.

use vstd::prelude::*;
use crate::path::{extension, extension_chars};
use crate::text::{ascii_lower_chars, ascii_lower_seq, chars_eq, is_prefix, is_suffix, str_chars};

verus! {

broadcast use vstd::string::group_string_axioms;

#[derive(Debug, Clone, Copy, PartialEq, Eq, Hash, Structural)]
pub enum LanguageId {
    Rust,
    Python,
    JavaScript,
    JavaScriptReact,
    TypeScript,
    TypeScriptReact,
    PlainText,
}

#[derive(Debug, Clone, Copy, PartialEq, Eq, Hash, Structural)]
pub enum LanguageServerId {
    Rust,
    Python,
    TypeScript,
}

/// The language of a lower-cased file extension.
pub open spec fn language_for_extension(ext: Seq<char>) -> LanguageId {
    if ext == seq!['r', 's'] {
        LanguageId::Rust
    } else if ext == seq!['p', 'y'] || ext == seq!['p', 'y', 'i'] {
        LanguageId::Python
    } else if ext == seq!['j', 's'] || ext == seq!['m', 'j', 's'] || ext == seq!['c', 'j', 's'] {
        LanguageId::JavaScript
    } else if ext == seq!['j', 's', 'x'] {
        LanguageId::JavaScriptReact
    } else if ext == seq!['t', 's'] || ext == seq!['m', 't', 's'] || ext == seq!['c', 't', 's'] {
        LanguageId::TypeScript
    } else if ext == seq!['t', 's', 'x'] {
        LanguageId::TypeScriptReact
    } else {
        LanguageId::PlainText
    }
}

/// The ASCII-lower-cased extension of a path, `""` when it has none.
pub open spec fn lower_extension(p: Seq<char>) -> Seq<char> {
    match extension(p) {
        Some(e) => ascii_lower_seq(e),
        None => Seq::empty(),
    }
}

/// The extension of `p`, ASCII-lower-cased, or empty.
pub fn lower_extension_chars(p: &str) -> (r: Vec<char>)
    ensures
        r@ == lower_extension(p@),
{
    let cs = str_chars(p);
    match extension_chars(cs.as_slice()) {
        Some(e) => ascii_lower_chars(e.as_slice()),
        None => Vec::new(),
    }
}

/// The LSP `languageId` of a language.
pub open spec fn lsp_language_name(l: LanguageId) -> Option<Seq<char>> {
    match l {
        LanguageId::Rust => Some("rust"@),
        LanguageId::Python => Some("python"@),
        LanguageId::JavaScript => Some("javascript"@),
        LanguageId::JavaScriptReact => Some("javascriptreact"@),
        LanguageId::TypeScript => Some("typescript"@),
        LanguageId::TypeScriptReact => Some("typescriptreact"@),
        LanguageId::PlainText => None,
    }
}

/// The language server that serves a language.
pub open spec fn server_of(l: LanguageId) -> Option<LanguageServerId> {
    match l {
        LanguageId::Rust => Some(LanguageServerId::Rust),
        LanguageId::Python => Some(LanguageServerId::Python),
        LanguageId::JavaScript | LanguageId::JavaScriptReact | LanguageId::TypeScript
        | LanguageId::TypeScriptReact => Some(LanguageServerId::TypeScript),
        LanguageId::PlainText => None,
    }
}

/// The human-readable name of a language.
pub open spec fn label_of(l: LanguageId) -> Seq<char> {
    match l {
        LanguageId::Rust => "Rust"@,
        LanguageId::Python => "Python"@,
        LanguageId::JavaScript => "JavaScript"@,
        LanguageId::JavaScriptReact => "JavaScript JSX"@,
        LanguageId::TypeScript => "TypeScript"@,
        LanguageId::TypeScriptReact => "TypeScript TSX"@,
        LanguageId::PlainText => "Plain Text"@,
    }
}

/// The executable name of a language server.
pub open spec fn server_name(s: LanguageServerId) -> Seq<char> {
    match s {
        LanguageServerId::Rust => "rust-analyzer"@,
        LanguageServerId::Python => "pyright-langserver"@,
        LanguageServerId::TypeScript => "typescript-language-server"@,
    }
}

/// The extensions that `from_path` recognises, in order.
pub open spec fn known_extensions() -> Seq<Seq<char>> {
    seq!["rs"@, "py"@, "pyi"@, "js"@, "mjs"@, "cjs"@, "jsx"@, "ts"@, "mts"@, "cts"@, "tsx"@]
}

impl LanguageId {
    /// Detects the language from the path's extension, ignoring ASCII case.
    pub fn from_path(path: &str) -> (r: Self)
        ensures
            r == language_for_extension(lower_extension(path@)),
    {
        let e = lower_extension_chars(path);
        let e = e.as_slice();
        if chars_eq(e, &['r', 's']) {
            LanguageId::Rust
        } else if chars_eq(e, &['p', 'y']) || chars_eq(e, &['p', 'y', 'i']) {
            LanguageId::Python
        } else if chars_eq(e, &['j', 's']) || chars_eq(e, &['m', 'j', 's']) || chars_eq(e, &['c', 'j', 's']) {
            LanguageId::JavaScript
        } else if chars_eq(e, &['j', 's', 'x']) {
            LanguageId::JavaScriptReact
        } else if chars_eq(e, &['t', 's']) || chars_eq(e, &['m', 't', 's']) || chars_eq(e, &['c', 't', 's']) {
            LanguageId::TypeScript
        } else if chars_eq(e, &['t', 's', 'x']) {
            LanguageId::TypeScriptReact
        } else {
            LanguageId::PlainText
        }
    }

    pub fn lsp_language_id(&self) -> (r: Option<&'static str>)
        ensures
            match r {
                Some(s) => lsp_language_name(*self) == Some(s@),
                None => lsp_language_name(*self) is None,
            },
    {
        match self {
            LanguageId::Rust => Some("rust"),
            LanguageId::Python => Some("python"),
            LanguageId::JavaScript => Some("javascript"),
            LanguageId::JavaScriptReact => Some("javascriptreact"),
            LanguageId::TypeScript => Some("typescript"),
            LanguageId::TypeScriptReact => Some("typescriptreact"),
            LanguageId::PlainText => None,
        }
    }

    pub fn server_id(&self) -> (r: Option<LanguageServerId>)
        ensures
            r == server_of(*self),
    {
        match self {
            LanguageId::Rust => Some(LanguageServerId::Rust),
            LanguageId::Python => Some(LanguageServerId::Python),
            LanguageId::JavaScript | LanguageId::JavaScriptReact | LanguageId::TypeScript
            | LanguageId::TypeScriptReact => Some(LanguageServerId::TypeScript),
            LanguageId::PlainText => None,
        }
    }

    pub fn display_label(&self) -> (r: &'static str)
        ensures
            r@ == label_of(*self),
    {
        match self {
            LanguageId::Rust => "Rust",
            LanguageId::Python => "Python",
            LanguageId::JavaScript => "JavaScript",
            LanguageId::JavaScriptReact => "JavaScript JSX",
            LanguageId::TypeScript => "TypeScript",
            LanguageId::TypeScriptReact => "TypeScript TSX",
            LanguageId::PlainText => "Plain Text",
        }
    }

    pub fn has_syntax_parser(&self) -> (r: bool)
        ensures
            r == (*self != LanguageId::PlainText),
    {
        !matches!(self, LanguageId::PlainText)
    }

    pub fn all_extensions() -> (r: &'static [&'static str])
        ensures
            r@.map_values(|s: &str| s@) == known_extensions(),
    {
        let r: &'static [&'static str] = &["rs", "py", "pyi", "js", "mjs", "cjs", "jsx", "ts", "mts", "cts", "tsx"];
        assert(r@.map_values(|s: &str| s@) =~= known_extensions());
        r
    }
}

impl LanguageServerId {
    pub fn display_name(&self) -> (r: &'static str)
        ensures
            r@ == server_name(*self),
    {
        match self {
            LanguageServerId::Rust => "rust-analyzer",
            LanguageServerId::Python => "pyright-langserver",
            LanguageServerId::TypeScript => "typescript-language-server",
        }
    }
}

/// Every extension that `all_extensions` lists is recognised by
/// `from_path`, and every language other than plain text has a server.
pub proof fn lemma_known_extensions_are_recognised(i: int)
    requires
        0 <= i < known_extensions().len(),
    ensures
        language_for_extension(known_extensions()[i]) != LanguageId::PlainText,
        server_of(language_for_extension(known_extensions()[i])) is Some,
{
    reveal_strlit("rs");
    assert(known_extensions()[0] =~= seq!['r', 's']);
    reveal_strlit("py");
    assert(known_extensions()[1] =~= seq!['p', 'y']);
    reveal_strlit("pyi");
    assert(known_extensions()[2] =~= seq!['p', 'y', 'i']);
    reveal_strlit("js");
    assert(known_extensions()[3] =~= seq!['j', 's']);
    reveal_strlit("mjs");
    assert(known_extensions()[4] =~= seq!['m', 'j', 's']);
    reveal_strlit("cjs");
    assert(known_extensions()[5] =~= seq!['c', 'j', 's']);
    reveal_strlit("jsx");
    assert(known_extensions()[6] =~= seq!['j', 's', 'x']);
    reveal_strlit("ts");
    assert(known_extensions()[7] =~= seq!['t', 's']);
    reveal_strlit("mts");
    assert(known_extensions()[8] =~= seq!['m', 't', 's']);
    reveal_strlit("cts");
    assert(known_extensions()[9] =~= seq!['c', 't', 's']);
    reveal_strlit("tsx");
    assert(known_extensions()[10] =~= seq!['t', 's', 'x']);
}


/// The language of a file with a known extension (in any ASCII case) is told
/// by the extension's letters, as its LSP language id shows: the id ends in
/// `react` exactly when the extension ends in `x` (`jsx`, `tsx`), begins with
/// `typescript` exactly when the extension holds a `t`, begins with
/// `javascript` exactly when it holds a `j`, is `python` exactly when the
/// extension begins with `p`, and `rust` exactly for `rs`.
pub proof fn lemma_extension_letters_tell_the_language(path: Seq<char>)
    requires
        known_extensions().contains(lower_extension(path)),
    ensures
        ({
            let e = lower_extension(path);
            let id = lsp_language_name(language_for_extension(e));
            &&& id is Some
            &&& is_suffix("react"@, id->0) <==> e.last() == 'x'
            &&& is_prefix("typescript"@, id->0) <==> e.contains('t')
            &&& is_prefix("javascript"@, id->0) <==> e.contains('j')
            &&& (id->0 == "python"@) <==> e[0] == 'p'
            &&& (id->0 == "rust"@) <==> e == seq!['r', 's']
        }),
{
    let e = lower_extension(path);
    let i = choose|i: int| 0 <= i < known_extensions().len() && known_extensions()[i] == e;
    lemma_known_extensions_are_recognised(i);
    reveal_strlit("rs");
    reveal_strlit("py");
    reveal_strlit("pyi");
    reveal_strlit("js");
    reveal_strlit("mjs");
    reveal_strlit("cjs");
    reveal_strlit("jsx");
    reveal_strlit("ts");
    reveal_strlit("mts");
    reveal_strlit("cts");
    reveal_strlit("tsx");
    reveal_strlit("react");
    reveal_strlit("typescript");
    reveal_strlit("javascript");
    reveal_strlit("python");
    reveal_strlit("rust");
    reveal_strlit("javascriptreact");
    reveal_strlit("typescriptreact");
    if i == 0 {
        assert(e =~= seq!['r', 's']);
        let id = "rust"@;
        assert(lsp_language_name(language_for_extension(e)) == Some(id));
        assert(!e.contains('t'));
        assert(!e.contains('j'));
    } else if i == 1 {
        assert(e =~= seq!['p', 'y']);
        let id = "python"@;
        assert(lsp_language_name(language_for_extension(e)) == Some(id));
        assert(id.skip(id.len() - 5)[0] != "react"@[0]);
        assert(!e.contains('t'));
        assert(!e.contains('j'));
        assert(e != seq!['r', 's']);
    } else if i == 2 {
        assert(e =~= seq!['p', 'y', 'i']);
        let id = "python"@;
        assert(lsp_language_name(language_for_extension(e)) == Some(id));
        assert(id.skip(id.len() - 5)[0] != "react"@[0]);
        assert(!e.contains('t'));
        assert(!e.contains('j'));
        assert(e != seq!['r', 's']);
    } else if i == 3 {
        assert(e =~= seq!['j', 's']);
        let id = "javascript"@;
        assert(lsp_language_name(language_for_extension(e)) == Some(id));
        assert(id.skip(id.len() - 5)[0] != "react"@[0]);
        assert(id.take(10)[0] != "typescript"@[0]);
        assert(id.take(10) =~= "javascript"@);
        assert(!e.contains('t'));
        assert(e[0] == 'j');
        assert(e != seq!['r', 's']);
    } else if i == 4 {
        assert(e =~= seq!['m', 'j', 's']);
        let id = "javascript"@;
        assert(lsp_language_name(language_for_extension(e)) == Some(id));
        assert(id.skip(id.len() - 5)[0] != "react"@[0]);
        assert(id.take(10)[0] != "typescript"@[0]);
        assert(id.take(10) =~= "javascript"@);
        assert(!e.contains('t'));
        assert(e[1] == 'j');
        assert(e != seq!['r', 's']);
    } else if i == 5 {
        assert(e =~= seq!['c', 'j', 's']);
        let id = "javascript"@;
        assert(lsp_language_name(language_for_extension(e)) == Some(id));
        assert(id.skip(id.len() - 5)[0] != "react"@[0]);
        assert(id.take(10)[0] != "typescript"@[0]);
        assert(id.take(10) =~= "javascript"@);
        assert(!e.contains('t'));
        assert(e[1] == 'j');
        assert(e != seq!['r', 's']);
    } else if i == 6 {
        assert(e =~= seq!['j', 's', 'x']);
        let id = "javascriptreact"@;
        assert(lsp_language_name(language_for_extension(e)) == Some(id));
        assert(id.skip(id.len() - 5) =~= "react"@);
        assert(id.take(10)[0] != "typescript"@[0]);
        assert(id.take(10) =~= "javascript"@);
        assert(!e.contains('t'));
        assert(e[0] == 'j');
        assert(e != seq!['r', 's']);
    } else if i == 7 {
        assert(e =~= seq!['t', 's']);
        let id = "typescript"@;
        assert(lsp_language_name(language_for_extension(e)) == Some(id));
        assert(id.skip(id.len() - 5)[0] != "react"@[0]);
        assert(id.take(10) =~= "typescript"@);
        assert(id.take(10)[0] != "javascript"@[0]);
        assert(e[0] == 't');
        assert(!e.contains('j'));
        assert(e != seq!['r', 's']);
    } else if i == 8 {
        assert(e =~= seq!['m', 't', 's']);
        let id = "typescript"@;
        assert(lsp_language_name(language_for_extension(e)) == Some(id));
        assert(id.skip(id.len() - 5)[0] != "react"@[0]);
        assert(id.take(10) =~= "typescript"@);
        assert(id.take(10)[0] != "javascript"@[0]);
        assert(e[1] == 't');
        assert(!e.contains('j'));
        assert(e != seq!['r', 's']);
    } else if i == 9 {
        assert(e =~= seq!['c', 't', 's']);
        let id = "typescript"@;
        assert(lsp_language_name(language_for_extension(e)) == Some(id));
        assert(id.skip(id.len() - 5)[0] != "react"@[0]);
        assert(id.take(10) =~= "typescript"@);
        assert(id.take(10)[0] != "javascript"@[0]);
        assert(e[1] == 't');
        assert(!e.contains('j'));
        assert(e != seq!['r', 's']);
    } else if i == 10 {
        assert(e =~= seq!['t', 's', 'x']);
        let id = "typescriptreact"@;
        assert(lsp_language_name(language_for_extension(e)) == Some(id));
        assert(id.skip(id.len() - 5) =~= "react"@);
        assert(id.take(10) =~= "typescript"@);
        assert(id.take(10)[0] != "javascript"@[0]);
        assert(e[0] == 't');
        assert(!e.contains('j'));
        assert(e != seq!['r', 's']);
    }
}

} // verus!
