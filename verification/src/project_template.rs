//! The "New Project" wizard: its state, the validation of what the user
//! typed, where the project goes, and the files a template consists of.

use vstd::prelude::*;
use crate::path::{join, join_path};
use crate::text::{owned, push_str, str_chars, trim, trimmed};

verus! {

/// The project templates.
#[derive(Debug, Clone, Copy, PartialEq, Eq, Structural)]
pub enum TemplateKind {
    /// A Cargo binary crate.
    RustBinary,
}

impl TemplateKind {
    /// The name the wizard shows.
    pub fn label(self) -> (r: &'static str)
        ensures
            r@ == "Rust \u{2014} Binary (Cargo)"@,
    {
        match self {
            TemplateKind::RustBinary => "Rust \u{2014} Binary (Cargo)",
        }
    }

    /// Every template, in the order the wizard lists them.
    pub fn all() -> (r: Vec<TemplateKind>)
        ensures
            r@ == seq![TemplateKind::RustBinary],
    {
        let mut v: Vec<TemplateKind> = Vec::new();
        v.push(TemplateKind::RustBinary);
        v
    }
}

/// The state of the wizard.
#[derive(Debug)]
pub struct NewProjectState {
    pub open: bool,
    pub name: String,
    pub target_dir: String,
    pub template: TemplateKind,
    pub init_git: bool,
    pub open_after: bool,
    /// The message the wizard shows.
    pub feedback: Option<String>,
    /// Where the last project was created.
    pub success_path: Option<String>,
}

/// The wizard as it first is: closed, empty, creating a binary crate with
/// a Git repository and opening it afterwards.
pub open spec fn is_fresh(s: NewProjectState) -> bool {
    &&& s.name@.len() == 0
    &&& s.target_dir@.len() == 0
    &&& s.template == TemplateKind::RustBinary
    &&& s.init_git
    &&& s.open_after
    &&& s.feedback is None
    &&& s.success_path is None
}

impl Default for NewProjectState {
    fn default() -> (r: Self)
        ensures
            is_fresh(r),
            !r.open,
    {
        NewProjectState {
            open: false,
            name: String::new(),
            target_dir: String::new(),
            template: TemplateKind::RustBinary,
            init_git: true,
            open_after: true,
            feedback: None,
            success_path: None,
        }
    }
}

/// Whether `c` has the Unicode `Alphabetic` property (`char::is_alphabetic`).
pub uninterp spec fn unicode_alphabetic(c: char) -> bool;

/// Whether `c` is in a Unicode numeric category (Nd, Nl or No).
pub uninterp spec fn unicode_numeric(c: char) -> bool;

/// `char::is_alphabetic`: whether `c` has the Unicode `Alphabetic` property,
/// named by `unicode_alphabetic`; among ASCII characters exactly the letters
/// `A` to `Z` and `a` to `z` have it.
#[verifier::external_body]
fn is_alphabetic(c: char) -> (r: bool)
    ensures
        r == unicode_alphabetic(c),
        c <= '\u{7f}' ==> (r <==> ('a' <= c <= 'z' || 'A' <= c <= 'Z')),
{
    c.is_alphabetic()
}

/// `char::is_alphanumeric`: which std documents as alphabetic or numeric;
/// among ASCII characters exactly the letters and the digits `0` to `9` are.
#[verifier::external_body]
fn is_alphanumeric(c: char) -> (r: bool)
    ensures
        r == (unicode_alphabetic(c) || unicode_numeric(c)),
        c <= '\u{7f}' ==> (r <==> ('a' <= c <= 'z' || 'A' <= c <= 'Z' || '0' <= c <= '9')),
{
    c.is_alphanumeric()
}

/// A valid project name: a letter or underscore, then letters, digits,
/// hyphens and underscores.
pub open spec fn valid_ident(name: Seq<char>) -> bool {
    &&& name.len() > 0
    &&& (unicode_alphabetic(name[0]) || name[0] == '_')
    &&& forall|i: int|
        1 <= i < name.len() ==> unicode_alphabetic(#[trigger] name[i]) || unicode_numeric(name[i])
            || name[i] == '_' || name[i] == '-'
}

fn is_valid_ident(name: &str) -> (r: bool)
    ensures
        r == valid_ident(name@),
{
    let v = str_chars(name);
    if v.len() == 0 {
        return false;
    }
    let first = v[0];
    if !is_alphabetic(first) && first != '_' {
        return false;
    }
    let mut i: usize = 1;
    while i < v.len()
        invariant
            1 <= i <= v@.len(),
            v@ == name@,
            forall|k: int|
                1 <= k < i ==> unicode_alphabetic(#[trigger] v@[k]) || unicode_numeric(v@[k])
                    || v@[k] == '_' || v@[k] == '-',
        decreases v.len() - i,
    {
        let c = v[i];
        if !(is_alphanumeric(c) || c == '_' || c == '-') {
            return false;
        }
        i = i + 1;
    }
    true
}

/// What `validate` says of a name and target directory.
pub open spec fn validation(name: Seq<char>, target_dir: Seq<char>) -> Result<(), Seq<char>> {
    if trimmed(name).len() == 0 {
        Err("Project name cannot be empty."@)
    } else if !valid_ident(trimmed(name)) {
        Err(
            "Project name must start with a letter or underscore and contain only letters, digits, hyphens, and underscores."@,
        )
    } else if trimmed(target_dir).len() == 0 {
        Err("Target directory cannot be empty."@)
    } else {
        Ok(())
    }
}

/// The `Cargo.toml` of a binary crate named `name`.
pub open spec fn cargo_toml(name: Seq<char>) -> Seq<char> {
    "[package]\nname = \""@ + name
        + "\"\nversion = \"0.1.0\"\nedition = \"2021\"\n\n[dependencies]\n"@
}

/// The `README.md` of a project named `name`.
pub open spec fn readme(name: Seq<char>) -> Seq<char> {
    "# "@ + name + "\n\nA new Rust project.\n"@
}

/// The `src/main.rs` of a new binary crate.
pub open spec fn main_rs() -> Seq<char> {
    "fn main() {\n    println!(\"Hello, world!\");\n}\n"@
}

/// The files of a binary crate named `name`: paths relative to the
/// project root, and contents, in the order they are written.
pub open spec fn rust_binary_files(name: Seq<char>) -> Seq<(Seq<char>, Seq<char>)> {
    seq![
        ("Cargo.toml"@, cargo_toml(name)),
        ("src/main.rs"@, main_rs()),
        (".gitignore"@, "/target\n"@),
        ("README.md"@, readme(name)),
    ]
}

/// The message shown once a project was created at `path`.
pub open spec fn created_text(path: Seq<char>) -> Seq<char> {
    "Project created at "@ + path
}

impl NewProjectState {
    /// Opens the wizard afresh.
    pub fn open(&mut self)
        ensures
            final(self).open,
            is_fresh(*final(self)),
    {
        *self = NewProjectState {
            open: true,
            name: String::new(),
            target_dir: String::new(),
            template: TemplateKind::RustBinary,
            init_git: true,
            open_after: true,
            feedback: None,
            success_path: None,
        };
    }

    /// Checks what the user typed, as `validation`: the trimmed name must
    /// be a valid identifier (hyphens allowed) and the trimmed target
    /// directory must not be empty.
    pub fn validate(&self) -> (r: Result<(), String>)
        ensures
            match (r, validation(self.name@, self.target_dir@)) {
                (Ok(()), Ok(())) => true,
                (Err(m), Err(e)) => m@ == e,
                _ => false,
            },
    {
        let name = trim(self.name.as_str());
        if str_chars(name.as_str()).len() == 0 {
            return Err(owned("Project name cannot be empty."));
        }
        if !is_valid_ident(name.as_str()) {
            return Err(
                owned(
                    "Project name must start with a letter or underscore and contain only letters, digits, hyphens, and underscores.",
                ),
            );
        }
        let dir = trim(self.target_dir.as_str());
        if str_chars(dir.as_str()).len() == 0 {
            return Err(owned("Target directory cannot be empty."));
        }
        Ok(())
    }

    /// Where the project root goes: the trimmed name under the trimmed
    /// target directory.
    pub fn project_path(&self) -> (r: String)
        ensures
            r@ == join(trimmed(self.target_dir@), trimmed(self.name@)),
    {
        let dir = trim(self.target_dir.as_str());
        let name = trim(self.name.as_str());
        join_path(dir.as_str(), name.as_str())
    }

    /// The path the wizard previews: the project path, once both the name
    /// and the target directory are filled in.
    pub fn preview_path(&self) -> (r: Option<String>)
        ensures
            match r {
                Some(p) => trimmed(self.name@).len() > 0 && trimmed(self.target_dir@).len() > 0
                    && p@ == join(trimmed(self.target_dir@), trimmed(self.name@)),
                None => trimmed(self.name@).len() == 0 || trimmed(self.target_dir@).len() == 0,
            },
    {
        let name = trim(self.name.as_str());
        let dir = trim(self.target_dir.as_str());
        if str_chars(name.as_str()).len() == 0 || str_chars(dir.as_str()).len() == 0 {
            None
        } else {
            Some(self.project_path())
        }
    }

    /// The files of the chosen template for the trimmed name, as
    /// `rust_binary_files`.
    pub fn template_files(&self) -> (r: Vec<(String, String)>)
        ensures
            r@.len() == 4,
            forall|i: int|
                0 <= i < 4 ==> (#[trigger] r@[i]).0@ == rust_binary_files(trimmed(self.name@))[i].0
                    && r@[i].1@ == rust_binary_files(trimmed(self.name@))[i].1,
    {
        let name = trim(self.name.as_str());
        let mut cargo = owned("[package]\nname = \"");
        push_str(&mut cargo, name.as_str());
        push_str(&mut cargo, "\"\nversion = \"0.1.0\"\nedition = \"2021\"\n\n[dependencies]\n");
        let mut readme_text = owned("# ");
        push_str(&mut readme_text, name.as_str());
        push_str(&mut readme_text, "\n\nA new Rust project.\n");
        let mut files: Vec<(String, String)> = Vec::new();
        files.push((owned("Cargo.toml"), cargo));
        files.push(
            (owned("src/main.rs"), owned("fn main() {\n    println!(\"Hello, world!\");\n}\n")),
        );
        files.push((owned(".gitignore"), owned("/target\n")));
        files.push((owned("README.md"), readme_text));
        files
    }

    /// Records how creating the project went: on success the wizard says
    /// where, remembers the path, and closes unless it is to stay open for
    /// the new project; on failure it shows the error.
    pub fn record_outcome(&mut self, outcome: Result<String, String>)
        ensures
            final(self).name == old(self).name,
            final(self).target_dir == old(self).target_dir,
            final(self).template == old(self).template,
            final(self).init_git == old(self).init_git,
            final(self).open_after == old(self).open_after,
            match outcome {
                Ok(path) => {
                    &&& final(self).feedback matches Some(f) && f@ == created_text(path@)
                    &&& final(self).success_path matches Some(p) && p@ == path@
                    &&& final(self).open == (old(self).open && old(self).open_after)
                },
                Err(message) => {
                    &&& final(self).feedback matches Some(f) && f@ == message@
                    &&& final(self).success_path is None
                    &&& final(self).open == old(self).open
                },
            },
    {
        match outcome {
            Ok(path) => {
                let mut text = owned("Project created at ");
                push_str(&mut text, path.as_str());
                self.feedback = Some(text);
                self.success_path = Some(path);
                if !self.open_after {
                    self.open = false;
                }
            },
            Err(message) => {
                self.feedback = Some(message);
                self.success_path = None;
            },
        }
    }

    /// Closes the wizard without creating anything.
    pub fn cancel(&mut self)
        ensures
            !final(self).open,
            final(self).name == old(self).name,
            final(self).target_dir == old(self).target_dir,
            final(self).template == old(self).template,
            final(self).init_git == old(self).init_git,
            final(self).open_after == old(self).open_after,
            final(self).feedback == old(self).feedback,
            final(self).success_path == old(self).success_path,
    {
        self.open = false;
    }
}

} // verus!
