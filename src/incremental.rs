//! The incremental build: where templates are found, which of them are
//! stale, and where their artifacts go. The directory walk itself is done by
//! the caller, which hands each entry's name and kind, and each template's
//! modification times, to the functions here.

use vstd::prelude::*;
use crate::grammar::find_from;
use crate::scan::find;
use crate::text::{chars_of, push_range, push_str, range_is, string_of};

verus! {

/// Whether a template must be regenerated: when forced, when it has no
/// artifact, when the template is newer than its artifact, or when the
/// compiler is newer than the artifact. Times are in any one unit since any
/// one epoch.
pub open spec fn stale(force: bool, compiler: u128, template: u128, artifact: Option<u128>) -> bool {
    match artifact {
        None => true,
        Some(a) => force || template > a || a < compiler,
    }
}

/// Whether the compiler was rebuilt after the artifact was written.
pub open spec fn toolchain_newer(compiler: u128, artifact: Option<u128>) -> bool {
    match artifact {
        None => false,
        Some(a) => a < compiler,
    }
}

/// What the build does with one template.
#[derive(Clone, Copy, Debug, PartialEq, Eq, Structural)]
pub enum Verdict {
    /// The artifact is current; the template is left alone.
    Fresh,
    /// The template is transpiled and its artifacts written.
    Regenerate,
    /// The templates root has no cache directory; the template is skipped
    /// with a diagnostic.
    NoCache,
}

/// One build over a project: whether every template is to be regenerated.
pub struct Build {
    pub force: bool,
}

/// Whether a template must be regenerated.
pub fn needs_regeneration(force: bool, compiler: u128, template: u128, artifact: Option<u128>) -> (r:
    bool)
    ensures
        r == stale(force, compiler, template, artifact),
{
    match artifact {
        None => true,
        Some(a) => force || template > a || a < compiler,
    }
}

impl Build {
    /// A build, forced or not.
    pub fn new(force: bool) -> (r: Build)
        ensures
            r.force == force,
    {
        Build { force }
    }

    /// Decides on one template whose root's cache directory is present or
    /// not. Once the compiler is found newer than an artifact, the rest of
    /// the build is forced.
    pub fn check_template(
        &mut self,
        cache_present: bool,
        compiler: u128,
        template: u128,
        artifact: Option<u128>,
    ) -> (r: Verdict)
        ensures
            r == (if !cache_present {
                Verdict::NoCache
            } else if stale(old(self).force, compiler, template, artifact) {
                Verdict::Regenerate
            } else {
                Verdict::Fresh
            }),
            final(self).force == (old(self).force || (cache_present && toolchain_newer(
                compiler,
                artifact,
            ))),
    {
        if !cache_present {
            return Verdict::NoCache;
        }
        let regenerate = needs_regeneration(self.force, compiler, template, artifact);
        match artifact {
            Some(a) => {
                if a < compiler {
                    self.force = true;
                }
            },
            None => {},
        }
        if regenerate {
            Verdict::Regenerate
        } else {
            Verdict::Fresh
        }
    }
}

/// Where the walk stands: outside any templates root, in one, or in a
/// directory nested directly under one.
#[derive(Clone, Copy, Debug, PartialEq, Eq, Structural)]
pub enum Level {
    Project,
    Root,
    Nested,
}

/// What the walk does with one directory entry.
#[derive(Clone, Copy, Debug, PartialEq, Eq, Structural)]
pub enum Step {
    /// Not a template and not searched.
    Ignore,
    /// A directory searched for templates roots.
    Search,
    /// A templates root: its entries are read at `Level::Root`.
    EnterRoot,
    /// A directory nested in a templates root: its entries are read at
    /// `Level::Nested`.
    EnterNested,
    /// A template file.
    Template,
}

/// Whether `name` ends with the template suffix.
pub open spec fn is_template_name(name: Seq<char>) -> bool {
    name.len() >= 8 && name.subrange(name.len() - 8, name.len() as int) == ".rs.html"@
}

/// What the walk does with an entry named `name` at `level`.
pub open spec fn step_of(level: Level, name: Seq<char>, is_dir: bool) -> Step {
    match level {
        Level::Project => if !is_dir {
            Step::Ignore
        } else if name == "templates"@ {
            Step::EnterRoot
        } else {
            Step::Search
        },
        Level::Root => if is_template_name(name) {
            Step::Template
        } else if is_dir && name != ".parsed"@ {
            Step::EnterNested
        } else {
            Step::Ignore
        },
        Level::Nested => if is_template_name(name) {
            Step::Template
        } else {
            Step::Ignore
        },
    }
}

/// Decides what the walk does with a directory entry.
pub fn walk_step(level: Level, name: &str, is_dir: bool) -> (r: Step)
    ensures
        r == step_of(level, name@, is_dir),
{
    let n = chars_of(name);
    let template = n.len() >= 8 && range_is(&n, n.len() - 8, n.len(), ".rs.html");
    match level {
        Level::Project => if !is_dir {
            Step::Ignore
        } else if range_is(&n, 0, n.len(), "templates") {
            assert(n@.subrange(0, n@.len() as int) =~= n@);
            Step::EnterRoot
        } else {
            assert(n@.subrange(0, n@.len() as int) =~= n@);
            Step::Search
        },
        Level::Root => if template {
            Step::Template
        } else if is_dir && !range_is(&n, 0, n.len(), ".parsed") {
            assert(n@.subrange(0, n@.len() as int) =~= n@);
            Step::EnterNested
        } else {
            assert(n@.subrange(0, n@.len() as int) =~= n@);
            Step::Ignore
        },
        Level::Nested => if template {
            Step::Template
        } else {
            Step::Ignore
        },
    }
}

/// A template's base name: its file name up to the first `.`.
pub open spec fn base_name_of(file_name: Seq<char>) -> Seq<char> {
    file_name.subrange(0, find_from(file_name, 0, file_name.len() as int, '.'))
}

/// The cache directory of a templates root.
pub open spec fn cache_dir_of(root: Seq<char>) -> Seq<char> {
    root + "/.parsed"@
}

/// Where a template's generated view goes.
pub open spec fn view_path_of(root: Seq<char>, file_name: Seq<char>) -> Seq<char> {
    cache_dir_of(root) + "/"@ + base_name_of(file_name) + ".in"@
}

/// Where a template's parameter record description goes.
pub open spec fn args_path_of(root: Seq<char>, file_name: Seq<char>) -> Seq<char> {
    cache_dir_of(root) + "/"@ + base_name_of(file_name) + "_args.in"@
}

/// Appends `root/.parsed/<base name>` for `file_name`.
fn push_artifact_stem(out: &mut Vec<char>, root: &str, file_name: &str)
    ensures
        final(out)@ == old(out)@ + cache_dir_of(root@) + "/"@ + base_name_of(file_name@),
{
    let f = chars_of(file_name);
    let dot = find(&f, 0, f.len(), '.');
    push_str(out, root);
    push_str(out, "/.parsed");
    push_str(out, "/");
    push_range(out, &f, 0, dot);
    assert(out@ =~= old(out)@ + cache_dir_of(root@) + "/"@ + base_name_of(file_name@));
}

/// The cache directory of templates root `root`.
pub fn cache_dir(root: &str) -> (r: String)
    ensures
        r@ == cache_dir_of(root@),
{
    let mut out: Vec<char> = Vec::new();
    push_str(&mut out, root);
    push_str(&mut out, "/.parsed");
    string_of(&out)
}

/// Where the generated view of template `file_name` in `root` goes.
pub fn view_path(root: &str, file_name: &str) -> (r: String)
    ensures
        r@ == view_path_of(root@, file_name@),
{
    let mut out: Vec<char> = Vec::new();
    push_artifact_stem(&mut out, root, file_name);
    push_str(&mut out, ".in");
    string_of(&out)
}

/// Where the parameter record description of template `file_name` in
/// `root` goes.
pub fn args_path(root: &str, file_name: &str) -> (r: String)
    ensures
        r@ == args_path_of(root@, file_name@),
{
    let mut out: Vec<char> = Vec::new();
    push_artifact_stem(&mut out, root, file_name);
    push_str(&mut out, "_args.in");
    string_of(&out)
}

/// The last index at or below `i` where `"/src"` begins in `s`, or -1.
pub open spec fn last_src_from(s: Seq<char>, i: int) -> int
    decreases i + 1,
{
    if i < 0 {
        -1
    } else if i + 4 <= s.len() && s.subrange(i, i + 4) == "/src"@ {
        i
    } else {
        last_src_from(s, i - 1)
    }
}

/// The directory searched for templates: the working directory cut after
/// its last `/src` component, or the working directory itself.
pub open spec fn search_root_of(cwd: Seq<char>) -> Seq<char> {
    let i = last_src_from(cwd, cwd.len() - 4);
    if i < 0 {
        cwd
    } else {
        cwd.subrange(0, i) + "/src"@
    }
}

/// The directory searched for templates, from the working directory.
pub fn search_root(cwd: &str) -> (r: String)
    ensures
        r@ == search_root_of(cwd@),
{
    let s = chars_of(cwd);
    if s.len() < 4 {
        return string_of(&s);
    }
    let mut i: usize = s.len() - 4;
    loop
        invariant
            s@ == cwd@,
            i + 4 <= s.len(),
            last_src_from(s@, i as int) == last_src_from(s@, s.len() - 4),
        decreases i,
    {
        if range_is(&s, i, i + 4, "/src") {
            let mut out: Vec<char> = Vec::new();
            push_range(&mut out, &s, 0, i);
            push_str(&mut out, "/src");
            return string_of(&out);
        }
        if i == 0 {
            assert(last_src_from(s@, -1) == -1);
            return string_of(&s);
        }
        i = i - 1;
    }
}

} // verus!
