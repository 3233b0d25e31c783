//! Packages: module paths and the files that hold them.
use vstd::prelude::*;
use vstd::string::StrSliceExecFns;

use crate::error::BengalError;
use crate::text::{push_str, same_text};

verus! {

/// The contents of a package's `Bengal.toml`.
#[derive(Debug, Clone, PartialEq, Eq)]
pub struct PackageConfig {
    pub package: PackageSection,
}

/// The `[package]` table: the package's name and the path of its entry file.
#[derive(Debug, Clone, PartialEq, Eq)]
pub struct PackageSection {
    pub name: String,
    pub entry: String,
}

/// The path of a module inside its package: the names from the root down.
#[derive(Debug, Clone, PartialEq, Eq, Hash)]
pub struct ModulePath(pub Vec<String>);

impl View for ModulePath {
    type V = Seq<Seq<char>>;

    open spec fn view(&self) -> Seq<Seq<char>> {
        names_view(self.0@)
    }
}

/// The texts of a list of strings.
pub open spec fn names_view(v: Seq<String>) -> Seq<Seq<char>> {
    Seq::new(v.len(), |i: int| v[i]@)
}

/// The parts of a list joined by a separator.
pub open spec fn join_with(sep: Seq<char>, parts: Seq<Seq<char>>) -> Seq<char>
    decreases parts.len(),
{
    if parts.len() == 0 {
        Seq::empty()
    } else if parts.len() == 1 {
        parts[0]
    } else {
        join_with(sep, parts.drop_last()) + sep + parts.last()
    }
}

/// A path with one more part, as `PathBuf::push` documents it on Unix: an
/// absolute part (one that starts with `/`) replaces the path; otherwise a `/`
/// separates it from a non-empty path that does not already end in one.
pub open spec fn path_push(p: Seq<char>, s: Seq<char>) -> Seq<char> {
    if s.len() > 0 && s[0] == '/' {
        s
    } else if p.len() > 0 && p.last() != '/' {
        p + seq!['/'] + s
    } else {
        p + s
    }
}

/// The path made by pushing each part in turn onto `p`.
pub open spec fn path_push_all(p: Seq<char>, parts: Seq<Seq<char>>) -> Seq<char>
    decreases parts.len(),
{
    if parts.len() == 0 {
        p
    } else {
        path_push(path_push_all(p, parts.drop_last()), parts.last())
    }
}

/// The relative file of a module: `root.<ext>` for the root, otherwise the
/// empty path with the names of its ancestors pushed, then `<last>.<ext>`.
pub open spec fn file_path_text(path: Seq<Seq<char>>, ext: Seq<char>) -> Seq<char> {
    if path.len() == 0 {
        "root."@ + ext
    } else {
        path_push_all(Seq::empty(), path.drop_last().push(path.last() + "."@ + ext))
    }
}

/// How a module path is shown: `<root>`, or its names joined by `::`.
pub open spec fn display_text(path: Seq<Seq<char>>) -> Seq<char> {
    if path.len() == 0 {
        "<root>"@
    } else {
        join_with("::"@, path)
    }
}

/// One more part of a joined list.
proof fn lemma_join_with_step(sep: Seq<char>, parts: Seq<Seq<char>>, k: int)
    requires
        0 <= k < parts.len(),
    ensures
        join_with(sep, parts.take(k + 1)) == if k == 0 {
            parts[0]
        } else {
            join_with(sep, parts.take(k)) + sep + parts[k]
        },
{
    assert(parts.take(k + 1).drop_last() =~= parts.take(k));
    assert(parts.take(k + 1)[0] == parts[0]);
}

/// A copy of a list of strings.
fn copy_names(v: &Vec<String>) -> (r: Vec<String>)
    ensures
        names_view(r@) == names_view(v@),
{
    let mut r: Vec<String> = Vec::new();
    let mut k: usize = 0;
    while k < v.len()
        invariant
            k <= v@.len(),
            r@.len() == k,
            forall|i: int| 0 <= i < k ==> (#[trigger] r@[i])@ == v@[i]@,
        decreases v@.len() - k,
    {
        r.push(v[k].clone());
        k = k + 1;
    }
    assert(names_view(r@) =~= names_view(v@));
    r
}

/// Pushes one part onto a path, as `PathBuf::push` does on Unix.
fn push_path_part(p: &mut String, part: &str)
    ensures
        final(p)@ == path_push(old(p)@, part@),
{
    let m = part.unicode_len();
    if m > 0 && part.get_char(0) == '/' {
        let mut fresh = String::new();
        push_str(&mut fresh, part);
        *p = fresh;
        return;
    }
    let ghost start = p@;
    let n = p.as_str().unicode_len();
    if n > 0 && p.as_str().get_char(n - 1) != '/' {
        proof { reveal_strlit("/"); }
        push_str(p, "/");
        assert("/"@ =~= seq!['/']);
    }
    push_str(p, part);
    assert(p@ =~= path_push(start, part@));
}

impl ModulePath {
    /// The path of the package's root module.
    pub fn root() -> (r: ModulePath)
        ensures
            r@ == Seq::<Seq<char>>::empty(),
    {
        let r = ModulePath(Vec::new());
        assert(r@ =~= Seq::<Seq<char>>::empty());
        r
    }

    /// The path of the child module `name` of this module.
    pub fn child(&self, name: &str) -> (r: ModulePath)
        ensures
            r@ == self@.push(name@),
    {
        let mut names = copy_names(&self.0);
        names.push(name.to_string());
        let r = ModulePath(names);
        assert(r@ =~= self@.push(name@));
        r
    }

    /// The path of the enclosing module, `None` for the root.
    pub fn parent(&self) -> (r: Option<ModulePath>)
        ensures
            self@.len() == 0 <==> r is None,
            r matches Some(p) ==> p@ == self@.drop_last(),
    {
        if self.0.len() == 0 {
            None
        } else {
            let mut names = copy_names(&self.0);
            names.pop();
            let r = ModulePath(names);
            assert(r@ =~= self@.drop_last());
            Some(r)
        }
    }

    /// Whether this is the path of the root module.
    pub fn is_root(&self) -> (r: bool)
        ensures
            r == (self@.len() == 0),
    {
        self.0.len() == 0
    }

    /// The file that holds this module, relative to the package's output
    /// directory, with the given extension.
    pub fn to_file_path(&self, extension: &str) -> (r: String)
        ensures
            r@ == file_path_text(self@, extension@),
    {
        let mut out = String::new();
        if self.0.len() == 0 {
            push_str(&mut out, "root.");
            push_str(&mut out, extension);
            return out;
        }
        let ghost parts = self@.drop_last().push(self@.last() + "."@ + extension@);
        let n = self.0.len();
        let mut k: usize = 0;
        assert(parts.take(0) =~= Seq::<Seq<char>>::empty());
        while k < n
            invariant
                n == self@.len(),
                n > 0,
                k <= n,
                parts == self@.drop_last().push(self@.last() + "."@ + extension@),
                out@ == path_push_all(Seq::empty(), parts.take(k as int)),
            decreases n - k,
        {
            assert(parts.take(k + 1).drop_last() =~= parts.take(k as int));
            let part = if k == n - 1 {
                let mut last = self.0[k].clone();
                push_str(&mut last, ".");
                push_str(&mut last, extension);
                last
            } else {
                self.0[k].clone()
            };
            assert(part@ == parts[k as int]);
            push_path_part(&mut out, part.as_str());
            k = k + 1;
        }
        assert(parts.take(n as int) =~= parts);
        out
    }

    /// How this path is shown in messages: `<root>`, or the names joined by `::`.
    pub fn to_string(&self) -> (r: String)
        ensures
            r@ == display_text(self@),
    {
        let mut out = String::new();
        if self.0.len() == 0 {
            push_str(&mut out, "<root>");
            return out;
        }
        let ghost parts = self@;
        let mut k: usize = 0;
        assert(parts.take(0) =~= Seq::<Seq<char>>::empty());
        while k < self.0.len()
            invariant
                parts == self@,
                k <= parts.len(),
                out@ == join_with("::"@, parts.take(k as int)),
            decreases parts.len() - k,
        {
            proof { lemma_join_with_step("::"@, parts, k as int); }
            if k > 0 {
                push_str(&mut out, "::");
            }
            push_str(&mut out, self.0[k].as_str());
            k = k + 1;
        }
        assert(parts.take(parts.len() as int) =~= parts);
        out
    }
}

/// What the search for a package root does at a directory.
#[derive(Debug, Clone, Copy, PartialEq, Eq, Structural)]
pub enum RootSearchStep {
    /// The directory is the package root.
    Found,
    /// There is no package root.
    NotFound,
    /// The search goes on at the parent directory.
    Parent,
}

/// One step of the search for a package root, from a directory upwards: the
/// directory is the root when it holds `Bengal.toml`; otherwise the search goes
/// on at its parent, and ends without a root where there is no parent.
pub fn root_search_step(has_manifest: bool, has_parent: bool) -> (r: RootSearchStep)
    ensures
        has_manifest ==> r == RootSearchStep::Found,
        !has_manifest && has_parent ==> r == RootSearchStep::Parent,
        !has_manifest && !has_parent ==> r == RootSearchStep::NotFound,
{
    if has_manifest {
        RootSearchStep::Found
    } else if has_parent {
        RootSearchStep::Parent
    } else {
        RootSearchStep::NotFound
    }
}

/// The message of a module file met again while it is being visited: the
/// files being visited, in order, then the file met again, joined by ` -> `.
pub open spec fn cycle_message(visiting: Seq<Seq<char>>, file: Seq<char>) -> Seq<char> {
    "circular module dependency detected: "@ + join_with(" -> "@, visiting) + " -> "@ + file
}

/// The message of a module file that a second module claims.
pub open spec fn claimed_twice_message(file: Seq<char>) -> Seq<char> {
    "file '"@ + file + "' is claimed by multiple modules"@
}

/// The message of a child module whose file is found under neither name.
pub open spec fn module_not_found_message(name: Seq<char>) -> Seq<char> {
    "module '"@ + name + "' not found: expected '"@ + name + ".bengal' or '"@ + name
        + "/module.bengal'"@
}

/// Whether some string of the list holds the text `t`; if so, the first such index.
fn find_text(v: &Vec<String>, t: &str) -> (r: Option<usize>)
    ensures
        match r {
            Some(i) => i < v@.len() && v@[i as int]@ == t@,
            None => !names_view(v@).contains(t@),
        },
{
    let mut k: usize = 0;
    while k < v.len()
        invariant
            k <= v@.len(),
            forall|i: int| 0 <= i < k ==> v@[i]@ != t@,
        decreases v@.len() - k,
    {
        if same_text(v[k].as_str(), t) {
            return Some(k);
        }
        k = k + 1;
    }
    assert forall|i: int| 0 <= i < names_view(v@).len() implies names_view(v@)[i] != t@ by {}
    None
}

/// The parts of a list joined by a separator, as a new string.
fn join_names(v: &Vec<String>, sep: &str) -> (r: String)
    ensures
        r@ == join_with(sep@, names_view(v@)),
{
    let ghost parts = names_view(v@);
    let mut out = String::new();
    let mut k: usize = 0;
    assert(parts.take(0) =~= Seq::<Seq<char>>::empty());
    while k < v.len()
        invariant
            parts == names_view(v@),
            k <= parts.len(),
            out@ == join_with(sep@, parts.take(k as int)),
        decreases parts.len() - k,
    {
        proof { lemma_join_with_step(sep@, parts, k as int); }
        if k > 0 {
            push_str(&mut out, sep);
        }
        push_str(&mut out, v[k].as_str());
        k = k + 1;
    }
    assert(parts.take(parts.len() as int) =~= parts);
    out
}

/// Whether the module file `canonical` may be entered while building the
/// module graph, given the files being visited (in order) and those already
/// finished: a file being visited is a circular dependency, a finished file
/// is claimed by a second module; `file` is the file as it was named.
pub fn check_module_visit(
    visiting: &Vec<String>,
    finished: &Vec<String>,
    canonical: &str,
    file: &str,
) -> (r: Result<(), BengalError>)
    ensures
        names_view(visiting@).contains(canonical@) ==> (r matches Err(
            BengalError::PackageError { message },
        ) && message@ == cycle_message(names_view(visiting@), canonical@)),
        !names_view(visiting@).contains(canonical@) && names_view(finished@).contains(canonical@)
            ==> (r matches Err(BengalError::PackageError { message }) && message@
            == claimed_twice_message(file@)),
        !names_view(visiting@).contains(canonical@) && !names_view(finished@).contains(
            canonical@,
        ) ==> r is Ok,
{
    if let Some(i) = find_text(visiting, canonical) {
        assert(names_view(visiting@)[i as int] == canonical@);
        let mut m = String::new();
        push_str(&mut m, "circular module dependency detected: ");
        let cycle = join_names(visiting, " -> ");
        push_str(&mut m, cycle.as_str());
        push_str(&mut m, " -> ");
        push_str(&mut m, canonical);
        return Err(BengalError::PackageError { message: m });
    }
    if let Some(i) = find_text(finished, canonical) {
        assert(names_view(finished@)[i as int] == canonical@);
        let mut m = String::new();
        push_str(&mut m, "file '");
        push_str(&mut m, file);
        push_str(&mut m, "' is claimed by multiple modules");
        return Err(BengalError::PackageError { message: m });
    }
    Ok(())
}

/// The file of child module `name`, relative to its parent's directory:
/// `<name>.bengal` where that file exists, else `<name>/module.bengal` where
/// that one exists, else an error.
pub fn choose_module_file(name: &str, file_exists: bool, dir_module_exists: bool) -> (r: Result<
    String,
    BengalError,
>)
    ensures
        file_exists ==> (r matches Ok(p) && p@ == name@ + ".bengal"@),
        !file_exists && dir_module_exists ==> (r matches Ok(p) && p@ == name@
            + "/module.bengal"@),
        !file_exists && !dir_module_exists ==> (r matches Err(BengalError::PackageError { message })
            && message@ == module_not_found_message(name@)),
{
    let mut p = String::new();
    if file_exists {
        push_str(&mut p, name);
        push_str(&mut p, ".bengal");
        return Ok(p);
    }
    if dir_module_exists {
        push_str(&mut p, name);
        push_str(&mut p, "/module.bengal");
        return Ok(p);
    }
    push_str(&mut p, "module '");
    push_str(&mut p, name);
    push_str(&mut p, "' not found: expected '");
    push_str(&mut p, name);
    push_str(&mut p, ".bengal' or '");
    push_str(&mut p, name);
    push_str(&mut p, "/module.bengal'");
    Err(BengalError::PackageError { message: p })
}

/// The parent of a child module is the module it was made from.
pub proof fn law_parent_of_child(path: ModulePath, name: Seq<char>)
    ensures
        path@.push(name).len() != 0,
        path@.push(name).drop_last() == path@,
{
    assert(path@.push(name).drop_last() =~= path@);
}

/// The shown form of a child of a non-root module is the parent's, `::`, and the name.
pub proof fn law_display_of_child(path: ModulePath, name: Seq<char>)
    requires
        path@.len() > 0,
    ensures
        display_text(path@.push(name)) == display_text(path@) + "::"@ + name,
{
    assert(path@.push(name).drop_last() =~= path@);
}

} // verus!
