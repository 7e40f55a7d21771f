use vstd::prelude::*;
use crate::defs::strings_view;
use crate::error::Error;

verus! {

/// The length of the longest common prefix of `a` and `b` that extends
/// `i` matching items.
pub open spec fn common_from(a: Seq<Seq<char>>, b: Seq<Seq<char>>, i: nat) -> nat
    decreases a.len() - i,
{
    if i < a.len() && i < b.len() && a[i as int] == b[i as int] {
        common_from(a, b, i + 1)
    } else {
        i
    }
}

/// The length of the longest common prefix of two component lists.
pub open spec fn common_len(a: Seq<Seq<char>>, b: Seq<Seq<char>>) -> nat {
    common_from(a, b, 0)
}

/// `n` parent-directory components.
pub open spec fn dots(n: nat) -> Seq<Seq<char>> {
    Seq::new(n, |_i: int| seq!['.', '.'])
}

/// The components of the path from directory `from` to `to`, both given as
/// absolute component lists: up out of what `from` does not share with
/// `to`, then down into the rest of `to`.
pub open spec fn relative(from: Seq<Seq<char>>, to: Seq<Seq<char>>) -> Seq<Seq<char>> {
    let c = common_len(from, to);
    dots((from.len() - c) as nat) + to.skip(c as int)
}

/// The path from directory `from` to `to`, each given by the components of
/// its canonical absolute form.
pub fn relative_path(from: &Vec<String>, to: &Vec<String>) -> (r: Vec<String>)
    ensures
        strings_view(r@) == relative(strings_view(from@), strings_view(to@)),
{
    let ghost a = strings_view(from@);
    let ghost b = strings_view(to@);
    let mut i: usize = 0;
    while i < from.len() && i < to.len() && from[i] == to[i]
        invariant
            a == strings_view(from@),
            b == strings_view(to@),
            i <= from@.len(),
            i <= to@.len(),
            common_from(a, b, i as nat) == common_len(a, b),
        decreases from@.len() - i,
    {
        assert(a[i as int] == b[i as int]);
        i = i + 1;
    }
    let ghost c = common_len(a, b);
    assert(c == i);
    let mut r: Vec<String> = Vec::new();
    let mut k: usize = i;
    while k < from.len()
        invariant
            i <= to@.len(),
            i <= k <= from@.len(),
            strings_view(r@) == dots((k - i) as nat),
        decreases from@.len() - k,
    {
        proof {
            reveal_strlit("..");
        }
        assert(".."@ =~= seq!['.', '.']);
        let ghost prev = strings_view(r@);
        r.push(String::from_str(".."));
        assert(strings_view(r@) =~= prev.push(seq!['.', '.']));
        k = k + 1;
        assert(strings_view(r@) =~= dots((k - i) as nat));
    }
    let mut j: usize = i;
    while j < to.len()
        invariant
            b == strings_view(to@),
            a == strings_view(from@),
            i <= from@.len(),
            c == i,
            c == common_len(a, b),
            i <= j <= to@.len(),
            strings_view(r@) == dots((from@.len() - i) as nat) + b.subrange(i as int, j as int),
        decreases to@.len() - j,
    {
        let ghost prev = strings_view(r@);
        r.push(to[j].clone());
        assert(strings_view(r@) =~= prev.push(b[j as int]));
        j = j + 1;
        assert(strings_view(r@) =~= dots((from@.len() - i) as nat) + b.subrange(i as int, j as int));
    }
    assert(b.subrange(i as int, to@.len() as int) =~= b.skip(i as int));
    assert(strings_view(r@) =~= relative(a, b));
    r
}

/// The two names a manifest may have.
#[derive(PartialEq, Eq, Structural, Clone, Copy, Debug)]
pub enum ManifestFile {
    /// `chroma.toml`
    Lower,
    /// `Chroma.toml`
    Upper,
}

impl ManifestFile {
    pub fn file_name(&self) -> (r: String)
        ensures
            *self == ManifestFile::Lower ==> r@ == "chroma.toml"@,
            *self == ManifestFile::Upper ==> r@ == "Chroma.toml"@,
    {
        match self {
            ManifestFile::Lower => String::from_str("chroma.toml"),
            ManifestFile::Upper => String::from_str("Chroma.toml"),
        }
    }
}

/// The message of the error for a search that found no manifest.
pub const NO_MANIFEST: &'static str =
    "Unable to find either 'chroma.toml' or 'Chroma.toml' in current directory, or it's parents.";

/// What was found in one directory while searching for the manifest.
pub struct Probe {
    /// The directory's canonical absolute components.
    pub dir: Vec<String>,
    /// Whether it holds `chroma.toml`.
    pub has_lower: bool,
    /// Whether it holds `Chroma.toml`.
    pub has_upper: bool,
}

/// Where the project root is, relative to the working directory.
pub struct ProjectRoot {
    /// Components of the project root's absolute path.
    pub project_root: Vec<String>,
    /// The working directory, relative to the project root.
    pub current_dir: Vec<String>,
    /// Which name the manifest has.
    pub file: ManifestFile,
}

pub open spec fn has_manifest(p: Probe) -> bool {
    p.has_lower || p.has_upper
}

/// Picks the project root among the probed directories, nearest first: the
/// first that holds a manifest, preferring `chroma.toml` to `Chroma.toml`
/// there. `cwd` is the working directory's canonical components.
pub fn find_project_root_from(probes: &Vec<Probe>, cwd: &Vec<String>) -> (r: Result<
    ProjectRoot,
    Error,
>)
    ensures
        (forall|i: int| 0 <= i < probes@.len() ==> !has_manifest(#[trigger] probes@[i])) ==> (
        r matches Err(Error::Str(m)) && m == NO_MANIFEST),
        r is Ok ==> exists|i: int|
            0 <= i < probes@.len() && has_manifest(#[trigger] probes@[i]) && (forall|j: int|
                0 <= j < i ==> !has_manifest(#[trigger] probes@[j])) && (r matches Ok(pr) && strings_view(pr.project_root@)
                == strings_view(probes@[i].dir@) && strings_view(pr.current_dir@) == relative(
                strings_view(probes@[i].dir@),
                strings_view(cwd@),
            ) && pr.file == (if probes@[i].has_lower {
                ManifestFile::Lower
            } else {
                ManifestFile::Upper
            })),
        (exists|i: int| 0 <= i < probes@.len() && has_manifest(#[trigger] probes@[i])) ==> r is Ok,
{
    let mut i: usize = 0;
    while i < probes.len()
        invariant
            i <= probes@.len(),
            forall|j: int| 0 <= j < i ==> !has_manifest(#[trigger] probes@[j]),
        decreases probes@.len() - i,
    {
        let p = &probes[i];
        if p.has_lower || p.has_upper {
            let file = if p.has_lower { ManifestFile::Lower } else { ManifestFile::Upper };
            let mut root: Vec<String> = Vec::new();
            crate::plan::push_all(&mut root, p.dir.clone());
            assert(strings_view(root@) =~= strings_view(p.dir@));
            let current_dir = relative_path(&p.dir, cwd);
            return Ok(ProjectRoot { project_root: root, current_dir, file });
        }
        i = i + 1;
    }
    crate::error::report_err(NO_MANIFEST)
}

} // verus!
