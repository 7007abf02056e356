//! The shape of a package as its files describe it: which directories there
//! are, what each holds, and which of its files are registries.
//!
//! Paths are package-relative with `/` between components; the package root
//! is the empty path.
use vstd::prelude::*;
use crate::source_file::SourceFile;
use crate::text::{
    chars_of, ends_with, has_suffix, insert_sorted, lemma_sorted_of, lemma_views_push, same_text, sorted_of,
    starts_with, string_of, strictly_sorted, views,
};

verus! {

pub open spec fn last_slash_at(p: Seq<char>, i: int) -> bool {
    0 <= i < p.len() && p[i] == '/' && forall|j: int| i < j < p.len() ==> p[j] != '/'
}

pub open spec fn has_slash(p: Seq<char>) -> bool {
    exists|i: int| 0 <= i < p.len() && p[i] == '/'
}

/// The directory a file sits in: everything before its last `/`, or the
/// package root.
pub open spec fn parent_dir(p: Seq<char>) -> Seq<char> {
    if has_slash(p) { p.take(choose|i: int| last_slash_at(p, i)) } else { Seq::<char>::empty() }
}

/// A file's own name: everything after its last `/`.
pub open spec fn file_name(p: Seq<char>) -> Seq<char> {
    if has_slash(p) { p.skip((choose|i: int| last_slash_at(p, i)) + 1) } else { p }
}

/// `dir` holds `path` at some depth: the root holds everything.
pub open spec fn is_ancestor(dir: Seq<char>, path: Seq<char>) -> bool {
    dir.len() == 0 || starts_with(path, dir + seq!['/'])
}

/// A directory of the package: the root, or a proper directory prefix of
/// some file.
pub open spec fn is_directory_of(files: Seq<Seq<char>>, d: Seq<char>) -> bool {
    exists|k: int| 0 <= k < files.len() && #[trigger] is_ancestor(d, files[k])
        && (d.len() == 0 || has_slash(files[k]) && d.len() < files[k].len() && files[k][d.len() as int] == '/')
}

/// The package-relative paths of the files, in order.
pub open spec fn paths_of(files: Seq<SourceFile>) -> Seq<Seq<char>> {
    files.map_values(|f: SourceFile| f@.path)
}

/// The directories of a package, sorted: the one strictly sorted list that
/// holds exactly the directories its files describe.
pub open spec fn package_directories(files: Seq<Seq<char>>) -> Seq<Seq<char>> {
    choose|dirs: Seq<Seq<char>>| strictly_sorted(dirs)
        && forall|d: Seq<char>| #[trigger] dirs.contains(d) <==> is_directory_of(files, d)
}

/// Whatever sorted list holds exactly the directories is the one
/// `package_directories` names.
pub proof fn lemma_package_directories(files: Seq<Seq<char>>, dirs: Seq<Seq<char>>)
    requires
        strictly_sorted(dirs),
        forall|d: Seq<char>| #[trigger] dirs.contains(d) <==> is_directory_of(files, d),
    ensures
        package_directories(files) == dirs,
{
    let chosen = package_directories(files);
    assert(strictly_sorted(chosen) && forall|d: Seq<char>| #[trigger] chosen.contains(d) <==> is_directory_of(files, d));
    crate::text::lemma_strictly_sorted_unique(chosen, dirs);
}

pub open spec fn is_registry_name(name: Seq<char>) -> bool {
    name == "all_tests.rs"@ || name == "lib.rs"@ || name == "main.rs"@ || name == "mod.rs"@
}

/// The files directly in a directory, in the order given.
pub open spec fn files_in(files: Seq<Seq<char>>, dir: Seq<char>) -> Seq<Seq<char>>
    decreases files.len(),
{
    if files.len() == 0 {
        files
    } else if parent_dir(files.last()) == dir {
        files_in(files.drop_last(), dir).push(files.last())
    } else {
        files_in(files.drop_last(), dir)
    }
}

/// The registries directly in a directory, in the order given.
pub open spec fn registries_in(files: Seq<Seq<char>>, dir: Seq<char>) -> Seq<Seq<char>>
    decreases files.len(),
{
    if files.len() == 0 {
        files
    } else if parent_dir(files.last()) == dir && is_registry_name(file_name(files.last())) {
        registries_in(files.drop_last(), dir).push(files.last())
    } else {
        registries_in(files.drop_last(), dir)
    }
}

/// The directories directly below a directory, in the order given.
pub open spec fn subdirectories_in(dirs: Seq<Seq<char>>, dir: Seq<char>) -> Seq<Seq<char>>
    decreases dirs.len(),
{
    if dirs.len() == 0 {
        dirs
    } else if dirs.last() != dir && parent_dir(dirs.last()) == dir {
        subdirectories_in(dirs.drop_last(), dir).push(dirs.last())
    } else {
        subdirectories_in(dirs.drop_last(), dir)
    }
}

/// A file's name without its `.rs`.
pub open spec fn stem(name: Seq<char>) -> Seq<char> {
    if ends_with(name, ".rs"@) { name.take(name.len() - 3) } else { name }
}

/// `m` names a module of the directory: a file beside its registries, or a
/// folder below it.
pub open spec fn is_expected_module(files: Seq<Seq<char>>, dirs: Seq<Seq<char>>, dir: Seq<char>, m: Seq<char>) -> bool {
    ||| exists|p: Seq<char>| #[trigger] files_in(files, dir).contains(p) && !is_registry_name(file_name(p)) && stem(file_name(p)) == m
    ||| exists|d: Seq<char>| #[trigger] subdirectories_in(dirs, dir).contains(d) && file_name(d) == m
}

/// The modules a directory's registries are expected to declare, sorted.
pub open spec fn expected_modules(files: Seq<Seq<char>>, dirs: Seq<Seq<char>>, dir: Seq<char>) -> Seq<Seq<char>> {
    sorted_of(|m: Seq<char>| is_expected_module(files, dirs, dir, m))
}

pub struct PackageTree {
    files: Vec<String>,
    directories: Vec<String>,
}

pub struct PackageTreeView {
    pub files: Seq<Seq<char>>,
    pub directories: Seq<Seq<char>>,
}

impl View for PackageTree {
    type V = PackageTreeView;

    closed spec fn view(&self) -> PackageTreeView {
        PackageTreeView { files: views(self.files@), directories: views(self.directories@) }
    }
}

/// Where the last `/` of a path stands, if anywhere.
pub fn last_slash(p: &Vec<char>) -> (r: Option<usize>)
    ensures
        match r {
            Some(i) => last_slash_at(p@, i as int),
            None => !has_slash(p@),
        },
{
    let mut i: usize = p.len();
    while i > 0 && p[i - 1] != '/'
        invariant
            i <= p.len(),
            forall|j: int| i <= j < p.len() ==> p@[j] != '/',
        decreases i,
    {
        i = i - 1;
    }
    if i == 0 {
        assert(!has_slash(p@)) by {
            if has_slash(p@) {
                let k = choose|k: int| 0 <= k < p@.len() && p@[k] == '/';
                assert(p@[k] != '/');
            }
        }
        None
    } else {
        Some(i - 1)
    }
}

pub proof fn lemma_last_slash_unique(p: Seq<char>, i: int)
    requires
        last_slash_at(p, i),
    ensures
        (choose|k: int| last_slash_at(p, k)) == i,
{
    let k = choose|k: int| last_slash_at(p, k);
    assert(last_slash_at(p, k));
    if k < i {
        assert(p[i] != '/');
    } else if k > i {
        assert(p[k] != '/');
    }
}

pub fn parent_directory(path: &str) -> (r: String)
    ensures
        r@ == parent_dir(path@),
{
    let v = chars_of(path);
    match last_slash(&v) {
        Some(i) => {
            proof {
                lemma_last_slash_unique(path@, i as int);
            }
            let r = string_of(&v.as_slice()[0..i]);
            assert(r@ =~= path@.take(i as int));
            r
        },
        None => String::new(),
    }
}

pub fn name_of_file(path: &str) -> (r: String)
    ensures
        r@ == file_name(path@),
{
    let v = chars_of(path);
    match last_slash(&v) {
        Some(i) => {
            proof {
                lemma_last_slash_unique(path@, i as int);
            }
            assert(i < v.len());
            let r = string_of(&v.as_slice()[i + 1..v.len()]);
            assert(r@ =~= path@.skip(i as int + 1));
            r
        },
        None => string_of(v.as_slice()),
    }
}

pub fn is_registry_file(path: &str) -> (b: bool)
    ensures
        b == is_registry_name(file_name(path@)),
{
    let name = name_of_file(path);
    same_text(name.as_str(), "all_tests.rs") || same_text(name.as_str(), "lib.rs")
        || same_text(name.as_str(), "main.rs") || same_text(name.as_str(), "mod.rs")
}

impl PackageTree {
    /// The tree the files describe.
    pub fn of(files: &Vec<SourceFile>) -> (r: PackageTree)
        ensures
            r@.files == files@.map_values(|f: SourceFile| f@.path),
            strictly_sorted(r@.directories),
            forall|d: Seq<char>| #[trigger] r@.directories.contains(d) <==> is_directory_of(r@.files, d),
            r@.directories == package_directories(r@.files),
    {
        let mut paths: Vec<String> = Vec::new();
        let mut directories: Vec<String> = Vec::new();
        let ghost all = files@.map_values(|f: SourceFile| f@.path);
        let mut i: usize = 0;
        assert(views(directories@) =~= Seq::<Seq<char>>::empty());
        while i < files.len()
            invariant
                i <= files.len(),
                all == files@.map_values(|f: SourceFile| f@.path),
                views(paths@) == all.take(i as int),
                strictly_sorted(views(directories@)),
                forall|d: Seq<char>| #[trigger] views(directories@).contains(d) <==> is_directory_of(all.take(i as int), d),
            decreases files.len() - i,
        {
            let path = files[i].relative_path();
            let ghost taken = all.take(i + 1);
            assert(taken.drop_last() == all.take(i as int));
            assert(taken.last() == path@);
            let v = chars_of(path);
            let ghost before = views(directories@);
            let mut k: usize = 0;
            let root = String::new();
            insert_sorted(&mut directories, root);
            assert forall|d: Seq<char>| #[trigger] views(directories@).contains(d) <==> (before.contains(d)
                || d.len() == 0
                || (d.len() < k && has_slash(path@) && d.len() < path@.len() && path@[d.len() as int] == '/'
                    && starts_with(path@, d + seq!['/']))) by {
                if d.len() == 0 {
                    assert(d =~= Seq::<char>::empty());
                }
            }
            while k < v.len()
                invariant
                    k <= v.len(),
                    v@ == path@,
                    taken == all.take(i + 1),
                    taken.last() == path@,
                    i < files.len(),
                    strictly_sorted(views(directories@)),
                    forall|d: Seq<char>| #[trigger] views(directories@).contains(d) <==> (before.contains(d)
                        || d.len() == 0
                        || (d.len() < k && has_slash(path@) && d.len() < path@.len() && path@[d.len() as int] == '/'
                            && starts_with(path@, d + seq!['/']))),
                decreases v.len() - k,
            {
                if v[k] == '/' {
                    let dir = string_of(&v.as_slice()[0..k]);
                    let ghost inner = views(directories@);
                    insert_sorted(&mut directories, dir);
                    proof {
                        assert(dir@ =~= path@.take(k as int));
                        assert(path@.take(k as int + 1) =~= dir@ + seq!['/']);
                        assert(has_slash(path@));
                    }
                    assert forall|d: Seq<char>| #[trigger] views(directories@).contains(d) <==> (before.contains(d)
                        || d.len() == 0
                        || (d.len() < k + 1 && has_slash(path@) && d.len() < path@.len() && path@[d.len() as int] == '/'
                            && starts_with(path@, d + seq!['/']))) by {
                        if d.len() == k && d.len() < path@.len() && path@[d.len() as int] == '/' && starts_with(path@, d + seq!['/']) {
                            assert(d =~= (d + seq!['/']).take(k as int));
                            assert(d == dir@);
                        }
                        if d == dir@ {
                            assert(path@.take(d.len() as int + 1) =~= d + seq!['/']);
                        }
                    }
                }
                k = k + 1;
            }
            let c = String::from_str(path);
            proof {
                lemma_views_push(paths@, c);
            }
            paths.push(c);
            assert forall|d: Seq<char>| #[trigger] views(directories@).contains(d) <==> is_directory_of(taken, d) by {
                if is_directory_of(taken, d) {
                    let m = choose|m: int| 0 <= m < taken.len() && #[trigger] is_ancestor(d, taken[m])
                        && (d.len() == 0 || has_slash(taken[m]) && d.len() < taken[m].len() && taken[m][d.len() as int] == '/');
                    if m < i {
                        assert(all.take(i as int)[m] == taken[m]);
                        assert(is_directory_of(all.take(i as int), d));
                    }
                }
                if before.contains(d) {
                    assert(is_directory_of(all.take(i as int), d));
                    let m = choose|m: int| 0 <= m < all.take(i as int).len() && #[trigger] is_ancestor(d, all.take(i as int)[m])
                        && (d.len() == 0 || has_slash(all.take(i as int)[m]) && d.len() < all.take(i as int)[m].len() && all.take(i as int)[m][d.len() as int] == '/');
                    assert(taken[m] == all.take(i as int)[m]);
                }
                if d.len() == 0 {
                    assert(is_ancestor(d, taken[i as int]));
                }
                if d.len() > 0 && d.len() < path@.len() && has_slash(path@) && path@[d.len() as int] == '/' && starts_with(path@, d + seq!['/']) {
                    assert(is_ancestor(d, taken[i as int]));
                }
            }
            i = i + 1;
        }
        assert(all.take(files.len() as int) == all);
        proof {
            lemma_package_directories(all, views(directories@));
        }
        PackageTree { files: paths, directories }
    }

    /// Every directory, the root included, sorted.
    pub fn directories(&self) -> (r: &Vec<String>)
        ensures
            views(r@) == self@.directories,
    {
        &self.directories
    }

    pub fn files_in(&self, directory: &str) -> (r: Vec<String>)
        ensures
            views(r@) == files_in(self@.files, directory@),
    {
        let mut out: Vec<String> = Vec::new();
        let ghost all = views(self.files@);
        let mut i: usize = 0;
        assert(all.take(0) =~= Seq::<Seq<char>>::empty());
        while i < self.files.len()
            invariant
                i <= self.files.len(),
                all == views(self.files@),
                views(out@) == files_in(all.take(i as int), directory@),
            decreases self.files.len() - i,
        {
            assert(all.take(i + 1).drop_last() == all.take(i as int));
            assert(all.take(i + 1).last() == self.files@[i as int]@);
            let parent = parent_directory(self.files[i].as_str());
            if same_text(parent.as_str(), directory) {
                let c = self.files[i].clone();
                proof {
                    lemma_views_push(out@, c);
                }
                out.push(c);
            }
            i = i + 1;
        }
        assert(all.take(self.files.len() as int) == all);
        out
    }

    pub fn registries_in(&self, directory: &str) -> (r: Vec<String>)
        ensures
            views(r@) == registries_in(self@.files, directory@),
    {
        let mut out: Vec<String> = Vec::new();
        let ghost all = views(self.files@);
        let mut i: usize = 0;
        assert(all.take(0) =~= Seq::<Seq<char>>::empty());
        while i < self.files.len()
            invariant
                i <= self.files.len(),
                all == views(self.files@),
                views(out@) == registries_in(all.take(i as int), directory@),
            decreases self.files.len() - i,
        {
            assert(all.take(i + 1).drop_last() == all.take(i as int));
            assert(all.take(i + 1).last() == self.files@[i as int]@);
            let parent = parent_directory(self.files[i].as_str());
            if same_text(parent.as_str(), directory) && is_registry_file(self.files[i].as_str()) {
                let c = self.files[i].clone();
                proof {
                    lemma_views_push(out@, c);
                }
                out.push(c);
            }
            i = i + 1;
        }
        assert(all.take(self.files.len() as int) == all);
        out
    }

    pub fn subdirectories_of(&self, directory: &str) -> (r: Vec<String>)
        ensures
            views(r@) == subdirectories_in(self@.directories, directory@),
    {
        let mut out: Vec<String> = Vec::new();
        let ghost all = views(self.directories@);
        let mut i: usize = 0;
        assert(all.take(0) =~= Seq::<Seq<char>>::empty());
        while i < self.directories.len()
            invariant
                i <= self.directories.len(),
                all == views(self.directories@),
                views(out@) == subdirectories_in(all.take(i as int), directory@),
            decreases self.directories.len() - i,
        {
            assert(all.take(i + 1).drop_last() == all.take(i as int));
            assert(all.take(i + 1).last() == self.directories@[i as int]@);
            let candidate = &self.directories[i];
            let parent = parent_directory(candidate.as_str());
            if !same_text(candidate.as_str(), directory) && same_text(parent.as_str(), directory) {
                let c = candidate.clone();
                proof {
                    lemma_views_push(out@, c);
                }
                out.push(c);
            }
            i = i + 1;
        }
        assert(all.take(self.directories.len() as int) == all);
        out
    }
}


/// A file's name without its `.rs`.
pub fn stem_of(name: &str) -> (r: String)
    ensures
        r@ == stem(name@),
{
    if has_suffix(name, ".rs") {
        let v = chars_of(name);
        proof {
            reveal_strlit(".rs");
        }
        let r = string_of(&v.as_slice()[0..v.len() - 3]);
        assert(r@ =~= name@.take(name@.len() - 3));
        r
    } else {
        String::from_str(name)
    }
}

impl PackageTree {
    /// The modules a directory's registries are expected to declare, sorted:
    /// the stem of each file beside them that is not itself a registry, and
    /// the name of each folder below.
    pub fn expected_modules_in(&self, directory: &str) -> (r: Vec<String>)
        ensures
            views(r@) == expected_modules(self@.files, self@.directories, directory@),
    {
        let files = self.files_in(directory);
        let subdirectories = self.subdirectories_of(directory);
        let ghost fs = files_in(self@.files, directory@);
        let ghost ds = subdirectories_in(self@.directories, directory@);
        let mut r: Vec<String> = Vec::new();
        let mut i: usize = 0;
        while i < files.len()
            invariant
                i <= files.len(),
                fs == views(files@),
                strictly_sorted(views(r@)),
                forall|m: Seq<char>| #[trigger] views(r@).contains(m) <==> exists|k: int| 0 <= k < i
                    && !is_registry_name(file_name(#[trigger] fs[k])) && stem(file_name(fs[k])) == m,
            decreases files.len() - i,
        {
            let ghost before = views(r@);
            if !is_registry_file(files[i].as_str()) {
                let name = name_of_file(files[i].as_str());
                let s = stem_of(name.as_str());
                insert_sorted(&mut r, s);
            }
            assert forall|m: Seq<char>| #[trigger] views(r@).contains(m) <==> exists|k: int| 0 <= k < i + 1
                && !is_registry_name(file_name(#[trigger] fs[k])) && stem(file_name(fs[k])) == m by {
                if views(r@).contains(m) && !before.contains(m) {
                    assert(!is_registry_name(file_name(fs[i as int])) && stem(file_name(fs[i as int])) == m);
                }
                if exists|k: int| 0 <= k < i + 1 && !is_registry_name(file_name(#[trigger] fs[k])) && stem(file_name(fs[k])) == m {
                    let k = choose|k: int| 0 <= k < i + 1 && !is_registry_name(file_name(#[trigger] fs[k])) && stem(file_name(fs[k])) == m;
                    if k < i {
                        assert(before.contains(m));
                    }
                }
            }
            i = i + 1;
        }
        let mut j: usize = 0;
        while j < subdirectories.len()
            invariant
                j <= subdirectories.len(),
                fs == views(files@),
                ds == views(subdirectories@),
                strictly_sorted(views(r@)),
                forall|m: Seq<char>| #[trigger] views(r@).contains(m) <==> (exists|k: int| 0 <= k < fs.len()
                    && !is_registry_name(file_name(#[trigger] fs[k])) && stem(file_name(fs[k])) == m)
                    || (exists|k: int| 0 <= k < j && file_name(#[trigger] ds[k]) == m),
            decreases subdirectories.len() - j,
        {
            let ghost before = views(r@);
            let name = name_of_file(subdirectories[j].as_str());
            insert_sorted(&mut r, name);
            assert forall|m: Seq<char>| #[trigger] views(r@).contains(m) <==> (exists|k: int| 0 <= k < fs.len()
                && !is_registry_name(file_name(#[trigger] fs[k])) && stem(file_name(fs[k])) == m)
                || (exists|k: int| 0 <= k < j + 1 && file_name(#[trigger] ds[k]) == m) by {
                if views(r@).contains(m) && !before.contains(m) {
                    assert(file_name(ds[j as int]) == m);
                }
                if exists|k: int| 0 <= k < j + 1 && file_name(#[trigger] ds[k]) == m {
                    let k = choose|k: int| 0 <= k < j + 1 && file_name(#[trigger] ds[k]) == m;
                    if k < j {
                        assert(before.contains(m));
                    }
                }
            }
            j = j + 1;
        }
        assert forall|m: Seq<char>| #[trigger] views(r@).contains(m) <==> is_expected_module(self@.files, self@.directories, directory@, m) by {
            if exists|k: int| 0 <= k < fs.len() && !is_registry_name(file_name(#[trigger] fs[k])) && stem(file_name(fs[k])) == m {
                let k = choose|k: int| 0 <= k < fs.len() && !is_registry_name(file_name(#[trigger] fs[k])) && stem(file_name(fs[k])) == m;
                assert(fs.contains(fs[k]));
            }
            if exists|k: int| 0 <= k < ds.len() && file_name(#[trigger] ds[k]) == m {
                let k = choose|k: int| 0 <= k < ds.len() && file_name(#[trigger] ds[k]) == m;
                assert(ds.contains(ds[k]));
            }
            if exists|p: Seq<char>| #[trigger] fs.contains(p) && !is_registry_name(file_name(p)) && stem(file_name(p)) == m {
                let p = choose|p: Seq<char>| #[trigger] fs.contains(p) && !is_registry_name(file_name(p)) && stem(file_name(p)) == m;
                let k = choose|k: int| 0 <= k < fs.len() && fs[k] == p;
                assert(!is_registry_name(file_name(fs[k])) && stem(file_name(fs[k])) == m);
            }
            if exists|d: Seq<char>| #[trigger] ds.contains(d) && file_name(d) == m {
                let d = choose|d: Seq<char>| #[trigger] ds.contains(d) && file_name(d) == m;
                let k = choose|k: int| 0 <= k < ds.len() && ds[k] == d;
                assert(file_name(ds[k]) == m);
            }
        }
        proof {
            lemma_sorted_of(|m: Seq<char>| is_expected_module(self@.files, self@.directories, directory@, m), views(r@));
        }
        r
    }
}

} // verus!
