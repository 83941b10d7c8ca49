//! Auditing the installed packages against the package lists kept with the
//! dotfiles.

use vstd::prelude::*;

use crate::package::{texts, PackageSource};
use crate::text::{
    chars_of, contains_seq, contains_str, find_char, listed_names, same_text, split_lines, trim,
    trim_range, string_of,
};

verus! {

/// A package named by a list file.
#[derive(Debug, Clone)]
pub struct PackageEntry {
    pub name: String,
    pub source: PackageSource,
    /// The list file it was found in.
    pub file: String,
}

/// Listed but not installed, and installed but not listed.
#[derive(Debug)]
pub struct AuditResult {
    pub missing: Vec<PackageEntry>,
    pub extra: Vec<String>,
    pub config_count: usize,
    pub installed_count: usize,
}

/// The package lists of one dotfiles directory.
pub struct TerraFlow {
    packages_dir: String,
}

/// The last component of a slash-separated path.
pub open spec fn last_component(path: Seq<char>) -> Seq<char>
    decreases path.len(),
{
    let p = find_char(path, '/');
    if 0 <= p < path.len() {
        last_component(path.skip(p + 1))
    } else {
        path
    }
}

/// Position of the last `.` in `s`, or `-1` when there is none.
pub open spec fn last_dot(s: Seq<char>) -> int
    decreases s.len(),
{
    if s.len() == 0 {
        -1
    } else if s.last() == '.' {
        s.len() - 1
    } else {
        last_dot(s.drop_last())
    }
}

/// A file path's name without its extension; a name whose only dot leads
/// it has no extension.
pub open spec fn file_stem(path: Seq<char>) -> Seq<char> {
    let name = last_component(path);
    let d = last_dot(name);
    if d > 0 {
        name.take(d)
    } else {
        name
    }
}

/// Whether a line of a list file names a package: not empty once trimmed,
/// not a comment, not a lone dot.
pub open spec fn names_package(t: Seq<char>) -> bool {
    t.len() > 0 && t[0] != '#' && t != "."@
}

/// The packages that the lines `ls` of a list file name, trimmed.
pub open spec fn listed_packages(ls: Seq<Seq<char>>) -> Seq<Seq<char>>
    decreases ls.len(),
{
    if ls.len() == 0 {
        seq![]
    } else if names_package(trim(ls.last())) {
        listed_packages(ls.drop_last()).push(trim(ls.last()))
    } else {
        listed_packages(ls.drop_last())
    }
}

fn stem_of(path: &str) -> (r: String)
    ensures
        r@ == file_stem(path@),
{
    let chars = chars_of(path);
    let n = chars.len();
    let mut start: usize = 0;
    assert(chars@.subrange(0, n as int) =~= path@);
    while start < n && find_in_rest(&chars, start, n) < n
        invariant
            start <= n == chars@.len(),
            chars@ == path@,
            last_component(path@) == last_component(chars@.subrange(start as int, n as int)),
        decreases n - start,
    {
        let p = find_in_rest(&chars, start, n);
        assert(chars@.subrange(start as int, n as int).skip(p - start + 1) =~= chars@.subrange(
            p + 1,
            n as int,
        ));
        start = p + 1;
    }
    proof {
        if start == n {
            assert(chars@.subrange(start as int, n as int) =~= Seq::<char>::empty());
        }
    }
    let ghost name = chars@.subrange(start as int, n as int);
    let mut d: usize = n;
    while d > start && chars[d - 1] != '.'
        invariant
            start <= d <= n == chars@.len(),
            name == chars@.subrange(start as int, n as int),
            last_dot(name) == last_dot(chars@.subrange(start as int, d as int)),
        decreases d - start,
    {
        assert(chars@.subrange(start as int, d as int).drop_last() =~= chars@.subrange(
            start as int,
            d - 1,
        ));
        d = d - 1;
    }
    if d - start > 1 {
        assert(name.take(d - 1 - start) =~= chars@.subrange(start as int, d - 1));
        string_of(&chars, start, d - 1)
    } else {
        string_of(&chars, start, n)
    }
}

/// Position of the first `/` at or after `from`, or `to` when there is none.
fn find_in_rest(chars: &Vec<char>, from: usize, to: usize) -> (r: usize)
    requires
        from <= to <= chars@.len(),
    ensures
        r == from + find_char(chars@.subrange(from as int, to as int), '/'),
        from <= r <= to,
{
    from + crate::text::find_in(chars, from, to, '/')
}

impl TerraFlow {
    /// The lists kept in `packages_dir`.
    pub fn new(packages_dir: &str) -> (r: Self)
        ensures
            r.dir() == packages_dir@,
    {
        TerraFlow { packages_dir: packages_dir.to_owned() }
    }

    /// The directory of the lists.
    pub closed spec fn dir(&self) -> Seq<char> {
        self.packages_dir@
    }

    /// The directory of the lists.
    pub fn packages_dir(&self) -> (r: &str)
        ensures
            r@ == self.dir(),
    {
        self.packages_dir.as_str()
    }

    /// The repository a list file is for: the community one when its name,
    /// without extension, mentions `aur`.
    pub fn detect_source(path: &str) -> (r: PackageSource)
        ensures
            r == if contains_seq(file_stem(path@), "aur"@) {
                PackageSource::Aur
            } else {
                PackageSource::Official
            },
    {
        let stem = stem_of(path);
        if contains_str(stem.as_str(), "aur") {
            PackageSource::Aur
        } else {
            PackageSource::Official
        }
    }

    /// The packages one list file names, each tagged with the file and the
    /// repository its name points to.
    pub fn config_entries(file_name: &str, contents: &str) -> (r: Vec<PackageEntry>)
        ensures
            r@.len() == listed_packages(listed_names(contents@)).len(),
            forall|k: int|
                0 <= k < r@.len() ==> {
                    &&& (#[trigger] r@[k]).name@ == listed_packages(listed_names(contents@))[k]
                    &&& r@[k].file@ == file_name@
                    &&& r@[k].source == Self::detect_source_spec(file_name@)
                },
    {
        let source = Self::detect_source(file_name);
        let lines = split_lines(contents);
        let ghost ls = listed_names(contents@);
        let mut r: Vec<PackageEntry> = Vec::new();
        let mut i: usize = 0;
        while i < lines.len()
            invariant
                i <= lines@.len() == ls.len(),
                forall|j: int| 0 <= j < lines@.len() ==> #[trigger] lines@[j]@ == ls[j],
                source == Self::detect_source_spec(file_name@),
                r@.len() == listed_packages(ls.take(i as int)).len(),
                forall|k: int|
                    0 <= k < r@.len() ==> {
                        &&& (#[trigger] r@[k]).name@ == listed_packages(ls.take(i as int))[k]
                        &&& r@[k].file@ == file_name@
                        &&& r@[k].source == source
                    },
            decreases lines@.len() - i,
        {
            assert(ls.take(i + 1).drop_last() =~= ls.take(i as int));
            let chars = chars_of(lines[i].as_str());
            let n = chars.len();
            assert(chars@.subrange(0, n as int) =~= ls[i as int]);
            let (a, b) = trim_range(&chars, 0, n);
            let name = string_of(&chars, a, b);
            if a < b && chars[a] != '#' && !same_text(name.as_str(), ".") {
                r.push(PackageEntry { name, source, file: file_name.to_owned() });
            }
            i = i + 1;
        }
        assert(ls.take(i as int) =~= ls);
        r
    }

    /// The repository `detect_source` gives for a path.
    pub open spec fn detect_source_spec(path: Seq<char>) -> PackageSource {
        if contains_seq(file_stem(path), "aur"@) {
            PackageSource::Aur
        } else {
            PackageSource::Official
        }
    }

    /// Compares the listed packages with the installed ones (each named
    /// once): the listed ones not installed, in list order, and the
    /// installed ones not listed, in installed order.
    pub fn audit(&self, config_packages: &Vec<PackageEntry>, installed: &Vec<String>) -> (r:
        AuditResult)
        ensures
            r.config_count == config_packages@.len(),
            r.installed_count == installed@.len(),
            r.missing@.len() == missing_entries(config_packages@, texts(*installed)).len(),
            forall|k: int|
                0 <= k < r.missing@.len() ==> {
                    let e = missing_entries(config_packages@, texts(*installed))[k];
                    &&& (#[trigger] r.missing@[k]).name@ == e.name@
                    &&& r.missing@[k].file@ == e.file@
                    &&& r.missing@[k].source == e.source
                },
            texts(r.extra) == unlisted(texts(*installed), entry_names(config_packages@)),
    {
        let mut missing: Vec<PackageEntry> = Vec::new();
        let mut i: usize = 0;
        while i < config_packages.len()
            invariant
                i <= config_packages@.len(),
                missing@.len() == missing_entries(config_packages@.take(i as int), texts(*installed)).len(),
                forall|k: int|
                    0 <= k < missing@.len() ==> {
                        let e = missing_entries(config_packages@.take(i as int), texts(*installed))[k];
                        &&& (#[trigger] missing@[k]).name@ == e.name@
                        &&& missing@[k].file@ == e.file@
                        &&& missing@[k].source == e.source
                    },
            decreases config_packages@.len() - i,
        {
            assert(config_packages@.take(i + 1).drop_last() =~= config_packages@.take(i as int));
            let p = &config_packages[i];
            if !holds_name(installed, p.name.as_str()) {
                missing.push(
                    PackageEntry { name: p.name.clone(), source: p.source, file: p.file.clone() },
                );
            }
            i = i + 1;
        }
        assert(config_packages@.take(i as int) =~= config_packages@);
        let mut extra: Vec<String> = Vec::new();
        let mut k: usize = 0;
        while k < installed.len()
            invariant
                k <= installed@.len(),
                texts(extra) == unlisted(texts(*installed).take(k as int), entry_names(config_packages@)),
            decreases installed@.len() - k,
        {
            assert(texts(*installed).take(k + 1).drop_last() =~= texts(*installed).take(k as int));
            assert(texts(*installed).take(k + 1).last() == installed@[k as int]@);
            if !lists_name(config_packages, installed[k].as_str()) {
                let ghost old_t = texts(extra);
                extra.push(installed[k].clone());
                assert(texts(extra) =~= old_t.push(installed@[k as int]@));
            }
            k = k + 1;
        }
        assert(texts(*installed).take(k as int) =~= texts(*installed));
        AuditResult {
            missing,
            extra,
            config_count: config_packages.len(),
            installed_count: installed.len(),
        }
    }
}

/// The names of list entries.
pub open spec fn entry_names(es: Seq<PackageEntry>) -> Seq<Seq<char>> {
    es.map_values(|e: PackageEntry| e.name@)
}

/// The entries whose package is not installed, in order.
pub open spec fn missing_entries(es: Seq<PackageEntry>, installed: Seq<Seq<char>>) -> Seq<
    PackageEntry,
>
    decreases es.len(),
{
    if es.len() == 0 {
        seq![]
    } else if installed.contains(es.last().name@) {
        missing_entries(es.drop_last(), installed)
    } else {
        missing_entries(es.drop_last(), installed).push(es.last())
    }
}

/// The installed names that no list names, in order.
pub open spec fn unlisted(installed: Seq<Seq<char>>, listed: Seq<Seq<char>>) -> Seq<Seq<char>>
    decreases installed.len(),
{
    if installed.len() == 0 {
        seq![]
    } else if listed.contains(installed.last()) {
        unlisted(installed.drop_last(), listed)
    } else {
        unlisted(installed.drop_last(), listed).push(installed.last())
    }
}

/// Whether some entry of `entries` names `name`.
pub fn lists_name(entries: &Vec<PackageEntry>, name: &str) -> (r: bool)
    ensures
        r == entry_names(entries@).contains(name@),
{
    let mut i: usize = 0;
    while i < entries.len()
        invariant
            i <= entries@.len(),
            forall|j: int| 0 <= j < i ==> entries@[j].name@ != name@,
        decreases entries@.len() - i,
    {
        if same_text(entries[i].name.as_str(), name) {
            assert(entry_names(entries@)[i as int] == name@);
            return true;
        }
        i = i + 1;
    }
    assert forall|j: int| 0 <= j < entry_names(entries@).len() implies entry_names(entries@)[j]
        != name@ by {
        assert(entry_names(entries@)[j] == entries@[j].name@);
    }
    false
}

/// Whether `list` holds `name`.
pub fn holds_name(list: &Vec<String>, name: &str) -> (r: bool)
    ensures
        r == texts(*list).contains(name@),
{
    let mut i: usize = 0;
    while i < list.len()
        invariant
            i <= list@.len(),
            forall|j: int| 0 <= j < i ==> list@[j]@ != name@,
        decreases list@.len() - i,
    {
        if same_text(list[i].as_str(), name) {
            assert(texts(*list)[i as int] == name@);
            return true;
        }
        i = i + 1;
    }
    assert forall|j: int| 0 <= j < texts(*list).len() implies texts(*list)[j] != name@ by {
        assert(texts(*list)[j] == list@[j]@);
    }
    false
}

/// `ls` with each text kept at its first appearance only.
pub open spec fn first_appearances(ls: Seq<Seq<char>>) -> Seq<Seq<char>>
    decreases ls.len(),
{
    if ls.len() == 0 {
        seq![]
    } else if first_appearances(ls.drop_last()).contains(ls.last()) {
        first_appearances(ls.drop_last())
    } else {
        first_appearances(ls.drop_last()).push(ls.last())
    }
}

/// The installed packages a listing of them names, each once, in order of
/// first appearance.
pub fn installed_names(listing: &str) -> (r: Vec<String>)
    ensures
        texts(r) == first_appearances(listed_names(listing@)),
{
    let lines = split_lines(listing);
    let ghost ls = listed_names(listing@);
    let mut r: Vec<String> = Vec::new();
    let mut i: usize = 0;
    while i < lines.len()
        invariant
            i <= lines@.len() == ls.len(),
            forall|j: int| 0 <= j < lines@.len() ==> #[trigger] lines@[j]@ == ls[j],
            texts(r) == first_appearances(ls.take(i as int)),
        decreases lines@.len() - i,
    {
        assert(ls.take(i + 1).drop_last() =~= ls.take(i as int));
        assert(ls.take(i + 1).last() == lines@[i as int]@);
        if !holds_name(&r, lines[i].as_str()) {
            let ghost old_t = texts(r);
            r.push(lines[i].clone());
            assert(texts(r) =~= old_t.push(lines@[i as int]@));
        }
        i = i + 1;
    }
    assert(ls.take(i as int) =~= ls);
    r
}

} // verus!
