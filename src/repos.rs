//! The repositories a package can come from, and how their answers are
//! read and combined.

use vstd::prelude::*;

use crate::package::{field_value, texts, Package, PackageInfo, PackageSource};
use crate::text::{
    all_lines, chars_of, find_char, find_in, split_all_lines, split_words, starts_with_ws,
    starts_ws, string_of, trim, trim_range, words,
};

verus! {

#[verifier::external_type_specification]
#[verifier::external_body]
pub struct ExIoError(std::io::Error);

/// Why a repository could not answer.
#[derive(Debug)]
pub enum RepoError {
    /// The package manager could not be started.
    CommandFailed(std::io::Error),
    /// No such package.
    PackageNotFound(String),
    /// The repository could not be queried.
    Unavailable(String),
    /// The package manager's answer could not be read.
    ParseError,
    /// Installing ended with this exit code.
    InstallFailed(i32),
    /// No community-repository helper is installed.
    AurHelperNotFound,
}

/// A package repository, as the package manager reaches it.
pub trait Repository {
    /// The repository's display name.
    fn name(&self) -> &str;

    /// Where its packages come from.
    fn source(&self) -> PackageSource;

    /// Whether the repository can be reached at all.
    fn is_available(&self) -> bool;

    /// The names of all its packages.
    fn list_packages(&self) -> Result<Vec<String>, RepoError>;

    /// Details of one package.
    fn get_info(&self, name: &str) -> Result<PackageInfo, RepoError>;

    /// Installs one package.
    fn install(&self, name: &str) -> Result<(), RepoError>;

    /// Packages whose name or description matches `query`.
    fn search(&self, query: &str) -> Result<Vec<Package>, RepoError>;
}

/// The helper to reach the community repository with: the first one
/// installed, in order of preference.
pub fn aur_helper(paru_available: bool, yay_available: bool) -> (r: Option<&'static str>)
    ensures
        paru_available ==> r == Some("paru"),
        !paru_available && yay_available ==> r == Some("yay"),
        !paru_available && !yay_available ==> r is None,
{
    if paru_available {
        Some("paru")
    } else if yay_available {
        Some("yay")
    } else {
        None
    }
}

/// The package name in `repo/name`; a word without a slash is the name.
pub open spec fn package_name(word: Seq<char>) -> Seq<char> {
    let p = find_char(word, '/');
    if p < word.len() {
        let rest = word.skip(p + 1);
        rest.take(find_char(rest, '/'))
    } else {
        word
    }
}

/// Name, version and description of each package in search output from
/// line `i` on. A package line starts without white space and has at least
/// two words; an indented line right after it is its description.
pub open spec fn search_entries(ls: Seq<Seq<char>>, i: int) -> Seq<
    (Seq<char>, Seq<char>, Seq<char>),
>
    decreases ls.len() - i,
{
    if i < 0 || i >= ls.len() {
        seq![]
    } else if starts_ws(ls[i]) || words(ls[i]).len() < 2 {
        search_entries(ls, i + 1)
    } else {
        let has_desc = i + 1 < ls.len() && starts_ws(ls[i + 1]);
        let desc = if has_desc {
            trim(ls[i + 1])
        } else {
            seq![]
        };
        seq![(package_name(words(ls[i])[0]), words(ls[i])[1], desc)] + search_entries(
            ls,
            if has_desc {
                i + 2
            } else {
                i + 1
            },
        )
    }
}

fn name_of(word: &str) -> (r: String)
    ensures
        r@ == package_name(word@),
{
    let chars = chars_of(word);
    let n = chars.len();
    assert(chars@.subrange(0, n as int) =~= word@);
    let p = find_in(&chars, 0, n, '/');
    if p == n {
        return string_of(&chars, 0, n);
    }
    let q = find_in(&chars, p + 1, n, '/');
    assert(word@.skip(p + 1) =~= chars@.subrange(p + 1, n as int));
    assert(word@.skip(p + 1).take(q as int) =~= chars@.subrange(p + 1, (p + 1 + q) as int));
    string_of(&chars, p + 1, p + 1 + q)
}

fn trimmed(s: &str) -> (r: String)
    ensures
        r@ == trim(s@),
{
    let chars = chars_of(s);
    let n = chars.len();
    assert(chars@.subrange(0, n as int) =~= s@);
    let (a, b) = trim_range(&chars, 0, n);
    string_of(&chars, a, b)
}

/// Reads the output of a package search: one package per line that starts
/// without white space and has at least a name and a version, with the
/// indented line after it, if any, as its description.
pub fn parse_pacman_search_output(output: &str, source: PackageSource) -> (r: Vec<Package>)
    ensures
        r@.len() == search_entries(all_lines(output@), 0).len(),
        forall|k: int|
            0 <= k < r@.len() ==> {
                let e = search_entries(all_lines(output@), 0)[k];
                &&& (#[trigger] r@[k]).name@ == e.0
                &&& r@[k].version@ == e.1
                &&& r@[k].description@ == e.2
                &&& r@[k].source == source
            },
{
    let lines = split_all_lines(output);
    let ghost ls = all_lines(output@);
    let mut r: Vec<Package> = Vec::new();
    let ghost found: Seq<(Seq<char>, Seq<char>, Seq<char>)> = seq![];
    let mut i: usize = 0;
    while i < lines.len()
        invariant
            i <= lines@.len() + 1,
            lines@.len() == ls.len(),
            forall|j: int| 0 <= j < lines@.len() ==> #[trigger] lines@[j]@ == ls[j],
            found + search_entries(ls, i as int) == search_entries(ls, 0),
            r@.len() == found.len(),
            forall|k: int|
                0 <= k < r@.len() ==> {
                    &&& (#[trigger] r@[k]).name@ == found[k].0
                    &&& r@[k].version@ == found[k].1
                    &&& r@[k].description@ == found[k].2
                    &&& r@[k].source == source
                },
        decreases lines@.len() + 1 - i,
    {
        let line = lines[i].as_str();
        if starts_with_ws(line) {
            i = i + 1;
            continue;
        }
        let parts = split_words(line);
        if parts.len() < 2 {
            i = i + 1;
            continue;
        }
        let name = name_of(parts[0].as_str());
        let has_desc = i + 1 < lines.len() && starts_with_ws(lines[i + 1].as_str());
        let description = if has_desc {
            trimmed(lines[i + 1].as_str())
        } else {
            String::new()
        };
        let pkg = Package::with_details(name.as_str(), parts[1].as_str(), description.as_str(), source);
        let ghost entry = (name@, parts@[1]@, description@);
        proof {
            assert(search_entries(ls, i as int) == seq![entry] + search_entries(
                ls,
                if has_desc {
                    i + 2
                } else {
                    i + 1
                },
            ));
            assert(found.push(entry) + search_entries(ls, if has_desc { i + 2 } else { i + 1 })
                =~= found + search_entries(ls, i as int));
            found = found.push(entry);
        }
        r.push(pkg);
        i = if has_desc {
            i + 2
        } else {
            i + 1
        };
    }
    proof {
        assert(search_entries(ls, i as int) =~= Seq::empty());
        assert(found =~= search_entries(ls, 0));
    }
    r
}

/// What a finished package-manager command left behind.
pub struct CommandOutput {
    /// Whether it exited successfully.
    pub success: bool,
    /// Its exit code, when it has one.
    pub code: Option<i32>,
    /// What it printed.
    pub stdout: String,
}

/// The package names a listing command printed, one per line; when the
/// command failed the repository could not be queried, for the reason
/// `failure`.
pub fn listing_answer(out: CommandOutput, failure: &str) -> (r: Result<Vec<String>, RepoError>)
    ensures
        !out.success ==> (r matches Err(RepoError::Unavailable(m)) && m@ == failure@),
        out.success ==> (r matches Ok(v) && texts(v) == all_lines(out.stdout@)),
{
    if !out.success {
        return Err(RepoError::Unavailable(failure.to_owned()));
    }
    let v = split_all_lines(out.stdout.as_str());
    assert(texts(v) =~= all_lines(out.stdout@));
    Ok(v)
}

/// The details an info command printed for `name`: a failed command means
/// there is no such package, and output without a name cannot be read.
pub fn info_answer(out: CommandOutput, name: &str, source: PackageSource) -> (r: Result<
    PackageInfo,
    RepoError,
>)
    ensures
        !out.success ==> (r matches Err(RepoError::PackageNotFound(n)) && n@ == name@),
        out.success && field_value(crate::text::listed_names(out.stdout@), "Name"@).len() == 0
            ==> r matches Err(RepoError::ParseError),
        out.success && field_value(crate::text::listed_names(out.stdout@), "Name"@).len() > 0
            ==> (r matches Ok(info) && info.name@ == field_value(
            crate::text::listed_names(out.stdout@),
            "Name"@,
        ) && info.source == source),
{
    if !out.success {
        return Err(RepoError::PackageNotFound(name.to_owned()));
    }
    match PackageInfo::from_pacman_output(out.stdout.as_str(), source) {
        Some(info) => Ok(info),
        None => Err(RepoError::ParseError),
    }
}

/// How an installation ended: success, or the exit code (-1 without one).
pub fn install_answer(success: bool, code: Option<i32>) -> (r: Result<(), RepoError>)
    ensures
        success ==> r is Ok,
        !success ==> (r matches Err(RepoError::InstallFailed(c)) && c == match code {
            Some(x) => x as int,
            None => -1int,
        }),
{
    if success {
        Ok(())
    } else {
        Err(
            RepoError::InstallFailed(
                match code {
                    Some(x) => x,
                    None => -1,
                },
            ),
        )
    }
}

/// The packages a search command printed; a failed search found nothing,
/// which is no error.
pub fn search_answer(out: CommandOutput, source: PackageSource) -> (r: Result<
    Vec<Package>,
    RepoError,
>)
    ensures
        !out.success ==> (r matches Ok(v) && v@.len() == 0),
        out.success ==> (r matches Ok(v) && v@.len() == search_entries(all_lines(out.stdout@), 0).len()
            && forall|k: int|
            0 <= k < v@.len() ==> {
                let e = search_entries(all_lines(out.stdout@), 0)[k];
                &&& (#[trigger] v@[k]).name@ == e.0
                &&& v@[k].version@ == e.1
                &&& v@[k].description@ == e.2
                &&& v@[k].source == source
            }),
{
    if !out.success {
        return Ok(Vec::new());
    }
    Ok(parse_pacman_search_output(out.stdout.as_str(), source))
}

/// The first answer, extended by the second when that one was asked for
/// and came back; an error in the first is the answer.
pub fn combine_answers<T>(
    first: Result<Vec<T>, RepoError>,
    second: Option<Result<Vec<T>, RepoError>>,
) -> (r: Result<Vec<T>, RepoError>)
    ensures
        first is Err ==> r == first,
        first matches Ok(a) ==> r matches Ok(v) && v@ == match second {
            Some(Ok(b)) => a@ + b@,
            _ => a@,
        },
{
    match first {
        Err(e) => Err(e),
        Ok(mut a) => {
            match second {
                Some(Ok(mut b)) => {
                    a.append(&mut b);
                    Ok(a)
                },
                _ => Ok(a),
            }
        },
    }
}

/// Queries the official repositories and then, when it is reachable, the
/// community one.
pub struct RepoManager<O, A> {
    pub pacman: O,
    pub aur: A,
}

impl<O: Repository, A: Repository> RepoManager<O, A> {
    /// A manager over the two repositories.
    pub fn new(pacman: O, aur: A) -> (r: Self)
        ensures
            r.pacman == pacman,
            r.aur == aur,
    {
        RepoManager { pacman, aur }
    }

    /// All package names: the official ones, then the community ones when
    /// that repository is reachable and answers.
    pub fn list_all(&self) -> Result<Vec<String>, RepoError> {
        let first = self.pacman.list_packages();
        if first.is_err() {
            return first;
        }
        let second = if self.aur.is_available() {
            Some(self.aur.list_packages())
        } else {
            None
        };
        combine_answers(first, second)
    }

    /// Searches the official repositories, then the community one when it
    /// is reachable and answers.
    pub fn smart_search(&self, query: &str) -> Result<Vec<Package>, RepoError> {
        let first = self.pacman.search(query);
        if first.is_err() {
            return first;
        }
        let second = if self.aur.is_available() {
            Some(self.aur.search(query))
        } else {
            None
        };
        combine_answers(first, second)
    }
}

} // verus!
