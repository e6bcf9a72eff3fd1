//! The repositories to sample, as a catalog of tools names them.

use crate::sample::present;
use vstd::prelude::*;

verus! {

/// A repository: its owner and its name.
#[derive(Debug, Clone)]
pub struct Repo {
    pub owner: String,
    pub name: String,
}

/// What a [`Repo`] stands for.
pub ghost struct RepoView {
    pub owner: Seq<char>,
    pub name: Seq<char>,
}

impl View for Repo {
    type V = RepoView;

    open spec fn view(&self) -> RepoView {
        RepoView { owner: self.owner@, name: self.name@ }
    }
}

/// One tool of the catalog: its name, and the address of its sources where
/// the catalog gives one.
#[derive(Debug, Clone)]
pub struct CatalogEntry {
    pub name: String,
    pub source: Option<String>,
}

/// The position of the first `/` in `text` at or after `from`, or the length
/// of `text` where there is none.
pub open spec fn find_slash(text: Seq<char>, from: int) -> int
    decreases text.len() - from,
{
    if from >= text.len() {
        text.len() as int
    } else if text[from] == '/' {
        from
    } else {
        find_slash(text, from + 1)
    }
}

/// The piece of `text` that follows `skipped` further slashes, counted from
/// position `from`, and runs to the next slash or to the end.
pub open spec fn segment(text: Seq<char>, skipped: nat, from: int) -> Option<Seq<char>>
    decreases skipped,
{
    let end = find_slash(text, from);
    if from < 0 || from > text.len() {
        None
    } else if skipped == 0 {
        Some(text.subrange(from, end))
    } else if end >= text.len() {
        None
    } else {
        segment(text, (skipped - 1) as nat, end + 1)
    }
}

/// The owner that the address of a repository names: what stands between
/// its third and its fourth slash, as in `https://github.com/owner/name`.
pub open spec fn source_owner(source: Seq<char>) -> Option<Seq<char>> {
    segment(source, 3, 0)
}

/// The repository of a catalog entry, where the entry gives an address that
/// names an owner.
pub open spec fn entry_repo(entry: CatalogEntry) -> Option<RepoView> {
    match entry.source {
        None => None,
        Some(source) => match source_owner(source@) {
            None => None,
            Some(owner) => Some(RepoView { owner, name: entry.name@ }),
        },
    }
}

/// The repositories of a catalog: those of its entries that give one, in the
/// order of the catalog.
pub open spec fn catalog_repos(catalog: Seq<CatalogEntry>) -> Seq<RepoView> {
    present(catalog.map_values(|entry: CatalogEntry| entry_repo(entry)))
}

/// Reads the owner from the address of a repository.
pub fn get_owner(source: &str) -> (owner: Option<String>)
    ensures
        match source_owner(source@) {
            Some(name) => owner matches Some(found) && found@ == name,
            None => owner is None,
        },
{
    let length = source.unicode_len();
    let mut from: usize = 0;
    let mut skipped: usize = 0;
    loop
        invariant
            length == source@.len(),
            from <= length,
            skipped <= 3,
            source_owner(source@) == segment(source@, (3 - skipped) as nat, from as int),
        decreases 3 - skipped,
    {
        let mut end: usize = from;
        while end < length && source.get_char(end) != '/'
            invariant
                length == source@.len(),
                from <= end <= length,
                find_slash(source@, from as int) == find_slash(source@, end as int),
            decreases length - end,
        {
            end += 1;
        }
        if skipped == 3 {
            return Some(source.substring_char(from, end).to_owned());
        }
        if end >= length {
            return None;
        }
        from = end + 1;
        skipped += 1;
    }
}

/// Lists the repositories that a catalog names. Entries without an address,
/// and entries whose address names no owner, are left out.
pub fn get_repos(catalog: &Vec<CatalogEntry>) -> (repos: Vec<Repo>)
    ensures
        repos@.map_values(|repo: Repo| repo@) == catalog_repos(catalog@),
{
    let ghost found = catalog@.map_values(|entry: CatalogEntry| entry_repo(entry));
    let mut repos: Vec<Repo> = Vec::new();
    let mut at: usize = 0;
    proof {
        assert(found.take(0) =~= Seq::empty());
        assert(repos@.map_values(|repo: Repo| repo@) =~= present(found.take(0)));
    }
    while at < catalog.len()
        invariant
            at <= catalog@.len(),
            found == catalog@.map_values(|entry: CatalogEntry| entry_repo(entry)),
            repos@.map_values(|repo: Repo| repo@) == present(found.take(at as int)),
        decreases catalog@.len() - at,
    {
        let entry = &catalog[at];
        let ghost earlier = repos@.map_values(|repo: Repo| repo@);
        proof {
            assert(found.take(at + 1).drop_last() =~= found.take(at as int));
            assert(found.take(at + 1).last() == entry_repo(catalog@[at as int]));
        }
        if let Some(source) = &entry.source {
            if let Some(owner) = get_owner(source.as_str()) {
                let repo = Repo { owner, name: entry.name.clone() };
                repos.push(repo);
                assert(repos@.map_values(|repo: Repo| repo@) =~= earlier.push(repo@));
            }
        }
        at += 1;
    }
    assert(found.take(at as int) =~= found);
    repos
}

impl Repo {
    /// The name under which the repository is known: its owner, a slash, and
    /// its name.
    pub fn label(&self) -> (text: String)
        ensures
            text@ == self.owner@ + seq!['/'] + self.name@,
    {
        proof {
            reveal_strlit("/");
        }
        let mut text = self.owner.clone();
        text.append("/");
        text.append(self.name.as_str());
        assert(text@ =~= self.owner@ + seq!['/'] + self.name@);
        text
    }
}

} // verus!
