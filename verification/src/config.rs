//! The configuration the library works with: where templates live and which
//! repositories are known.

use vstd::prelude::*;

use crate::text::{lemma_position_of, lemma_position_of_prefix, lemma_position_of_extend, lemma_take_all, position_of, str_eq};

verus! {

/// A repository the configuration knows.
pub struct RepoOptions {
    pub name: String,
    pub url: String,
    pub enabled: bool,
}

/// The configuration: the directory that holds the repositories, and the
/// repositories themselves.
pub struct Config {
    pub templates_dir: String,
    pub repositories: Vec<RepoOptions>,
}

/// The names of the repositories, in order.
pub open spec fn repo_names(repos: Seq<RepoOptions>) -> Seq<Seq<char>> {
    repos.map_values(|r: RepoOptions| r.name@)
}

/// The configuration has options for a repository exactly when its name is
/// among the repository names it lists, and those options bear that name.
pub proof fn lemma_config_iff_listed(config: Config, name: Seq<char>)
    ensures
        config.has_repository(name) <==> repo_names(config.repositories@).contains(name),
        position_of(repo_names(config.repositories@), name) matches Some(i)
            ==> config.repositories@[i].name@ == name,
{
    lemma_position_of(repo_names(config.repositories@), name);
}

impl RepoOptions {
    /// A copy of these options.
    pub fn duplicate(&self) -> (res: RepoOptions)
        ensures
            res == *self,
    {
        RepoOptions { name: self.name.clone(), url: self.url.clone(), enabled: self.enabled }
    }
}

impl Config {
    /// Whether the configuration knows a repository called `name`.
    pub open spec fn has_repository(&self, name: Seq<char>) -> bool {
        position_of(repo_names(self.repositories@), name) is Some
    }

    /// The names of all known repositories, in order.
    pub fn get_repositories(&self) -> (names: Vec<String>)
        ensures
            names@.map_values(|s: String| s@) == repo_names(self.repositories@),
    {
        let mut names: Vec<String> = Vec::new();
        let mut i: usize = 0;
        while i < self.repositories.len()
            invariant
                i <= self.repositories@.len(),
                names@.len() == i,
                names@.map_values(|s: String| s@) == repo_names(self.repositories@).take(i as int),
            decreases self.repositories@.len() - i,
        {
            let ghost prev = names@;
            names.push(self.repositories[i].name.clone());
            assert(names@ == prev.push(names@[i as int]));
            assert(names@[i as int]@ == self.repositories@[i as int].name@);
            assert(names@.map_values(|s: String| s@) =~= repo_names(self.repositories@).take(i + 1));
            i = i + 1;
        }
        proof {
            lemma_take_all(repo_names(self.repositories@));
        }
        names
    }

    /// The options of the repository called `name`, where it is known.
    pub fn get_repository_config(&self, name: &str) -> (cfg: Option<RepoOptions>)
        ensures
            cfg is Some <==> self.has_repository(name@),
            cfg matches Some(c) ==> c == self.repositories@[position_of(
                repo_names(self.repositories@),
                name@,
            )->0],
    {
        proof {
            lemma_position_of(repo_names(self.repositories@), name@);
        }
        match self.position(name) {
            Some(i) => Some(self.repositories[i].duplicate()),
            None => None,
        }
    }

    /// Where the repository called `name` stands among the known ones.
    fn position(&self, name: &str) -> (pos: Option<usize>)
        ensures
            pos matches Some(i) ==> position_of(repo_names(self.repositories@), name@) == Some(i as int),
            pos is None ==> position_of(repo_names(self.repositories@), name@) is None,
    {
        let ghost names = repo_names(self.repositories@);
        let mut i: usize = 0;
        while i < self.repositories.len()
            invariant
                names == repo_names(self.repositories@),
                i <= self.repositories@.len(),
                position_of(names.take(i as int), name@) is None,
            decreases self.repositories@.len() - i,
        {
            proof {
                lemma_position_of_prefix(names, name@, i as int);
            }
            if str_eq(self.repositories[i].name.as_str(), name) {
                proof {
                    lemma_position_of_extend(names, name@, i + 1);
                }
                return Some(i);
            }
            i = i + 1;
        }
        proof {
            lemma_take_all(names);
        }
        None
    }
}

} // verus!
