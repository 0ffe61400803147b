//! The actions of the tool: what it does with the configuration and the
//! repositories it names.

use vstd::prelude::*;

use crate::config::{repo_names, Config};
use crate::repository::{find_template, template_names, Repository, RepositoryError};
use crate::text::{lemma_position_of, lower_case, to_lower};

verus! {

/// Carries out the tool's actions on a configuration.
pub struct Action {
    config: Config,
}

/// What opening a repository needs next.
pub enum RepositoryRequest {
    /// Open the repository of this name.
    Open(String),
    /// Ask the user to pick one of these repository names, then open it.
    Choose(Vec<String>),
    /// No name was given and the configuration knows no repository to pick.
    NoRepositories,
}

impl Action {
    /// The configuration this action works on.
    pub closed spec fn config_of(&self) -> Config {
        self.config
    }

    /// An action on `config`.
    pub fn new(config: Config) -> (act: Action)
        ensures
            act.config_of() == config,
    {
        let act = Action { config: config };
        act
    }

    /// Which repository to open: the one named, or else one the user picks from
    /// those the configuration knows; there is nothing to pick from where it
    /// knows none.
    pub fn get_repository(&self, repository_name: Option<&str>) -> (req: RepositoryRequest)
        ensures
            repository_name matches Some(n) ==> (req matches RepositoryRequest::Open(s) && s@ == n@),
            repository_name is None && repo_names(self.config_of().repositories@).len() == 0
                ==> req is NoRepositories,
            repository_name is None && repo_names(self.config_of().repositories@).len() > 0
                ==> (req matches RepositoryRequest::Choose(names)
                    && names@.map_values(|s: String| s@) == repo_names(self.config_of().repositories@)),
    {
        match repository_name {
            Some(n) => RepositoryRequest::Open(String::from_str(n)),
            None => {
                let repositories = self.config.get_repositories();
                if repositories.len() == 0 {
                    RepositoryRequest::NoRepositories
                } else {
                    RepositoryRequest::Choose(repositories)
                }
            },
        }
    }
}

/// Which repository a new template goes into: the one named on the command
/// line, lower-cased, or else one the user picks from those the configuration
/// knows; there is nothing to pick from where it knows none.
pub fn repository_to_open(config: &Config, arg: Option<&str>) -> (req: RepositoryRequest)
    ensures
        arg matches Some(n) ==> (req matches RepositoryRequest::Open(s) && s@ == lower_case(n@)),
        arg is None && config.repositories@.len() == 0 ==> req is NoRepositories,
        arg is None && config.repositories@.len() > 0 ==> (req matches RepositoryRequest::Choose(v)
            && v@.map_values(|s: String| s@) == repo_names(config.repositories@)),
{
    match arg {
        Some(n) => RepositoryRequest::Open(to_lower(n)),
        None => {
            let repositories = config.get_repositories();
            assert(repositories@.map_values(|s: String| s@).len() == repo_names(config.repositories@).len());
            if repositories.len() == 0 {
                RepositoryRequest::NoRepositories
            } else {
                RepositoryRequest::Choose(repositories)
            }
        },
    }
}

/// Whether the repository already holds a template called `name`, so that a
/// new one cannot take that name.
pub fn template_name_taken(repository: &Repository, name: &str) -> (taken: bool)
    ensures
        taken == template_names(repository.templates@).contains(name@),
{
    proof {
        lemma_position_of(template_names(repository.templates@), name@);
    }
    find_template(&repository.templates, name).is_some()
}

/// The names of the templates to list: those of the repository where it could
/// be opened, nothing to list where it could not.
pub fn list(repository: Result<Repository, RepositoryError>) -> (names: Option<Vec<String>>)
    ensures
        repository is Err ==> names is None,
        repository matches Ok(r) ==> (names matches Some(v) && v@.map_values(|s: String| s@)
            == template_names(r.templates@)),
{
    match repository {
        Ok(repository) => Some(repository.get_templates()),
        Err(_error) => None,
    }
}

} // verus!
