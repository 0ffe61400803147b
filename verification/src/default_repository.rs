//! The default repository: the templates that lie directly in the
//! configuration's templates directory.

use vstd::prelude::*;

use crate::config::Config;
use crate::repository::{find_template, load_template_entries, loaded_from, template_names, TemplateDir};
use crate::template::Template;
use crate::text::{lemma_position_of, lower_case, position_of, to_lower};

verus! {

/// The error std reports for a failed input or output operation.
#[verifier::external_type_specification]
#[verifier::external_body]
pub struct ExIoError(std::io::Error);

/// Why a run of the tool failed.
pub enum RunError {
    /// A directory could not be read; the error it was read with.
    Io(std::io::Error),
    /// A template could not be used; the message says why.
    Template(String),
}

/// How a repository describes itself.
pub struct RepositoryOptions {
    pub name: String,
    pub description: Option<String>,
}

/// The repository of the templates in the templates directory itself.
pub struct DefaultRepository {
    pub directory: String,
    pub templates: Vec<Template>,
}

impl DefaultRepository {
    /// The default repository of `config`, its templates loaded from the
    /// listing of the templates directory; the listing's error, as `Io`, where
    /// that directory could not be listed.
    pub fn new(config: &Config, listing: Result<Vec<TemplateDir>, std::io::Error>) -> (res: Result<DefaultRepository, RunError>)
        ensures
            res is Err <==> listing is Err,
            listing matches Err(e) ==> (res matches Err(RunError::Io(r)) && r == e),
            res matches Ok(r) ==> r.directory == config.templates_dir && loaded_from(
                r.templates@,
                listing->Ok_0@,
            ),
    {
        let mut repository = DefaultRepository {
            directory: config.templates_dir.clone(),
            templates: Vec::new(),
        };
        match repository.load_templates(listing) {
            Ok(()) => Ok(repository),
            Err(e) => Err(e),
        }
    }

    /// Replaces the templates with those of the listing; leaves none and
    /// fails with the listing's error, as `Io`, where the directory could not
    /// be listed.
    fn load_templates(&mut self, listing: Result<Vec<TemplateDir>, std::io::Error>) -> (res: Result<(), RunError>)
        ensures
            final(self).directory == old(self).directory,
            res is Err <==> listing is Err,
            listing matches Err(e) ==> (res matches Err(RunError::Io(r)) && r == e),
            listing is Err ==> final(self).templates@.len() == 0,
            listing matches Ok(entries) ==> loaded_from(final(self).templates@, entries@),
    {
        self.templates = Vec::new();
        match listing {
            Err(error) => Err(RunError::Io(error)),
            Ok(entries) => {
                self.templates = load_template_entries(entries);
                Ok(())
            },
        }
    }

    /// How this repository describes itself.
    pub fn get_config(&self) -> (options: RepositoryOptions)
        ensures
            options.name@ == "Templates"@,
            options.description matches Some(d) && d@ == "Mono repository templates"@,
    {
        RepositoryOptions {
            name: String::from_str("Templates"),
            description: Some(String::from_str("Mono repository templates")),
        }
    }

    /// The names of all templates of this repository, lower-cased, in order.
    pub fn get_template_names(&self) -> (names: Vec<String>)
        ensures
            names@.len() == self.templates@.len(),
            forall|i: int|
                0 <= i < names@.len() ==> (#[trigger] names@[i])@ == lower_case(self.templates@[i].name@),
    {
        let mut names: Vec<String> = Vec::new();
        let mut i: usize = 0;
        while i < self.templates.len()
            invariant
                i <= self.templates@.len(),
                names@.len() == i,
                forall|j: int| 0 <= j < i ==> (#[trigger] names@[j])@ == lower_case(self.templates@[j].name@),
            decreases self.templates@.len() - i,
        {
            names.push(to_lower(self.templates[i].name.as_str()));
            i = i + 1;
        }
        names
    }

    /// The first template called `name`; a `Template` error saying it was not
    /// found where there is none.
    pub fn get_template_by_name(&self, name: &str) -> (res: Result<&Template, RunError>)
        ensures
            res is Ok <==> position_of(template_names(self.templates@), name@) is Some,
            res matches Ok(t) ==> *t == self.templates@[position_of(
                template_names(self.templates@),
                name@,
            )->0],
            res matches Err(e) ==> (e matches RunError::Template(m) && m@ == "Not found"@),
    {
        proof {
            lemma_position_of(template_names(self.templates@), name@);
        }
        if let Some(i) = find_template(&self.templates, name) {
            return Ok(&self.templates[i]);
        }
        Err(RunError::Template(String::from_str("Not found")))
    }
}

} // verus!
