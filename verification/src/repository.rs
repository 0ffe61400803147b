//! A repository: a directory named after its URL that holds templates.

use vstd::prelude::*;
use vstd::utf8::*;

use crate::config::{repo_names, Config, RepoOptions};
use crate::template::{describes, is_loadable, Meta, Template};
use crate::text::{
    lemma_position_of, lemma_position_of_extend, lemma_position_of_prefix, lemma_take_all, position_of, str_eq,
};

verus! {

/// What `base64::encode_config` with `base64::URL_SAFE` returns for the UTF-8
/// bytes of a string of these characters.
pub uninterp spec fn base64_url_safe(s: Seq<char>) -> Seq<char>;

/// Encodes the UTF-8 bytes of `s` with `base64::encode_config(s, base64::URL_SAFE)`.
/// The contract names the result and says nothing of the alphabet or padding.
/// The call panics only where the encoded length overflows `usize`, which no
/// string's length allows.
#[verifier::external_body]
fn encode_url_safe(s: &str) -> (res: String)
    ensures
        res@ == base64_url_safe(s@),
{
    base64::encode_config(s, base64::URL_SAFE)
}

/// What `base64::decode` (standard alphabet, padded) returns for the bytes of
/// a string of these characters: the decoded bytes, or `None` where it fails.
pub uninterp spec fn base64_standard_decode(s: Seq<char>) -> Option<Seq<u8>>;

/// The error `base64::decode` reports.
#[verifier::external_type_specification]
#[verifier::external_body]
pub struct ExDecodeError(base64::DecodeError);

/// Decodes `s` with `base64::decode` (standard alphabet, padded). The contract
/// names the result: whether it decodes, and to which bytes, is
/// `base64_standard_decode` of its characters. The call panics only where the
/// length plus 3 overflows `usize`, which no string's length allows.
#[verifier::external_body]
fn decode_standard(s: &str) -> (res: Result<Vec<u8>, base64::DecodeError>)
    ensures
        res is Ok <==> base64_standard_decode(s@) is Some,
        res matches Ok(b) ==> base64_standard_decode(s@) == Some(b@),
{
    base64::decode(s)
}

/// What `String::from_utf8_lossy` returns for these bytes.
pub uninterp spec fn utf8_lossy(b: Seq<u8>) -> Seq<char>;

/// Decodes `b` with `String::from_utf8_lossy` (std). Valid UTF-8 decodes to its
/// characters; what replaces invalid sequences is only named.
#[verifier::external_body]
fn from_utf8_lossy(b: &[u8]) -> (res: String)
    ensures
        res@ == utf8_lossy(b@),
        valid_utf8(b@) ==> res@ == decode_utf8(b@),
{
    String::from_utf8_lossy(b).into_owned()
}

/// The entries of a listing that are directories.
pub open spec fn directories(entries: Seq<(String, bool)>) -> Seq<(String, bool)> {
    entries.filter(|e: (String, bool)| e.1)
}

/// The repository that a directory called `name` holds: its name decoded from
/// base64, where it decodes.
pub open spec fn decoded_name(name: Seq<char>) -> Option<Seq<char>> {
    match base64_standard_decode(name) {
        Some(b) => Some(utf8_lossy(b)),
        None => None,
    }
}

/// The repositories of a listing of the templates directory, given as the
/// name of each entry and whether it is a directory: the base64-decoded names
/// of the directories, in order; `None` where one of those names does not
/// decode.
pub fn get_repositories(entries: &Vec<(String, bool)>) -> (repositories: Option<Vec<String>>)
    ensures
        repositories is None <==> exists|i: int|
            0 <= i < directories(entries@).len() && decoded_name(
                (#[trigger] directories(entries@)[i]).0@,
            ) is None,
        repositories matches Some(v) ==> {
            &&& v@.len() == directories(entries@).len()
            &&& forall|i: int|
                0 <= i < v@.len() ==> Some((#[trigger] v@[i])@) == decoded_name(
                    directories(entries@)[i].0@,
                )
        },
{
    let mut repositories: Vec<String> = Vec::new();
    let mut k: usize = 0;
    while k < entries.len()
        invariant
            k <= entries@.len(),
            repositories@.len() == directories(entries@.take(k as int)).len(),
            forall|i: int|
                0 <= i < repositories@.len() ==> Some((#[trigger] repositories@[i])@) == decoded_name(
                    directories(entries@.take(k as int))[i].0@,
                ),
        decreases entries@.len() - k,
    {
        proof {
            reveal_with_fuel(Seq::<_>::filter, 1);
            assert(entries@.take(k + 1).drop_last() =~= entries@.take(k as int));
        }
        let entry = &entries[k];
        if entry.1 {
            match decode_standard(entry.0.as_str()) {
                Ok(bytes) => {
                    repositories.push(from_utf8_lossy(bytes.as_slice()));
                },
                Err(_) => {
                    proof {
                        directories_prefix(entries@, k + 1);
                        let d = directories(entries@);
                        let j = directories(entries@.take(k + 1)).len() - 1;
                        assert(d[j] == entries@[k as int]);
                    }
                    return None;
                },
            }
        }
        k = k + 1;
    }
    proof {
        lemma_take_all(entries@);
        assert forall|i: int| 0 <= i < directories(entries@).len() implies decoded_name(
            (#[trigger] directories(entries@)[i]).0@,
        ) is Some by {
            assert(Some(repositories@[i]@) == decoded_name(directories(entries@)[i].0@));
        }
    }
    Some(repositories)
}

/// The directories of a prefix of a listing are a prefix of its directories.
proof fn directories_prefix(entries: Seq<(String, bool)>, k: int)
    requires
        0 <= k <= entries.len(),
    ensures
        directories(entries.take(k)).len() <= directories(entries).len(),
        forall|i: int|
            0 <= i < directories(entries.take(k)).len() ==> directories(entries.take(k))[i]
                == directories(entries)[i],
    decreases entries.len() - k,
{
    reveal_with_fuel(Seq::<_>::filter, 1);
    if k < entries.len() {
        assert(entries.take(k + 1).drop_last() =~= entries.take(k));
        directories_prefix(entries, k + 1);
    } else {
        lemma_take_all(entries);
    }
}

/// A repository that holds templates.
pub struct Repository {
    pub directory: String,
    pub config: RepoOptions,
    pub templates: Vec<Template>,
}

/// Why a repository could not be used.
pub enum RepositoryError {
    InitializationError,
    TemplateNotFound,
    LoadingErrors,
}

/// An entry of a repository directory as read from disk: its path, its own
/// name, whether it is a directory and, for a directory, its metadata where it
/// could be read.
pub struct TemplateDir {
    pub path: String,
    pub file_name: String,
    pub is_dir: bool,
    pub meta: Option<Meta>,
}

/// The names of the templates, in order.
pub open spec fn template_names(templates: Seq<Template>) -> Seq<Seq<char>> {
    templates.map_values(|t: Template| t.name@)
}

/// The directory of the repository at `url` inside `templates_dir`.
pub open spec fn repository_dir(templates_dir: Seq<char>, url: Seq<char>) -> Seq<char> {
    templates_dir + "/"@ + base64_url_safe(url)
}

/// The entries of a directory listing that hold a template.
pub open spec fn template_entries(entries: Seq<TemplateDir>) -> Seq<TemplateDir> {
    entries.filter(|e: TemplateDir| is_loadable(e))
}

/// `templates` are the templates of the listing `entries`, in order.
pub open spec fn loaded_from(templates: Seq<Template>, entries: Seq<TemplateDir>) -> bool {
    &&& templates.len() == template_entries(entries).len()
    &&& forall|i: int|
        0 <= i < templates.len() ==> describes(#[trigger] templates[i], template_entries(entries)[i])
}

/// Loads the templates of a directory listing, skipping entries that are no
/// directories, whose metadata could not be read or does not declare a template.
pub fn load_template_entries(entries: Vec<TemplateDir>) -> (templates: Vec<Template>)
    ensures
        loaded_from(templates@, entries@),
{
    let ghost all = entries@;
    let mut templates: Vec<Template> = Vec::new();
    for e in it: entries
        invariant
            it.seq() == all,
            loaded_from(templates@, all.take(it.index() as int)),
    {
        let ghost k = it.index();
        proof {
            reveal_with_fuel(Seq::<_>::filter, 1);
            assert(all.take(k + 1).drop_last() =~= all.take(k as int));
            assert(all.take(k + 1).last() == e);
        }
        let TemplateDir { path, file_name, is_dir, meta } = e;
        if is_dir {
            if let Some(m) = meta {
                if let Ok(t) = Template::new(path, file_name.as_str(), m) {
                    templates.push(t);
                }
            }
        }
    }
    proof {
        lemma_take_all(all);
    }
    templates
}

/// A template is found by name exactly when its name is among the names the
/// repository lists, and the one found bears that name.
pub proof fn lemma_found_iff_listed(templates: Seq<Template>, name: Seq<char>)
    ensures
        position_of(template_names(templates), name) is Some <==> template_names(templates).contains(name),
        position_of(template_names(templates), name) matches Some(i) ==> templates[i].name@ == name,
{
    lemma_position_of(template_names(templates), name);
}

/// Where the first of `templates` called `name` stands.
pub fn find_template(templates: &Vec<Template>, name: &str) -> (pos: Option<usize>)
    ensures
        pos matches Some(i) ==> position_of(template_names(templates@), name@) == Some(i as int),
        pos is None ==> position_of(template_names(templates@), name@) is None,
{
    let ghost names = template_names(templates@);
    let mut i: usize = 0;
    while i < templates.len()
        invariant
            names == template_names(templates@),
            i <= templates@.len(),
            position_of(names.take(i as int), name@) is None,
        decreases templates@.len() - i,
    {
        proof {
            lemma_position_of_prefix(names, name@, i as int);
        }
        if str_eq(templates[i].name.as_str(), name) {
            proof {
                lemma_position_of_extend(names, name@, i + 1);
            }
            return Some(i);
        }
        i = i + 1;
    }
    proof {
        lemma_take_all(names);
    }
    None
}

impl Repository {
    /// The repository called `url` in the configuration, in its directory below
    /// the configuration's templates directory, with no templates loaded yet.
    pub fn new(config: &Config, url: &str) -> (repository: Repository)
        requires
            config.has_repository(url@),
        ensures
            repository.config == config.repositories@[position_of(
                repo_names(config.repositories@),
                url@,
            )->0],
            repository.directory@ == repository_dir(
                config.templates_dir@,
                repository.config.url@,
            ),
            repository.templates@.len() == 0,
    {
        let cfg = config.get_repository_config(url).unwrap();
        let encoded = encode_url_safe(cfg.url.as_str());
        let mut directory = config.templates_dir.clone();
        directory.append("/");
        directory.append(encoded.as_str());
        proof {
            reveal_strlit("/");
        }
        Repository { directory, config: cfg, templates: Vec::new() }
    }

    /// Replaces the templates with those of the listing of the repository's
    /// directory; keeps them where the directory could not be listed.
    pub fn load_templates(&mut self, listing: Option<Vec<TemplateDir>>)
        requires
            listing matches Some(entries) ==> forall|i: int|
                0 <= i < entries@.len() && (#[trigger] entries@[i]).is_dir ==> entries@[i].meta is Some,
        ensures
            final(self).directory == old(self).directory,
            final(self).config == old(self).config,
            listing is None ==> final(self).templates == old(self).templates,
            listing matches Some(entries) ==> loaded_from(final(self).templates@, entries@),
    {
        if let Some(entries) = listing {
            self.templates = load_template_entries(entries);
        }
    }

    /// The names of the templates, in order.
    pub fn get_templates(&self) -> (names: Vec<String>)
        ensures
            names@.map_values(|s: String| s@) == template_names(self.templates@),
    {
        let mut names: Vec<String> = Vec::new();
        let mut i: usize = 0;
        while i < self.templates.len()
            invariant
                i <= self.templates@.len(),
                names@.len() == i,
                names@.map_values(|s: String| s@) == template_names(self.templates@).take(i as int),
            decreases self.templates@.len() - i,
        {
            let ghost prev = names@;
            names.push(self.templates[i].name.clone());
            assert(names@ == prev.push(names@[i as int]));
            assert(names@.map_values(|s: String| s@) =~= template_names(self.templates@).take(i + 1));
            i = i + 1;
        }
        proof {
            lemma_take_all(template_names(self.templates@));
        }
        names
    }

    /// The first template called `name`; `TemplateNotFound` where there is none.
    pub fn get_template_by_name(&self, name: &str) -> (res: Result<&Template, RepositoryError>)
        ensures
            res is Ok <==> position_of(template_names(self.templates@), name@) is Some,
            res matches Ok(t) ==> *t == self.templates@[position_of(
                template_names(self.templates@),
                name@,
            )->0],
            res matches Err(e) ==> e is TemplateNotFound,
    {
        proof {
            lemma_position_of(template_names(self.templates@), name@);
        }
        match find_template(&self.templates, name) {
            Some(i) => Ok(&self.templates[i]),
            None => Err(RepositoryError::TemplateNotFound),
        }
    }
}

} // verus!
