//! Templates: a directory of files plus the metadata that describes it.

use vstd::prelude::*;
use vstd::utf8::is_ascii_chars;

use crate::repository::{find_template, template_names, Repository};
use crate::text::{brace_free, lemma_brace_free_absent, lemma_other_pattern_absent, lemma_replace_single, lemma_position_of, lemma_replace_absent, occurs_in, lower_case, lemma_lower_case_ascii, lemma_lower_case_idempotent_ascii, to_lower, position_of, replace, replace_all, str_eq};

verus! {

/// Scripts that a template's metadata may name.
pub struct Scripts {
    pub before_install: Option<String>,
}

/// The metadata of a template directory, as read from its `meta.json`.
pub struct Meta {
    pub kind: Option<String>,
    pub name: Option<String>,
    pub description: Option<String>,
    pub scripts: Option<Scripts>,
    pub extend: Option<Vec<String>>,
    pub exclude: Option<Vec<String>>,
}

/// The values that fill a template's placeholders.
#[derive(Clone, Debug)]
pub struct Options {
    pub name: String,
    pub repository: Option<String>,
    pub username: Option<String>,
    pub email: Option<String>,
    pub replace: bool,
}

/// A template of a repository.
pub struct Template {
    pub name: String,
    pub path: String,
    pub description: Option<String>,
    pub scripts: Option<Scripts>,
    pub extend: Option<Vec<String>>,
    pub exclude: Option<Vec<String>>,
}

/// Why a directory is not a template.
pub enum TemplateError {
    InitializeTemplate,
}

/// The metadata declares the directory to be a template.
pub open spec fn is_template_kind(kind: Option<String>) -> bool {
    kind matches Some(k) && k@ == "template"@
}

/// The name a template gets: the one its metadata gives, else its directory's
/// name, lower-cased either way.
pub open spec fn template_name(meta_name: Option<String>, file_name: Seq<char>) -> Seq<char> {
    lower_case(
        match meta_name {
            Some(n) => n@,
            None => file_name,
        },
    )
}

/// `name` is one of the names in `list`.
pub open spec fn listed(list: Option<Vec<String>>, name: Seq<char>) -> bool {
    list matches Some(v) && exists|i: int| 0 <= i < v@.len() && #[trigger] v@[i]@ == name
}

/// A file that is never copied out of a template: its metadata, or one the
/// metadata excludes.
pub open spec fn excluded(name: Seq<char>, exclude: Option<Vec<String>>) -> bool {
    name == "meta.json"@ || listed(exclude, name)
}

/// `data` with the placeholders that `opts` has values for filled in: first
/// `{{name}}`, then `{{repository}}`, `{{username}}` and `{{email}}` where the
/// option is given.
pub open spec fn filled(data: Seq<char>, opts: Options) -> Seq<char> {
    let a = replace_all(data, "{{name}}"@, opts.name@);
    let b = match opts.repository {
        Some(r) => replace_all(a, "{{repository}}"@, r@),
        None => a,
    };
    let c = match opts.username {
        Some(u) => replace_all(b, "{{username}}"@, u@),
        None => b,
    };
    match opts.email {
        Some(e) => replace_all(c, "{{email}}"@, e@),
        None => c,
    }
}

/// A directory entry that holds a template: a directory whose metadata could
/// be read and declares the kind `template`.
pub open spec fn is_loadable(e: crate::repository::TemplateDir) -> bool {
    &&& e.is_dir
    &&& e.meta matches Some(m) && is_template_kind(m.kind)
}

/// `t` is the template that the loadable entry `e` holds.
pub open spec fn describes(t: Template, e: crate::repository::TemplateDir) -> bool {
    let m = e.meta->0;
    &&& t.name@ == template_name(m.name, e.file_name@)
    &&& t.path == e.path
    &&& t.description == m.description
    &&& t.scripts == m.scripts
    &&& t.extend == m.extend
    &&& t.exclude == m.exclude
}

impl Template {
    /// The template that a directory at `path`, named `file_name`, holds
    /// according to its metadata; an error where the metadata does not declare
    /// the kind `template`.
    pub fn new(path: String, file_name: &str, meta: Meta) -> (res: Result<Template, TemplateError>)
        ensures
            res is Err <==> !is_template_kind(meta.kind),
            res matches Ok(t) ==> {
                &&& t.name@ == template_name(meta.name, file_name@)
                &&& t.path == path
                &&& t.description == meta.description
                &&& t.scripts == meta.scripts
                &&& t.extend == meta.extend
                &&& t.exclude == meta.exclude
            },
    {
        let is_template = match &meta.kind {
            Some(k) => str_eq(k.as_str(), "template"),
            None => false,
        };
        if !is_template {
            return Err(TemplateError::InitializeTemplate);
        }
        let name = match &meta.name {
            Some(n) => to_lower(n.as_str()),
            None => to_lower(file_name),
        };
        Ok(Template {
            name,
            path,
            description: meta.description,
            scripts: meta.scripts,
            extend: meta.extend,
            exclude: meta.exclude,
        })
    }
}

/// Whether a file called `name` is left out when a template is copied.
pub fn is_excluded(name: &str, exclude: &Option<Vec<String>>) -> (b: bool)
    ensures
        b == excluded(name@, *exclude),
{
    if str_eq(name, "meta.json") {
        return true;
    }
    let items = match exclude {
        None => return false,
        Some(x) => x,
    };
    let mut i: usize = 0;
    while i < items.len()
        invariant
            *exclude == Some(*items),
            name@ != "meta.json"@,
            i <= items@.len(),
            forall|j: int| 0 <= j < i ==> items@[j]@ != name@,
        decreases items@.len() - i,
    {
        if str_eq(items[i].as_str(), name) {
            let ghost v = exclude->0;
            assert(v@[i as int]@ == name@);
            return true;
        }
        i = i + 1;
    }
    false
}

/// `data` with the placeholders filled in from `opts`.
pub fn replace_placeholders(data: &str, opts: &Options) -> (res: String)
    ensures
        res@ == filled(data@, *opts),
{
    proof {
        reveal_strlit("{{name}}");
        reveal_strlit("{{repository}}");
        reveal_strlit("{{username}}");
        reveal_strlit("{{email}}");
    }
    let mut data = replace(data, "{{name}}", opts.name.as_str());
    if let Some(r) = &opts.repository {
        data = replace(data.as_str(), "{{repository}}", r.as_str());
    }
    if let Some(u) = &opts.username {
        data = replace(data.as_str(), "{{username}}", u.as_str());
    }
    if let Some(e) = &opts.email {
        data = replace(data.as_str(), "{{email}}", e.as_str());
    }
    data
}

/// Which template a copy step belongs to: the one being copied, or a template
/// of the repository, by its position there.
#[derive(Clone, Copy, Debug, PartialEq, Eq)]
pub enum Origin {
    This,
    Repository(usize),
}

/// One step of copying a template into a target directory.
pub enum CopyStep {
    /// Run the template's `before_install` script in the target directory.
    RunScript(Origin),
    /// Copy the template's directory into the target directory.
    CopyFolder(Origin),
    /// A template extends one that the repository does not hold; copying stops.
    MissingTemplate(String),
    /// The templates extend each other in a cycle; copying stops.
    TooDeep,
}

/// What to do with one entry of a template directory being copied.
pub enum EntryAction {
    /// Create this directory (it may exist already) and copy the entry into it.
    CreateDir(String),
    /// Leave the entry out.
    Skip,
    /// Write the entry's contents, placeholders filled in, to this file.
    WriteFile(String),
}

/// The names of the templates that `t` extends, in order.
pub open spec fn supers_of(t: Template) -> Seq<String> {
    match t.extend {
        Some(v) => v@,
        None => Seq::empty(),
    }
}

/// The template names a `before_install` script.
pub open spec fn has_before_install(t: Template) -> bool {
    t.scripts matches Some(s) && s.before_install is Some
}

/// The steps end in a failure that stops the copy.
pub open spec fn aborted(steps: Seq<CopyStep>) -> bool {
    steps.len() > 0 && (steps.last() is MissingTemplate || steps.last() is TooDeep)
}

/// The steps that copy `t` itself once its super templates are copied.
pub open spec fn own_steps(t: Template, origin: Origin) -> Seq<CopyStep> {
    if has_before_install(t) {
        seq![CopyStep::RunScript(origin), CopyStep::CopyFolder(origin)]
    } else {
        seq![CopyStep::CopyFolder(origin)]
    }
}

/// The steps that copy `t` from its `k`-th super template on, looking super
/// templates up in `repo` and descending at most `fuel` levels further.
pub open spec fn copy_plan_from(
    repo: Seq<Template>,
    t: Template,
    origin: Origin,
    k: int,
    fuel: nat,
) -> Seq<CopyStep>
    decreases fuel, supers_of(t).len() - k,
{
    if k < 0 || k >= supers_of(t).len() {
        own_steps(t, origin)
    } else {
        let name = supers_of(t)[k];
        match position_of(template_names(repo), name@) {
            None => seq![CopyStep::MissingTemplate(name)],
            Some(i) => if fuel == 0 {
                seq![CopyStep::TooDeep]
            } else {
                let sub = copy_plan_from(repo, repo[i], Origin::Repository(i as usize), 0, (fuel - 1) as nat);
                if aborted(sub) {
                    sub
                } else {
                    sub + copy_plan_from(repo, t, origin, k + 1, fuel)
                }
            },
        }
    }
}

/// The steps that copy `t`, its super templates taken from `repo`. Each
/// template of `repo` occurs at most once on a chain of extensions that does
/// not loop, so `repo.len()` levels are enough for every such chain.
pub open spec fn copy_plan(repo: Seq<Template>, t: Template) -> Seq<CopyStep> {
    copy_plan_from(repo, t, Origin::This, 0, repo.len())
}

/// A copy plan is never empty.
pub proof fn lemma_plan_nonempty(repo: Seq<Template>, t: Template, origin: Origin, k: int, fuel: nat)
    ensures
        copy_plan_from(repo, t, origin, k, fuel).len() > 0,
    decreases fuel, supers_of(t).len() - k,
{
    if 0 <= k < supers_of(t).len() {
        let name = supers_of(t)[k];
        if let Some(i) = position_of(template_names(repo), name@) {
            if fuel > 0 {
                lemma_plan_nonempty(repo, repo[i], Origin::Repository(i as usize), 0, (fuel - 1) as nat);
            }
        }
    }
}

/// Text that holds none of the placeholders is copied unchanged, whatever the
/// options.
pub proof fn lemma_fill_without_placeholders(data: Seq<char>, opts: Options)
    requires
        !occurs_in(data, "{{name}}"@),
        !occurs_in(data, "{{repository}}"@),
        !occurs_in(data, "{{username}}"@),
        !occurs_in(data, "{{email}}"@),
    ensures
        filled(data, opts) == data,
{
    lemma_replace_absent(data, "{{name}}"@, opts.name@);
    if let Some(r) = opts.repository {
        lemma_replace_absent(data, "{{repository}}"@, r@);
    }
    if let Some(u) = opts.username {
        lemma_replace_absent(data, "{{username}}"@, u@);
    }
    if let Some(e) = opts.email {
        lemma_replace_absent(data, "{{email}}"@, e@);
    }
}

/// Steps that run to their end still do once more steps are put before them.
proof fn lemma_aborted_append(a: Seq<CopyStep>, b: Seq<CopyStep>)
    requires
        b.len() > 0,
    ensures
        aborted(a + b) == aborted(b),
        (a + b).last() == b.last(),
{
}

/// Where a copy runs to its end, its last step copies the template's own
/// directory: the template's files come after, and so over, those of the
/// templates it extends.
pub proof fn lemma_own_folder_last(repo: Seq<Template>, t: Template, origin: Origin, k: int, fuel: nat)
    requires
        !aborted(copy_plan_from(repo, t, origin, k, fuel)),
    ensures
        copy_plan_from(repo, t, origin, k, fuel).last() == CopyStep::CopyFolder(origin),
    decreases supers_of(t).len() - k,
{
    if 0 <= k < supers_of(t).len() {
        let name = supers_of(t)[k];
        if let Some(i) = position_of(template_names(repo), name@) {
            if fuel > 0 {
                let sub = copy_plan_from(repo, repo[i], Origin::Repository(i as usize), 0, (fuel - 1) as nat);
                if !aborted(sub) {
                    let rest = copy_plan_from(repo, t, origin, k + 1, fuel);
                    lemma_plan_nonempty(repo, t, origin, k + 1, fuel);
                    lemma_aborted_append(sub, rest);
                    lemma_own_folder_last(repo, t, origin, k + 1, fuel);
                }
            }
        }
    }
}

/// Copying a template that runs to its end ends with copying its own
/// directory.
pub proof fn lemma_copy_ends_with_own_folder(repo: Seq<Template>, t: Template)
    requires
        !aborted(copy_plan(repo, t)),
    ensures
        copy_plan(repo, t).last() == CopyStep::CopyFolder(Origin::This),
{
    lemma_own_folder_last(repo, t, Origin::This, 0, repo.len());
}

/// A template that extends one the repository does not hold is never copied
/// to its end.
pub proof fn lemma_missing_super_aborts(repo: Seq<Template>, t: Template, origin: Origin, k: int, j: int, fuel: nat)
    requires
        0 <= k <= j < supers_of(t).len(),
        !template_names(repo).contains(supers_of(t)[j]@),
    ensures
        aborted(copy_plan_from(repo, t, origin, k, fuel)),
    decreases j - k,
{
    lemma_position_of(template_names(repo), supers_of(t)[k]@);
    if k < j {
        let name = supers_of(t)[k];
        if let Some(i) = position_of(template_names(repo), name@) {
            if fuel > 0 {
                let sub = copy_plan_from(repo, repo[i], Origin::Repository(i as usize), 0, (fuel - 1) as nat);
                if !aborted(sub) {
                    let rest = copy_plan_from(repo, t, origin, k + 1, fuel);
                    lemma_plan_nonempty(repo, t, origin, k + 1, fuel);
                    lemma_aborted_append(sub, rest);
                    lemma_missing_super_aborts(repo, t, origin, k + 1, j, fuel);
                }
            }
        }
    }
}

/// Copying a template that extends one the repository does not hold stops
/// before its end.
pub proof fn lemma_copy_missing_super(repo: Seq<Template>, t: Template, j: int)
    requires
        0 <= j < supers_of(t).len(),
        !template_names(repo).contains(supers_of(t)[j]@),
    ensures
        aborted(copy_plan(repo, t)),
{
    lemma_missing_super_aborts(repo, t, Origin::This, 0, j, repo.len());
}

impl Template {
    /// Appends the steps that copy this template (found at `origin`) to `out`,
    /// descending at most `fuel` levels; returns whether the copy runs to its end.
    fn plan_into(&self, repository: &Repository, origin: Origin, fuel: usize, out: &mut Vec<CopyStep>) -> (done: bool)
        ensures
            final(out)@ == old(out)@ + copy_plan_from(repository.templates@, *self, origin, 0, fuel as nat),
            done == !aborted(copy_plan_from(repository.templates@, *self, origin, 0, fuel as nat)),
        decreases fuel,
    {
        let ghost repo = repository.templates@;
        let ghost start = out@;
        let ghost full = copy_plan_from(repo, *self, origin, 0, fuel as nat);
        let empty: Vec<String> = Vec::new();
        let supers = match &self.extend {
            Some(v) => v,
            None => &empty,
        };
        assert(supers@ == supers_of(*self));
        let mut k: usize = 0;
        let mut failed = false;
        let ghost mut done_steps: Seq<CopyStep> = Seq::empty();
        assert(done_steps + full =~= full);
        while k < supers.len()
            invariant_except_break
                !failed,
                k <= supers@.len(),
                out@ == start + done_steps,
                !aborted(done_steps),
                done_steps + copy_plan_from(repo, *self, origin, k as int, fuel as nat) == full,
            invariant
                repo == repository.templates@,
                supers@ == supers_of(*self),
                full == copy_plan_from(repo, *self, origin, 0, fuel as nat),
            ensures
                failed ==> out@ == start + full && aborted(full),
                !failed ==> k == supers@.len() && out@ == start + done_steps && !aborted(done_steps)
                    && done_steps + copy_plan_from(repo, *self, origin, k as int, fuel as nat) == full,
            decreases supers@.len() - k,
        {
            proof {
                lemma_position_of(template_names(repo), supers@[k as int]@);
            }
            match find_template(&repository.templates, supers[k].as_str()) {
                None => {
                    out.push(CopyStep::MissingTemplate(supers[k].clone()));
                    assert(out@ =~= start + full);
                    failed = true;
                    break;
                },
                Some(i) => {
                    if fuel == 0 {
                        out.push(CopyStep::TooDeep);
                        assert(out@ =~= start + full);
                        failed = true;
                        break;
                    }
                    let ghost sub = copy_plan_from(repo, repo[i as int], Origin::Repository(i), 0, (fuel - 1) as nat);
                    proof {
                        lemma_plan_nonempty(repo, repo[i as int], Origin::Repository(i), 0, (fuel - 1) as nat);
                    }
                    let d = repository.templates[i].plan_into(repository, Origin::Repository(i), fuel - 1, out);
                    if !d {
                        assert(out@ =~= start + full);
                        failed = true;
                        break;
                    }
                    proof {
                        let rest = copy_plan_from(repo, *self, origin, k + 1, fuel as nat);
                        assert(done_steps + (sub + rest) =~= (done_steps + sub) + rest);
                        done_steps = done_steps + sub;
                        assert(out@ =~= start + done_steps);
                    }
                    k = k + 1;
                },
            }
        }
        if failed {
            return false;
        }
        let has_script = match &self.scripts {
            Some(s) => s.before_install.is_some(),
            None => false,
        };
        if has_script {
            out.push(CopyStep::RunScript(origin));
        }
        out.push(CopyStep::CopyFolder(origin));
        assert(out@ =~= start + full);
        true
    }

    /// The steps that copy this template into a target directory: for each
    /// template it extends, in order, the steps that copy that one from the
    /// repository; then its `before_install` script, if it has one; then its own
    /// directory, so that its files come last. A missing super template or a
    /// cycle of extensions ends the steps with the failure.
    pub fn copy(&self, repository: &Repository) -> (steps: Vec<CopyStep>)
        ensures
            steps@ == copy_plan(repository.templates@, *self),
    {
        let mut steps: Vec<CopyStep> = Vec::new();
        let _ = self.plan_into(repository, Origin::This, repository.templates.len(), &mut steps);
        assert(steps@ =~= copy_plan(repository.templates@, *self));
        steps
    }

    /// What to do with an entry called `source_name` of this template's
    /// directory, whose copy would go to `target_path`: directories are created
    /// and files written under that path with its placeholders filled in, and
    /// excluded files are left out.
    pub fn copy_folder_entry(&self, source_name: &str, target_path: &str, is_dir: bool, opts: &Options) -> (action: EntryAction)
        ensures
            is_dir ==> (action matches EntryAction::CreateDir(p) && p@ == filled(target_path@, *opts)),
            !is_dir && excluded(source_name@, self.exclude) ==> action is Skip,
            !is_dir && !excluded(source_name@, self.exclude) ==> (action matches EntryAction::WriteFile(p)
                && p@ == filled(target_path@, *opts)),
    {
        let path = replace_placeholders(target_path, opts);
        if is_dir {
            EntryAction::CreateDir(path)
        } else if is_excluded(source_name, &self.exclude) {
            EntryAction::Skip
        } else {
            EntryAction::WriteFile(path)
        }
    }
}

/// A file named in the exclude list, at whatever place in it, is excluded.
pub proof fn lemma_listed_file_excluded(name: Seq<char>, exclude: Vec<String>, i: int)
    requires
        0 <= i < exclude@.len(),
        exclude@[i]@ == name,
    ensures
        excluded(name, Some(exclude)),
{
    let v = Some(exclude)->0;
    assert(v@[i]@ == name);
}

/// A file other than the metadata that the exclude list does not name is
/// copied.
pub proof fn lemma_unlisted_file_copied(name: Seq<char>, exclude: Option<Vec<String>>)
    requires
        name != "meta.json"@,
        exclude matches Some(v) ==> forall|i: int| 0 <= i < v@.len() ==> (#[trigger] v@[i])@ != name,
    ensures
        !excluded(name, exclude),
{
}

/// Loading keeps each template's metadata as it is: its path, its description,
/// its scripts, the templates it extends and the files it excludes are those
/// of its entry, and its name is the one its metadata or directory gives,
/// lower-cased.
pub proof fn lemma_loaded_templates_keep_metadata(templates: Seq<Template>, entries: Seq<crate::repository::TemplateDir>)
    requires
        crate::repository::loaded_from(templates, entries),
    ensures
        forall|i: int| 0 <= i < templates.len() ==> {
            let e = #[trigger] crate::repository::template_entries(entries)[i];
            let m = e.meta->0;
            &&& templates[i].path == e.path
            &&& templates[i].description == m.description
            &&& templates[i].scripts == m.scripts
            &&& templates[i].extend == m.extend
            &&& templates[i].exclude == m.exclude
            &&& templates[i].name@ == template_name(m.name, e.file_name@)
        },
{
    assert forall|i: int| 0 <= i < templates.len() implies {
        let e = #[trigger] crate::repository::template_entries(entries)[i];
        let m = e.meta->0;
        &&& templates[i].path == e.path
        &&& templates[i].description == m.description
        &&& templates[i].scripts == m.scripts
        &&& templates[i].extend == m.extend
        &&& templates[i].exclude == m.exclude
        &&& templates[i].name@ == template_name(m.name, e.file_name@)
    } by {
        assert(describes(templates[i], crate::repository::template_entries(entries)[i]));
    }
}

/// The extensions among the templates of `repo` are closed and never loop:
/// every name a template of `repo` extends is found in `repo`, at a template
/// of smaller rank, and ranks stay below the number of templates.
pub open spec fn ranked(repo: Seq<Template>, rank: Seq<nat>) -> bool {
    &&& rank.len() == repo.len()
    &&& forall|j: int| 0 <= j < repo.len() ==> #[trigger] rank[j] < repo.len()
    &&& forall|j: int, k: int|
        0 <= j < repo.len() && 0 <= k < supers_of(repo[j]).len() ==> {
            let found = position_of(template_names(repo), (#[trigger] supers_of(repo[j])[k])@);
            &&& found is Some
            &&& rank[found->0] < rank[j]
        }
}

/// Copying a template of a repository whose extensions are closed and never
/// loop runs to its end, whatever the order of the names each template extends.
proof fn lemma_ranked_copy_completes(repo: Seq<Template>, rank: Seq<nat>, j: int, origin: Origin, k: int, fuel: nat)
    requires
        ranked(repo, rank),
        0 <= j < repo.len(),
        0 <= k,
        fuel >= rank[j],
    ensures
        !aborted(copy_plan_from(repo, repo[j], origin, k, fuel)),
    decreases fuel, supers_of(repo[j]).len() - k,
{
    let t = repo[j];
    if k < supers_of(t).len() {
        let name = supers_of(t)[k];
        let i = position_of(template_names(repo), name@)->0;
        lemma_position_of(template_names(repo), name@);
        assert(rank[i] < rank[j]);
        lemma_ranked_copy_completes(repo, rank, i, Origin::Repository(i as usize), 0, (fuel - 1) as nat);
        lemma_ranked_copy_completes(repo, rank, j, origin, k + 1, fuel);
        let sub = copy_plan_from(repo, repo[i], Origin::Repository(i as usize), 0, (fuel - 1) as nat);
        let rest = copy_plan_from(repo, t, origin, k + 1, fuel);
        lemma_plan_nonempty(repo, t, origin, k + 1, fuel);
        lemma_aborted_append(sub, rest);
    }
}

/// The steps of a template whose super templates all lie in a repository with
/// closed, non-looping extensions, taken from the `k`-th on, run to their end.
proof fn lemma_ranked_top_completes(repo: Seq<Template>, rank: Seq<nat>, t: Template, k: int)
    requires
        ranked(repo, rank),
        0 <= k,
        forall|m: int| 0 <= m < supers_of(t).len() ==> template_names(repo).contains(#[trigger] supers_of(t)[m]@),
    ensures
        !aborted(copy_plan_from(repo, t, Origin::This, k, repo.len())),
    decreases supers_of(t).len() - k,
{
    if k < supers_of(t).len() {
        let name = supers_of(t)[k];
        assert(template_names(repo).contains(name@));
        lemma_position_of(template_names(repo), name@);
        let i = position_of(template_names(repo), name@)->0;
        let fuel = repo.len();
        lemma_ranked_copy_completes(repo, rank, i, Origin::Repository(i as usize), 0, (fuel - 1) as nat);
        lemma_ranked_top_completes(repo, rank, t, k + 1);
        let sub = copy_plan_from(repo, repo[i], Origin::Repository(i as usize), 0, (fuel - 1) as nat);
        let rest = copy_plan_from(repo, t, Origin::This, k + 1, fuel);
        lemma_plan_nonempty(repo, t, Origin::This, k + 1, fuel);
        lemma_aborted_append(sub, rest);
    }
}

/// Where every template the copied one extends lies in the repository, and the
/// repository's extensions are closed and never loop, the copy runs to its
/// end: each super template, at whatever place in the extend list, is copied
/// with its own super templates before it.
pub proof fn lemma_copy_completes(repo: Seq<Template>, rank: Seq<nat>, t: Template)
    requires
        ranked(repo, rank),
        forall|m: int| 0 <= m < supers_of(t).len() ==> template_names(repo).contains(#[trigger] supers_of(t)[m]@),
    ensures
        !aborted(copy_plan(repo, t)),
{
    lemma_ranked_top_completes(repo, rank, t, 0);
}

/// In a copy that runs to its end, the directory of every template extended
/// from the `k`-th name on is copied.
proof fn lemma_supers_copied_from(repo: Seq<Template>, t: Template, origin: Origin, k: int, fuel: nat)
    requires
        0 <= k,
        !aborted(copy_plan_from(repo, t, origin, k, fuel)),
    ensures
        forall|m: int| k <= m < supers_of(t).len() ==> {
            let found = position_of(template_names(repo), (#[trigger] supers_of(t)[m])@);
            &&& found is Some
            &&& copy_plan_from(repo, t, origin, k, fuel).contains(CopyStep::CopyFolder(Origin::Repository(found->0 as usize)))
        },
    decreases supers_of(t).len() - k,
{
    if k < supers_of(t).len() {
        let name = supers_of(t)[k];
        let i = position_of(template_names(repo), name@)->0;
        let sub = copy_plan_from(repo, repo[i], Origin::Repository(i as usize), 0, (fuel - 1) as nat);
        let rest = copy_plan_from(repo, t, origin, k + 1, fuel);
        let all = copy_plan_from(repo, t, origin, k, fuel);
        lemma_plan_nonempty(repo, repo[i], Origin::Repository(i as usize), 0, (fuel - 1) as nat);
        lemma_plan_nonempty(repo, t, origin, k + 1, fuel);
        lemma_aborted_append(sub, rest);
        assert(all == sub + rest);
        lemma_own_folder_last(repo, repo[i], Origin::Repository(i as usize), 0, (fuel - 1) as nat);
        lemma_supers_copied_from(repo, t, origin, k + 1, fuel);
        assert(all[sub.len() - 1] == CopyStep::CopyFolder(Origin::Repository(i as usize)));
        assert forall|m: int| k <= m < supers_of(t).len() implies {
            let found = position_of(template_names(repo), (#[trigger] supers_of(t)[m])@);
            &&& found is Some
            &&& all.contains(CopyStep::CopyFolder(Origin::Repository(found->0 as usize)))
        } by {
            if m > k {
                let f = position_of(template_names(repo), supers_of(t)[m]@)->0;
                let step = CopyStep::CopyFolder(Origin::Repository(f as usize));
                assert(rest.contains(step));
                let w = choose|w: int| 0 <= w < rest.len() && rest[w] == step;
                assert(all[sub.len() + w] == step);
            }
        }
    }
}

/// A copy that runs to its end copies the directory of every template that
/// the copied one extends.
pub proof fn lemma_copy_includes_supers(repo: Seq<Template>, t: Template)
    requires
        !aborted(copy_plan(repo, t)),
    ensures
        forall|m: int| 0 <= m < supers_of(t).len() ==> {
            let found = position_of(template_names(repo), (#[trigger] supers_of(t)[m])@);
            &&& found is Some
            &&& copy_plan(repo, t).contains(CopyStep::CopyFolder(Origin::Repository(found->0 as usize)))
        },
{
    lemma_supers_copied_from(repo, t, Origin::This, 0, repo.len());
}

/// `p` is shaped like a placeholder: two opening braces, then no more.
pub open spec fn placeholder_shaped(p: Seq<char>) -> bool {
    &&& p.len() >= 3
    &&& p[0] == '{'
    &&& p[1] == '{'
    &&& brace_free(p.skip(2))
}

/// None of the option values holds an opening brace.
pub open spec fn values_brace_free(opts: Options) -> bool {
    &&& brace_free(opts.name@)
    &&& (opts.repository matches Some(r) ==> brace_free(r@))
    &&& (opts.username matches Some(u) ==> brace_free(u@))
    &&& (opts.email matches Some(e) ==> brace_free(e@))
}

/// The four placeholders are placeholder-shaped and tell each other apart by
/// their first letter.
proof fn lemma_placeholders()
    ensures
        placeholder_shaped("{{name}}"@),
        placeholder_shaped("{{repository}}"@),
        placeholder_shaped("{{username}}"@),
        placeholder_shaped("{{email}}"@),
        "{{name}}"@[2] == 'n',
        "{{repository}}"@[2] == 'r',
        "{{username}}"@[2] == 'u',
        "{{email}}"@[2] == 'e',
{
    reveal_strlit("{{name}}");
    reveal_strlit("{{repository}}");
    reveal_strlit("{{username}}");
    reveal_strlit("{{email}}");
    assert forall|j: int| 0 <= j < "{{name}}"@.skip(2).len() implies "{{name}}"@.skip(2)[j] != '{' by {}
    assert forall|j: int| 0 <= j < "{{repository}}"@.skip(2).len() implies "{{repository}}"@.skip(2)[j] != '{' by {}
    assert forall|j: int| 0 <= j < "{{username}}"@.skip(2).len() implies "{{username}}"@.skip(2)[j] != '{' by {}
    assert forall|j: int| 0 <= j < "{{email}}"@.skip(2).len() implies "{{email}}"@.skip(2)[j] != '{' by {}
}

/// Brace-free parts joined are brace-free.
proof fn lemma_brace_free_join(x: Seq<char>, v: Seq<char>, y: Seq<char>)
    requires
        brace_free(x),
        brace_free(v),
        brace_free(y),
    ensures
        brace_free(x + v + y),
{
    let s = x + v + y;
    assert forall|j: int| 0 <= j < s.len() implies s[j] != '{' by {
        if j < x.len() {
            assert(s[j] == x[j]);
        } else if j < x.len() + v.len() {
            assert(s[j] == v[j - x.len()]);
        } else {
            assert(s[j] == y[j - x.len() - v.len()]);
        }
    }
}

/// Replacing a placeholder in brace-free text changes nothing.
proof fn lemma_keep_free(s: Seq<char>, q: Seq<char>, rep: Seq<char>)
    requires
        brace_free(s),
        placeholder_shaped(q),
    ensures
        replace_all(s, q, rep) == s,
{
    lemma_brace_free_absent(s, q);
    lemma_replace_absent(s, q, rep);
}

/// Replacing one placeholder in text that holds only another changes nothing.
proof fn lemma_keep_other(x: Seq<char>, y: Seq<char>, p: Seq<char>, q: Seq<char>, rep: Seq<char>)
    requires
        brace_free(x),
        brace_free(y),
        placeholder_shaped(p),
        placeholder_shaped(q),
        p[2] != q[2],
    ensures
        replace_all(x + p + y, q, rep) == x + p + y,
{
    lemma_other_pattern_absent(x, y, p, q);
    lemma_replace_absent(x + p + y, q, rep);
}

/// In text whose only placeholder is `{{name}}` once, filling puts the name
/// there and changes nothing else.
pub proof fn lemma_fill_name(x: Seq<char>, y: Seq<char>, opts: Options)
    requires
        brace_free(x),
        brace_free(y),
        values_brace_free(opts),
    ensures
        filled(x + "{{name}}"@ + y, opts) == x + opts.name@ + y,
{
    lemma_placeholders();
    lemma_replace_single(x, y, "{{name}}"@, opts.name@);
    let a = x + opts.name@ + y;
    lemma_brace_free_join(x, opts.name@, y);
    if let Some(r) = opts.repository {
        lemma_keep_free(a, "{{repository}}"@, r@);
    }
    if let Some(u) = opts.username {
        lemma_keep_free(a, "{{username}}"@, u@);
    }
    if let Some(e) = opts.email {
        lemma_keep_free(a, "{{email}}"@, e@);
    }
}

/// In text whose only placeholder is `{{repository}}` once, filling puts the
/// repository there where it is given and leaves the placeholder where not.
pub proof fn lemma_fill_repository(x: Seq<char>, y: Seq<char>, opts: Options)
    requires
        brace_free(x),
        brace_free(y),
        values_brace_free(opts),
    ensures
        filled(x + "{{repository}}"@ + y, opts) == x + (match opts.repository {
            Some(r) => r@,
            None => "{{repository}}"@,
        }) + y,
{
    lemma_placeholders();
    let p = "{{repository}}"@;
    let s = x + p + y;
    lemma_keep_other(x, y, p, "{{name}}"@, opts.name@);
    match opts.repository {
        Some(r) => {
            lemma_replace_single(x, y, p, r@);
            let b = x + r@ + y;
            lemma_brace_free_join(x, r@, y);
            if let Some(u) = opts.username {
                lemma_keep_free(b, "{{username}}"@, u@);
            }
            if let Some(e) = opts.email {
                lemma_keep_free(b, "{{email}}"@, e@);
            }
        },
        None => {
            if let Some(u) = opts.username {
                lemma_keep_other(x, y, p, "{{username}}"@, u@);
            }
            if let Some(e) = opts.email {
                lemma_keep_other(x, y, p, "{{email}}"@, e@);
            }
        },
    }
}

/// In text whose only placeholder is `{{username}}` once, filling puts the
/// user name there where it is given and leaves the placeholder where not.
pub proof fn lemma_fill_username(x: Seq<char>, y: Seq<char>, opts: Options)
    requires
        brace_free(x),
        brace_free(y),
        values_brace_free(opts),
    ensures
        filled(x + "{{username}}"@ + y, opts) == x + (match opts.username {
            Some(u) => u@,
            None => "{{username}}"@,
        }) + y,
{
    lemma_placeholders();
    let p = "{{username}}"@;
    lemma_keep_other(x, y, p, "{{name}}"@, opts.name@);
    if let Some(r) = opts.repository {
        lemma_keep_other(x, y, p, "{{repository}}"@, r@);
    }
    match opts.username {
        Some(u) => {
            lemma_replace_single(x, y, p, u@);
            lemma_brace_free_join(x, u@, y);
            if let Some(e) = opts.email {
                lemma_keep_free(x + u@ + y, "{{email}}"@, e@);
            }
        },
        None => {
            if let Some(e) = opts.email {
                lemma_keep_other(x, y, p, "{{email}}"@, e@);
            }
        },
    }
}

/// In text whose only placeholder is `{{email}}` once, filling puts the
/// e-mail address there where it is given and leaves the placeholder where not.
pub proof fn lemma_fill_email(x: Seq<char>, y: Seq<char>, opts: Options)
    requires
        brace_free(x),
        brace_free(y),
        values_brace_free(opts),
    ensures
        filled(x + "{{email}}"@ + y, opts) == x + (match opts.email {
            Some(e) => e@,
            None => "{{email}}"@,
        }) + y,
{
    lemma_placeholders();
    let p = "{{email}}"@;
    lemma_keep_other(x, y, p, "{{name}}"@, opts.name@);
    if let Some(r) = opts.repository {
        lemma_keep_other(x, y, p, "{{repository}}"@, r@);
    }
    if let Some(u) = opts.username {
        lemma_keep_other(x, y, p, "{{username}}"@, u@);
    }
    if let Some(e) = opts.email {
        lemma_replace_single(x, y, p, e@);
    }
}

/// A template named in ASCII gets a name of the same length in which every
/// upper-case letter is lowered and every other character kept, so that
/// lower-casing it again changes nothing.
pub proof fn lemma_template_name_ascii(meta_name: Option<String>, file_name: Seq<char>)
    requires
        is_ascii_chars(
            match meta_name {
                Some(n) => n@,
                None => file_name,
            },
        ),
    ensures
        ({
            let src = match meta_name {
                Some(n) => n@,
                None => file_name,
            };
            let name = template_name(meta_name, file_name);
            &&& name.len() == src.len()
            &&& forall|i: int| 0 <= i < src.len() ==> {
                let c = #[trigger] src[i];
                if 'A' <= c && c <= 'Z' {
                    name[i] as int == c as int + 32
                } else {
                    name[i] == c
                }
            }
            &&& lower_case(name) == name
        }),
{
    let src = match meta_name {
        Some(n) => n@,
        None => file_name,
    };
    lemma_lower_case_ascii(src);
    lemma_lower_case_idempotent_ascii(src);
}

} // verus!
