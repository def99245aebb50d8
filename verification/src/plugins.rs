//! The registry: the plugins of one invocation, one for each directory.
//!
//! The registry does no input or output. Where a plugin has to be fetched, it
//! says so and leaves the work to its caller, who hands back what was found.

use vstd::prelude::*;
use vstd::string::StringExecFns;
use crate::error::{Error, ErrorView};
use crate::identifier::{identified, Identifier, IdentifierView};
use crate::path::{join, path_join};
use crate::plugin::{
    basedirs, entry_views, listing_views, rendered, resolved_for, Entry, EntryView, Listing,
    ListingView, Platform, Plugin, PluginView,
};
use crate::text::{
    chars_of, insert, inserted, inserted_all, lemma_inserted, lemma_inserted_all, remove_all,
    truncate, truncated, views, without,
};

verus! {

/// The plugins of one invocation, in the order in which they were added, and
/// the root of the cache that holds their working copies.
#[derive(Debug)]
pub struct Plugins {
    plugins: Vec<Plugin>,
    cache: String,
}

/// The mathematical value of a [`Plugins`].
pub struct PluginsView {
    pub cache: Seq<char>,
    pub plugins: Seq<PluginView>,
}

/// The values of a sequence of plugins.
pub open spec fn plugin_views(plugins: Seq<Plugin>) -> Seq<PluginView> {
    plugins.map_values(|p: Plugin| p@)
}

/// The last line of every rendered script.
pub open spec fn trailer() -> Seq<char> {
    "autoload -Uz compinit; compinit -iCd $HOME/.zcompdump\n"@
}

/// The script fragments of `plugins`, one after the other.
pub open spec fn rendered_all(
    plugins: Seq<PluginView>,
    platform: Platform,
    listings: Seq<ListingView>,
) -> Seq<char>
    decreases plugins.len(),
{
    if plugins.len() == 0 {
        Seq::empty()
    } else {
        rendered_all(plugins.drop_last(), platform, listings) + rendered(
            plugins.last(),
            platform,
            listings,
        )
    }
}

/// The identifiers of `plugins` as given, each on a line of its own.
pub open spec fn listed(plugins: Seq<PluginView>) -> Seq<char>
    decreases plugins.len(),
{
    if plugins.len() == 0 {
        Seq::empty()
    } else {
        listed(plugins.drop_last()) + plugins.last().identifier.name + "\n"@
    }
}

/// The base directories of all of `plugins`, each once.
pub open spec fn all_basedirs(plugins: Seq<PluginView>) -> Seq<Seq<char>>
    decreases plugins.len(),
{
    if plugins.len() == 0 {
        Seq::empty()
    } else {
        inserted_all(all_basedirs(plugins.drop_last()), basedirs(plugins.last().files))
    }
}

impl PluginsView {
    /// Every plugin holds each file once, and no two plugins share a directory.
    pub open spec fn wf(self) -> bool {
        &&& forall|i: int| 0 <= i < self.plugins.len() ==> (#[trigger] self.plugins[i]).wf()
        &&& forall|i: int, j: int|
            0 <= i < j < self.plugins.len() ==> (#[trigger] self.plugins[i]).identifier.directory
                != (#[trigger] self.plugins[j]).identifier.directory
    }

    /// The plugin at index `i` is the one for `directory`.
    pub open spec fn is_position(self, directory: Seq<char>, i: int) -> bool {
        0 <= i < self.plugins.len() && self.plugins[i].identifier.directory == directory
    }

    /// Some plugin is the one for `directory`.
    pub open spec fn holds(self, directory: Seq<char>) -> bool {
        exists|i: int| self.is_position(directory, i)
    }

    /// The index of the plugin for `directory`; meaningful where `holds(directory)`.
    pub open spec fn position(self, directory: Seq<char>) -> int {
        choose|i: int| self.is_position(directory, i)
    }

    /// The working copy of `identifier` below the cache.
    pub open spec fn location(self, identifier: IdentifierView) -> Seq<char> {
        path_join(self.cache, identifier.directory)
    }

    /// The registry after an identifier was added whose directory it holds
    /// already: the file that the identifier names, if any, has joined the
    /// files of that plugin, and nothing else has changed.
    pub open spec fn merged(self, identifier: IdentifierView) -> PluginsView {
        match identifier.file {
            None => self,
            Some(file) => {
                let i = self.position(identifier.directory);
                let old = self.plugins[i];
                PluginsView {
                    cache: self.cache,
                    plugins: self.plugins.update(
                        i,
                        PluginView {
                            identifier: old.identifier,
                            files: inserted(old.files, path_join(self.location(identifier), file)),
                        },
                    ),
                }
            },
        }
    }

    /// The registry after a plugin for `identifier` was resolved from
    /// `entries` and put at its end.
    pub open spec fn appended(self, identifier: IdentifierView, entries: Seq<EntryView>) -> PluginsView {
        PluginsView {
            cache: self.cache,
            plugins: self.plugins.push(
                PluginView { identifier, files: resolved_for(self.cache, identifier, entries) },
            ),
        }
    }

    /// The registry after `identifier` was added and, where that took a
    /// fetch, `entries` was found in its directory.
    pub open spec fn added(self, identifier: IdentifierView, entries: Seq<EntryView>) -> PluginsView {
        if self.holds(identifier.directory) {
            self.merged(identifier)
        } else {
            self.appended(identifier, entries)
        }
    }

    /// `step` and `after` are how adding `identifier` goes on from this
    /// registry: a merge where it holds the directory, and otherwise no
    /// change and a request to fetch the working copy.
    pub open spec fn add_step(self, identifier: IdentifierView, step: AddStep, after: PluginsView) -> bool {
        if self.holds(identifier.directory) {
            step is Merged && after == self.merged(identifier)
        } else {
            &&& after == self
            &&& step matches AddStep::Fetch(request)
            &&& request.identifier@ == identifier
            &&& request.target@ == self.location(identifier)
        }
    }

    /// The whole script: the fragment of each plugin in order, then the trailer.
    pub open spec fn script(self, platform: Platform, listings: Seq<ListingView>) -> Seq<char> {
        rendered_all(self.plugins, platform, listings) + trailer()
    }
}

/// The registry after each of `names` was added to `registry` in turn, where
/// `found` says what the working copy at a location holds. A name that is no
/// identifier adds nothing.
pub open spec fn loaded(
    registry: PluginsView,
    names: Seq<Seq<char>>,
    found: spec_fn(Seq<char>) -> Seq<EntryView>,
) -> PluginsView
    decreases names.len(),
{
    if names.len() == 0 {
        registry
    } else {
        let before = loaded(registry, names.drop_last(), found);
        match identified(names.last()) {
            Ok(identifier) => before.added(identifier, found(before.location(identifier))),
            Err(_) => before,
        }
    }
}

/// The message of a failure with the identifier that it befell in front.
pub open spec fn blamed(name: Seq<char>, message: Seq<char>) -> Seq<char> {
    name + ": "@ + message
}

/// The paths that an identifier asks for by name: the file below the working
/// copy at `location`, where the identifier names one.
pub open spec fn explicit_files(location: Seq<char>, identifier: IdentifierView) -> Set<Seq<char>> {
    match identifier.file {
        Some(file) => set![path_join(location, file)],
        None => Set::empty(),
    }
}

/// Adding keeps the registry well formed: no two plugins share a directory,
/// and no plugin holds a file twice.
pub proof fn lemma_added_wf(registry: PluginsView, identifier: IdentifierView, entries: Seq<EntryView>)
    requires
        registry.wf(),
    ensures
        registry.added(identifier, entries).wf(),
{
    let after = registry.added(identifier, entries);
    if registry.holds(identifier.directory) {
        let i = registry.position(identifier.directory);
        match identifier.file {
            None => {},
            Some(file) => {
                lemma_inserted(
                    registry.plugins[i].files,
                    path_join(registry.location(identifier), file),
                );
            },
        }
    } else {
        match identifier.file {
            Some(file) => {},
            None => {
                lemma_inserted_all(
                    Seq::empty(),
                    crate::plugin::below(
                        registry.location(identifier),
                        crate::plugin::convention_files(
                            crate::identifier::short_name(identifier.directory),
                            crate::plugin::regular_files(entries),
                        ),
                    ),
                );
            },
        }
        assert forall|a: int, b: int| 0 <= a < b < after.plugins.len() implies (
        #[trigger] after.plugins[a]).identifier.directory != (
        #[trigger] after.plugins[b]).identifier.directory by {
            if b == registry.plugins.len() {
                assert(!registry.is_position(identifier.directory, a));
            }
        }
    }
}

/// What was added is held: adding the same identifier again is a merge, and
/// asks for no fetch.
pub proof fn lemma_added_is_held(
    registry: PluginsView,
    identifier: IdentifierView,
    entries: Seq<EntryView>,
)
    requires
        registry.wf(),
    ensures
        registry.added(identifier, entries).holds(identifier.directory),
        forall|step: AddStep, after: PluginsView| #[trigger]
            registry.added(identifier, entries).add_step(identifier, step, after) ==> step is Merged,
{
    let once = registry.added(identifier, entries);
    if registry.holds(identifier.directory) {
        let i = registry.position(identifier.directory);
        assert(once.is_position(identifier.directory, i));
    } else {
        assert(once.is_position(identifier.directory, registry.plugins.len() as int));
    }
}

/// A merge changes one plugin only, and of that plugin only the files: they
/// become the union of what they were and the file that the identifier names.
pub proof fn lemma_merge_is_union(registry: PluginsView, identifier: IdentifierView)
    requires
        registry.wf(),
        registry.holds(identifier.directory),
    ensures
        ({
            let i = registry.position(identifier.directory);
            let after = registry.merged(identifier);
            &&& registry.is_position(identifier.directory, i)
            &&& after.cache == registry.cache
            &&& after.plugins.len() == registry.plugins.len()
            &&& after.plugins[i].identifier == registry.plugins[i].identifier
            &&& after.plugins[i].file_set() == registry.plugins[i].file_set().union(
                explicit_files(registry.location(identifier), identifier),
            )
            &&& forall|j: int|
                0 <= j < registry.plugins.len() && j != i ==> after.plugins[j]
                    == registry.plugins[j]
        }),
{
    let i = registry.position(identifier.directory);
    match identifier.file {
        None => {},
        Some(file) => {
            let path = path_join(registry.location(identifier), file);
            lemma_inserted(registry.plugins[i].files, path);
        },
    }
}

/// Adding the same identifier a second time changes nothing, whatever the
/// second fetch would have found: the registry, and so every script rendered
/// from it, is what it was after the first time.
pub proof fn lemma_add_is_idempotent(
    registry: PluginsView,
    identifier: IdentifierView,
    entries: Seq<EntryView>,
    again: Seq<EntryView>,
    platform: Platform,
    listings: Seq<ListingView>,
)
    requires
        registry.wf(),
    ensures
        registry.added(identifier, entries).added(identifier, again) == registry.added(
            identifier,
            entries,
        ),
        registry.added(identifier, entries).added(identifier, again).script(platform, listings)
            == registry.added(identifier, entries).script(platform, listings),
{
    let once = registry.added(identifier, entries);
    let twice = once.added(identifier, again);
    lemma_added_wf(registry, identifier, entries);
    if registry.holds(identifier.directory) {
        let i = registry.position(identifier.directory);
        match identifier.file {
            None => {},
            Some(file) => {
                let path = path_join(registry.location(identifier), file);
                assert(once.is_position(identifier.directory, i));
                lemma_inserted(registry.plugins[i].files, path);
                assert(twice.plugins =~= once.plugins);
            },
        }
    } else {
        let n = registry.plugins.len() as int;
        assert(once.is_position(identifier.directory, n));
        match identifier.file {
            None => {},
            Some(file) => {
                let path = path_join(registry.location(identifier), file);
                assert(seq![path].contains(path)) by {
                    assert(seq![path][0] == path);
                }
                assert(twice.plugins =~= once.plugins);
            },
        }
    }
}

/// Two identifiers for one directory make one plugin: after the first was
/// added with a fetch and the second was added behind it, the registry has
/// one plugin more than before, and that plugin's files are what the first
/// identifier resolved to together with the file that the second names.
pub proof fn lemma_second_identifier_merges(
    registry: PluginsView,
    first: IdentifierView,
    second: IdentifierView,
    entries: Seq<EntryView>,
    later: Seq<EntryView>,
)
    requires
        registry.wf(),
        !registry.holds(first.directory),
        second.directory == first.directory,
    ensures
        ({
            let after = registry.added(first, entries).added(second, later);
            let location = registry.location(first);
            &&& after.wf()
            &&& after.plugins.len() == registry.plugins.len() + 1
            &&& after.plugins.last().identifier == first
            &&& after.plugins.last().file_set() == resolved_for(
                registry.cache,
                first,
                entries,
            ).to_set().union(explicit_files(location, second))
            &&& after.plugins.drop_last() == registry.plugins
        }),
{
    let once = registry.added(first, entries);
    let after = once.added(second, later);
    let n = registry.plugins.len() as int;
    lemma_added_wf(registry, first, entries);
    lemma_added_wf(once, second, later);
    assert(once.is_position(second.directory, n));
    lemma_merge_is_union(once, second);
    assert(after.plugins.drop_last() =~= registry.plugins);
}

impl View for Plugins {
    type V = PluginsView;

    closed spec fn view(&self) -> PluginsView {
        PluginsView { cache: self.cache@, plugins: plugin_views(self.plugins@) }
    }
}

/// What is left to do for a plugin that the registry does not hold yet.
#[derive(Debug)]
pub struct FetchRequest {
    /// The identifier to hand back once the working copy is there.
    pub identifier: Identifier,
    /// The directory of the working copy, below the cache.
    pub target: String,
}

/// How an `add` went on.
#[derive(Debug)]
pub enum AddStep {
    /// The registry held the directory; the identifier's file has joined its plugin.
    Merged,
    /// The registry is unchanged; the plugin has to be fetched first.
    Fetch(FetchRequest),
}

/// What to do so that a working copy exists.
#[derive(Debug)]
pub enum Ensure {
    /// Clone `source` into `target`.
    Clone { source: String, target: String },
    /// The directory is there: leave it as it is.
    Nothing,
}

/// How fetching a working copy ended.
#[derive(Debug)]
pub enum FetchOutcome {
    /// The working copy is there, and its directory holds these entries.
    Ready(Vec<Entry>),
    /// The clone failed, with this message.
    Failed(String),
    /// The working copy is there, but its directory could not be read.
    Unreadable(String),
}

/// One fetch to make when the plugins are updated.
#[derive(Debug)]
pub struct UpdateJob {
    /// The identifier of the plugin as given, for reports.
    pub name: String,
    /// The working copy to open.
    pub directory: String,
    /// The remote to fetch from.
    pub remote: String,
    /// What to fetch.
    pub refspec: String,
}

/// The mathematical value of an [`UpdateJob`].
pub struct UpdateJobView {
    pub name: Seq<char>,
    pub directory: Seq<char>,
    pub remote: Seq<char>,
    pub refspec: Seq<char>,
}

impl View for UpdateJob {
    type V = UpdateJobView;

    open spec fn view(&self) -> UpdateJobView {
        UpdateJobView {
            name: self.name@,
            directory: self.directory@,
            remote: self.remote@,
            refspec: self.refspec@,
        }
    }
}

/// The values of a sequence of jobs.
pub open spec fn job_views(jobs: Seq<UpdateJob>) -> Seq<UpdateJobView> {
    jobs.map_values(|j: UpdateJob| j@)
}

/// The fetch that updates `plugin`: all heads of `origin`, into the working
/// copy below `cache`.
pub open spec fn update_job(cache: Seq<char>, plugin: PluginView) -> UpdateJobView {
    UpdateJobView {
        name: plugin.identifier.name,
        directory: path_join(cache, plugin.identifier.directory),
        remote: "origin"@,
        refspec: "refs/heads/*:refs/heads/*"@,
    }
}

/// The line that reports a branch of the plugin `name` that a fetch has
/// moved: the name, the branch without `refs/heads/`, and the first six
/// characters of the commit it left and of the commit it reached.
pub open spec fn tip_line(name: Seq<char>, refname: Seq<char>, from: Seq<char>, to: Seq<char>) -> Seq<
    char,
> {
    name + " "@ + without(refname, "refs/heads/"@) + " "@ + truncated(from, 6) + " \u{2193} "@
        + truncated(to, 6)
}

impl UpdateJob {
    /// The line that reports a branch that this job's fetch has moved from
    /// the commit `from` to the commit `to`.
    pub fn report(&self, refname: &str, from: &str, to: &str) -> (line: String)
        ensures
            line@ == tip_line(self.name@, refname@, from@, to@),
    {
        let branch = remove_all(&chars_of(refname), &chars_of("refs/heads/"));
        let left = truncate(&chars_of(from), 6);
        let reached = truncate(&chars_of(to), 6);
        let mut line = self.name.clone();
        line.append(" ");
        line.append(branch.as_str());
        line.append(" ");
        line.append(left.as_str());
        line.append(" \u{2193} ");
        line.append(reached.as_str());
        line
    }
}

/// The message of a failure with the identifier that it befell in front.
pub fn blame(name: String, message: &str) -> (r: String)
    ensures
        r@ == blamed(name@, message@),
{
    let mut r = name;
    r.append(": ");
    r.append(message);
    r
}

impl FetchRequest {
    /// Decides whether to clone: only where the target is no directory yet.
    pub fn ensure(&self, target_is_directory: bool) -> (r: Ensure)
        ensures
            target_is_directory ==> r is Nothing,
            !target_is_directory ==> (r matches Ensure::Clone { source, target } && source@
                == self.identifier.source@ && target@ == self.target@),
    {
        if target_is_directory {
            Ensure::Nothing
        } else {
            Ensure::Clone { source: self.identifier.source.clone(), target: self.target.clone() }
        }
    }
}

impl Plugins {
    #[verifier::type_invariant]
    spec fn well_formed(self) -> bool {
        self@.wf()
    }

    /// An empty registry for the cache at `cache`.
    pub fn new(cache: String) -> (plugins: Plugins)
        ensures
            plugins@.wf(),
            plugins@ == (PluginsView { cache: cache@, plugins: Seq::empty() }),
    {
        let plugins = Plugins { plugins: Vec::new(), cache };
        assert(plugins@.plugins =~= Seq::empty());
        plugins
    }

    /// The root of the cache.
    pub fn cache(&self) -> (cache: &String)
        ensures
            cache@ == self@.cache,
    {
        &self.cache
    }

    /// The plugins, in the order in which they were added.
    pub fn plugins(&self) -> (plugins: &Vec<Plugin>)
        ensures
            plugin_views(plugins@) == self@.plugins,
            self@.wf(),
    {
        proof {
            use_type_invariant(self);
        }
        &self.plugins
    }

    /// The fetches that update the plugins, one for each, in registry order.
    /// A failure of one is no reason to leave out the others.
    pub fn update(&self) -> (jobs: Vec<UpdateJob>)
        ensures
            job_views(jobs@) == self@.plugins.map_values(
                |p: PluginView| update_job(self@.cache, p),
            ),
    {
        let ghost all = plugin_views(self.plugins@);
        let ghost job = |p: PluginView| update_job(self@.cache, p);
        let mut jobs: Vec<UpdateJob> = Vec::new();
        let mut i: usize = 0;
        while i < self.plugins.len()
            invariant
                i <= self.plugins.len(),
                all == plugin_views(self.plugins@),
                job == |p: PluginView| update_job(self@.cache, p),
                jobs@.len() == i,
                job_views(jobs@) == all.take(i as int).map_values(job),
            decreases self.plugins.len() - i,
        {
            let identifier = self.plugins[i].identifier();
            jobs.push(
                UpdateJob {
                    name: identifier.name.clone(),
                    directory: join(self.cache.as_str(), identifier.directory.as_str()),
                    remote: String::from_str("origin"),
                    refspec: String::from_str("refs/heads/*:refs/heads/*"),
                },
            );
            proof {
                let made = jobs@[i as int]@;
                assert(job_views(jobs@) =~= all.take(i as int).map_values(job).push(made));
            }
            i += 1;
        }
        jobs
    }

    /// The identifiers of the plugins as given, each on a line of its own, in
    /// registry order.
    pub fn list(&self) -> (text: String)
        ensures
            text@ == listed(self@.plugins),
    {
        let ghost all = plugin_views(self.plugins@);
        let mut text = String::new();
        let mut i: usize = 0;
        while i < self.plugins.len()
            invariant
                i <= self.plugins.len(),
                all == plugin_views(self.plugins@),
                text@ == listed(all.take(i as int)),
            decreases self.plugins.len() - i,
        {
            text.append(self.plugins[i].identifier().name.as_str());
            text.append("\n");
            proof {
                assert(all.take(i + 1).drop_last() =~= all.take(i as int));
                assert(text@ =~= listed(all.take(i as int)) + all[i as int].identifier.name
                    + "\n"@);
            }
            i += 1;
        }
        assert(all.take(self.plugins@.len() as int) =~= all);
        text
    }

    /// The base directories of all plugins, each once: the directories whose
    /// listings `render` asks for.
    pub fn basedirs(&self) -> (dirs: Vec<String>)
        ensures
            views(dirs@) == all_basedirs(self@.plugins),
    {
        let ghost all = plugin_views(self.plugins@);
        let mut dirs: Vec<String> = Vec::new();
        let mut i: usize = 0;
        while i < self.plugins.len()
            invariant
                i <= self.plugins.len(),
                all == plugin_views(self.plugins@),
                views(dirs@) == all_basedirs(all.take(i as int)),
            decreases self.plugins.len() - i,
        {
            let own = self.plugins[i].basedirs();
            let ghost start = views(dirs@);
            let ghost items = views(own@);
            let mut k: usize = 0;
            while k < own.len()
                invariant
                    k <= own.len(),
                    items == views(own@),
                    views(dirs@) == inserted_all(start, items.take(k as int)),
                decreases own.len() - k,
            {
                insert(&mut dirs, own[k].clone());
                proof {
                    assert(items.take(k + 1).drop_last() =~= items.take(k as int));
                }
                k += 1;
            }
            proof {
                assert(items.take(own@.len() as int) =~= items);
                assert(all.take(i + 1).drop_last() =~= all.take(i as int));
            }
            i += 1;
        }
        assert(all.take(self.plugins@.len() as int) =~= all);
        dirs
    }

    /// The whole script: the fragment of each plugin in registry order, then
    /// the trailer line.
    pub fn render(&self, platform: Platform, listings: &Vec<Listing>) -> (text: String)
        ensures
            text@ == self@.script(platform, listing_views(listings@)),
    {
        let ghost all = plugin_views(self.plugins@);
        let ghost found = listing_views(listings@);
        let mut text = String::new();
        let mut i: usize = 0;
        while i < self.plugins.len()
            invariant
                i <= self.plugins.len(),
                all == plugin_views(self.plugins@),
                found == listing_views(listings@),
                text@ == rendered_all(all.take(i as int), platform, found),
            decreases self.plugins.len() - i,
        {
            let fragment = self.plugins[i].render(platform, listings);
            text.append(fragment.as_str());
            proof {
                assert(all.take(i + 1).drop_last() =~= all.take(i as int));
            }
            i += 1;
        }
        assert(all.take(self.plugins@.len() as int) =~= all);
        text.append("autoload -Uz compinit; compinit -iCd $HOME/.zcompdump\n");
        text
    }

    /// The index of the plugin for `directory`, if the registry holds one.
    pub fn find(&self, directory: &String) -> (r: Option<usize>)
        ensures
            match r {
                Some(i) => self@.is_position(directory@, i as int) && self@.position(directory@)
                    == i,
                None => !self@.holds(directory@),
            },
    {
        proof {
            use_type_invariant(self);
        }
        let mut i: usize = 0;
        while i < self.plugins.len()
            invariant
                i <= self.plugins.len(),
                self@.wf(),
                forall|j: int| 0 <= j < i ==> !self@.is_position(directory@, j),
            decreases self.plugins.len() - i,
        {
            if self.plugins[i].identifier().directory == *directory {
                assert(self@.is_position(directory@, i as int));
                return Some(i);
            }
            i += 1;
        }
        None
    }

    /// Puts the file that `identifier` names among the files of the plugin at
    /// index `i`, which is the one for the identifier's directory.
    fn merge(&mut self, i: usize, identifier: &Identifier)
        requires
            old(self)@.is_position(identifier@.directory, i as int),
            old(self)@.position(identifier@.directory) == i,
        ensures
            final(self)@ == old(self)@.merged(identifier@),
            final(self)@.wf(),
    {
        proof {
            use_type_invariant(&*self);
        }
        match &identifier.file {
            None => {},
            Some(file) => {
                let location = join(self.cache.as_str(), identifier.directory.as_str());
                let path = join(location.as_str(), file.as_str());
                let mut plugins: Vec<Plugin> = Vec::new();
                std::mem::swap(&mut self.plugins, &mut plugins);
                let ghost before = plugin_views(plugins@);
                plugins[i].insert(path);
                proof {
                    let after = plugin_views(plugins@);
                    assert(after =~= before.update(i as int, after[i as int]));
                    assert(after[i as int] == PluginView {
                        identifier: before[i as int].identifier,
                        files: inserted(before[i as int].files, path@),
                    });
                }
                std::mem::swap(&mut self.plugins, &mut plugins);
            },
        }
    }

    /// Adds the plugin that `name` identifies.
    ///
    /// A name that is no identifier fails and leaves the registry as it was.
    /// Where the registry holds the identifier's directory already, the file
    /// that the identifier names joins that plugin's files. Otherwise the
    /// registry stays as it is and the result asks for the working copy;
    /// `complete_add` then takes what was found.
    pub fn add(&mut self, name: String) -> (r: Result<AddStep, Error>)
        ensures
            final(self)@.wf(),
            match identified(name@) {
                Err(e) => r matches Err(x) && x@ == e && final(self)@ == old(self)@,
                Ok(identifier) => r matches Ok(step) && old(self)@.add_step(
                    identifier,
                    step,
                    final(self)@,
                ),
            },
    {
        proof {
            use_type_invariant(&*self);
        }
        match Identifier::new(name) {
            Err(e) => Err(e),
            Ok(identifier) => Ok(self.add_identifier(identifier)),
        }
    }

    /// Adds the plugin for a parsed identifier: see `add`.
    pub fn add_identifier(&mut self, identifier: Identifier) -> (step: AddStep)
        ensures
            final(self)@.wf(),
            old(self)@.add_step(identifier@, step, final(self)@),
    {
        proof {
            use_type_invariant(&*self);
        }
        match self.find(&identifier.directory) {
            Some(i) => {
                self.merge(i, &identifier);
                AddStep::Merged
            },
            None => {
                let target = join(self.cache.as_str(), identifier.directory.as_str());
                AddStep::Fetch(FetchRequest { identifier, target })
            },
        }
    }

    /// Takes the outcome of fetching the working copy for `identifier`.
    ///
    /// A fetch that failed, or a directory that could not be read, is the
    /// error of the whole add; its message names the identifier, and the
    /// registry stays as it was. Otherwise
    /// the plugin is resolved from the entries and put at the end of the
    /// registry; should the registry hold the directory by now, the
    /// identifier is merged into that plugin instead.
    pub fn complete_add(&mut self, identifier: Identifier, outcome: FetchOutcome) -> (r: Result<
        (),
        Error,
    >)
        ensures
            final(self)@.wf(),
            match outcome {
                FetchOutcome::Failed(message) => r matches Err(e) && e@ == (ErrorView::Fetch {
                    message: blamed(identifier.name@, message@),
                }) && final(self)@ == old(self)@,
                FetchOutcome::Unreadable(message) => r matches Err(e) && e@ == (ErrorView::Io {
                    message: blamed(identifier.name@, message@),
                }) && final(self)@ == old(self)@,
                FetchOutcome::Ready(entries) => r is Ok && final(self)@ == old(self)@.added(
                    identifier@,
                    entry_views(entries@),
                ),
            },
    {
        proof {
            use_type_invariant(&*self);
        }
        match outcome {
            FetchOutcome::Failed(message) => Err(
                Error::Fetch { message: blame(identifier.name, message.as_str()) },
            ),
            FetchOutcome::Unreadable(message) => Err(
                Error::Io { message: blame(identifier.name, message.as_str()) },
            ),
            FetchOutcome::Ready(entries) => {
                match self.find(&identifier.directory) {
                    Some(i) => {
                        self.merge(i, &identifier);
                    },
                    None => {
                        let ghost directory = identifier@.directory;
                        let plugin = Plugin::new(self.cache.as_str(), identifier, &entries);
                        let mut plugins: Vec<Plugin> = Vec::new();
                        std::mem::swap(&mut self.plugins, &mut plugins);
                        let ghost before = plugin_views(plugins@);
                        plugins.push(plugin);
                        proof {
                            let after = plugin_views(plugins@);
                            assert(after =~= before.push(plugin@));
                            assert forall|a: int, b: int| 0 <= a < b < after.len() implies (
                            #[trigger] after[a]).identifier.directory != (
                            #[trigger] after[b]).identifier.directory by {
                                if b == before.len() {
                                    assert(!old(self)@.is_position(directory, a));
                                }
                            }
                        }
                        std::mem::swap(&mut self.plugins, &mut plugins);
                    },
                }
                Ok(())
            },
        }
    }
}

} // verus!
