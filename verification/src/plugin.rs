//! A plugin: an identifier and the files to source for it.
//!
//! Which files make up a plugin is decided from the names of the regular
//! files in its directory, by the first of five conventions that matches.

use vstd::prelude::*;
use vstd::string::StringExecFns;
use crate::identifier::{short_name, Identifier, IdentifierView};
use crate::path::{
    extension_is, file_name, file_name_of, has_extension, is_completion, join, names_completion,
    normalize, normalized, parent, parent_of, path_join,
};
use crate::text::{
    insert, inserted, inserted_all, lemma_inserted, lemma_inserted_all, pieces, views,
};

verus! {

/// What kind of thing a directory entry is.
#[derive(Clone, Copy, Debug, PartialEq, Eq, Structural)]
pub enum EntryKind {
    File,
    Directory,
    Other,
}

/// One entry of a directory, as the caller found it on disk.
#[derive(Debug)]
pub struct Entry {
    /// The entry's name, without the directory.
    pub name: String,
    pub kind: EntryKind,
    /// The permission bits.
    pub mode: u32,
}

/// The mathematical value of an [`Entry`].
pub struct EntryView {
    pub name: Seq<char>,
    pub kind: EntryKind,
    pub mode: u32,
}

impl View for Entry {
    type V = EntryView;

    open spec fn view(&self) -> EntryView {
        EntryView { name: self.name@, kind: self.kind, mode: self.mode }
    }
}

/// The values of a sequence of entries.
pub open spec fn entry_views(entries: Seq<Entry>) -> Seq<EntryView> {
    entries.map_values(|e: Entry| e@)
}

/// The names of the regular files among `entries`, in their order.
pub open spec fn regular_files(entries: Seq<EntryView>) -> Seq<Seq<char>> {
    entries.filter(|e: EntryView| e.kind == EntryKind::File).map_values(|e: EntryView| e.name)
}

/// The name of the single entry point of an antigen-style plugin.
pub open spec fn antigen_file(name: Seq<char>) -> Seq<char> {
    name + ".plugin.zsh"@
}

/// The files named `*.zsh`.
pub open spec fn zsh_files(files: Seq<Seq<char>>) -> Seq<Seq<char>> {
    files.filter(|f: Seq<char>| has_extension(f, "zsh"@))
}

/// The files whose names begin with `_`.
pub open spec fn completion_files(files: Seq<Seq<char>>) -> Seq<Seq<char>> {
    files.filter(|f: Seq<char>| is_completion(f))
}

/// The files named `*.sh`.
pub open spec fn sh_files(files: Seq<Seq<char>>) -> Seq<Seq<char>> {
    files.filter(|f: Seq<char>| has_extension(f, "sh"@))
}

/// The file names that make up the plugin `name`, chosen among the regular
/// files of its directory by the first convention that matches: antigen,
/// prezto, zsh, completion, shell.
pub open spec fn convention_files(name: Seq<char>, files: Seq<Seq<char>>) -> Seq<Seq<char>> {
    if files.contains(antigen_file(name)) {
        seq![antigen_file(name)]
    } else if files.contains("init.zsh"@) {
        seq!["init.zsh"@]
    } else if zsh_files(files).len() > 0 {
        zsh_files(files)
    } else if completion_files(files).len() > 0 {
        completion_files(files)
    } else {
        sh_files(files)
    }
}

/// Some file has the extension `ext`.
pub open spec fn any_with_extension(files: Seq<Seq<char>>, ext: Seq<char>) -> bool {
    exists|i: int| 0 <= i < files.len() && has_extension(#[trigger] files[i], ext)
}

/// Some file has the name of a completion file.
pub open spec fn any_completion_file(files: Seq<Seq<char>>) -> bool {
    exists|i: int| 0 <= i < files.len() && is_completion(#[trigger] files[i])
}

/// The conventions go by priority. The antigen entry point alone is chosen
/// wherever it exists, whatever else the directory holds; without it
/// `init.zsh` alone; without both all `*.zsh` files, where there is one; then
/// all completion files, where there is one; then all `*.sh` files. Nothing
/// is chosen that the directory does not hold.
pub proof fn lemma_convention_priority(name: Seq<char>, files: Seq<Seq<char>>)
    ensures
        files.contains(antigen_file(name)) ==> convention_files(name, files) == seq![
            antigen_file(name),
        ],
        !files.contains(antigen_file(name)) && files.contains("init.zsh"@) ==> convention_files(
            name,
            files,
        ) == seq!["init.zsh"@],
        !files.contains(antigen_file(name)) && !files.contains("init.zsh"@) && any_with_extension(
            files,
            "zsh"@,
        ) ==> convention_files(name, files) == zsh_files(files),
        !files.contains(antigen_file(name)) && !files.contains("init.zsh"@) && !any_with_extension(
            files,
            "zsh"@,
        ) && any_completion_file(files) ==> convention_files(name, files) == completion_files(
            files,
        ),
        !files.contains(antigen_file(name)) && !files.contains("init.zsh"@) && !any_with_extension(
            files,
            "zsh"@,
        ) && !any_completion_file(files) ==> convention_files(name, files) == sh_files(files),
        forall|f: Seq<char>| #[trigger]
            convention_files(name, files).contains(f) ==> files.contains(f),
{
    let zsh = |f: Seq<char>| has_extension(f, "zsh"@);
    let completion = |f: Seq<char>| is_completion(f);
    let sh = |f: Seq<char>| has_extension(f, "sh"@);
    lemma_filter_nonempty(files, zsh);
    lemma_filter_nonempty(files, completion);
    lemma_filter_nonempty(files, sh);
    assert forall|f: Seq<char>| #[trigger]
        convention_files(name, files).contains(f) implies files.contains(f) by {
        let chosen = convention_files(name, files);
        let i = choose|i: int| 0 <= i < chosen.len() && chosen[i] == f;
        if files.contains(antigen_file(name)) {
        } else if files.contains("init.zsh"@) {
        } else if zsh_files(files).len() > 0 {
            lemma_filter_subset(files, zsh, i);
        } else if completion_files(files).len() > 0 {
            lemma_filter_subset(files, completion, i);
        } else {
            lemma_filter_subset(files, sh, i);
        }
    }
}

/// A filter keeps something exactly where some item passes it.
proof fn lemma_filter_nonempty(files: Seq<Seq<char>>, wanted: spec_fn(Seq<char>) -> bool)
    ensures
        files.filter(wanted).len() > 0 <==> exists|i: int|
            0 <= i < files.len() && wanted(#[trigger] files[i]),
{
    let kept = files.filter(wanted);
    if kept.len() > 0 {
        lemma_filter_subset(files, wanted, 0);
    }
    if exists|i: int| 0 <= i < files.len() && wanted(#[trigger] files[i]) {
        let i = choose|i: int| 0 <= i < files.len() && wanted(#[trigger] files[i]);
        files.lemma_filter_contains(wanted, i);
    }
}

/// What a filter keeps passes it and is an item of the list.
proof fn lemma_filter_subset(files: Seq<Seq<char>>, wanted: spec_fn(Seq<char>) -> bool, i: int)
    requires
        0 <= i < files.filter(wanted).len(),
    ensures
        wanted(files.filter(wanted)[i]),
        files.contains(files.filter(wanted)[i]),
    decreases files.len(),
{
    reveal(Seq::filter);
    if files.len() > 0 {
        let front = files.drop_last();
        if i < front.filter(wanted).len() {
            lemma_filter_subset(front, wanted, i);
        }
    }
}

/// Each of `names` below `directory`.
pub open spec fn below(directory: Seq<char>, names: Seq<Seq<char>>) -> Seq<Seq<char>> {
    names.map_values(|n: Seq<char>| path_join(directory, n))
}

/// The files of the plugin `name` in `directory`: the one file that the
/// identifier names, or else what the conventions choose among `entries`,
/// each once.
pub open spec fn resolved(
    directory: Seq<char>,
    name: Seq<char>,
    file: Option<Seq<char>>,
    entries: Seq<EntryView>,
) -> Seq<Seq<char>> {
    match file {
        Some(f) => seq![path_join(directory, f)],
        None => inserted_all(
            Seq::empty(),
            below(directory, convention_files(name, regular_files(entries))),
        ),
    }
}

/// The files of the plugin for `identifier` whose working copy lies below
/// `cache`: the plugin's name is the short name of its directory.
pub open spec fn resolved_for(
    cache: Seq<char>,
    identifier: IdentifierView,
    entries: Seq<EntryView>,
) -> Seq<Seq<char>> {
    resolved(
        path_join(cache, identifier.directory),
        short_name(identifier.directory),
        identifier.file,
        entries,
    )
}

/// The kind of system that the rendered script is for.
#[derive(Clone, Copy, Debug, PartialEq, Eq, Structural)]
pub enum Platform {
    Posix,
    Windows,
}

/// What a directory holds, as the caller found it on disk.
#[derive(Debug)]
pub struct Listing {
    pub directory: String,
    pub entries: Vec<Entry>,
}

/// The mathematical value of a [`Listing`].
pub struct ListingView {
    pub directory: Seq<char>,
    pub entries: Seq<EntryView>,
}

impl View for Listing {
    type V = ListingView;

    open spec fn view(&self) -> ListingView {
        ListingView { directory: self.directory@, entries: entry_views(self.entries@) }
    }
}

/// The values of a sequence of listings.
pub open spec fn listing_views(listings: Seq<Listing>) -> Seq<ListingView> {
    listings.map_values(|l: Listing| l@)
}

/// The entries of the first listing for `directory`, if there is one.
pub open spec fn entries_of(listings: Seq<ListingView>, directory: Seq<char>) -> Option<
    Seq<EntryView>,
>
    decreases listings.len(),
{
    if listings.len() == 0 {
        None
    } else if listings[0].directory == directory {
        Some(listings[0].entries)
    } else {
        entries_of(listings.drop_first(), directory)
    }
}

/// A regular file with an executable permission bit set.
pub open spec fn is_executable(e: EntryView) -> bool {
    e.kind == EntryKind::File && e.mode & 0o111 != 0
}

/// Some entry is an executable file.
pub open spec fn has_executable(entries: Seq<EntryView>) -> bool {
    exists|i: int| 0 <= i < entries.len() && is_executable(#[trigger] entries[i])
}

/// A regular file with the name of a completion file.
pub open spec fn is_completion_file(e: EntryView) -> bool {
    e.kind == EntryKind::File && is_completion(e.name)
}

/// Some entry is a completion file.
pub open spec fn has_completions(entries: Seq<EntryView>) -> bool {
    exists|i: int| 0 <= i < entries.len() && is_completion_file(#[trigger] entries[i])
}

/// A directory named `functions`.
pub open spec fn is_functions_directory(e: EntryView) -> bool {
    e.kind == EntryKind::Directory && e.name == "functions"@
}

/// Some entry is a directory named `functions`.
pub open spec fn has_functions(entries: Seq<EntryView>) -> bool {
    exists|i: int| 0 <= i < entries.len() && is_functions_directory(#[trigger] entries[i])
}

/// The directories that hold `files`, each once, in the order in which they
/// first come. A file without a `/` has none.
pub open spec fn basedirs(files: Seq<Seq<char>>) -> Seq<Seq<char>>
    decreases files.len(),
{
    if files.len() == 0 {
        Seq::empty()
    } else {
        match parent(files.last()) {
            Some(directory) => inserted(basedirs(files.drop_last()), directory),
            None => basedirs(files.drop_last()),
        }
    }
}

/// No base directory comes twice, and each is the parent of one of the files.
pub proof fn lemma_basedirs(files: Seq<Seq<char>>)
    ensures
        basedirs(files).no_duplicates(),
        forall|i: int|
            0 <= i < basedirs(files).len() ==> exists|j: int|
                0 <= j < files.len() && parent(files[j]) == Some(#[trigger] basedirs(files)[i]),
    decreases files.len(),
{
    if files.len() > 0 {
        let front = files.drop_last();
        let before = basedirs(front);
        let all = basedirs(files);
        lemma_basedirs(front);
        match parent(files.last()) {
            Some(directory) => {
                lemma_inserted(before, directory);
            },
            None => {},
        }
        assert forall|i: int| 0 <= i < all.len() implies exists|j: int|
            0 <= j < files.len() && parent(files[j]) == Some(#[trigger] all[i]) by {
            if i < before.len() {
                let j = choose|j: int|
                    0 <= j < front.len() && parent(front[j]) == Some(before[i]);
            }
        }
    }
}

/// Where every file has the same parent, that parent is the one base directory.
proof fn lemma_one_basedir(files: Seq<Seq<char>>, directory: Seq<char>)
    requires
        forall|i: int| 0 <= i < files.len() ==> parent(#[trigger] files[i]) == Some(directory),
    ensures
        basedirs(files) == if files.len() == 0 {
            Seq::<Seq<char>>::empty()
        } else {
            seq![directory]
        },
    decreases files.len(),
{
    if files.len() > 0 {
        let front = files.drop_last();
        lemma_one_basedir(front, directory);
        if front.len() > 0 {
            assert(seq![directory][0] == directory);
        }
    }
}

/// Files found by convention lie directly in the plugin's directory, which
/// is their one base directory: a name in a directory has no `/`, and a
/// directory is given without a `/` at its end.
pub proof fn lemma_resolved_in_directory(
    directory: Seq<char>,
    name: Seq<char>,
    entries: Seq<EntryView>,
)
    requires
        directory.len() > 0,
        directory.last() != '/',
        forall|i: int| 0 <= i < entries.len() ==> !(#[trigger] entries[i]).name.contains('/'),
    ensures
        forall|i: int|
            0 <= i < resolved(directory, name, None, entries).len() ==> parent(
                #[trigger] resolved(directory, name, None, entries)[i],
            ) == Some(directory),
        basedirs(resolved(directory, name, None, entries)) == if resolved(
            directory,
            name,
            None,
            entries,
        ).len() == 0 {
            Seq::<Seq<char>>::empty()
        } else {
            seq![directory]
        },
{
    let is_file = |e: EntryView| e.kind == EntryKind::File;
    let kept = entries.filter(is_file);
    let names = regular_files(entries);
    let chosen = convention_files(name, names);
    let paths = below(directory, chosen);
    let files = resolved(directory, name, None, entries);
    lemma_convention_priority(name, names);
    lemma_inserted_all(Seq::empty(), paths);
    assert forall|i: int| 0 <= i < files.len() implies parent(#[trigger] files[i]) == Some(
        directory,
    ) by {
        assert(files.to_set().contains(files[i]));
        let k = choose|k: int| 0 <= k < paths.len() && paths[k] == files[i];
        assert(chosen.contains(chosen[k]));
        let n = choose|n: int| 0 <= n < names.len() && names[n] == chosen[k];
        entries.lemma_filter_len(is_file);
        entries.lemma_filter_contains_rev(is_file, kept[n]);
        crate::path::lemma_join_single_segment(directory, chosen[k]);
    }
    lemma_one_basedir(files, directory);
}

/// The line that sources `file`. A completion file is never sourced.
pub open spec fn source_line(file: Seq<char>) -> Seq<char> {
    if is_completion(file_name(file)) {
        Seq::empty()
    } else {
        "source "@ + normalized(file) + "\n"@
    }
}

/// The line that puts `directory` on the function path.
pub open spec fn fpath_line(directory: Seq<char>) -> Seq<char> {
    "fpath+="@ + normalized(directory) + "/\n"@
}

/// The line that puts `directory` on the search path.
pub open spec fn path_line(directory: Seq<char>) -> Seq<char> {
    "PATH="@ + normalized(directory) + ":$PATH\n"@
}

/// The line that puts the `functions` directory of `directory` on the function path.
pub open spec fn functions_line(directory: Seq<char>) -> Seq<char> {
    "fpath+="@ + normalized(directory) + "/functions\n"@
}

/// The lines for one base directory, by what `entries` says that it holds.
pub open spec fn posix_lines(directory: Seq<char>, entries: Seq<EntryView>) -> Seq<char> {
    (if has_executable(entries) || has_completions(entries) {
        fpath_line(directory)
    } else {
        Seq::empty()
    }) + (if has_executable(entries) {
        path_line(directory)
    } else {
        Seq::empty()
    }) + (if has_functions(entries) {
        functions_line(directory)
    } else {
        Seq::empty()
    })
}

/// The lines for one base directory. On Windows it gets both lines whatever
/// it holds. Elsewhere the lines go by its listing, and a directory without a
/// listing gets none.
pub open spec fn directory_lines(
    directory: Seq<char>,
    platform: Platform,
    listings: Seq<ListingView>,
) -> Seq<char> {
    match platform {
        Platform::Windows => fpath_line(directory) + path_line(directory),
        Platform::Posix => match entries_of(listings, directory) {
            Some(entries) => posix_lines(directory, entries),
            None => Seq::empty(),
        },
    }
}

/// The comment line that carries an identifier.
pub open spec fn header_line(name: Seq<char>) -> Seq<char> {
    "# "@ + name + "\n"@
}

/// The script fragment for one plugin: its header, a line for each file to
/// source, then the lines of each base directory.
pub open spec fn rendered(plugin: PluginView, platform: Platform, listings: Seq<ListingView>) -> Seq<
    char,
> {
    header_line(plugin.identifier.name) + pieces(plugin.files, |f: Seq<char>| source_line(f))
        + pieces(
        basedirs(plugin.files),
        |d: Seq<char>| directory_lines(d, platform, listings),
    )
}

/// The names of the regular files among `entries`.
pub fn regular_files_of(entries: &Vec<Entry>) -> (names: Vec<String>)
    ensures
        views(names@) == regular_files(entry_views(entries@)),
{
    let ghost all = entry_views(entries@);
    let ghost is_file = |e: EntryView| e.kind == EntryKind::File;
    let ghost name_of = |e: EntryView| e.name;
    let mut names: Vec<String> = Vec::new();
    let mut i: usize = 0;
    while i < entries.len()
        invariant
            i <= entries.len(),
            all == entry_views(entries@),
            is_file == |e: EntryView| e.kind == EntryKind::File,
            name_of == |e: EntryView| e.name,
            views(names@) == all.take(i as int).filter(is_file).map_values(name_of),
        decreases entries.len() - i,
    {
        proof {
            let before = all.take(i as int);
            assert(all.take(i + 1) =~= before.push(all[i as int]));
            before.lemma_filter_push(all[i as int], is_file);
        }
        if entries[i].kind == EntryKind::File {
            names.push(entries[i].name.clone());
            proof {
                let kept = all.take(i as int).filter(is_file);
                assert(kept.push(all[i as int]).map_values(name_of) =~= kept.map_values(
                    name_of,
                ).push(all[i as int].name));
            }
        }
        i += 1;
    }
    assert(all.take(entries@.len() as int) =~= all);
    names
}

/// The files among `files` that have the extension `ext`.
pub fn files_with_extension(files: &Vec<String>, ext: &str) -> (chosen: Vec<String>)
    ensures
        views(chosen@) == views(files@).filter(|f: Seq<char>| has_extension(f, ext@)),
{
    let ghost all = views(files@);
    let ghost wanted = |f: Seq<char>| has_extension(f, ext@);
    let mut chosen: Vec<String> = Vec::new();
    let mut i: usize = 0;
    while i < files.len()
        invariant
            i <= files.len(),
            all == views(files@),
            wanted == |f: Seq<char>| has_extension(f, ext@),
            views(chosen@) == all.take(i as int).filter(wanted),
        decreases files.len() - i,
    {
        proof {
            assert(all.take(i + 1) =~= all.take(i as int).push(all[i as int]));
            all.take(i as int).lemma_filter_push(all[i as int], wanted);
        }
        if extension_is(files[i].as_str(), ext) {
            chosen.push(files[i].clone());
        }
        i += 1;
    }
    assert(all.take(files@.len() as int) =~= all);
    chosen
}

/// The files among `files` whose names begin with `_`.
pub fn completions_among(files: &Vec<String>) -> (chosen: Vec<String>)
    ensures
        views(chosen@) == completion_files(views(files@)),
{
    let ghost all = views(files@);
    let ghost wanted = |f: Seq<char>| is_completion(f);
    let mut chosen: Vec<String> = Vec::new();
    let mut i: usize = 0;
    while i < files.len()
        invariant
            i <= files.len(),
            all == views(files@),
            wanted == |f: Seq<char>| is_completion(f),
            views(chosen@) == all.take(i as int).filter(wanted),
        decreases files.len() - i,
    {
        proof {
            assert(all.take(i + 1) =~= all.take(i as int).push(all[i as int]));
            all.take(i as int).lemma_filter_push(all[i as int], wanted);
        }
        if names_completion(files[i].as_str()) {
            chosen.push(files[i].clone());
        }
        i += 1;
    }
    assert(all.take(files@.len() as int) =~= all);
    chosen
}

/// Chooses, among the names of a directory's regular files, those that make
/// up the plugin `name`.
pub fn choose_files(name: &str, files: &Vec<String>) -> (chosen: Vec<String>)
    ensures
        views(chosen@) == convention_files(name@, views(files@)),
{
    let mut antigen = String::from_str(name);
    antigen.append(".plugin.zsh");
    if crate::text::holds(files, &antigen) {
        let chosen = vec![antigen];
        return chosen;
    }
    let prezto = String::from_str("init.zsh");
    if crate::text::holds(files, &prezto) {
        let chosen = vec![prezto];
        return chosen;
    }
    let zsh = files_with_extension(files, "zsh");
    if zsh.len() > 0 {
        return zsh;
    }
    let completions = completions_among(files);
    if completions.len() > 0 {
        return completions;
    }
    files_with_extension(files, "sh")
}

/// The entries of the first listing for `directory`, if there is one.
pub fn find_listing<'a>(listings: &'a Vec<Listing>, directory: &String) -> (r: Option<
    &'a Vec<Entry>,
>)
    ensures
        match r {
            Some(entries) => entries_of(listing_views(listings@), directory@) == Some(
                entry_views(entries@),
            ),
            None => entries_of(listing_views(listings@), directory@) is None,
        },
{
    let ghost all = listing_views(listings@);
    assert(all.skip(0) =~= all);
    let mut i: usize = 0;
    while i < listings.len()
        invariant
            i <= listings.len(),
            all == listing_views(listings@),
            entries_of(all, directory@) == entries_of(all.skip(i as int), directory@),
        decreases listings.len() - i,
    {
        if listings[i].directory == *directory {
            return Some(&listings[i].entries);
        }
        assert(all.skip(i as int).drop_first() =~= all.skip(i + 1));
        i += 1;
    }
    None
}

/// Whether some entry is an executable file.
pub fn any_executable(entries: &Vec<Entry>) -> (r: bool)
    ensures
        r == has_executable(entry_views(entries@)),
{
    let ghost all = entry_views(entries@);
    let mut i: usize = 0;
    while i < entries.len()
        invariant
            i <= entries.len(),
            all == entry_views(entries@),
            forall|j: int| 0 <= j < i ==> !is_executable(#[trigger] all[j]),
        decreases entries.len() - i,
    {
        if entries[i].kind == EntryKind::File && entries[i].mode & 0o111 != 0 {
            assert(is_executable(all[i as int]));
            return true;
        }
        i += 1;
    }
    false
}

/// Whether some entry is a completion file.
pub fn any_completion(entries: &Vec<Entry>) -> (r: bool)
    ensures
        r == has_completions(entry_views(entries@)),
{
    let ghost all = entry_views(entries@);
    let mut i: usize = 0;
    while i < entries.len()
        invariant
            i <= entries.len(),
            all == entry_views(entries@),
            forall|j: int| 0 <= j < i ==> !is_completion_file(#[trigger] all[j]),
        decreases entries.len() - i,
    {
        if entries[i].kind == EntryKind::File && names_completion(entries[i].name.as_str()) {
            assert(is_completion_file(all[i as int]));
            return true;
        }
        i += 1;
    }
    false
}

/// Whether some entry is a directory named `functions`.
pub fn any_functions(entries: &Vec<Entry>) -> (r: bool)
    ensures
        r == has_functions(entry_views(entries@)),
{
    let ghost all = entry_views(entries@);
    let functions = String::from_str("functions");
    let mut i: usize = 0;
    while i < entries.len()
        invariant
            i <= entries.len(),
            all == entry_views(entries@),
            functions@ == "functions"@,
            forall|j: int| 0 <= j < i ==> !is_functions_directory(#[trigger] all[j]),
        decreases entries.len() - i,
    {
        if entries[i].kind == EntryKind::Directory && entries[i].name == functions {
            assert(is_functions_directory(all[i as int]));
            return true;
        }
        i += 1;
    }
    false
}

/// The directories that hold `files`, each once.
pub fn basedirs_of(files: &Vec<String>) -> (dirs: Vec<String>)
    ensures
        views(dirs@) == basedirs(views(files@)),
{
    let ghost all = views(files@);
    let mut dirs: Vec<String> = Vec::new();
    let mut i: usize = 0;
    while i < files.len()
        invariant
            i <= files.len(),
            all == views(files@),
            views(dirs@) == basedirs(all.take(i as int)),
        decreases files.len() - i,
    {
        proof {
            assert(all.take(i + 1).drop_last() =~= all.take(i as int));
        }
        match parent_of(files[i].as_str()) {
            Some(directory) => {
                insert(&mut dirs, directory);
            },
            None => {},
        }
        i += 1;
    }
    assert(all.take(files@.len() as int) =~= all);
    dirs
}

/// Appends to `text` the line that sources `file`, unless it is a completion file.
pub fn push_source_line(text: &mut String, file: &str)
    ensures
        final(text)@ == old(text)@ + source_line(file@),
{
    let name = file_name_of(file);
    if !names_completion(name.as_str()) {
        let path = normalize(file);
        text.append("source ");
        text.append(path.as_str());
        text.append("\n");
    }
}

/// Appends to `text` the lines for one base directory.
pub fn push_directory_lines(
    text: &mut String,
    directory: &String,
    platform: Platform,
    listings: &Vec<Listing>,
)
    ensures
        final(text)@ == old(text)@ + directory_lines(
            directory@,
            platform,
            listing_views(listings@),
        ),
{
    let path = normalize(directory.as_str());
    match platform {
        Platform::Windows => {
            text.append("fpath+=");
            text.append(path.as_str());
            text.append("/\n");
            text.append("PATH=");
            text.append(path.as_str());
            text.append(":$PATH\n");
        },
        Platform::Posix => match find_listing(listings, directory) {
            Some(entries) => {
                let executable = any_executable(entries);
                let completions = any_completion(entries);
                let functions = any_functions(entries);
                if executable || completions {
                    text.append("fpath+=");
                    text.append(path.as_str());
                    text.append("/\n");
                }
                if executable {
                    text.append("PATH=");
                    text.append(path.as_str());
                    text.append(":$PATH\n");
                }
                if functions {
                    text.append("fpath+=");
                    text.append(path.as_str());
                    text.append("/functions\n");
                }
            },
            None => {},
        },
    }
}

/// An identifier with the files to source for it, each file once.
#[derive(Debug)]
pub struct Plugin {
    identifier: Identifier,
    files: Vec<String>,
}

/// The mathematical value of a [`Plugin`].
pub struct PluginView {
    pub identifier: IdentifierView,
    pub files: Seq<Seq<char>>,
}

impl PluginView {
    /// No file occurs twice.
    pub open spec fn wf(self) -> bool {
        self.files.no_duplicates()
    }

    /// The files as a set.
    pub open spec fn file_set(self) -> Set<Seq<char>> {
        self.files.to_set()
    }
}

impl View for Plugin {
    type V = PluginView;

    closed spec fn view(&self) -> PluginView {
        PluginView { identifier: self.identifier@, files: views(self.files@) }
    }
}

impl Plugin {
    #[verifier::type_invariant]
    spec fn well_formed(self) -> bool {
        views(self.files@).no_duplicates()
    }

    /// The plugin for `identifier` whose working copy lies below `cache`,
    /// resolved from the entries of that directory.
    pub fn new(cache: &str, identifier: Identifier, entries: &Vec<Entry>) -> (plugin: Plugin)
        ensures
            plugin@.wf(),
            plugin@.identifier == identifier@,
            plugin@.files == resolved_for(cache@, identifier@, entry_views(entries@)),
    {
        let directory = join(cache, identifier.directory.as_str());
        let mut files: Vec<String> = Vec::new();
        match &identifier.file {
            Some(file) => {
                files.push(join(directory.as_str(), file.as_str()));
            },
            None => {
                let name = identifier.short_name();
                let regular = regular_files_of(entries);
                let chosen = choose_files(name.as_str(), &regular);
                let ghost paths = below(directory@, views(chosen@));
                let mut i: usize = 0;
                while i < chosen.len()
                    invariant
                        i <= chosen.len(),
                        paths == below(directory@, views(chosen@)),
                        views(files@) == inserted_all(Seq::empty(), paths.take(i as int)),
                    decreases chosen.len() - i,
                {
                    insert(&mut files, join(directory.as_str(), chosen[i].as_str()));
                    proof {
                        assert(paths.take(i + 1).drop_last() =~= paths.take(i as int));
                    }
                    i += 1;
                }
                proof {
                    assert(paths.take(chosen@.len() as int) =~= paths);
                    lemma_inserted_all(Seq::empty(), paths);
                }
            },
        }
        Plugin { identifier, files }
    }

    /// The plugin for `identifier` with the given files, each taken once.
    pub fn from_files(identifier: Identifier, files: Vec<String>) -> (plugin: Plugin)
        ensures
            plugin@.wf(),
            plugin@.identifier == identifier@,
            plugin@.files == inserted_all(Seq::empty(), views(files@)),
    {
        let ghost all = views(files@);
        let mut kept: Vec<String> = Vec::new();
        let mut i: usize = 0;
        while i < files.len()
            invariant
                i <= files.len(),
                all == views(files@),
                views(kept@) == inserted_all(Seq::empty(), all.take(i as int)),
            decreases files.len() - i,
        {
            insert(&mut kept, files[i].clone());
            proof {
                assert(all.take(i + 1).drop_last() =~= all.take(i as int));
            }
            i += 1;
        }
        proof {
            assert(all.take(files@.len() as int) =~= all);
            lemma_inserted_all(Seq::empty(), all);
        }
        Plugin { identifier, files: kept }
    }

    /// The identifier that the plugin was made for.
    pub fn identifier(&self) -> (identifier: &Identifier)
        ensures
            identifier@ == self@.identifier,
    {
        &self.identifier
    }

    /// The files to source, in the order in which they came.
    pub fn files(&self) -> (files: &Vec<String>)
        ensures
            views(files@) == self@.files,
            self@.wf(),
    {
        proof {
            use_type_invariant(self);
        }
        &self.files
    }

    /// The directories that hold the plugin's files, each once.
    pub fn basedirs(&self) -> (dirs: Vec<String>)
        ensures
            views(dirs@) == basedirs(self@.files),
    {
        basedirs_of(&self.files)
    }

    /// The script fragment that loads the plugin.
    pub fn render(&self, platform: Platform, listings: &Vec<Listing>) -> (text: String)
        ensures
            text@ == rendered(self@, platform, listing_views(listings@)),
    {
        let ghost files = views(self.files@);
        let ghost source = |f: Seq<char>| source_line(f);
        let ghost lines = |d: Seq<char>| directory_lines(d, platform, listing_views(listings@));
        let mut text = String::from_str("# ");
        text.append(self.identifier.name.as_str());
        text.append("\n");
        let ghost header = text@;
        let mut i: usize = 0;
        while i < self.files.len()
            invariant
                i <= self.files.len(),
                files == views(self.files@),
                source == |f: Seq<char>| source_line(f),
                text@ == header + pieces(files.take(i as int), source),
            decreases self.files.len() - i,
        {
            push_source_line(&mut text, self.files[i].as_str());
            proof {
                assert(files.take(i + 1).drop_last() =~= files.take(i as int));
            }
            i += 1;
        }
        assert(files.take(self.files@.len() as int) =~= files);
        let ghost sources = text@;
        let dirs = basedirs_of(&self.files);
        let ghost all = views(dirs@);
        let mut k: usize = 0;
        while k < dirs.len()
            invariant
                k <= dirs.len(),
                all == views(dirs@),
                lines == |d: Seq<char>| directory_lines(d, platform, listing_views(listings@)),
                text@ == sources + pieces(all.take(k as int), lines),
            decreases dirs.len() - k,
        {
            push_directory_lines(&mut text, &dirs[k], platform, listings);
            proof {
                assert(all.take(k + 1).drop_last() =~= all.take(k as int));
            }
            k += 1;
        }
        assert(all.take(dirs@.len() as int) =~= all);
        text
    }

    /// Adds `file` to the plugin's files, unless it is among them already.
    pub fn insert(&mut self, file: String)
        ensures
            final(self)@.wf(),
            final(self)@.identifier == old(self)@.identifier,
            final(self)@.files == inserted(old(self)@.files, file@),
    {
        proof {
            use_type_invariant(&*self);
            lemma_inserted(views(self.files@), file@);
        }
        let mut files: Vec<String> = Vec::new();
        std::mem::swap(&mut self.files, &mut files);
        insert(&mut files, file);
        std::mem::swap(&mut self.files, &mut files);
    }
}

} // verus!
