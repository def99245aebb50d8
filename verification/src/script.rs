//! Reading a rendered script back: the identifiers that its comment lines carry.

use vstd::prelude::*;
use crate::error::ErrorView;
use crate::identifier::{identified, IdentifierView};
use crate::path::{normalized, parent, path_join};
use crate::plugin::{
    basedirs, directory_lines, fpath_line, functions_line, path_line, rendered, resolved_for,
    source_line, EntryView, ListingView, Platform, PluginView,
};
use crate::plugins::{loaded, rendered_all, trailer, PluginsView};
use crate::text::{
    chars_of, find_char_from, has_from, inserted, lemma_last_index_exists, lemma_next_index,
    lemma_next_index_exists, next_index, pieces, substring, views,
};

verus! {

/// A character with the Unicode property `White_Space`.
pub open spec fn is_whitespace(c: char) -> bool {
    let n = c as u32;
    ||| 0x09 <= n <= 0x0d
    ||| n == 0x20
    ||| n == 0x85
    ||| n == 0xa0
    ||| n == 0x1680
    ||| 0x2000 <= n <= 0x200a
    ||| n == 0x2028
    ||| n == 0x2029
    ||| n == 0x202f
    ||| n == 0x205f
    ||| n == 0x3000
}

/// The length of the first line of `text`: the index of its first newline,
/// or its whole length where it has none.
pub open spec fn line_end(text: Seq<char>) -> int {
    if has_from(text, '\n', 0) {
        next_index(text, '\n', 0)
    } else {
        text.len() as int
    }
}

/// The first line of `text`, without its newline.
pub open spec fn first_line(text: Seq<char>) -> Seq<char> {
    text.take(line_end(text))
}

/// What follows the first line of `text` and its newline.
pub open spec fn after_first_line(text: Seq<char>) -> Seq<char> {
    if has_from(text, '\n', 0) {
        text.skip(line_end(text) + 1)
    } else {
        Seq::empty()
    }
}

/// The line is a comment that carries an identifier: it begins with `# `.
pub open spec fn is_comment(line: Seq<char>) -> bool {
    line.len() >= 2 && line[0] == '#' && line[1] == ' '
}

/// `line[start..end]` is the last word of `line`: a longest run of characters
/// that are no whitespace, with nothing but whitespace behind it.
pub open spec fn word_at(line: Seq<char>, start: int, end: int) -> bool {
    &&& 0 <= start < end <= line.len()
    &&& forall|k: int| start <= k < end ==> !is_whitespace(#[trigger] line[k])
    &&& forall|k: int| end <= k < line.len() ==> is_whitespace(#[trigger] line[k])
    &&& (start == 0 || is_whitespace(line[start - 1]))
}

/// The line holds a character that is no whitespace.
pub open spec fn has_word(line: Seq<char>) -> bool {
    exists|k: int| 0 <= k < line.len() && !is_whitespace(#[trigger] line[k])
}

/// The last word of `line`; empty where the line holds nothing but whitespace.
pub open spec fn last_word(line: Seq<char>) -> Seq<char> {
    if has_word(line) {
        let (start, end) = choose|start: int, end: int| word_at(line, start, end);
        line.subrange(start, end)
    } else {
        Seq::empty()
    }
}

/// What the first line of a script adds to its identifiers: the last word of
/// a comment line, nothing of any other line.
pub open spec fn identifier_of_line(line: Seq<char>) -> Seq<Seq<char>> {
    if is_comment(line) {
        seq![last_word(line)]
    } else {
        Seq::empty()
    }
}

/// The identifiers that the comment lines of `text` carry, in their order.
pub open spec fn identifiers_in(text: Seq<char>) -> Seq<Seq<char>>
    decreases text.len(),
    via identifiers_in_decreases
{
    if text.len() == 0 {
        Seq::empty()
    } else {
        identifier_of_line(first_line(text)) + identifiers_in(after_first_line(text))
    }
}

#[via_fn]
proof fn identifiers_in_decreases(text: Seq<char>) {
    if text.len() > 0 && has_from(text, '\n', 0) {
        lemma_next_index_exists(text, '\n', 0);
    }
}

/// What the first line of a script adds to its comment lines: itself, where
/// it is a comment.
pub open spec fn comment_of_line(line: Seq<char>) -> Seq<Seq<char>> {
    if is_comment(line) {
        seq![line]
    } else {
        Seq::empty()
    }
}

/// The lines of `text` that begin with `# `, in their order.
pub open spec fn comment_lines(text: Seq<char>) -> Seq<Seq<char>>
    decreases text.len(),
    via comment_lines_decreases
{
    if text.len() == 0 {
        Seq::empty()
    } else {
        comment_of_line(first_line(text)) + comment_lines(after_first_line(text))
    }
}

#[via_fn]
proof fn comment_lines_decreases(text: Seq<char>) {
    if text.len() > 0 && has_from(text, '\n', 0) {
        lemma_next_index_exists(text, '\n', 0);
    }
}

/// The identifiers of a text are the last words of its comment lines.
pub proof fn lemma_identifiers_are_last_words(text: Seq<char>)
    ensures
        identifiers_in(text) == comment_lines(text).map_values(|l: Seq<char>| last_word(l)),
    decreases text.len(),
{
    let word = |l: Seq<char>| last_word(l);
    if text.len() > 0 {
        if has_from(text, '\n', 0) {
            lemma_next_index_exists(text, '\n', 0);
        }
        let rest = after_first_line(text);
        lemma_identifiers_are_last_words(rest);
        let head = comment_of_line(first_line(text));
        assert((head + comment_lines(rest)).map_values(word) =~= head.map_values(word)
            + comment_lines(rest).map_values(word));
        assert(head.map_values(word) =~= identifier_of_line(first_line(text)));
    } else {
        assert(comment_lines(text).map_values(word) =~= Seq::<Seq<char>>::empty());
    }
}

/// A run that ends a line as `word_at` says is the line's last word.
pub proof fn lemma_last_word(line: Seq<char>, start: int, end: int)
    requires
        word_at(line, start, end),
    ensures
        last_word(line) == line.subrange(start, end),
{
    assert(!is_whitespace(line[start]));
    let (s, e) = choose|s: int, e: int| word_at(line, s, e);
    if e < end {
        assert(is_whitespace(line[end - 1]));
    }
    if end < e {
        assert(is_whitespace(line[e - 1]));
    }
}

/// A text that is the last word of any comment line made of it: it is not
/// empty and holds no whitespace.
pub open spec fn is_word(name: Seq<char>) -> bool {
    name.len() > 0 && forall|k: int| 0 <= k < name.len() ==> !is_whitespace(#[trigger] name[k])
}

/// A plugin whose fragment reads back: its identifier is one word, and no
/// path of its files holds a newline.
pub open spec fn reads_back(plugin: PluginView) -> bool {
    &&& is_word(plugin.identifier.name)
    &&& forall|i: int| 0 <= i < plugin.files.len() ==> !(#[trigger] plugin.files[i]).contains('\n')
}

/// A plugin whose fragment keeps to its lines: neither its identifier nor a
/// path of its files holds a newline.
pub open spec fn one_line(plugin: PluginView) -> bool {
    &&& !plugin.identifier.name.contains('\n')
    &&& forall|i: int| 0 <= i < plugin.files.len() ==> !(#[trigger] plugin.files[i]).contains('\n')
}

/// The header lines of `plugins`, without their newlines, in their order.
pub open spec fn headers_of(plugins: Seq<PluginView>) -> Seq<Seq<char>> {
    plugins.map_values(|p: PluginView| "# "@ + p.identifier.name)
}

/// The identifiers of `plugins` as given, in their order.
pub open spec fn names_of(plugins: Seq<PluginView>) -> Seq<Seq<char>> {
    plugins.map_values(|p: PluginView| p.identifier.name)
}

/// A text that adds nothing to the comment lines of what follows it.
spec fn skipped(text: Seq<char>) -> bool {
    forall|rest: Seq<char>| #[trigger] comment_lines(text + rest) == comment_lines(rest)
}

/// A line, its newline, and what follows: the comment lines are the line,
/// where it is one, and then those of what follows.
proof fn lemma_line(line: Seq<char>, rest: Seq<char>)
    requires
        !line.contains('\n'),
    ensures
        comment_lines(line + seq!['\n'] + rest) == comment_of_line(line) + comment_lines(rest),
{
    let text = line + seq!['\n'] + rest;
    let n = line.len() as int;
    lemma_next_index(text, '\n', 0, n);
    assert(first_line(text) =~= line);
    assert(after_first_line(text) =~= rest);
}

proof fn lemma_plain_line_skipped(line: Seq<char>)
    requires
        !line.contains('\n'),
        !is_comment(line),
    ensures
        skipped(line + seq!['\n']),
{
    assert forall|rest: Seq<char>| #[trigger]
        comment_lines(line + seq!['\n'] + rest) == comment_lines(rest) by {
        lemma_line(line, rest);
    }
}

proof fn lemma_empty_skipped()
    ensures
        skipped(Seq::empty()),
{
}

proof fn lemma_concat_skipped(a: Seq<char>, b: Seq<char>)
    requires
        skipped(a),
        skipped(b),
    ensures
        skipped(a + b),
{
    assert forall|rest: Seq<char>| #[trigger]
        comment_lines(a + b + rest) == comment_lines(rest) by {
        assert(a + b + rest =~= a + (b + rest));
    }
}

proof fn lemma_pieces_skipped(items: Seq<Seq<char>>, piece: spec_fn(Seq<char>) -> Seq<char>)
    requires
        forall|i: int| 0 <= i < items.len() ==> skipped(piece(#[trigger] items[i])),
    ensures
        skipped(pieces(items, piece)),
    decreases items.len(),
{
    if items.len() == 0 {
        lemma_empty_skipped();
    } else {
        let front = items.drop_last();
        lemma_pieces_skipped(front, piece);
        lemma_concat_skipped(pieces(front, piece), piece(items.last()));
    }
}

/// Putting `/` for `\` brings no newline into a path.
proof fn lemma_normalized_one_line(path: Seq<char>)
    requires
        !path.contains('\n'),
    ensures
        !normalized(path).contains('\n'),
{
}

/// A line made of a few words around a path has no newline, where the path
/// has none, and is no comment, where it does not begin like one.
proof fn lemma_framed_line_skipped(before: Seq<char>, path: Seq<char>, behind: Seq<char>)
    requires
        !before.contains('\n'),
        !path.contains('\n'),
        !behind.contains('\n'),
        before.len() > 0,
        before[0] != '#',
    ensures
        skipped(before + path + behind + seq!['\n']),
{
    lemma_plain_line_skipped(before + path + behind);
}

proof fn lemma_source_line_skipped(file: Seq<char>)
    requires
        !file.contains('\n'),
    ensures
        skipped(source_line(file)),
{
    reveal_strlit("source ");
    reveal_strlit("\n");
    lemma_empty_skipped();
    lemma_normalized_one_line(file);
    let before = "source "@;
    lemma_framed_line_skipped(before, normalized(file), Seq::empty());
    assert(before + normalized(file) + Seq::<char>::empty() + seq!['\n'] =~= before + normalized(
        file,
    ) + "\n"@);
}

proof fn lemma_directory_lines_skipped(
    directory: Seq<char>,
    platform: Platform,
    listings: Seq<ListingView>,
)
    requires
        !directory.contains('\n'),
    ensures
        skipped(directory_lines(directory, platform, listings)),
{
    reveal_strlit("fpath+=");
    reveal_strlit("PATH=");
    reveal_strlit("/\n");
    reveal_strlit(":$PATH\n");
    reveal_strlit("/functions\n");
    lemma_empty_skipped();
    lemma_normalized_one_line(directory);
    let path = normalized(directory);
    let f = "fpath+="@;
    let p = "PATH="@;
    let slash = seq!['/'];
    let tail = seq![':', '$', 'P', 'A', 'T', 'H'];
    let functions = seq!['/', 'f', 'u', 'n', 'c', 't', 'i', 'o', 'n', 's'];
    lemma_framed_line_skipped(f, path, slash);
    lemma_framed_line_skipped(p, path, tail);
    lemma_framed_line_skipped(f, path, functions);
    assert(f + path + slash + seq!['\n'] =~= fpath_line(directory));
    assert(p + path + tail + seq!['\n'] =~= path_line(directory));
    assert(f + path + functions + seq!['\n'] =~= functions_line(directory));
    lemma_concat_skipped(fpath_line(directory), path_line(directory));
    match platform {
        Platform::Windows => {},
        Platform::Posix => match crate::plugin::entries_of(listings, directory) {
            None => {},
            Some(entries) => {
                let a = if crate::plugin::has_executable(entries)
                    || crate::plugin::has_completions(entries) {
                    fpath_line(directory)
                } else {
                    Seq::empty()
                };
                let b = if crate::plugin::has_executable(entries) {
                    path_line(directory)
                } else {
                    Seq::empty()
                };
                let c = if crate::plugin::has_functions(entries) {
                    functions_line(directory)
                } else {
                    Seq::empty()
                };
                lemma_concat_skipped(a, b);
                lemma_concat_skipped(a + b, c);
            },
        },
    }
}

/// Every base directory is the beginning of one of the files.
proof fn lemma_basedirs_one_line(files: Seq<Seq<char>>)
    requires
        forall|i: int| 0 <= i < files.len() ==> !(#[trigger] files[i]).contains('\n'),
    ensures
        forall|i: int|
            0 <= i < basedirs(files).len() ==> !(#[trigger] basedirs(files)[i]).contains('\n'),
    decreases files.len(),
{
    if files.len() > 0 {
        let front = files.drop_last();
        assert forall|i: int| 0 <= i < front.len() implies !(#[trigger] front[i]).contains(
            '\n',
        ) by {
            assert(front[i] == files[i]);
        }
        lemma_basedirs_one_line(front);
        let last = files[files.len() - 1];
        let before = basedirs(front);
        let all = basedirs(files);
        match parent(last) {
            None => {},
            Some(directory) => {
                lemma_last_index_exists(last, '/');
                if directory.contains('\n') {
                    let k = choose|k: int| 0 <= k < directory.len() && directory[k] == '\n';
                    assert(last[k] == '\n');
                    assert(last.contains(last[k]));
                }
                assert(all == inserted(before, directory));
            },
        }
        assert forall|i: int| 0 <= i < all.len() implies !(#[trigger] all[i]).contains('\n') by {
            if i < before.len() {
                assert(all[i] == before[i]);
            }
        }
    }
}

/// The fragment of a plugin begins with its header line, and no other line
/// of it is a comment.
proof fn lemma_fragment(
    plugin: PluginView,
    platform: Platform,
    listings: Seq<ListingView>,
    rest: Seq<char>,
)
    requires
        one_line(plugin),
    ensures
        comment_lines(rendered(plugin, platform, listings) + rest) == seq![
            "# "@ + plugin.identifier.name,
        ] + comment_lines(rest),
        first_line(rendered(plugin, platform, listings) + rest) == "# "@
            + plugin.identifier.name,
{
    reveal_strlit("# ");
    reveal_strlit("\n");
    let name = plugin.identifier.name;
    let source = |f: Seq<char>| source_line(f);
    let lines = |d: Seq<char>| directory_lines(d, platform, listings);
    let sources = pieces(plugin.files, source);
    let dirs = pieces(basedirs(plugin.files), lines);
    assert forall|i: int| 0 <= i < plugin.files.len() implies skipped(
        source(#[trigger] plugin.files[i]),
    ) by {
        lemma_source_line_skipped(plugin.files[i]);
    }
    lemma_pieces_skipped(plugin.files, source);
    lemma_basedirs_one_line(plugin.files);
    assert forall|i: int| 0 <= i < basedirs(plugin.files).len() implies skipped(
        lines(#[trigger] basedirs(plugin.files)[i]),
    ) by {
        lemma_directory_lines_skipped(basedirs(plugin.files)[i], platform, listings);
    }
    lemma_pieces_skipped(basedirs(plugin.files), lines);
    lemma_concat_skipped(sources, dirs);
    let line = "# "@ + name;
    let behind = sources + dirs + rest;
    let text = rendered(plugin, platform, listings) + rest;
    assert(text =~= line + seq!['\n'] + behind);
    assert(!line.contains('\n')) by {
        if line.contains('\n') {
            let k = choose|k: int| 0 <= k < line.len() && line[k] == '\n';
            if k >= 2 {
                assert(name[k - 2] == '\n');
                assert(name.contains(name[k - 2]));
            }
        }
    }
    lemma_line(line, behind);
    lemma_next_index(text, '\n', 0, line.len() as int);
    assert(first_line(text) =~= line);
    assert(comment_lines(sources + dirs + rest) == comment_lines(rest));
}

/// The fragments of plugins carry their header lines in order, and no other
/// comment.
proof fn lemma_fragments(
    plugins: Seq<PluginView>,
    platform: Platform,
    listings: Seq<ListingView>,
    rest: Seq<char>,
)
    requires
        forall|i: int| 0 <= i < plugins.len() ==> one_line(#[trigger] plugins[i]),
    ensures
        comment_lines(rendered_all(plugins, platform, listings) + rest) == headers_of(plugins)
            + comment_lines(rest),
    decreases plugins.len(),
{
    if plugins.len() > 0 {
        let front = plugins.drop_last();
        let last = plugins[plugins.len() - 1];
        let fragment = rendered(last, platform, listings);
        assert forall|i: int| 0 <= i < front.len() implies one_line(#[trigger] front[i]) by {
            assert(front[i] == plugins[i]);
        }
        lemma_fragments(front, platform, listings, fragment + rest);
        lemma_fragment(last, platform, listings, rest);
        assert(rendered_all(plugins, platform, listings) + rest =~= rendered_all(
            front,
            platform,
            listings,
        ) + (fragment + rest));
        assert(headers_of(plugins) =~= headers_of(front) + seq!["# "@ + last.identifier.name]);
        assert(headers_of(front) + (seq!["# "@ + last.identifier.name] + comment_lines(rest))
            =~= headers_of(plugins) + comment_lines(rest));
    } else {
        assert(rendered_all(plugins, platform, listings) + rest =~= rest);
        assert(headers_of(plugins) + comment_lines(rest) =~= comment_lines(rest));
    }
}

/// The trailer line is no comment.
proof fn lemma_trailer()
    ensures
        comment_lines(trailer()) == Seq::<Seq<char>>::empty(),
{
    reveal_strlit("autoload -Uz compinit; compinit -iCd $HOME/.zcompdump\n");
    let text = trailer();
    let line = text.take(53);
    assert forall|k: int| 0 <= k < 53 implies line[k] != '\n' by {
        if k < 9 {
            assert(k == 0 || k == 1 || k == 2 || k == 3 || k == 4 || k == 5 || k == 6 || k == 7
                || k == 8);
        } else if k < 18 {
            assert(k == 9 || k == 10 || k == 11 || k == 12 || k == 13 || k == 14 || k == 15 || k
                == 16 || k == 17);
        } else if k < 27 {
            assert(k == 18 || k == 19 || k == 20 || k == 21 || k == 22 || k == 23 || k == 24 || k
                == 25 || k == 26);
        } else if k < 36 {
            assert(k == 27 || k == 28 || k == 29 || k == 30 || k == 31 || k == 32 || k == 33 || k
                == 34 || k == 35);
        } else if k < 45 {
            assert(k == 36 || k == 37 || k == 38 || k == 39 || k == 40 || k == 41 || k == 42 || k
                == 43 || k == 44);
        } else {
            assert(k == 45 || k == 46 || k == 47 || k == 48 || k == 49 || k == 50 || k == 51 || k
                == 52);
        }
    }
    lemma_line(line, Seq::empty());
    assert(line + seq!['\n'] + Seq::<char>::empty() =~= text);
    assert(comment_of_line(line) + comment_lines(Seq::<char>::empty()) =~= Seq::<
        Seq<char>,
    >::empty());
}

/// The fragment of a plugin begins with its header line, `# ` and the
/// identifier as given, and no other line of it begins with `# `; this holds
/// wherever neither the identifier nor a path of a file holds a newline.
pub proof fn lemma_fragment_header(
    plugin: PluginView,
    platform: Platform,
    listings: Seq<ListingView>,
)
    requires
        one_line(plugin),
    ensures
        first_line(rendered(plugin, platform, listings)) == "# "@ + plugin.identifier.name,
        comment_lines(rendered(plugin, platform, listings)) == seq![
            "# "@ + plugin.identifier.name,
        ],
{
    lemma_fragment(plugin, platform, listings, Seq::empty());
    assert(rendered(plugin, platform, listings) + Seq::<char>::empty() =~= rendered(
        plugin,
        platform,
        listings,
    ));
}

/// The comment lines of a rendered script are the header lines of its
/// plugins, in registry order, and nothing else; this holds wherever neither
/// an identifier nor a path of a file holds a newline.
pub proof fn lemma_comment_lines(
    registry: PluginsView,
    platform: Platform,
    listings: Seq<ListingView>,
)
    requires
        forall|i: int| 0 <= i < registry.plugins.len() ==> one_line(#[trigger] registry.plugins[i]),
    ensures
        comment_lines(registry.script(platform, listings)) == headers_of(registry.plugins),
{
    lemma_fragments(registry.plugins, platform, listings, trailer());
    lemma_trailer();
}

/// A rendered script reads back: where every identifier is one word and no
/// path of a file holds a newline, the comment lines of the script carry the
/// identifiers of the plugins, in registry order, and nothing else. So each
/// of them stands for what the plugin's identifier stood for: the same
/// directory and the same file.
pub proof fn lemma_round_trip(registry: PluginsView, platform: Platform, listings: Seq<ListingView>)
    requires
        forall|i: int| 0 <= i < registry.plugins.len() ==> reads_back(#[trigger] registry.plugins[i]),
    ensures
        identifiers_in(registry.script(platform, listings)) == names_of(registry.plugins),
        forall|i: int|
            0 <= i < registry.plugins.len() ==> identified(
                #[trigger] identifiers_in(registry.script(platform, listings))[i],
            ) == identified(registry.plugins[i].identifier.name),
{
    reveal_strlit("# ");
    let script = registry.script(platform, listings);
    let word = |l: Seq<char>| last_word(l);
    assert forall|i: int| 0 <= i < registry.plugins.len() implies one_line(
        #[trigger] registry.plugins[i],
    ) by {
        let name = registry.plugins[i].identifier.name;
        if name.contains('\n') {
            let k = choose|k: int| 0 <= k < name.len() && name[k] == '\n';
            assert(is_whitespace(name[k]));
        }
    }
    lemma_comment_lines(registry, platform, listings);
    lemma_identifiers_are_last_words(script);
    assert forall|i: int| 0 <= i < registry.plugins.len() implies last_word(
        #[trigger] headers_of(registry.plugins)[i],
    ) == registry.plugins[i].identifier.name by {
        let name = registry.plugins[i].identifier.name;
        let line = "# "@ + name;
        assert(is_whitespace(line[1]));
        assert forall|k: int| 2 <= k < line.len() implies !is_whitespace(#[trigger] line[k]) by {
            assert(line[k] == name[k - 2]);
        }
        lemma_last_word(line, 2, line.len() as int);
        assert(line.subrange(2, line.len() as int) =~= name);
    }
    assert(headers_of(registry.plugins).map_values(word) =~= names_of(registry.plugins));
}

/// The plugin that a fetch makes of `plugin`'s identifier: the same
/// identifier, with the files that it resolves to in what `found` says that
/// its working copy holds.
pub open spec fn fetched(
    cache: Seq<char>,
    plugin: PluginView,
    found: spec_fn(Seq<char>) -> Seq<EntryView>,
) -> PluginView {
    PluginView {
        identifier: plugin.identifier,
        files: resolved_for(
            cache,
            plugin.identifier,
            found(path_join(cache, plugin.identifier.directory)),
        ),
    }
}

/// Adding the first `k` names of a registry's plugins to an empty registry
/// gives its first `k` plugins, each as a fetch makes it.
proof fn lemma_loaded_prefix(
    registry: PluginsView,
    found: spec_fn(Seq<char>) -> Seq<EntryView>,
    k: int,
)
    requires
        registry.wf(),
        0 <= k <= registry.plugins.len(),
        forall|i: int|
            0 <= i < registry.plugins.len() ==> identified(
                (#[trigger] registry.plugins[i]).identifier.name,
            ) == Ok::<IdentifierView, ErrorView>(registry.plugins[i].identifier),
    ensures
        loaded(
            PluginsView { cache: registry.cache, plugins: Seq::empty() },
            names_of(registry.plugins).take(k),
            found,
        ) == (PluginsView {
            cache: registry.cache,
            plugins: registry.plugins.take(k).map_values(
                |p: PluginView| fetched(registry.cache, p, found),
            ),
        }),
    decreases k,
{
    let empty = PluginsView { cache: registry.cache, plugins: Seq::empty() };
    let names = names_of(registry.plugins);
    let fetch = |p: PluginView| fetched(registry.cache, p, found);
    if k == 0 {
        assert(registry.plugins.take(0).map_values(fetch) =~= Seq::<PluginView>::empty());
    } else {
        lemma_loaded_prefix(registry, found, k - 1);
        let before = loaded(empty, names.take(k - 1), found);
        let plugin = registry.plugins[k - 1];
        assert(names.take(k).drop_last() =~= names.take(k - 1));
        assert(names.take(k).last() == plugin.identifier.name);
        assert(!before.holds(plugin.identifier.directory)) by {
            if before.holds(plugin.identifier.directory) {
                let j = before.position(plugin.identifier.directory);
                assert(before.is_position(plugin.identifier.directory, j));
                assert(before.plugins[j].identifier == registry.plugins[j].identifier);
            }
        }
        assert(registry.plugins.take(k).map_values(fetch) =~= registry.plugins.take(
            k - 1,
        ).map_values(fetch).push(fetched(registry.cache, plugin, found)));
    }
}

/// Reading a rendered script back and adding what it names to an empty
/// registry gives the same plugins again: the same identifiers in the same
/// order, so the same directories and the same files asked for by name, and
/// for each the files that a fetch resolves it to. This holds of a registry
/// whose identifiers are what their names stand for, where every identifier
/// is one word and no path of a file holds a newline. A file that was merged
/// into a plugin from a later identifier is not read back.
pub proof fn lemma_reload(
    registry: PluginsView,
    platform: Platform,
    listings: Seq<ListingView>,
    found: spec_fn(Seq<char>) -> Seq<EntryView>,
)
    requires
        registry.wf(),
        forall|i: int| 0 <= i < registry.plugins.len() ==> reads_back(#[trigger] registry.plugins[i]),
        forall|i: int|
            0 <= i < registry.plugins.len() ==> identified(
                (#[trigger] registry.plugins[i]).identifier.name,
            ) == Ok::<IdentifierView, ErrorView>(registry.plugins[i].identifier),
    ensures
        loaded(
            PluginsView { cache: registry.cache, plugins: Seq::empty() },
            identifiers_in(registry.script(platform, listings)),
            found,
        ) == (PluginsView {
            cache: registry.cache,
            plugins: registry.plugins.map_values(
                |p: PluginView| fetched(registry.cache, p, found),
            ),
        }),
        (forall|i: int|
            0 <= i < registry.plugins.len() ==> (#[trigger] registry.plugins[i]) == fetched(
                registry.cache,
                registry.plugins[i],
                found,
            )) ==> loaded(
            PluginsView { cache: registry.cache, plugins: Seq::empty() },
            identifiers_in(registry.script(platform, listings)),
            found,
        ) == registry,
{
    let fetch = |p: PluginView| fetched(registry.cache, p, found);
    lemma_round_trip(registry, platform, listings);
    lemma_loaded_prefix(registry, found, registry.plugins.len() as int);
    assert(names_of(registry.plugins).take(registry.plugins.len() as int) =~= names_of(
        registry.plugins,
    ));
    assert(registry.plugins.take(registry.plugins.len() as int) =~= registry.plugins);
    if forall|i: int|
        0 <= i < registry.plugins.len() ==> (#[trigger] registry.plugins[i]) == fetched(
            registry.cache,
            registry.plugins[i],
            found,
        ) {
        assert(registry.plugins.map_values(fetch) =~= registry.plugins);
    }
}

/// Whether `c` has the Unicode property `White_Space`.
pub fn whitespace(c: char) -> (r: bool)
    ensures
        r == is_whitespace(c),
{
    let n: u32 = c as u32;
    (0x09 <= n && n <= 0x0d) || n == 0x20 || n == 0x85 || n == 0xa0 || n == 0x1680 || (0x2000 <= n
        && n <= 0x200a) || n == 0x2028 || n == 0x2029 || n == 0x202f || n == 0x205f || n == 0x3000
}

/// The last word of the line `chars[from..to]`.
pub fn last_word_of(chars: &Vec<char>, from: usize, to: usize) -> (word: String)
    requires
        from <= to <= chars.len(),
    ensures
        word@ == last_word(chars@.subrange(from as int, to as int)),
{
    let ghost line = chars@.subrange(from as int, to as int);
    let mut end: usize = to;
    while end > from && whitespace(chars[end - 1])
        invariant
            from <= end <= to <= chars.len(),
            line == chars@.subrange(from as int, to as int),
            forall|k: int| end - from <= k < line.len() ==> is_whitespace(#[trigger] line[k]),
        decreases end,
    {
        end -= 1;
    }
    if end == from {
        return String::new();
    }
    let mut start: usize = end - 1;
    while start > from && !whitespace(chars[start - 1])
        invariant
            from <= start < end <= to <= chars.len(),
            line == chars@.subrange(from as int, to as int),
            forall|k: int| start - from <= k < end - from ==> !is_whitespace(#[trigger] line[k]),
        decreases start,
    {
        start -= 1;
    }
    proof {
        lemma_last_word(line, start - from, end - from);
        assert(line.subrange(start - from, end - from) =~= chars@.subrange(
            start as int,
            end as int,
        ));
    }
    substring(chars, start, end)
}

/// The identifiers that the comment lines of a rendered script carry: of
/// each line that begins with `# `, the last word.
pub fn plugins_from(script: &str) -> (names: Vec<String>)
    ensures
        views(names@) == identifiers_in(script@),
{
    let chars = chars_of(script);
    let ghost text = chars@;
    let mut names: Vec<String> = Vec::new();
    let mut at: usize = 0;
    assert(text.skip(0) =~= text);
    while at < chars.len()
        invariant
            at <= chars.len(),
            text == chars@,
            identifiers_in(text) == views(names@) + identifiers_in(text.skip(at as int)),
        decreases chars.len() - at,
    {
        let ghost rest = text.skip(at as int);
        let (end, next): (usize, usize) = match find_char_from(&chars, '\n', at) {
            Some(i) => {
                proof {
                    lemma_next_index(rest, '\n', 0, i - at);
                }
                (i, i + 1)
            },
            None => {
                (chars.len(), chars.len())
            },
        };
        proof {
            assert(first_line(rest) =~= text.subrange(at as int, end as int));
            assert(after_first_line(rest) == text.skip(next as int));
        }
        if end - at >= 2 && chars[at] == '#' && chars[at + 1] == ' ' {
            let word = last_word_of(&chars, at, end);
            names.push(word);
        }
        at = next;
    }
    names
}

} // verus!
