//! Plugin identifiers: `author/name`, a full URL, or either with a file behind `.git/`.

use vstd::prelude::*;
use vstd::string::StringExecFns;
use crate::address::{parse_url, parsed_view, url_parse, UrlError, UrlParts, UrlPartsView};
use crate::error::{Error, ErrorView};
use crate::path::{file_name, file_name_of, lemma_trimmed, trim, trimmed};
use crate::text::{
    chars_of, ends_with, find, find_char_from, first_occurrence, has_from, join, joined,
    lemma_first_occurrence, lemma_first_occurrence_exists, lemma_next_index, next_index, occurs,
    occurs_at, option_view, substring,
};

verus! {

/// A parsed reference to a plugin.
#[derive(Debug)]
pub struct Identifier {
    /// The identifier as it was given.
    pub name: String,
    /// The URL of the repository.
    pub source: String,
    /// The relative directory of the working copy: host, then the path segments.
    pub directory: String,
    /// The file inside the repository, where the identifier names one.
    pub file: Option<String>,
}

/// The mathematical value of an [`Identifier`].
pub struct IdentifierView {
    pub name: Seq<char>,
    pub source: Seq<char>,
    pub directory: Seq<char>,
    pub file: Option<Seq<char>>,
}

impl View for Identifier {
    type V = IdentifierView;

    open spec fn view(&self) -> IdentifierView {
        IdentifierView {
            name: self.name@,
            source: self.source@,
            directory: self.directory@,
            file: option_view(self.file),
        }
    }
}

/// The outcome of parsing an identifier, as a mathematical value.
pub open spec fn outcome_view(r: Result<Identifier, Error>) -> Result<IdentifierView, ErrorView> {
    match r {
        Ok(identifier) => Ok(identifier@),
        Err(e) => Err(e@),
    }
}

/// The part of an identifier that names the repository: everything up to and
/// including the first `.git` that a `/` follows, or the whole text where
/// there is none.
pub open spec fn repository_ref(name: Seq<char>) -> Seq<char> {
    if occurs(name, ".git/"@) {
        name.take(first_occurrence(name, ".git/"@) + 4)
    } else {
        name
    }
}

/// The file that an identifier names: everything behind the first `.git/`.
pub open spec fn explicit_file(name: Seq<char>) -> Option<Seq<char>> {
    if occurs(name, ".git/"@) {
        Some(name.skip(first_occurrence(name, ".git/"@) + 5))
    } else {
        None
    }
}

/// The text ends like a shell script's name.
pub open spec fn is_script(text: Seq<char>) -> bool {
    ".zsh"@.is_suffix_of(text) || ".sh"@.is_suffix_of(text)
}

/// A relative reference without the path to a script that follows its second
/// segment: `author/name/dir/file.zsh` is cut down to `author/name`.
pub open spec fn short_ref(repo: Seq<char>) -> Seq<char> {
    if has_from(repo, '/', 0) && has_from(repo, '/', next_index(repo, '/', 0) + 1) && is_script(
        repo,
    ) {
        repo.take(next_index(repo, '/', next_index(repo, '/', 0) + 1))
    } else {
        repo
    }
}

/// The URL of a repository that is given relative to the default host.
pub open spec fn default_source(repo: Seq<char>) -> Seq<char> {
    "https://github.com/"@ + short_ref(repo)
}

/// The directory of a working copy: the host, where there is one, then the
/// path segments, all joined by `/`, without the slashes that empty segments
/// leave at the end. A URL that cannot be a base has none.
pub open spec fn directory_of(parts: UrlPartsView) -> Option<Seq<char>> {
    match parts.segments {
        None => None,
        Some(segments) => Some(
            trimmed(
                match parts.host {
                    Some(host) => host + seq!['/'] + joined(segments, '/'),
                    None => joined(segments, '/'),
                },
            ),
        ),
    }
}

/// The short name of the plugin in `directory`: the last segment of the
/// directory that is not empty.
pub open spec fn short_name(directory: Seq<char>) -> Seq<char> {
    file_name(trimmed(directory))
}

/// The directory of an identifier ends in no slash, so that a repository
/// given with and without a slash at its end has one directory.
pub proof fn lemma_directory_is_trimmed(parts: UrlPartsView)
    ensures
        directory_of(parts) matches Some(directory) ==> (directory.len() == 0 || directory.last()
            != '/') && short_name(directory) == file_name(directory),
{
    if let Some(segments) = parts.segments {
        let whole = match parts.host {
            Some(host) => host + seq!['/'] + joined(segments, '/'),
            None => joined(segments, '/'),
        };
        lemma_trimmed(whole);
    }
}

/// The identifier for a repository at `source` whose URL has the given parts.
pub open spec fn located(
    name: Seq<char>,
    source: Seq<char>,
    file: Option<Seq<char>>,
    parts: UrlPartsView,
) -> Result<IdentifierView, ErrorView> {
    match directory_of(parts) {
        Some(directory) => Ok(IdentifierView { name, source, directory, file }),
        None => Err(ErrorView::InvalidIdentifier { identifier: name }),
    }
}

/// The identifier for a repository at `source`, by what the URL parser made
/// of `source`: whatever it refuses is no identifier.
pub open spec fn located_or_refused(
    name: Seq<char>,
    source: Seq<char>,
    file: Option<Seq<char>>,
    parsed: Result<UrlPartsView, UrlError>,
) -> Result<IdentifierView, ErrorView> {
    match parsed {
        Ok(parts) => located(name, source, file, parts),
        Err(_) => Err(ErrorView::InvalidIdentifier { identifier: name }),
    }
}

/// What an identifier text stands for.
///
/// A text without `/` is no plugin name. A repository reference that is an
/// absolute URL is the source as it stands. One that is a relative reference
/// is resolved against `https://github.com/`, without the path to a script
/// behind its second segment. Whatever else the URL parser refuses is no
/// identifier.
pub open spec fn identified(name: Seq<char>) -> Result<IdentifierView, ErrorView> {
    if !name.contains('/') {
        Err(ErrorView::InvalidPluginName { plugin_name: name })
    } else {
        let repo = repository_ref(name);
        let file = explicit_file(name);
        if url_parse(repo) == Err::<UrlPartsView, UrlError>(UrlError::RelativeWithoutBase) {
            let source = default_source(repo);
            located_or_refused(name, source, file, url_parse(source))
        } else {
            located_or_refused(name, repo, file, url_parse(repo))
        }
    }
}

/// A name that holds `.git/` is its repository reference, a `/`, and its
/// file. The reference ends in `.git` and holds no `.git/` itself.
pub proof fn lemma_reference_and_file(name: Seq<char>)
    requires
        occurs(name, ".git/"@),
    ensures
        explicit_file(name) is Some,
        name == repository_ref(name) + seq!['/'] + explicit_file(name)->0,
        ".git"@.is_suffix_of(repository_ref(name)),
        !occurs(repository_ref(name), ".git/"@),
{
    reveal_strlit(".git/");
    reveal_strlit(".git");
    lemma_first_occurrence_exists(name, ".git/"@);
    let i = first_occurrence(name, ".git/"@);
    let repo = repository_ref(name);
    let marker = name.subrange(i, i + 5);
    assert(name[i + 4] == marker[4]);
    assert(repo.skip(repo.len() - 4) =~= ".git"@) by {
        assert forall|k: int| 0 <= k < 4 implies repo.skip(repo.len() - 4)[k] == ".git"@[k] by {
            assert(repo[i + k] == marker[k]);
        }
    }
    if occurs(repo, ".git/"@) {
        let j = choose|j: int| occurs_at(repo, ".git/"@, j);
        assert(name.subrange(j, j + 5) =~= repo.subrange(j, j + 5));
        assert(occurs_at(name, ".git/"@, j));
    }
}

/// The path of the file that an identifier names lies below the identifier's
/// directory: it begins with the directory.
pub proof fn lemma_file_below_directory(identifier: IdentifierView)
    requires
        identifier.file is Some,
    ensures
        identifier.directory.is_prefix_of(
            crate::path::path_join(identifier.directory, identifier.file->0),
        ),
{
    crate::path::lemma_join_keeps_base(identifier.directory, identifier.file->0);
}

/// Identifiers that name the same repository stand for the same source and
/// directory, whatever file each of them asks for; so either both are
/// refused or both are equal as identifiers.
pub proof fn lemma_same_repository(first: Seq<char>, second: Seq<char>)
    requires
        first.contains('/'),
        second.contains('/'),
        repository_ref(first) == repository_ref(second),
    ensures
        identified(first) is Ok <==> identified(second) is Ok,
        identified(first) matches Ok(a) ==> identified(second) matches Ok(b) && a.source
            == b.source && a.directory == b.directory,
{
}

/// Splits an identifier into its repository reference and its file.
pub fn split_reference(name: &Vec<char>) -> (r: (String, Option<String>))
    ensures
        r.0@ == repository_ref(name@),
        option_view(r.1) == explicit_file(name@),
{
    let marker = chars_of(".git/");
    proof {
        reveal_strlit(".git/");
    }
    match find(name, &marker) {
        Some(i) => {
            proof {
                lemma_first_occurrence(name@, marker@, i as int);
            }
            assert(i + 5 <= name.len());
            let repo = substring(name, 0, i + 4);
            let file = substring(name, i + 5, name.len());
            (repo, Some(file))
        },
        None => {
            let repo = substring(name, 0, name.len());
            (repo, None)
        },
    }
}

/// The URL of a repository that is given relative to the default host.
pub fn default_source_of(repo: &Vec<char>) -> (r: String)
    ensures
        r@ == default_source(repo@),
{
    let zsh = chars_of(".zsh");
    let sh = chars_of(".sh");
    let mut end: usize = repo.len();
    match find_char_from(repo, '/', 0) {
        Some(first) => {
            proof {
                lemma_next_index(repo@, '/', 0, first as int);
            }
            match find_char_from(repo, '/', first + 1) {
                Some(second) => {
                    proof {
                        lemma_next_index(repo@, '/', first + 1, second as int);
                    }
                    if ends_with(repo, &zsh) || ends_with(repo, &sh) {
                        end = second;
                    }
                },
                None => {},
            }
        },
        None => {},
    }
    let mut r = String::from_str("https://github.com/");
    crate::text::push_chars(&mut r, repo, 0, end);
    r
}

impl Identifier {
    /// Parses an identifier.
    ///
    /// A name without `/` fails as no plugin name. Otherwise the repository
    /// reference of the name goes to the URL parser, and once more behind
    /// `https://github.com/` where it is a relative reference; the outcome
    /// of that parse decides as `from_parse` says.
    pub fn new(name: String) -> (r: Result<Identifier, Error>)
        ensures
            outcome_view(r) == identified(name@),
    {
        let chars = chars_of(name.as_str());
        if find_char_from(&chars, '/', 0).is_none() {
            assert(!name@.contains('/')) by {
                if name@.contains('/') {
                    let i = choose|i: int| 0 <= i < name@.len() && name@[i] == '/';
                    assert(has_from(name@, '/', 0));
                }
            }
            return Err(Error::InvalidPluginName { plugin_name: name });
        }
        let (repo, file) = split_reference(&chars);
        match parse_url(repo.as_str()) {
            Err(UrlError::RelativeWithoutBase) => {
                let repo_chars = chars_of(repo.as_str());
                let source = default_source_of(&repo_chars);
                let parsed = parse_url(source.as_str());
                Identifier::from_parse(name, source, file, parsed)
            },
            parsed => Identifier::from_parse(name, repo, file, parsed),
        }
    }

    /// Builds the identifier for a repository at `source` from what the URL
    /// parser made of `source`. It fails where the parser failed, and where
    /// `from_url` fails.
    pub fn from_parse(
        name: String,
        source: String,
        file: Option<String>,
        parsed: Result<UrlParts, UrlError>,
    ) -> (r: Result<Identifier, Error>)
        ensures
            outcome_view(r) == located_or_refused(
                name@,
                source@,
                option_view(file),
                parsed_view(parsed),
            ),
    {
        match parsed {
            Ok(parts) => Identifier::from_url(name, source, file, parts),
            Err(_) => Err(Error::InvalidIdentifier { identifier: name }),
        }
    }

    /// Builds the identifier for a repository at `source` from the parts of
    /// its URL. It fails where the URL cannot be a base, and so has no path
    /// segments to make a directory of.
    pub fn from_url(name: String, source: String, file: Option<String>, parts: UrlParts) -> (r:
        Result<Identifier, Error>)
        ensures
            outcome_view(r) == located(name@, source@, option_view(file), parts@),
    {
        let UrlParts { host, segments } = parts;
        match segments {
            None => Err(Error::InvalidIdentifier { identifier: name }),
            Some(segments) => {
                let path = join(&segments, '/');
                let whole = match host {
                    Some(host) => {
                        let mut d = host;
                        d.push('/');
                        d.append(path.as_str());
                        assert(d@ =~= host@ + seq!['/'] + path@);
                        d
                    },
                    None => path,
                };
                let directory = trim(whole.as_str());
                Ok(Identifier { name, source, directory, file })
            },
        }
    }

    /// The plugin's short name: the last segment of its directory that is
    /// not empty.
    pub fn short_name(&self) -> (r: String)
        ensures
            r@ == short_name(self.directory@),
    {
        let directory = trim(self.directory.as_str());
        file_name_of(directory.as_str())
    }
}

/// Two identifiers are equal where they name the same directory, whatever
/// file either asks for.
impl PartialEq for Identifier {
    fn eq(&self, other: &Identifier) -> (r: bool) {
        self.directory == other.directory
    }
}

impl vstd::std_specs::cmp::PartialEqSpecImpl for Identifier {
    open spec fn obeys_eq_spec() -> bool {
        true
    }

    open spec fn eq_spec(&self, other: &Identifier) -> bool {
        self.directory@ == other.directory@
    }
}

impl Clone for Identifier {
    fn clone(&self) -> (r: Identifier)
        ensures
            r@ == self@,
    {
        Identifier {
            name: self.name.clone(),
            source: self.source.clone(),
            directory: self.directory.clone(),
            file: match &self.file {
                Some(f) => Some(f.clone()),
                None => None,
            },
        }
    }
}

} // verus!
