//! The paths of the dictionaries to load: those of the configuration that
//! are in use, with `~` taken for the home directory, and after them those
//! that were given apart from the configuration.

use vstd::prelude::*;
use crate::error::LoadError;
use crate::plover_config::DictionaryConfig;

verus! {

/// What `Path::starts_with` answers for these texts: whether `base` is a
/// prefix of `path`, whole components only.
pub uninterp spec fn starts_with_path(path: Seq<char>, base: Seq<char>) -> bool;

/// What `==` of `Path` answers for these texts: whether the two paths are
/// equal, component by component.
pub uninterp spec fn same_path(left: Seq<char>, right: Seq<char>) -> bool;

/// What `Path::strip_prefix` returns for these texts: `path` without
/// `base`, or nothing where it returns an error.
pub uninterp spec fn stripped_path(path: Seq<char>, base: Seq<char>) -> Option<Seq<char>>;

/// What `PathBuf::push` makes of these texts: `base` extended by `rest`.
pub uninterp spec fn pushed_path(base: Seq<char>, rest: Seq<char>) -> Seq<char>;

/// Calls `Path::starts_with`. The contract claims no more than that the
/// answer depends on the two texts alone: it is `starts_with_path` of them.
#[verifier::external_body]
fn path_starts_with(path: &str, base: &str) -> (answer: bool)
    ensures
        answer == starts_with_path(path@, base@),
{
    std::path::Path::new(path).starts_with(base)
}

/// Compares two paths with `==` of `Path`. The contract claims no more than
/// that the answer depends on the two texts alone: it is `same_path` of
/// them.
#[verifier::external_body]
fn paths_equal(left: &str, right: &str) -> (answer: bool)
    ensures
        answer == same_path(left@, right@),
{
    std::path::Path::new(left) == std::path::Path::new(right)
}

/// Calls `Path::strip_prefix` and hands out what is left as a text. The
/// contract claims no more than that the outcome depends on the two texts
/// alone: it is `stripped_path` of them.
#[verifier::external_body]
fn path_strip_prefix(path: &str, base: &str) -> (rest: Option<String>)
    ensures
        text_of(rest) == stripped_path(path@, base@),
{
    let rest = std::path::Path::new(path).strip_prefix(base).ok();
    rest.map(|rest| rest.to_string_lossy().into_owned())
}

/// Calls `PathBuf::push` on the path that `base` spells and hands out the
/// extended path as a text. The contract claims no more than that the
/// outcome depends on the two texts alone: it is `pushed_path` of them.
#[verifier::external_body]
fn path_push(base: &str, rest: &str) -> (joined: String)
    ensures
        joined@ == pushed_path(base@, rest@),
{
    let mut joined = std::path::PathBuf::from(base);
    joined.push(rest);
    joined.to_string_lossy().into_owned()
}

/// The text of a path that may be missing.
pub open spec fn text_of(path: Option<String>) -> Option<Seq<char>> {
    match path {
        Some(path) => Some(path@),
        None => None,
    }
}

/// How a path of the configuration stands to the home directory.
#[derive(Clone, Copy, Debug, PartialEq, Eq, Structural)]
pub enum TildeForm {
    /// The path does not begin with `~`: it stays as it is.
    Plain,
    /// The path is `~`: it is the home directory.
    Home,
    /// The path lies under `~` and the home directory is the root: what
    /// follows the `~` is put under `/`.
    UnderRoot,
    /// The path lies under `~`: what follows the `~` is put under the home
    /// directory.
    UnderHome,
}

/// The form of a path, given whether it begins with `~`, whether it is `~`,
/// and whether the home directory is the root.
pub open spec fn tilde_form_of(under_tilde: bool, is_tilde: bool, home_is_root: bool) -> TildeForm {
    if !under_tilde {
        TildeForm::Plain
    } else if is_tilde {
        TildeForm::Home
    } else if home_is_root {
        TildeForm::UnderRoot
    } else {
        TildeForm::UnderHome
    }
}

/// Decides the form of a path from what was found out about it.
pub fn tilde_form(under_tilde: bool, is_tilde: bool, home_is_root: bool) -> (form: TildeForm)
    ensures
        form == tilde_form_of(under_tilde, is_tilde, home_is_root),
{
    if !under_tilde {
        TildeForm::Plain
    } else if is_tilde {
        TildeForm::Home
    } else if home_is_root {
        TildeForm::UnderRoot
    } else {
        TildeForm::UnderHome
    }
}

/// The directory under which a path of the given form is put: `/` itself
/// where the home directory is the root, however it is written, and else
/// the home directory.
pub open spec fn base_of(form: TildeForm, home: Seq<char>) -> Seq<char> {
    if form == TildeForm::UnderRoot {
        "/"@
    } else {
        home
    }
}

/// What a path of the given form expands to, given what its part after the
/// `~` made when it was put under its base. A plain path stays, and `~`
/// alone is the home directory. A path under `~` is what was put under the
/// base; where that is missing the path stays.
pub open spec fn expansion_of(
    form: TildeForm,
    home: Seq<char>,
    path: Seq<char>,
    joined: Option<Seq<char>>,
) -> Seq<char> {
    match form {
        TildeForm::Plain => path,
        TildeForm::Home => home,
        _ => match joined {
            Some(joined) => joined,
            None => path,
        },
    }
}

/// The path under its base, for a path that lies under `~`: the part of the
/// path after `~/`, put under the base of its form. There is none for a path
/// of another form, nor where the path has no such part.
pub open spec fn joined_of(form: TildeForm, home: Seq<char>, path: Seq<char>) -> Option<Seq<char>> {
    if form == TildeForm::UnderRoot || form == TildeForm::UnderHome {
        match stripped_path(path, "~/"@) {
            Some(rest) => Some(pushed_path(base_of(form, home), rest)),
            None => None,
        }
    } else {
        None
    }
}

/// The path with a leading `~` taken for the home directory: the path is
/// asked whether it begins with `~` and whether it is `~`, the home
/// directory whether it is `/`, and the form that follows from the answers
/// says what the path expands to.
pub open spec fn expanded_of(home: Seq<char>, path: Seq<char>) -> Seq<char> {
    let form = tilde_form_of(
        starts_with_path(path, "~"@),
        same_path(path, "~"@),
        same_path(home, "/"@),
    );
    expansion_of(form, home, path, joined_of(form, home, path))
}

/// Puts the expansion of a path together from its form and from what its
/// part after the `~` made under its base.
pub fn expansion(
    form: TildeForm,
    home: &str,
    path: String,
    joined: Option<String>,
) -> (expanded: String)
    ensures
        expanded@ == expansion_of(form, home@, path@, text_of(joined)),
{
    match form {
        TildeForm::Plain => path,
        TildeForm::Home => home.to_owned(),
        _ => match joined {
            Some(joined) => joined,
            None => path,
        },
    }
}

/// The path with a leading `~` taken for the home directory. A path that
/// does not begin with `~` stays as it is, `~` alone is the home directory,
/// and of a path under `~` what follows the `~` is put under the home
/// directory, so that the result is as absolute as the home directory is.
pub fn expand_tilde(home: &str, path: String) -> (expanded: String)
    ensures
        expanded@ == expanded_of(home@, path@),
{
    let under_tilde = path_starts_with(path.as_str(), "~");
    let is_tilde = paths_equal(path.as_str(), "~");
    let home_is_root = paths_equal(home, "/");
    let form = tilde_form(under_tilde, is_tilde, home_is_root);
    let joined = match form {
        TildeForm::UnderRoot => match path_strip_prefix(path.as_str(), "~/") {
            Some(rest) => Some(path_push("/", rest.as_str())),
            None => None,
        },
        TildeForm::UnderHome => match path_strip_prefix(path.as_str(), "~/") {
            Some(rest) => Some(path_push(home, rest.as_str())),
            None => None,
        },
        _ => None,
    };
    expansion(form, home, path, joined)
}

/// The paths of the entries that are in use, in the order of the entries.
pub open spec fn enabled_of(entries: Seq<DictionaryConfig>) -> Seq<Seq<char>>
    decreases entries.len(),
{
    if entries.len() == 0 {
        Seq::empty()
    } else if entries.last().enabled {
        enabled_of(entries.drop_last()).push(entries.last().path@)
    } else {
        enabled_of(entries.drop_last())
    }
}

/// The texts of a list of paths, in its order.
pub open spec fn path_texts(paths: Seq<String>) -> Seq<Seq<char>> {
    Seq::new(paths.len(), |i: int| paths[i]@)
}

/// The paths of the entries that are in use, in the order of the entries.
/// An entry that occurs twice is taken twice.
pub fn enabled_paths(entries: Vec<DictionaryConfig>) -> (paths: Vec<String>)
    ensures
        path_texts(paths@) == enabled_of(entries@),
{
    let mut paths: Vec<String> = Vec::new();
    assert(entries@.take(0) =~= Seq::empty());
    for entry in it: entries
        invariant
            path_texts(paths@) == enabled_of(entries@.take(it.index() as int)),
    {
        let ghost done = it.index() as int;
        let ghost before = path_texts(paths@);
        assert(entries@.take(done + 1).drop_last() =~= entries@.take(done));
        if entry.enabled {
            paths.push(entry.path);
            assert(path_texts(paths@) =~= before.push(entry.path@));
        }
    }
    assert(entries@.take(entries.len() as int) =~= entries@);
    paths
}

/// The expansions of a list of paths, in its order.
pub open spec fn expanded_all(home: Seq<char>, paths: Seq<Seq<char>>) -> Seq<Seq<char>> {
    Seq::new(paths.len(), |i: int| expanded_of(home, paths[i]))
}

/// The paths that the configuration adds to the list: the expansions of the
/// paths of its entries that are in use, in the order of the entries. None
/// where there is no configuration.
pub open spec fn configured_of(
    configured: Option<Vec<DictionaryConfig>>,
    home: Option<String>,
) -> Seq<Seq<char>> {
    match (configured, home) {
        (Some(entries), Some(home)) => expanded_all(home@, enabled_of(entries@)),
        _ => Seq::empty(),
    }
}

/// The paths of the dictionaries to load, in the order in which they take
/// precedence: first those of the configuration that are in use, in its
/// order and with `~` expanded, then the extra ones in their order. No path
/// is left out for occurring twice. Without a configuration the extra paths
/// are all there is. With one, the home directory must be known, whether or
/// not a path needs it.
pub fn dictionary_list(
    configured: Option<Vec<DictionaryConfig>>,
    home: Option<String>,
    extra: Vec<String>,
) -> (outcome: Result<Vec<String>, LoadError>)
    ensures
        outcome is Err <==> configured is Some && home is None,
        outcome matches Err(error) ==> error is HomeNotFound,
        outcome matches Ok(paths) ==> path_texts(paths@) == configured_of(configured, home)
            + path_texts(extra@),
        outcome matches Ok(paths) ==> paths@.skip(paths@.len() - extra@.len()) == extra@,
{
    let mut paths: Vec<String> = Vec::new();
    match configured {
        Some(entries) => {
            let home = match home {
                Some(home) => home,
                None => {
                    return Err(LoadError::HomeNotFound);
                },
            };
            let ghost enabled = enabled_of(entries@);
            for path in it: enabled_paths(entries)
                invariant
                    path_texts(it.seq()) == enabled,
                    path_texts(paths@) == expanded_all(home@, enabled.take(it.index() as int)),
            {
                let ghost done = it.index() as int;
                let ghost before = path_texts(paths@);
                assert(enabled[done] == path_texts(it.seq())[done]);
                paths.push(expand_tilde(home.as_str(), path));
                assert(path_texts(paths@) =~= before.push(expanded_of(home@, enabled[done])));
                assert(expanded_all(home@, enabled.take(done + 1)) =~= expanded_all(
                    home@,
                    enabled.take(done),
                ).push(expanded_of(home@, enabled[done])));
            }
            assert(enabled.take(enabled.len() as int) =~= enabled);
        },
        None => {},
    }
    let ghost first = paths@;
    let mut extra = extra;
    let ghost added = extra@;
    paths.append(&mut extra);
    assert(path_texts(paths@) =~= path_texts(first) + path_texts(added));
    assert(paths@.skip(paths@.len() - added.len()) =~= added);
    Ok(paths)
}

} // verus!
