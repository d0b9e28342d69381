//! Code-context engine: the logic of indexing source repositories and of
//! searching the index.
//!
//! - [`config`]: settings.
//! - [`embedding`]: the embedding client, its batches and its retries.
//! - [`indexing`]: runs of the indexing pipeline, edge resolution, transactions.
//! - [`llm`]: the language model client and its providers.
//! - [`parsing`]: symbols, relations between them, and the chunks of a file.
//! - [`rotation`]: going through API keys in turn.
//! - [`store`]: where a repository's data lies, and the statements for it.
//! - [`text`]: the vocabulary for texts that the contracts use.
//! - [`vector`]: the in-memory index of embeddings.

use vstd::prelude::*;

use crate::text::matches_at;
use crate::text::to_chars;

pub mod config;
pub mod embedding;
pub mod indexing;
pub mod llm;
pub mod parsing;
pub mod rotation;
pub mod store;
pub mod text;
pub mod vector;

verus! {

/// Whether `c` separates the components of a path, on any platform.
pub open spec fn is_separator(c: char) -> bool {
    c == '/' || c == '\\'
}

/// `path` without the separators it ends with.
pub open spec fn drop_separators(path: Seq<char>) -> Seq<char>
    decreases path.len(),
{
    if path.len() > 0 && is_separator(path.last()) {
        drop_separators(path.drop_last())
    } else {
        path
    }
}

/// Whether `file` is `repo` or lies below it.
pub open spec fn in_repo(file: Seq<char>, repo: Seq<char>) -> bool {
    let base = drop_separators(repo);
    text::has_prefix(file, base) && (file.len() == base.len() || is_separator(
        file[base.len() as int],
    ))
}

/// Whether `file` is `repo` or lies below it. The match ends at a component's
/// boundary, so `/foobar/x` is not in `/foo`; separators at the end of `repo`
/// make no difference.
pub fn path_in_repo(file: &str, repo: &str) -> (r: bool)
    ensures
        r == in_repo(file@, repo@),
{
    let f = to_chars(file);
    let mut base = to_chars(repo);
    while base.len() > 0 && (base[base.len() - 1] == '/' || base[base.len() - 1] == '\\')
        invariant
            drop_separators(base@) == drop_separators(repo@),
        decreases base.len(),
    {
        let ghost before = base@;
        let _ = base.pop();
        assert(base@ =~= before.drop_last());
    }
    matches_at(&f, &base, 0) && (f.len() == base.len() || f[base.len()] == '/' || f[base.len()]
        == '\\')
}

/// A path that goes on within the last component of a repository's path is not
/// in that repository.
pub proof fn law_repo_ends_at_a_boundary(repo: Seq<char>, rest: Seq<char>)
    requires
        rest.len() > 0,
        !is_separator(rest[0]),
    ensures
        !in_repo(drop_separators(repo) + rest, repo),
{
}

/// Whatever follows a separator below a repository is in the repository.
pub proof fn law_paths_below_a_repo(repo: Seq<char>, sep: char, rest: Seq<char>)
    requires
        is_separator(sep),
    ensures
        in_repo(drop_separators(repo) + seq![sep] + rest, repo),
{
    let base = drop_separators(repo);
    let file = base + seq![sep] + rest;
    assert(file.subrange(0, base.len() as int) =~= base);
}

/// A separator at the end of a repository's path makes no difference.
pub proof fn law_trailing_separator(file: Seq<char>, repo: Seq<char>, sep: char)
    requires
        is_separator(sep),
    ensures
        in_repo(file, repo.push(sep)) == in_repo(file, repo),
{
    assert(repo.push(sep).drop_last() =~= repo);
}


/// Which files are in a repository: `base` is the repository's path without the
/// slashes and backslashes it ends with. In it are the file of that very path, and
/// those whose path goes on behind it with a slash or a backslash; no others.
pub proof fn law_in_repo_is_exact(
    file: Seq<char>,
    repo: Seq<char>,
    base: Seq<char>,
    seps: Seq<char>,
)
    requires
        repo == base + seps,
        forall|i: int| 0 <= i < seps.len() ==> #[trigger] seps[i] == '/' || seps[i] == '\\',
        base.len() > 0 ==> base.last() != '/' && base.last() != '\\',
    ensures
        in_repo(file, repo) <==> file.len() >= base.len() && file.take(base.len() as int) == base
            && (file.len() == base.len() || file[base.len() as int] == '/'
            || file[base.len() as int] == '\\'),
{
    lemma_separators_dropped(base, seps);
    if file.len() >= base.len() {
        assert(file.subrange(0, base.len() as int) =~= file.take(base.len() as int));
    }
}

proof fn lemma_separators_dropped(base: Seq<char>, seps: Seq<char>)
    requires
        forall|i: int| 0 <= i < seps.len() ==> is_separator(#[trigger] seps[i]),
        base.len() > 0 ==> !is_separator(base.last()),
    ensures
        drop_separators(base + seps) == base,
    decreases seps.len(),
{
    let repo = base + seps;
    if seps.len() == 0 {
        assert(repo =~= base);
    } else {
        let front = seps.drop_last();
        assert forall|i: int| 0 <= i < front.len() implies is_separator(#[trigger] front[i]) by {
            assert(front[i] == seps[i]);
        }
        assert(repo.last() == seps[seps.len() - 1]);
        lemma_separators_dropped(base, front);
        assert(repo.drop_last() =~= base + front);
    }
}

} // verus!
