//! What is stored about a repository, and where.

use vstd::hash_map::StringHashMap;
use vstd::prelude::*;

use crate::text;
use crate::text::clone_strings;
use crate::text::from_chars;
use crate::text::is_alphanumeric;
use crate::text::tail_start;
use crate::text::to_chars;
use crate::text::trim_end_char;
use crate::text::trim_start_char;

pub mod ops;
pub mod statement;

verus! {

// ─── Names ───────────────────────────────────────────────────────────────

/// The most bytes of a directory name.
pub const MAX_NAME_LEN: usize = 64;

/// `path` with `_` for every character that is not flagged as a letter or digit.
pub open spec fn masked(path: Seq<char>, flags: Seq<bool>) -> Seq<char> {
    Seq::new(
        path.len(),
        |i: int|
            if flags[i] {
                path[i]
            } else {
                '_'
            },
    )
}

/// Which characters are letters or digits.
pub open spec fn letters_and_digits(path: Seq<char>) -> Seq<bool> {
    Seq::new(path.len(), |i: int| text::letter_or_digit(path[i]))
}

/// `s` without the runs of `_` at its ends.
pub open spec fn bare(s: Seq<char>) -> Seq<char> {
    text::drop_back(text::drop_front(s, '_'), '_')
}

/// The directory name of a path whose letters and digits are flagged.
pub open spec fn flagged_name(path: Seq<char>, flags: Seq<bool>) -> Seq<char> {
    text::tail(bare(masked(path, flags)), MAX_NAME_LEN as nat)
}

/// The directory name of a repository.
pub open spec fn name_of(repo_path: Seq<char>) -> Seq<char> {
    flagged_name(repo_path, letters_and_digits(repo_path))
}

/// Sanitize a repo path to a safe directory name (max 64 chars). Letters and
/// digits stay; anything else becomes `_`, and none of that is left at the ends.
/// Of a name that takes more than 64 bytes the end is kept, as many characters as
/// fit.
pub fn sanitize_repo_name(repo_path: &str) -> (r: String)
    ensures
        r@ == name_of(repo_path@),
{
    let mut flags: Vec<bool> = Vec::new();
    for c in it: repo_path.chars()
        invariant
            it.seq() == repo_path@,
            flags@ == letters_and_digits(repo_path@).take(it.index() as int),
    {
        let ghost i = it.index() as int;
        flags.push(is_alphanumeric(c));
        assert(flags@ =~= letters_and_digits(repo_path@).take(i + 1));
    }
    assert(flags@ =~= letters_and_digits(repo_path@));
    sanitize_flagged(repo_path, &flags)
}

/// As [`sanitize_repo_name`], where `flags` tells which characters of the path are
/// letters or digits.
pub fn sanitize_flagged(repo_path: &str, flags: &Vec<bool>) -> (r: String)
    requires
        flags@.len() == repo_path@.len(),
    ensures
        r@ == flagged_name(repo_path@, flags@),
{
    let mut safe = String::new();
    let mut i: usize = 0;
    for c in it: repo_path.chars()
        invariant
            it.seq() == repo_path@,
            i == it.index(),
            flags@.len() == repo_path@.len(),
            safe@ == masked(repo_path@, flags@).take(i as int),
    {
        assert(i < flags.len());
        if flags[i] {
            safe.push(c);
        } else {
            safe.push('_');
        }
        assert(safe@ =~= masked(repo_path@, flags@).take(i + 1));
        i = i + 1;
    }
    assert(safe@ =~= masked(repo_path@, flags@));
    let front = trim_start_char(safe.as_str(), '_');
    let full = to_chars(trim_end_char(front.as_str(), '_').as_str());
    let from: usize = tail_start(&full, MAX_NAME_LEN);
    assert(full@.subrange(from as int, full@.len() as int) =~= full@.skip(from as int));
    from_chars(&full, from, full.len())
}

/// A name is safe: letters, digits and `_` only, no `_` at the end, and at most
/// 64 bytes, hence at most 64 characters. It holds no separator, dot, colon or
/// other ASCII character that has a meaning in paths.
pub proof fn law_name_is_safe(repo_path: Seq<char>)
    ensures
        forall|i: int|
            0 <= i < name_of(repo_path).len() ==> text::letter_or_digit(
                #[trigger] name_of(repo_path)[i],
            ) || name_of(repo_path)[i] == '_',
        forall|i: int|
            0 <= i < name_of(repo_path).len() ==> (#[trigger] name_of(repo_path)[i]) != '/'
                && name_of(repo_path)[i] != '\\' && name_of(repo_path)[i] != '.' && name_of(
                repo_path,
            )[i] != ':',
        name_of(repo_path).len() > 0 ==> name_of(repo_path).last() != '_',
        text::utf8_len(name_of(repo_path)) <= MAX_NAME_LEN,
        name_of(repo_path).len() <= MAX_NAME_LEN,
{
    let safe = masked(repo_path, letters_and_digits(repo_path));
    let front = text::drop_front(safe, '_');
    let full = bare(safe);
    let name = name_of(repo_path);
    text::lemma_drop_front(safe, '_');
    text::lemma_drop_back(front, '_');
    text::lemma_tail(full, MAX_NAME_LEN as nat);
    text::lemma_chars_fit_in_bytes(name);
    let skipped = safe.len() - front.len() + full.len() - name.len();
    assert forall|i: int| 0 <= i < name.len() implies text::letter_or_digit(#[trigger] name[i])
        || name[i] == '_' by {
        assert(name[i] == full[full.len() - name.len() + i]);
        assert(name[i] == safe[skipped + i]);
    }
}

/// A name that fits is all of what is left of the path.
pub proof fn law_short_name_is_whole(repo_path: Seq<char>)
    requires
        text::utf8_len(bare(masked(repo_path, letters_and_digits(repo_path)))) <= MAX_NAME_LEN,
    ensures
        name_of(repo_path) == bare(masked(repo_path, letters_and_digits(repo_path))),
{
}

/// A longer name is cut no shorter than needed: it is the end of what is left of
/// the path, and takes more than 64 bytes less the longest character.
pub proof fn law_long_name_is_cut_once(repo_path: Seq<char>)
    requires
        text::utf8_len(bare(masked(repo_path, letters_and_digits(repo_path)))) > MAX_NAME_LEN,
    ensures
        text::has_suffix(
            bare(masked(repo_path, letters_and_digits(repo_path))),
            name_of(repo_path),
        ),
        text::utf8_len(name_of(repo_path)) > MAX_NAME_LEN - 4,
{
    let full = bare(masked(repo_path, letters_and_digits(repo_path)));
    let name = name_of(repo_path);
    text::lemma_tail(full, MAX_NAME_LEN as nat);
    if name.len() == full.len() {
        assert(full.skip(0) =~= full);
    } else {
        let more = full.skip(full.len() - name.len() - 1);
        assert(more.drop_first() =~= name);
    }
    assert(full.subrange(full.len() - name.len(), full.len() as int) =~= name);
}

proof fn lemma_drop_front_run(run: Seq<char>, s: Seq<char>, c: char)
    requires
        forall|i: int| 0 <= i < run.len() ==> #[trigger] run[i] == c,
    ensures
        text::drop_front(run + s, c) == text::drop_front(s, c),
    decreases run.len(),
{
    if run.len() > 0 {
        assert((run + s).drop_first() =~= run.drop_first() + s);
        assert forall|i: int| 0 <= i < run.drop_first().len() implies #[trigger] run.drop_first()[i]
            == c by {
            assert(run.drop_first()[i] == run[i + 1]);
        }
        lemma_drop_front_run(run.drop_first(), s, c);
    } else {
        assert(run + s =~= s);
    }
}

proof fn lemma_drop_back_run(s: Seq<char>, run: Seq<char>, c: char)
    requires
        forall|i: int| 0 <= i < run.len() ==> #[trigger] run[i] == c,
    ensures
        text::drop_back(s + run, c) == text::drop_back(s, c),
    decreases run.len(),
{
    if run.len() > 0 {
        assert((s + run).drop_last() =~= s + run.drop_last());
        assert((s + run).last() == run[run.len() - 1]);
        lemma_drop_back_run(s, run.drop_last(), c);
    } else {
        assert(s + run =~= s);
    }
}

proof fn lemma_drop_front_then(s: Seq<char>, run: Seq<char>, c: char)
    ensures
        text::drop_front(s, c).len() > 0 ==> text::drop_front(s + run, c) == text::drop_front(s, c)
            + run,
        text::drop_front(s, c).len() == 0 ==> text::drop_front(s + run, c) == text::drop_front(
            run,
            c,
        ),
    decreases s.len(),
{
    if s.len() > 0 && s[0] == c {
        assert((s + run).drop_first() =~= s.drop_first() + run);
        lemma_drop_front_then(s.drop_first(), run, c);
    } else if s.len() == 0 {
        assert(s + run =~= run);
    }
}

/// Runs of `_` around a text make no difference to what is bare of them.
proof fn lemma_bare_ignores_ends(a: Seq<char>, s: Seq<char>, b: Seq<char>)
    requires
        forall|i: int| 0 <= i < a.len() ==> #[trigger] a[i] == '_',
        forall|i: int| 0 <= i < b.len() ==> #[trigger] b[i] == '_',
    ensures
        bare(a + s + b) == bare(s),
{
    let front = text::drop_front(s, '_');
    assert(a + s + b =~= a + (s + b));
    lemma_drop_front_run(a, s + b, '_');
    lemma_drop_front_then(s, b, '_');
    if front.len() > 0 {
        lemma_drop_back_run(front, b, '_');
    } else {
        text::lemma_drop_front(b, '_');
        let rest = text::drop_front(b, '_');
        assert(rest.len() == 0) by {
            if rest.len() > 0 {
                assert(rest[0] == b[b.len() - rest.len()]);
            }
        }
        assert(rest =~= front);
    }
}

/// Separators around a path make no difference: with and without them it has the
/// same name.
pub proof fn law_separators_around_a_path(before: Seq<char>, path: Seq<char>, after: Seq<char>)
    requires
        forall|i: int| 0 <= i < before.len() ==> crate::is_separator(#[trigger] before[i]),
        forall|i: int| 0 <= i < after.len() ==> crate::is_separator(#[trigger] after[i]),
    ensures
        name_of(before + path + after) == name_of(path),
{
    let all = before + path + after;
    let a = masked(before, letters_and_digits(before));
    let p = masked(path, letters_and_digits(path));
    let b = masked(after, letters_and_digits(after));
    assert(masked(all, letters_and_digits(all)) =~= a + p + b);
    lemma_bare_ignores_ends(a, p, b);
}

/// A path whose name does not start with `_` for being cut there has the same name
/// as its name.
pub proof fn law_name_of_a_name(repo_path: Seq<char>)
    requires
        name_of(repo_path).len() > 0 ==> name_of(repo_path)[0] != '_',
    ensures
        name_of(name_of(repo_path)) == name_of(repo_path),
{
    law_name_is_safe(repo_path);
    let name = name_of(repo_path);
    assert(masked(name, letters_and_digits(name)) =~= name);
}

// ─── Places ──────────────────────────────────────────────────────────────

/// Where the data of a repository lies.
#[derive(Debug)]
pub struct DbLocation {
    /// The directory, as its components.
    pub directory: Vec<String>,
    pub namespace: String,
    pub database: String,
}

/// The directory below which all data lies, as its components below the home
/// directory.
pub open spec fn data_directory() -> Seq<Seq<char>> {
    seq![".vibervn"@, "context-engine"@, "surreal"@]
}

/// The data directory of a repository, as its components below the home directory.
pub open spec fn db_directory(repo_path: Seq<char>) -> Seq<Seq<char>> {
    data_directory().push(name_of(repo_path))
}

/// The data directory for a given repo, as its components: those of the home
/// directory, then those below it.
pub fn db_path(home_dir: &Vec<String>, repo_path: &str) -> (r: Vec<String>)
    ensures
        text::texts(r@) == text::texts(home_dir@) + db_directory(repo_path@),
{
    let mut out = clone_strings(home_dir);
    out.push(".vibervn".to_owned());
    out.push("context-engine".to_owned());
    out.push("surreal".to_owned());
    out.push(sanitize_repo_name(repo_path));
    assert(text::texts(out@) =~= text::texts(home_dir@) + db_directory(repo_path@));
    out
}

/// Where the database of a repo is opened.
pub fn open_db(home_dir: &Vec<String>, repo_path: &str) -> (r: DbLocation)
    ensures
        text::texts(r.directory@) == text::texts(home_dir@) + db_directory(repo_path@),
        r.namespace@ == "context_engine"@,
        r.database@ == name_of(repo_path@),
{
    DbLocation {
        directory: db_path(home_dir, repo_path),
        namespace: "context_engine".to_owned(),
        database: sanitize_repo_name(repo_path),
    }
}

/// A repository's data never leaves the data directory in the home directory: what
/// follows that is one component, the repository's name, which holds no separator,
/// dot or colon.
pub proof fn law_place_stays_below_the_data_directory(home: Seq<Seq<char>>, repo_path: Seq<char>)
    ensures
        home + db_directory(repo_path) == (home + data_directory()).push(name_of(repo_path)),
        forall|i: int|
            0 <= i < name_of(repo_path).len() ==> !crate::is_separator(
                #[trigger] name_of(repo_path)[i],
            ) && name_of(repo_path)[i] != '.' && name_of(repo_path)[i] != ':',
{
    law_name_is_safe(repo_path);
    assert(home + db_directory(repo_path) =~= (home + data_directory()).push(name_of(repo_path)));
}

/// Repositories of the same name have their data in the same place.
pub proof fn law_same_name_same_place(a: Seq<char>, b: Seq<char>)
    ensures
        name_of(a) == name_of(b) <==> db_directory(a) == db_directory(b),
{
    if db_directory(a) == db_directory(b) {
        assert(db_directory(a).last() == db_directory(b).last());
    }
}

// ─── Handles ─────────────────────────────────────────────────────────────

/// One open database handle per repo path.
///
/// A single datastore instance must back every read and write for a repo: a
/// datastore resolves its view when it is opened, so two instances on the same
/// on-disk path do not observe each other's commits. Indexer and server
/// therefore share one handle per repo via this map.
#[verifier::reject_recursive_types(H)]
pub struct RepoDbMap<H> {
    handles: StringHashMap<H>,
}

impl<H> View for RepoDbMap<H> {
    type V = Map<Seq<char>, H>;

    closed spec fn view(&self) -> Map<Seq<char>, H> {
        self.handles@
    }
}

/// The map after a handle was opened for `repo`: a handle that is already cached
/// is not replaced.
pub open spec fn admitted<H>(m: Map<Seq<char>, H>, repo: Seq<char>, opened: H) -> Map<
    Seq<char>,
    H,
> {
    if m.contains_key(repo) {
        m
    } else {
        m.insert(repo, opened)
    }
}

impl<H> RepoDbMap<H> {
    /// A map without handles.
    pub fn new() -> (r: Self)
        ensures
            r@ == Map::<Seq<char>, H>::empty(),
    {
        RepoDbMap { handles: StringHashMap::new() }
    }

    /// The handle that is cached for `repo`.
    pub fn get(&self, repo: &str) -> (r: Option<&H>)
        ensures
            match r {
                Some(h) => self@.contains_key(repo@) && *h == self@[repo@],
                None => !self@.contains_key(repo@),
            },
    {
        self.handles.get(repo)
    }
}

/// Takes in a handle that was opened for `repo` when none was cached for it. A
/// racing opener never replaces a handle that is already cached: `opened` is
/// handed back if there is one by now.
pub fn get_or_open<H>(repo_dbs: &mut RepoDbMap<H>, repo: &str, opened: H) -> (r: Option<H>)
    ensures
        final(repo_dbs)@ == admitted(old(repo_dbs)@, repo@, opened),
        r == if old(repo_dbs)@.contains_key(repo@) {
            Some(opened)
        } else {
            None
        },
{
    if repo_dbs.handles.contains_key(repo) {
        Some(opened)
    } else {
        repo_dbs.handles.insert(repo.to_owned(), opened);
        None
    }
}

/// The map after handles were opened in this order, each for a repo path.
pub open spec fn admitted_all<H>(m: Map<Seq<char>, H>, openings: Seq<(Seq<char>, H)>) -> Map<
    Seq<char>,
    H,
>
    decreases openings.len(),
{
    if openings.len() == 0 {
        m
    } else {
        admitted(
            admitted_all(m, openings.drop_last()),
            openings.last().0,
            openings.last().1,
        )
    }
}

/// All callers share one handle per repo: once a handle is cached, it stays,
/// whatever is opened after that.
pub proof fn law_cached_handle_stays<H>(
    m: Map<Seq<char>, H>,
    openings: Seq<(Seq<char>, H)>,
    repo: Seq<char>,
)
    requires
        m.contains_key(repo),
    ensures
        admitted_all(m, openings).contains_key(repo),
        admitted_all(m, openings)[repo] == m[repo],
    decreases openings.len(),
{
    if openings.len() > 0 {
        law_cached_handle_stays(m, openings.drop_last(), repo);
    }
}


// ─── Laws of names and handles ───────────────────────────────────────────

/// A name is a run of the path's characters, letters and digits as they are and `_`
/// for any other: behind the run there is no letter or digit, and before it there is
/// one only where the name would take more than 64 bytes with one character more. A
/// name that is not cut starts with a letter or digit.
pub proof fn law_name_is_a_run_of_the_path(path: Seq<char>) -> (from: int)
    ensures
        0 <= from <= from + name_of(path).len() <= path.len(),
        forall|i: int|
            0 <= i < name_of(path).len() ==> (#[trigger] name_of(path)[i]) == (
            if text::letter_or_digit(path[from + i]) {
                path[from + i]
            } else {
                '_'
            }),
        forall|i: int|
            from + name_of(path).len() <= i < path.len() ==> !text::letter_or_digit(
                #[trigger] path[i],
            ),
        (exists|i: int| 0 <= i < from && text::letter_or_digit(#[trigger] path[i])) ==> text::utf8_len(
            seq![
                if text::letter_or_digit(path[from - 1]) {
                    path[from - 1]
                } else {
                    '_'
                },
            ] + name_of(path),
        ) > MAX_NAME_LEN,
        (forall|i: int| 0 <= i < from ==> !text::letter_or_digit(#[trigger] path[i])) ==> name_of(
            path,
        ).len() == 0 || text::letter_or_digit(path[from]),
{
    let safe = masked(path, letters_and_digits(path));
    let front = text::drop_front(safe, '_');
    let full = bare(safe);
    let name = name_of(path);
    text::lemma_drop_front(safe, '_');
    text::lemma_drop_back(front, '_');
    text::lemma_tail(full, MAX_NAME_LEN as nat);
    let lead = safe.len() - front.len();
    let cut = full.len() - name.len();
    let from = lead + cut;
    assert forall|i: int| 0 <= i < name.len() implies (#[trigger] name[i]) == (
    if text::letter_or_digit(path[from + i]) {
        path[from + i]
    } else {
        '_'
    }) by {
        assert(name[i] == full[cut + i]);
        assert(full[cut + i] == front[cut + i]);
        assert(front[cut + i] == safe[from + i]);
    }
    assert forall|i: int|
        from + name.len() <= i < path.len() implies !text::letter_or_digit(#[trigger] path[i]) by {
        assert(front[i - lead] == safe[i]);
        assert(front[i - lead] == '_');
    }
    if exists|i: int| 0 <= i < from && text::letter_or_digit(#[trigger] path[i]) {
        let i = choose|i: int| 0 <= i < from && text::letter_or_digit(#[trigger] path[i]);
        assert(safe[i] != '_');
        assert(cut > 0);
        let more = full.skip(cut - 1);
        assert(full[cut - 1] == front[cut - 1]);
        assert(front[cut - 1] == safe[from - 1]);
        assert(more =~= seq![
            if text::letter_or_digit(path[from - 1]) {
                path[from - 1]
            } else {
                '_'
            },
        ] + name);
    }
    if forall|i: int| 0 <= i < from ==> !text::letter_or_digit(#[trigger] path[i]) {
        if cut > 0 {
            assert(front[0] == safe[lead]);
            assert(!text::letter_or_digit(path[lead]));
        }
        if name.len() > 0 {
            assert(name[0] == front[0]);
            assert(front[0] == safe[from]);
        }
    }
    from
}

/// The data of a repository lies in a directory of its name below
/// `.vibervn/context-engine/surreal`.
pub proof fn law_place_of_a_repo(repo_path: Seq<char>)
    ensures
        db_directory(repo_path).len() == 4,
        db_directory(repo_path)[0] == ".vibervn"@,
        db_directory(repo_path)[1] == "context-engine"@,
        db_directory(repo_path)[2] == "surreal"@,
        db_directory(repo_path)[3] == name_of(repo_path),
{
}

/// A handle is cached for its own repo if none is, and nothing else changes.
pub proof fn law_first_handle_is_cached<H>(
    m: Map<Seq<char>, H>,
    repo: Seq<char>,
    opened: H,
    other: Seq<char>,
)
    ensures
        admitted(m, repo, opened).contains_key(repo),
        admitted(m, repo, opened)[repo] == if m.contains_key(repo) {
            m[repo]
        } else {
            opened
        },
        other != repo ==> admitted(m, repo, opened).contains_key(other) == m.contains_key(other),
        other != repo && m.contains_key(other) ==> admitted(m, repo, opened)[other] == m[other],
{
}

} // verus!
