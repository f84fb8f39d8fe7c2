//! Finding the program a user named.
//!
//! Resolving in the parent turns the common failure into an ordinary
//! `Result` and means the shell never forks a process it is about to throw
//! away. What is on disk decides which candidate wins; the search order and
//! what each finding means are this module's rules.

use vstd::prelude::*;
use crate::text::{byte_len, chars_of, fits, string_of, utf8_len};

verus! {

// ---- what the search means ---------------------------------------------------

/// What a candidate path turned out to be.
#[derive(Debug, Clone, Copy, PartialEq, Eq, Structural)]
pub enum Candidate {
    /// An executable file.
    Executable,
    /// A file, but not one this process may execute.
    NotExecutable,
    /// Nothing, or a directory.
    Missing,
}

/// Why a program name could not be turned into a path to execute.
#[derive(Debug, Clone, PartialEq, Eq)]
pub enum ResolveError {
    /// No `PATH` entry contained an executable with this name.
    NotFound { program: String },
    /// A file was found, but it cannot be executed.
    ///
    /// Kept distinct from `NotFound` because the fixes are different — a
    /// missing `chmod +x` is not a typo — and because POSIX gives them
    /// different exit codes.
    NotExecutable { path: String },
}

/// What a [`ResolveError`] says.
pub enum ResolveErrorV {
    NotFound(Seq<char>),
    NotExecutable(Seq<char>),
}

impl View for ResolveError {
    type V = ResolveErrorV;

    open spec fn view(&self) -> ResolveErrorV {
        match self {
            ResolveError::NotFound { program } => ResolveErrorV::NotFound(program@),
            ResolveError::NotExecutable { path } => ResolveErrorV::NotExecutable(path@),
        }
    }
}

impl ResolveError {
    /// The message a user sees.
    pub fn message(&self) -> (s: String)
        ensures
            s@ == match self@ {
                ResolveErrorV::NotFound(p) => p + ": command not found"@,
                ResolveErrorV::NotExecutable(p) => p + ": permission denied"@,
            },
    {
        match self {
            ResolveError::NotFound { program } => {
                let mut s = program.clone();
                s.push_str(": command not found");
                s
            },
            ResolveError::NotExecutable { path } => {
                let mut s = path.clone();
                s.push_str(": permission denied");
                s
            },
        }
    }

    /// The status the shell reports: 127 for a command not found, 126 for
    /// one found but not executable.
    pub fn status(&self) -> (code: i32)
        ensures
            code == match self@ {
                ResolveErrorV::NotFound(_) => 127i32,
                ResolveErrorV::NotExecutable(_) => 126i32,
            },
    {
        match self {
            ResolveError::NotFound { .. } => crate::status::EXIT_NOT_FOUND,
            ResolveError::NotExecutable { .. } => crate::status::EXIT_NOT_EXECUTABLE,
        }
    }
}

/// The entries of a `PATH`-style list, split at every `:`, from index `i`
/// with `cur` the entry in progress.
pub open spec fn split_from(s: Seq<char>, i: int, cur: Seq<char>, acc: Seq<Seq<char>>) -> Seq<
    Seq<char>,
>
    decreases s.len() - i,
{
    if i >= s.len() {
        acc.push(cur)
    } else if s[i] == ':' {
        split_from(s, i + 1, seq![], acc.push(cur))
    } else {
        split_from(s, i + 1, cur.push(s[i]), acc)
    }
}

/// The entries of a `PATH`-style list. An empty list has one empty entry.
pub open spec fn split_path(s: Seq<char>) -> Seq<Seq<char>> {
    split_from(s, 0, seq![], seq![])
}

/// `dir` joined with a relative name: a `/` between them unless `dir`
/// already ends with one.
pub open spec fn join(dir: Seq<char>, name: Seq<char>) -> Seq<char> {
    if dir.len() > 0 && dir.last() == '/' {
        dir + name
    } else {
        dir + seq!['/'] + name
    }
}

/// Where to look for a program named without a `/`: each `PATH` entry in
/// order, an empty entry meaning the current directory. An unset `PATH`
/// is an empty one.
pub open spec fn candidates_spec(program: Seq<char>, path_var: Option<Seq<char>>) -> Seq<
    Seq<char>,
> {
    let entries = split_path(
        match path_var {
            Some(p) => p,
            None => seq![],
        },
    );
    Seq::new(
        entries.len(),
        |i: int|
            join(
                if entries[i].len() == 0 {
                    seq!['.']
                } else {
                    entries[i]
                },
                program,
            ),
    )
}

/// The answer, given what each candidate was found to be, in order: the
/// first executable wins; failing that, the first found-but-unusable file is
/// reported; failing that, the program was not found.
pub open spec fn pick(
    program: Seq<char>,
    cands: Seq<Seq<char>>,
    classes: Seq<Candidate>,
    i: int,
    rejected: Option<Seq<char>>,
) -> Result<Seq<char>, ResolveErrorV>
    decreases classes.len() - i,
{
    if i < 0 || i >= classes.len() {
        match rejected {
            Some(p) => Err(ResolveErrorV::NotExecutable(p)),
            None => Err(ResolveErrorV::NotFound(program)),
        }
    } else {
        match classes[i] {
            Candidate::Executable => Ok(cands[i]),
            Candidate::NotExecutable => pick(
                program,
                cands,
                classes,
                i + 1,
                if rejected is None {
                    Some(cands[i])
                } else {
                    rejected
                },
            ),
            Candidate::Missing => pick(program, cands, classes, i + 1, rejected),
        }
    }
}

/// A name with a `/` is a path, used as given.
pub open spec fn direct_spec(program: Seq<char>, class: Candidate) -> Result<
    Seq<char>,
    ResolveErrorV,
> {
    match class {
        Candidate::Executable => Ok(program),
        Candidate::NotExecutable => Err(ResolveErrorV::NotExecutable(program)),
        Candidate::Missing => Err(ResolveErrorV::NotFound(program)),
    }
}

/// The view of a resolution's result.
pub open spec fn result_view(r: Result<String, ResolveError>) -> Result<Seq<char>, ResolveErrorV> {
    match r {
        Ok(s) => Ok(s@),
        Err(e) => Err(e@),
    }
}

/// The text of an optional `PATH`.
pub open spec fn path_view(p: Option<&str>) -> Option<Seq<char>> {
    match p {
        Some(s) => Some(s@),
        None => None,
    }
}

/// A file mode's type bits say "directory".
pub open spec fn mode_is_dir(mode: u32) -> bool {
    mode & 0o170000u32 == 0o040000u32
}

// ---- the search -----------------------------------------------------------------

/// `nix::sys::stat::stat`: the mode of the file a path names, following
/// symbolic links, or `None` if it cannot be examined. What is on disk
/// decides, so nothing is promised of the result.
#[verifier::external_body]
fn file_mode(path: &str) -> (r: Option<u32>) {
    match nix::sys::stat::stat(path) {
        Ok(st) => Some(st.st_mode as u32),
        Err(_) => None,
    }
}

/// `nix::unistd::access` with `X_OK`: whether the kernel would let this
/// process execute the path. What is on disk decides, so nothing is promised
/// of the result.
#[verifier::external_body]
fn may_execute(path: &str) -> (r: bool) {
    match nix::unistd::access(path, nix::unistd::AccessFlags::X_OK) {
        Ok(()) => true,
        Err(_) => false,
    }
}

/// What a path is, given what examining it found: missing if it could not
/// be examined or is a directory, executable if the kernel says so, and
/// otherwise a file that cannot be executed.
pub open spec fn candidate_spec(mode: Option<u32>, executable: bool) -> Candidate {
    match mode {
        None => Candidate::Missing,
        Some(m) => if mode_is_dir(m) {
            Candidate::Missing
        } else if executable {
            Candidate::Executable
        } else {
            Candidate::NotExecutable
        },
    }
}

/// Decide what a path is from its mode, if it could be examined, and from
/// whether the kernel would let this process execute it.
///
/// Directories are excluded explicitly: a directory with the command's name
/// is searchable, so `access(X_OK)` says yes, and `exec` would then fail
/// inside the child.
pub fn candidate_of(mode: Option<u32>, executable: bool) -> (c: Candidate)
    ensures
        c == candidate_spec(mode, executable),
{
    match mode {
        None => Candidate::Missing,
        Some(m) => {
            if m & 0o170000 == 0o040000 {
                Candidate::Missing
            } else if executable {
                Candidate::Executable
            } else {
                Candidate::NotExecutable
            }
        },
    }
}

/// `mode` and `executable` are what examining `path` on disk gave: the
/// mode `stat` reported for it, and, for something that exists and is not a
/// directory, whether `access` would let this process execute it.
pub closed spec fn examined(path: &str, mode: Option<u32>, executable: bool) -> bool {
    &&& call_ensures(file_mode, (path,), mode)
    &&& match mode {
        Some(m) => if mode_is_dir(m) {
            !executable
        } else {
            call_ensures(may_execute, (path,), executable)
        },
        None => !executable,
    }
}

/// `c` is what examining the path `p` on disk decided.
pub open spec fn classified(p: Seq<char>, c: Candidate) -> bool {
    exists|s: &str| s@ == p && #[trigger] call_ensures(classify, (s,), c)
}

/// Examine a path on disk and decide what it is. The kernel is asked about
/// execution only for something that exists and is not a directory.
pub fn classify(path: &str) -> (c: Candidate)
    ensures
        exists|mode: Option<u32>, executable: bool|
            examined(path, mode, executable) && c == #[trigger] candidate_spec(mode, executable),
{
    let mode = file_mode(path);
    assert(call_ensures(file_mode, (path,), mode));
    let executable = match mode {
        Some(m) => if m & 0o170000 == 0o040000 {
            false
        } else {
            let x = may_execute(path);
            assert(call_ensures(may_execute, (path,), x));
            x
        },
        None => false,
    };
    assert(examined(path, mode, executable));
    candidate_of(mode, executable)
}

/// Whether a character sequence contains `c`.
fn has_char(s: &Vec<char>, c: char) -> (b: bool)
    ensures
        b == s@.contains(c),
{
    let mut i: usize = 0;
    while i < s.len()
        invariant
            i <= s@.len(),
            forall|k: int| 0 <= k < i ==> s@[k] != c,
        decreases s.len() - i,
    {
        if s[i] == c {
            assert(s@[i as int] == c);
            return true;
        }
        i = i + 1;
    }
    false
}

/// The entries of a `PATH`-style list, in order.
pub fn split_path_list(list: &str) -> (entries: Vec<String>)
    ensures
        crate::text::strings_view(entries@) == split_path(list@),
{
    let s = chars_of(list);
    let mut acc: Vec<String> = Vec::new();
    let mut cur: Vec<char> = Vec::new();
    let ghost goal = split_path(list@);
    assert(crate::text::strings_view(acc@) =~= Seq::<Seq<char>>::empty());
    let mut i: usize = 0;
    while i < s.len()
        invariant
            i <= s@.len(),
            s@ == list@,
            goal == split_from(s@, i as int, cur@, crate::text::strings_view(acc@)),
        decreases s.len() - i,
    {
        if s[i] == ':' {
            let entry = string_of(cur.as_slice());
            proof {
                crate::text::lemma_strings_view_push(acc@, entry);
            }
            acc.push(entry);
            cur = Vec::new();
            assert(cur@ =~= Seq::<char>::empty());
        } else {
            cur.push(s[i]);
        }
        i = i + 1;
    }
    let entry = string_of(cur.as_slice());
    proof {
        crate::text::lemma_strings_view_push(acc@, entry);
    }
    acc.push(entry);
    acc
}

/// `dir` joined with a relative name.
fn join_path(dir: &str, name: &str) -> (s: String)
    ensures
        s@ == join(dir@, name@),
{
    let d = chars_of(dir);
    let mut s = dir.to_owned();
    if !(d.len() > 0 && d[d.len() - 1] == '/') {
        s.push('/');
    }
    s.push_str(name);
    s
}

/// Where to look for a program named without a `/`, in order.
pub fn candidates(program: &str, path_var: Option<&str>) -> (v: Vec<String>)
    ensures
        crate::text::strings_view(v@) == candidates_spec(program@, path_view(path_var)),
{
    let list = match path_var {
        Some(p) => p,
        None => "",
    };
    let entries = split_path_list(list);
    let ghost es = crate::text::strings_view(entries@);
    let ghost want = candidates_spec(program@, path_view(path_var));
    proof {
        reveal_strlit("");
        reveal_strlit(".");
        assert(es == split_path(
            match path_var {
                Some(p) => p@,
                None => Seq::<char>::empty(),
            },
        ));
    }
    let mut v: Vec<String> = Vec::new();
    let mut i: usize = 0;
    while i < entries.len()
        invariant
            i <= entries@.len(),
            es == crate::text::strings_view(entries@),
            want.len() == es.len(),
            forall|k: int| 0 <= k < want.len() ==> #[trigger] want[k] == join(
                if es[k].len() == 0 {
                    seq!['.']
                } else {
                    es[k]
                },
                program@,
            ),
            crate::text::strings_view(v@) == want.take(i as int),
        decreases entries.len() - i,
    {
        let dir: &str = if entries[i].as_str().is_empty() {
            "."
        } else {
            entries[i].as_str()
        };
        proof {
            reveal_strlit(".");
            assert(es[i as int] == entries@[i as int]@);
            if es[i as int].len() == 0 {
                assert(dir@ =~= seq!['.']);
            }
        }
        let c = join_path(dir, program);
        proof {
            crate::text::lemma_strings_view_push(v@, c);
        }
        v.push(c);
        i = i + 1;
        assert(crate::text::strings_view(v@) =~= want.take(i as int));
    }
    assert(want.take(i as int) =~= want);
    v
}

/// The answer, given what the first candidates were found to be: the first
/// executable wins, then the first unusable file, then "not found".
pub fn pick_candidate(program: &str, cands: &Vec<String>, classes: &Vec<Candidate>) -> (r: Result<
    String,
    ResolveError,
>)
    requires
        classes@.len() <= cands@.len(),
    ensures
        result_view(r) == pick(program@, crate::text::strings_view(cands@), classes@, 0, None),
{
    let ghost cs = crate::text::strings_view(cands@);
    let ghost goal = pick(program@, cs, classes@, 0, None);
    let mut rejected: Option<usize> = None;
    let mut i: usize = 0;
    while i < classes.len()
        invariant
            i <= classes@.len() <= cands@.len(),
            cs == crate::text::strings_view(cands@),
            rejected matches Some(k) ==> k < cands@.len(),
            goal == pick(program@, cs, classes@, 0, None),
            goal == pick(
                program@,
                cs,
                classes@,
                i as int,
                match rejected {
                    Some(k) => Some(cs[k as int]),
                    None => None,
                },
            ),
        decreases classes.len() - i,
    {
        assert(cs[i as int] == cands@[i as int]@);
        match classes[i] {
            Candidate::Executable => {
                return Ok(cands[i].clone());
            },
            Candidate::NotExecutable => {
                if rejected.is_none() {
                    rejected = Some(i);
                }
            },
            Candidate::Missing => {},
        }
        i = i + 1;
    }
    match rejected {
        Some(k) => {
            assert(cs[k as int] == cands@[k as int]@);
            Err(ResolveError::NotExecutable { path: cands[k].clone() })
        },
        None => Err(ResolveError::NotFound { program: program.to_owned() }),
    }
}

/// Resolve a command name to an executable path.
///
/// A name containing `/` is a path, used as given, and `PATH` is never
/// consulted. Otherwise each `PATH` entry is tried left to right, an empty
/// entry meaning the current directory, and the first candidate that exists
/// and is executable wins. What is on disk decides each candidate; whatever
/// it says, the answer is the one [`pick`] gives for it.
pub fn resolve(program: &str, path_var: Option<&str>) -> (r: Result<String, ResolveError>)
    ensures
        program@.contains('/') ==> exists|class: Candidate|
            classified(program@, class) && result_view(r) == #[trigger] direct_spec(
                program@,
                class,
            ),
        !program@.contains('/') ==> exists|classes: Seq<Candidate>|
            {
                &&& classes.len() <= candidates_spec(program@, path_view(path_var)).len()
                &&& classes.len() == candidates_spec(program@, path_view(path_var)).len()
                    || classes.last() == Candidate::Executable
                &&& forall|i: int|
                    0 <= i < classes.len() - 1 ==> #[trigger] classes[i] != Candidate::Executable
                &&& forall|i: int|
                    0 <= i < classes.len() ==> classified(
                        candidates_spec(program@, path_view(path_var))[i],
                        #[trigger] classes[i],
                    )
                &&& result_view(r) == #[trigger] pick(
                    program@,
                    candidates_spec(program@, path_view(path_var)),
                    classes,
                    0,
                    None,
                )
            },
{
    let name = chars_of(program);
    if has_char(&name, '/') {
        let class = classify(program);
        assert(call_ensures(classify, (program,), class));
        let r = match class {
            Candidate::Executable => Ok(program.to_owned()),
            Candidate::NotExecutable => Err(ResolveError::NotExecutable { path: program.to_owned() }),
            Candidate::Missing => Err(ResolveError::NotFound { program: program.to_owned() }),
        };
        assert(result_view(r) == direct_spec(program@, class));
        return r;
    }
    let cands = candidates(program, path_var);
    let ghost cs = crate::text::strings_view(cands@);
    let mut classes: Vec<Candidate> = Vec::new();
    let mut i: usize = 0;
    while i < cands.len()
        invariant_except_break
            i <= cands@.len(),
            classes@.len() == i,
            cs == crate::text::strings_view(cands@),
            forall|k: int| 0 <= k < i ==> #[trigger] classes@[k] != Candidate::Executable,
            forall|k: int| 0 <= k < i ==> classified(cs[k], #[trigger] classes@[k]),
        ensures
            classes@.len() <= cands@.len(),
            classes@.len() == cands@.len() || classes@.last() == Candidate::Executable,
            forall|k: int|
                0 <= k < classes@.len() - 1 ==> #[trigger] classes@[k] != Candidate::Executable,
            forall|k: int| 0 <= k < classes@.len() ==> classified(cs[k], #[trigger] classes@[k]),
        decreases cands.len() - i,
    {
        let p = cands[i].as_str();
        let class = classify(p);
        assert(call_ensures(classify, (p,), class));
        assert(cs[i as int] == cands@[i as int]@);
        assert(classified(cs[i as int], class));
        classes.push(class);
        i = i + 1;
        if class == Candidate::Executable {
            break;
        }
    }
    let r = pick_candidate(program, &cands, &classes);
    r
}

// ---- suggestions ----------------------------------------------------------------

/// Levenshtein distance between the first `i` characters of `a` and the
/// first `j` of `b`: how many single-character insertions, deletions and
/// substitutions separate them.
pub open spec fn lev(a: Seq<char>, b: Seq<char>, i: int, j: int) -> nat
    decreases i + j,
{
    if i <= 0 {
        if j <= 0 {
            0
        } else {
            j as nat
        }
    } else if j <= 0 {
        i as nat
    } else if a[i - 1] == b[j - 1] {
        lev(a, b, i - 1, j - 1)
    } else {
        let d = lev(a, b, i - 1, j - 1);
        let up = lev(a, b, i - 1, j);
        let left = lev(a, b, i, j - 1);
        1 + if d <= up && d <= left {
            d
        } else if up <= left {
            up
        } else {
            left
        }
    }
}

/// The edit distance between two whole strings.
pub open spec fn edit_distance_spec(a: Seq<char>, b: Seq<char>) -> nat {
    lev(a, b, a.len() as int, b.len() as int)
}

/// No more edits than the longer prefix has characters.
proof fn lemma_lev_bound(a: Seq<char>, b: Seq<char>, i: int, j: int)
    requires
        0 <= i,
        0 <= j,
    ensures
        lev(a, b, i, j) <= if i >= j {
            i
        } else {
            j
        },
    decreases i + j,
{
    if i > 0 && j > 0 {
        lemma_lev_bound(a, b, i - 1, j - 1);
        lemma_lev_bound(a, b, i - 1, j);
        lemma_lev_bound(a, b, i, j - 1);
    }
}

/// A string is no edits away from itself.
pub proof fn law_distance_to_self(a: Seq<char>, i: int)
    requires
        0 <= i <= a.len(),
    ensures
        lev(a, a, i, i) == 0,
    decreases i,
{
    if i > 0 {
        law_distance_to_self(a, i - 1);
    }
}

/// Levenshtein distance: how many single-character edits separate two
/// strings.
///
/// The usual dynamic-programming formulation, keeping one row rather than
/// the whole table.
pub fn edit_distance(left: &str, right: &str) -> (d: usize)
    requires
        right@.len() < usize::MAX,
    ensures
        d == edit_distance_spec(left@, right@),
{
    let a = chars_of(left);
    let b = chars_of(right);
    let n = a.len();
    let m = b.len();
    let mut row: Vec<usize> = Vec::new();
    let mut k: usize = 0;
    while k <= m
        invariant
            k <= m + 1,
            m == b@.len(),
            m < usize::MAX,
            row@.len() == k,
            forall|x: int| 0 <= x < k ==> row@[x] == lev(a@, b@, 0, x),
        decreases m + 1 - k,
    {
        row.push(k);
        k = k + 1;
    }
    let mut i: usize = 0;
    while i < n
        invariant
            i <= n,
            n == a@.len(),
            m == b@.len(),
            m < usize::MAX,
            row@.len() == m + 1,
            forall|x: int| 0 <= x <= m ==> row@[x] == lev(a@, b@, i as int, x),
        decreases n - i,
    {
        let mut diagonal = row[0];
        row.set(0, i + 1);
        let mut j: usize = 0;
        while j < m
            invariant
                i < n,
                j <= m,
                m < usize::MAX,
                n == a@.len(),
                m == b@.len(),
                row@.len() == m + 1,
                forall|x: int| 0 <= x <= j ==> row@[x] == lev(a@, b@, i + 1, x),
                forall|x: int| j < x <= m ==> row@[x] == lev(a@, b@, i as int, x),
                diagonal == lev(a@, b@, i as int, j as int),
            decreases m - j,
        {
            let above = row[j + 1];
            proof {
                lemma_lev_bound(a@, b@, i as int, j as int);
            }
            let value = if a[i] == b[j] {
                diagonal
            } else {
                let left = row[j];
                let smallest = if diagonal <= above && diagonal <= left {
                    diagonal
                } else if above <= left {
                    above
                } else {
                    left
                };
                1 + smallest
            };
            row.set(j + 1, value);
            diagonal = above;
            j = j + 1;
        }
        i = i + 1;
    }
    row[m]
}

/// How many edits a suggestion may be from a name of this many bytes:
/// none for names of two bytes or fewer, one up to five, two beyond.
pub open spec fn tolerance_spec(len: nat) -> Option<nat> {
    if len <= 2 {
        None
    } else if len <= 5 {
        Some(1)
    } else {
        Some(2)
    }
}

/// Whether `name` is a plausible typo target for `program`: its length in
/// bytes within the tolerance, and between one and `tol` edits away.
pub open spec fn near(program: Seq<char>, name: Seq<char>, tol: nat) -> bool {
    let lp = byte_len(program) as int;
    let ln = byte_len(name) as int;
    &&& fits(name)
    &&& (if ln >= lp {
        ln - lp
    } else {
        lp - ln
    }) <= tol
    &&& 0 < edit_distance_spec(program, name) <= tol
}

/// The closest near name from index `i` on, ties going to the earlier one.
pub open spec fn closest_from(
    program: Seq<char>,
    names: Seq<Seq<char>>,
    tol: nat,
    i: int,
    best: Option<(nat, Seq<char>)>,
) -> Option<(nat, Seq<char>)>
    decreases names.len() - i,
{
    if i < 0 || i >= names.len() {
        best
    } else if near(program, names[i], tol) && (best is None || edit_distance_spec(
        program,
        names[i],
    ) < (best->0).0) {
        closest_from(
            program,
            names,
            tol,
            i + 1,
            Some((edit_distance_spec(program, names[i]), names[i])),
        )
    } else {
        closest_from(program, names, tol, i + 1, best)
    }
}

/// The suggestion for a name that was not found, among the given names.
pub open spec fn closest_spec(program: Seq<char>, names: Seq<Seq<char>>) -> Option<Seq<char>> {
    match tolerance_spec(byte_len(program)) {
        None => None,
        Some(tol) => match closest_from(program, names, tol, 0, None) {
            Some((_, name)) => Some(name),
            None => None,
        },
    }
}

proof fn lemma_closest_from(
    program: Seq<char>,
    names: Seq<Seq<char>>,
    tol: nat,
    i: int,
    best: Option<(nat, Seq<char>)>,
)
    requires
        0 <= i,
        best matches Some((d, n)) ==> names.contains(n) && near(program, n, tol) && d
            == edit_distance_spec(program, n),
        forall|k: int|
            0 <= k < i && k < names.len() && near(program, #[trigger] names[k], tol) ==> (
            best matches Some((d, _)) && d <= edit_distance_spec(program, names[k])),
    ensures
        closest_from(program, names, tol, i, best) matches Some((d, n)) ==> names.contains(n)
            && near(program, n, tol) && d == edit_distance_spec(program, n) && forall|k: int|
            0 <= k < names.len() && near(program, #[trigger] names[k], tol) ==> d
                <= edit_distance_spec(program, names[k]),
        best is Some ==> closest_from(program, names, tol, i, best) is Some,
    decreases names.len() - i,
{
    if i < names.len() {
        if near(program, names[i], tol) && (best is None || edit_distance_spec(program, names[i])
            < (best->0).0) {
            let nb = Some((edit_distance_spec(program, names[i]), names[i]));
            assert(names.contains(names[i]));
            lemma_closest_from(program, names, tol, i + 1, nb);
        } else {
            lemma_closest_from(program, names, tol, i + 1, best);
        }
    }
}

/// A suggestion is a near miss and never the name itself: it is one of the
/// names offered, between one and the tolerance's edits away, and no
/// offered name that is near enough is closer. Names of two bytes or fewer
/// are never guessed at.
pub proof fn law_suggestion_is_the_closest_near_miss(program: Seq<char>, names: Seq<Seq<char>>)
    ensures
        byte_len(program) <= 2 ==> closest_spec(program, names) is None,
        closest_spec(program, names) matches Some(s) ==> {
            let tol = tolerance_spec(byte_len(program))->0;
            &&& names.contains(s)
            &&& s != program
            &&& 0 < edit_distance_spec(program, s) <= tol
            &&& forall|k: int|
                0 <= k < names.len() && near(program, #[trigger] names[k], tol)
                    ==> edit_distance_spec(program, s) <= edit_distance_spec(program, names[k])
        },
{
    match tolerance_spec(byte_len(program)) {
        None => {},
        Some(tol) => {
            lemma_closest_from(program, names, tol, 0, None);
            law_distance_to_self(program, program.len() as int);
        },
    }
}

/// How many edits a suggestion may be from this name, if any suggestion
/// is worth making.
pub fn tolerance(program: &str) -> (t: Option<usize>)
    requires
        fits(program@),
    ensures
        t == match tolerance_spec(byte_len(program@)) {
            Some(n) => Some(n as usize),
            None => None::<usize>,
        },
{
    let len = match utf8_len(chars_of(program).as_slice()) {
        Some(n) => n,
        None => {
            return None;
        },
    };
    if len <= 2 {
        None
    } else if len <= 5 {
        Some(1)
    } else {
        Some(2)
    }
}

/// The closest of `names` to a name that was not found, if any is close
/// enough to be a likely typo.
///
/// Returns nothing rather than a poor guess, never suggests the name back to
/// itself, and gives ties to whichever name comes first.
pub fn closest(program: &str, names: &Vec<String>) -> (r: Option<String>)
    requires
        fits(program@),
        forall|i: int| 0 <= i < names@.len() ==> (#[trigger] names@[i])@.len() < usize::MAX,
    ensures
        match r {
            Some(s) => closest_spec(program@, crate::text::strings_view(names@)) == Some(s@),
            None => closest_spec(program@, crate::text::strings_view(names@)) is None,
        },
{
    let tol = match tolerance(program) {
        Some(t) => t,
        None => {
            return None;
        },
    };
    let ghost ns = crate::text::strings_view(names@);
    let plen = match utf8_len(chars_of(program).as_slice()) {
        Some(n) => n,
        None => {
            return None;
        },
    };
    let ghost goal = closest_from(program@, ns, tol as nat, 0, None);
    let mut best: Option<(usize, usize)> = None;
    let mut i: usize = 0;
    while i < names.len()
        invariant
            i <= names@.len(),
            ns == crate::text::strings_view(names@),
            plen == byte_len(program@),
            forall|x: int| 0 <= x < names@.len() ==> (#[trigger] names@[x])@.len() < usize::MAX,
            best matches Some((_, k)) ==> k < names@.len(),
            goal == closest_from(
                program@,
                ns,
                tol as nat,
                i as int,
                match best {
                    Some((d, k)) => Some((d as nat, ns[k as int])),
                    None => None,
                },
            ),
        decreases names.len() - i,
    {
        assert(ns[i as int] == names@[i as int]@);
        let name = names[i].as_str();
        let nlen = utf8_len(chars_of(name).as_slice());
        let length_ok = match nlen {
            Some(l) => {
                let diff = if l >= plen {
                    l - plen
                } else {
                    plen - l
                };
                diff <= tol
            },
            None => false,
        };
        if length_ok {
            let distance = edit_distance(program, name);
            let better = match best {
                None => true,
                Some((d, _)) => distance < d,
            };
            if distance != 0 && distance <= tol && better {
                best = Some((distance, i));
            }
        }
        i = i + 1;
    }
    match best {
        Some((_, k)) => Some(names[k].clone()),
        None => None,
    }
}

} // verus!
