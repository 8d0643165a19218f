//! Canonical trace-path helpers: the one place that knows the filename shape,
//! the root, and how to tell the newest trace.

use vstd::prelude::*;
use vstd::string::StringExecFns;
use crate::text;
use std::path::{Path, PathBuf};

verus! {

/// Directory all traces live under, relative to the working directory.
pub const ROOT: &'static str = "traces";

/// How often a tie-breaker is tried before the search for a name is given up.
pub const MAX_TRIES: u32 = 999;

// ---- paths ---------------------------------------------------------------

/// An owned path of the platform.
#[verifier::external_type_specification]
#[verifier::external_body]
pub struct ExPathBuf(PathBuf);

/// A borrowed path of the platform.
#[verifier::external_type_specification]
#[verifier::external_body]
pub struct ExPath(Path);

/// The path that `PathBuf::from` makes of a text.
pub uninterp spec fn path_of(text: Seq<char>) -> PathBuf;

/// The path that `Path::join` makes of a directory and a name.
pub uninterp spec fn path_in(dir: &Path, name: Seq<char>) -> PathBuf;

/// `PathBuf::from` on a string slice: the path is named after the text alone.
#[verifier::external_body]
fn to_path(s: &str) -> (p: PathBuf)
    ensures
        p == path_of(s@),
{
    PathBuf::from(s)
}

/// `Path::join` with a string slice: the path is named after the directory and
/// the name alone.
#[verifier::external_body]
fn join_path(dir: &Path, name: &str) -> (p: PathBuf)
    ensures
        p == path_in(dir, name@),
{
    dir.join(name)
}

/// The trace root: the relative directory [`ROOT`].
pub fn trace_root() -> (root: PathBuf)
    ensures
        root == path_of("traces"@),
{
    to_path(ROOT)
}

/// Full path for a run: `<root>/<stamp>-ux.jsonl.gz`.
pub fn file_path(root: &Path, stamp: &str) -> (path: PathBuf)
    ensures
        path == path_in(root, name_of(stamp@)),
{
    let name = file_name(stamp);
    join_path(root, name.as_str())
}

}

verus! {

// ---- names ---------------------------------------------------------------

/// Suffix of every trace file.
pub open spec fn suffix() -> Seq<char> {
    "-ux.jsonl.gz"@
}

/// The name of the trace stamped `stamp`.
pub open spec fn name_of(stamp: Seq<char>) -> Seq<char> {
    stamp + suffix()
}

/// The `n`-th name that is tried for a stamp: the bare one, then those with a
/// tie-breaker.
pub open spec fn candidate(stamp: Seq<char>, n: nat) -> Seq<char> {
    if n == 0 {
        name_of(stamp)
    } else {
        stamp + "."@ + text::padded(n, 3) + suffix()
    }
}

/// The file name for a run stamped `stamp`: `<stamp>-ux.jsonl.gz`.
pub fn file_name(stamp: &str) -> (name: String)
    ensures
        name@ == name_of(stamp@),
{
    let mut name = String::new();
    name.append(stamp);
    name.append("-ux.jsonl.gz");
    name
}

/// The `n`-th name to try for a run stamped `stamp`.
pub fn candidate_name(stamp: &str, n: u32) -> (name: String)
    ensures
        name@ == candidate(stamp@, n as nat),
{
    if n == 0 {
        return file_name(stamp);
    }
    let mut name = String::new();
    name.append(stamp);
    name.append(".");
    text::push_padded(&mut name, n as u64, 3);
    name.append("-ux.jsonl.gz");
    name
}

// ---- taking a free name --------------------------------------------------

/// What came of opening one candidate for exclusive creation.
#[derive(Clone, Copy, PartialEq, Eq, Structural, Debug)]
pub enum Attempt {
    /// The file is there now, and it is ours.
    Created,
    /// A file of that name existed already.
    Taken,
    /// Any other failure.
    Failed,
}

/// What the search for a free name does after an attempt.
#[derive(PartialEq, Eq, Debug)]
pub enum Step {
    /// Keep the file of this name.
    Keep(String),
    /// Try the candidate of this number.
    Retry(u32),
    /// Hand the failure of the attempt on.
    Fail,
    /// Give up with this message.
    GiveUp(String),
}

/// The Debug form of a text: in double quotes, with escapes.
pub uninterp spec fn quoted(s: Seq<char>) -> Seq<char>;

/// `format!` with the `{:?}` form of a string slice, which is named after the
/// slice alone.
#[verifier::external_body]
pub(crate) fn debug_text(s: &str) -> (q: String)
    ensures
        q@ == quoted(s@),
{
    format!("{s:?}")
}

/// The message of a search that found every candidate taken.
pub open spec fn exhausted(stamp: Seq<char>) -> Seq<char> {
    "could not find a free trace filename for stamp "@ + quoted(stamp) + " after 999 tries"@
}

/// What the search for a free name does after an attempt, as a mathematical value.
pub enum SearchStep {
    Keep(Seq<char>),
    Retry(nat),
    Fail,
    GiveUp(Seq<char>),
}

impl View for Step {
    type V = SearchStep;

    open spec fn view(&self) -> SearchStep {
        match *self {
            Step::Keep(name) => SearchStep::Keep(name@),
            Step::Retry(n) => SearchStep::Retry(n as nat),
            Step::Fail => SearchStep::Fail,
            Step::GiveUp(text) => SearchStep::GiveUp(text@),
        }
    }
}

/// The step after candidate `n` of `stamp` was opened with outcome `attempt`.
pub open spec fn step_after(stamp: Seq<char>, n: nat, attempt: Attempt) -> SearchStep {
    match attempt {
        Attempt::Created => SearchStep::Keep(candidate(stamp, n)),
        Attempt::Failed => SearchStep::Fail,
        Attempt::Taken => if n < MAX_TRIES {
            SearchStep::Retry(n + 1)
        } else {
            SearchStep::GiveUp(exhausted(stamp))
        },
    }
}

/// What a search from candidate `n` on ends with, where `outcome` says what comes
/// of opening the candidate of each number.
pub open spec fn search(stamp: Seq<char>, n: nat, outcome: spec_fn(nat) -> Attempt) -> SearchStep
    decreases MAX_TRIES + 1 - n,
{
    match step_after(stamp, n, outcome(n)) {
        SearchStep::Retry(next) => if n < next <= MAX_TRIES {
            search(stamp, next, outcome)
        } else {
            SearchStep::Retry(next)
        },
        end => end,
    }
}

/// What comes of opening each candidate of `stamp` where the names in `taken` are
/// taken and nothing else goes wrong.
pub open spec fn where_taken(stamp: Seq<char>, taken: Set<Seq<char>>) -> spec_fn(nat) -> Attempt {
    |n: nat|
        if taken.contains(candidate(stamp, n)) {
            Attempt::Taken
        } else {
            Attempt::Created
        }
}

/// The step after candidate `n` of `stamp` was opened with outcome `attempt`.
/// A trace is never truncated or overwritten: a taken name is passed over, and
/// the next number is tried, up to [`MAX_TRIES`].
pub fn after_attempt(stamp: &str, n: u32, attempt: Attempt) -> (step: Step)
    ensures
        step@ == step_after(stamp@, n as nat, attempt),
{
    match attempt {
        Attempt::Created => Step::Keep(candidate_name(stamp, n)),
        Attempt::Failed => Step::Fail,
        Attempt::Taken => {
            if n < MAX_TRIES {
                Step::Retry(n + 1)
            } else {
                let mut text = String::new();
                text.append("could not find a free trace filename for stamp ");
                text.append(debug_text(stamp).as_str());
                text.append(" after 999 tries");
                Step::GiveUp(text)
            }
        },
    }
}

// ---- the newest trace ----------------------------------------------------

/// One entry of the trace root.
#[derive(PartialEq, Eq, Debug)]
pub struct Entry {
    /// Whether it is known to be a plain file.
    pub is_file: bool,
    /// Its name, where that is text.
    pub name: Option<String>,
}

impl Entry {
    /// Whether the entry is a trace: a file with the suffix of traces. Old
    /// per-run directories are none.
    pub open spec fn is_trace(self) -> bool {
        self.is_file && (self.name matches Some(name) && text::ends(name@, suffix()))
    }

    fn trace_name(&self) -> (name: Option<&String>)
        ensures
            name is Some <==> self.is_trace(),
            self.is_trace() ==> name->0 == &self.name->0,
    {
        if !self.is_file {
            return None;
        }
        match &self.name {
            Some(name) => {
                if text::ends_with(name.as_str(), "-ux.jsonl.gz") {
                    Some(name)
                } else {
                    None
                }
            },
            None => None,
        }
    }
}

/// The newest trace among the entries of the root: the index of the one whose
/// name is greatest, or `None` if no entry is a trace. Of equal names the first
/// is taken.
pub fn newest(entries: &Vec<Entry>) -> (best: Option<usize>)
    ensures
        best is None <==> forall|i: int|
            0 <= i < entries@.len() ==> !(#[trigger] entries@[i]).is_trace(),
        best matches Some(b) ==> {
            &&& b < entries@.len()
            &&& entries@[b as int].is_trace()
            &&& forall|i: int|
                0 <= i < entries@.len() && (#[trigger] entries@[i]).is_trace() ==> !text::before(
                    entries@[b as int].name->0@,
                    entries@[i].name->0@,
                )
            &&& forall|i: int|
                0 <= i < b && (#[trigger] entries@[i]).is_trace() ==> text::before(
                    entries@[i].name->0@,
                    entries@[b as int].name->0@,
                )
        },
{
    let mut best: Option<usize> = None;
    for k in 0..entries.len()
        invariant
            best is None <==> forall|i: int|
                0 <= i < k ==> !(#[trigger] entries@[i]).is_trace(),
            best matches Some(b) ==> {
                &&& b < k
                &&& entries@[b as int].is_trace()
                &&& forall|i: int|
                    0 <= i < k && (#[trigger] entries@[i]).is_trace() ==> !text::before(
                        entries@[b as int].name->0@,
                        entries@[i].name->0@,
                    )
                &&& forall|i: int|
                    0 <= i < b && (#[trigger] entries@[i]).is_trace() ==> text::before(
                        entries@[i].name->0@,
                        entries@[b as int].name->0@,
                    )
            },
    {
        if let Some(name) = entries[k].trace_name() {
            match best {
                None => {
                    best = Some(k);
                    proof {
                        text::lemma_before_irreflexive(name@);
                    }
                },
                Some(b) => {
                    if let Some(held) = entries[b].trace_name() {
                        if text::text_before(held.as_str(), name.as_str()) {
                            proof {
                                lemma_new_best(entries@, b as int, k as int);
                            }
                            best = Some(k);
                        }
                    }
                },
            }
        }
    }
    best
}

/// An entry with a greater name than the best so far is the best.
proof fn lemma_new_best(entries: Seq<Entry>, b: int, k: int)
    requires
        0 <= b < k < entries.len(),
        entries[b].is_trace(),
        entries[k].is_trace(),
        text::before(entries[b].name->0@, entries[k].name->0@),
        forall|i: int|
            0 <= i < k && (#[trigger] entries[i]).is_trace() ==> !text::before(
                entries[b].name->0@,
                entries[i].name->0@,
            ),
    ensures
        forall|i: int|
            0 <= i < k && (#[trigger] entries[i]).is_trace() ==> text::before(
                entries[i].name->0@,
                entries[k].name->0@,
            ),
        forall|i: int|
            0 <= i <= k && (#[trigger] entries[i]).is_trace() ==> !text::before(
                entries[k].name->0@,
                entries[i].name->0@,
            ),
{
    let best = entries[b].name->0@;
    let name = entries[k].name->0@;
    assert forall|i: int| 0 <= i < k && (#[trigger] entries[i]).is_trace() implies text::before(
        entries[i].name->0@,
        name,
    ) by {
        text::lemma_before_total(entries[i].name->0@, best);
        if text::before(entries[i].name->0@, best) {
            text::lemma_before_trans(entries[i].name->0@, best, name);
        }
    }
    assert forall|i: int| 0 <= i <= k && (#[trigger] entries[i]).is_trace() implies !text::before(
        name,
        entries[i].name->0@,
    ) by {
        text::lemma_before_irreflexive(name);
        if i < k && text::before(name, entries[i].name->0@) {
            text::lemma_before_trans(name, entries[i].name->0@, name);
        }
    }
}

// ---- laws ----------------------------------------------------------------

/// Of two candidates of one stamp the later sorts after the earlier: the newest
/// of a colliding pair is the one that came second.
pub proof fn law_tie_breakers_sort(stamp: Seq<char>, m: nat, n: nat)
    requires
        m < n <= 999,
    ensures
        text::before(candidate(stamp, m), candidate(stamp, n)),
{
    reveal_strlit("-ux.jsonl.gz");
    reveal_strlit(".");
    let tail = text::padded(n, 3) + suffix();
    assert(candidate(stamp, n) =~= stamp + ("."@ + tail));
    if m == 0 {
        let a = suffix();
        let b = "."@ + tail;
        assert(text::decided_at(a, b, 0));
        text::lemma_before_prefix(stamp, a, b);
    } else {
        let head = text::padded(m, 3) + suffix();
        assert(candidate(stamp, m) =~= stamp + ("."@ + head));
        reveal_with_fuel(text::ten_to, 4);
        text::lemma_padded_order(m, n, 3);
        text::lemma_padded_len(m, 3);
        text::lemma_padded_len(n, 3);
        text::lemma_before_suffix(text::padded(m, 3), text::padded(n, 3), suffix(), suffix());
        text::lemma_before_prefix("."@, head, tail);
        text::lemma_before_prefix(stamp, "."@ + head, "."@ + tail);
    }
}

/// Every candidate of a later stamp of the same length outranks every candidate
/// of the earlier one, tie-breakers included.
pub proof fn law_later_stamp_outranks(early: Seq<char>, late: Seq<char>, m: nat, n: nat)
    requires
        early.len() == late.len(),
        text::before(early, late),
    ensures
        text::before(candidate(early, m), candidate(late, n)),
{
    let a = if m == 0 {
        suffix()
    } else {
        "."@ + text::padded(m, 3) + suffix()
    };
    let b = if n == 0 {
        suffix()
    } else {
        "."@ + text::padded(n, 3) + suffix()
    };
    assert(candidate(early, m) =~= early + a);
    assert(candidate(late, n) =~= late + b);
    text::lemma_before_suffix(early, late, a, b);
}

/// Every candidate carries the suffix by which traces are found again.
pub proof fn law_candidates_are_traces(stamp: Seq<char>, n: nat)
    ensures
        text::ends(candidate(stamp, n), suffix()),
{
    let c = candidate(stamp, n);
    assert(c.subrange(c.len() - suffix().len(), c.len() as int) =~= suffix());
}

/// The search passes over candidates that are taken.
proof fn lemma_search_passes(stamp: Seq<char>, outcome: spec_fn(nat) -> Attempt, k: nat)
    requires
        k <= MAX_TRIES,
        forall|j: nat| j < k ==> (#[trigger] outcome(j)) is Taken,
    ensures
        search(stamp, 0, outcome) == search(stamp, k, outcome),
    decreases k,
{
    if k > 0 {
        let j = (k - 1) as nat;
        lemma_search_passes(stamp, outcome, j);
        assert(outcome(j) is Taken);
        assert(step_after(stamp, j, outcome(j)) == SearchStep::Retry(k));
    }
}

/// The least number up to `some` whose candidate is not taken.
proof fn lemma_first_not_taken(outcome: spec_fn(nat) -> Attempt, some: nat) -> (least: nat)
    requires
        !(outcome(some) is Taken),
    ensures
        least <= some,
        !(outcome(least) is Taken),
        forall|j: nat| j < least ==> (#[trigger] outcome(j)) is Taken,
    decreases some,
{
    if exists|j: nat| j < some && !((#[trigger] outcome(j)) is Taken) {
        let j = choose|j: nat| j < some && !((#[trigger] outcome(j)) is Taken);
        lemma_first_not_taken(outcome, j)
    } else {
        some
    }
}

/// The search ends at the first candidate that is not taken: that one is kept where
/// it could be created, and any other failure is handed on at once.
pub proof fn law_search_ends_at_the_first_not_taken(
    stamp: Seq<char>,
    outcome: spec_fn(nat) -> Attempt,
    k: nat,
)
    requires
        k <= MAX_TRIES,
        !(outcome(k) is Taken),
        forall|j: nat| j < k ==> (#[trigger] outcome(j)) is Taken,
    ensures
        search(stamp, 0, outcome) == (if outcome(k) is Created {
            SearchStep::Keep(candidate(stamp, k))
        } else {
            SearchStep::Fail
        }),
{
    lemma_search_passes(stamp, outcome, k);
}

/// The search gives up exactly when every candidate is taken, and it always comes to
/// an end.
pub proof fn law_search_gives_up_when_all_are_taken(
    stamp: Seq<char>,
    outcome: spec_fn(nat) -> Attempt,
)
    ensures
        search(stamp, 0, outcome) is GiveUp <==> forall|j: nat|
            j <= MAX_TRIES ==> (#[trigger] outcome(j)) is Taken,
        search(stamp, 0, outcome) is GiveUp ==> search(stamp, 0, outcome) == SearchStep::GiveUp(
            exhausted(stamp),
        ),
        !(search(stamp, 0, outcome) is Retry),
{
    let last = MAX_TRIES as nat;
    if forall|j: nat| j <= MAX_TRIES ==> (#[trigger] outcome(j)) is Taken {
        lemma_search_passes(stamp, outcome, last);
        assert(outcome(last) is Taken);
    } else {
        let some = choose|j: nat| j <= MAX_TRIES && !((#[trigger] outcome(j)) is Taken);
        let least = lemma_first_not_taken(outcome, some);
        law_search_ends_at_the_first_not_taken(stamp, outcome, least);
    }
}

/// Whatever names are taken, the search keeps the candidate of the least number that
/// is free, so a taken name is never kept.
pub proof fn law_search_keeps_the_first_free_name(
    stamp: Seq<char>,
    taken: Set<Seq<char>>,
    k: nat,
)
    requires
        k <= MAX_TRIES,
        !taken.contains(candidate(stamp, k)),
        forall|j: nat| j < k ==> taken.contains(#[trigger] candidate(stamp, j)),
    ensures
        search(stamp, 0, where_taken(stamp, taken)) == SearchStep::Keep(candidate(stamp, k)),
{
    let outcome = where_taken(stamp, taken);
    assert forall|j: nat| j < k implies (#[trigger] outcome(j)) is Taken by {
        assert(taken.contains(candidate(stamp, j)));
    }
    law_search_ends_at_the_first_not_taken(stamp, outcome, k);
}

/// Whatever names are taken, the search gives up exactly when all its candidates are
/// among them, and keeps a free name otherwise.
pub proof fn law_search_finds_a_name_where_one_is_free(stamp: Seq<char>, taken: Set<Seq<char>>)
    ensures
        search(stamp, 0, where_taken(stamp, taken)) is GiveUp <==> forall|j: nat|
            j <= MAX_TRIES ==> taken.contains(#[trigger] candidate(stamp, j)),
        search(stamp, 0, where_taken(stamp, taken)) is GiveUp || (search(
            stamp,
            0,
            where_taken(stamp, taken),
        ) matches SearchStep::Keep(name) && !taken.contains(name)),
{
    let outcome = where_taken(stamp, taken);
    law_search_gives_up_when_all_are_taken(stamp, outcome);
    if forall|j: nat| j <= MAX_TRIES ==> taken.contains(#[trigger] candidate(stamp, j)) {
        assert forall|j: nat| j <= MAX_TRIES implies (#[trigger] outcome(j)) is Taken by {
            assert(taken.contains(candidate(stamp, j)));
        }
    } else {
        let some = choose|j: nat| j <= MAX_TRIES && !taken.contains(#[trigger] candidate(stamp, j));
        assert(!(outcome(some) is Taken));
        let least = lemma_first_not_taken(outcome, some);
        law_search_ends_at_the_first_not_taken(stamp, outcome, least);
    }
}

/// A trace is named by its stamp and a fixed ending; a name that was taken is tried
/// again with a dot and a numeral of three digits before that ending.
pub proof fn law_names_are_made_of_stamps(stamp: Seq<char>, n: nat)
    ensures
        name_of(stamp) == stamp + "-ux.jsonl.gz"@,
        candidate(stamp, 0) == stamp + "-ux.jsonl.gz"@,
        n > 0 ==> candidate(stamp, n) == stamp + "."@ + text::padded(n, 3) + "-ux.jsonl.gz"@,
{
}

/// What the search does after each attempt: a file that was created is kept under the
/// name that was tried, a failure is handed on, and a taken name leads to the next
/// number, up to 999 of them.
pub proof fn law_steps_of_the_search(stamp: Seq<char>, n: nat)
    ensures
        step_after(stamp, n, Attempt::Created) == SearchStep::Keep(candidate(stamp, n)),
        step_after(stamp, n, Attempt::Failed) is Fail,
        n < 999 ==> step_after(stamp, n, Attempt::Taken) == SearchStep::Retry(n + 1),
        n >= 999 ==> step_after(stamp, n, Attempt::Taken) == SearchStep::GiveUp(
            "could not find a free trace filename for stamp "@ + quoted(stamp)
                + " after 999 tries"@,
        ),
        MAX_TRIES == 999,
{
}

/// A step stands for what it tells.
pub proof fn law_steps_stand_for_themselves(step: Step)
    ensures
        step matches Step::Keep(name) ==> step@ == SearchStep::Keep(name@),
        step matches Step::Retry(n) ==> step@ == SearchStep::Retry(n as nat),
        step is Fail ==> step@ is Fail,
        step matches Step::GiveUp(text) ==> step@ == SearchStep::GiveUp(text@),
{
}

/// An entry is a trace exactly where it is a file, its name is text, and the name is
/// something followed by the fixed ending.
pub proof fn law_which_entries_are_traces(entry: Entry, stamp: Seq<char>)
    ensures
        entry.is_file && (entry.name matches Some(name) && name@ == stamp + "-ux.jsonl.gz"@)
            ==> entry.is_trace(),
        entry.is_trace() ==> entry.is_file && entry.name is Some && exists|s: Seq<char>|
            entry.name->0@ == #[trigger] (s + "-ux.jsonl.gz"@),
{
    let tail = "-ux.jsonl.gz"@;
    if entry.name is Some {
        let name = entry.name->0@;
        if name == stamp + tail {
            assert(name.subrange(name.len() - tail.len(), name.len() as int) =~= tail);
        }
        if entry.is_trace() {
            let s = name.take(name.len() - tail.len());
            assert(name =~= s + tail);
        }
    }
}

}
