//! The change ledger: an ordered, per-environment log of already-performed
//! mutations, with a pruning pass that collapses history superseded by an
//! environment removal, a merge operation for combining independently
//! computed ledgers, and a reporting pass that renders a coalesced,
//! human-readable summary.

use vstd::prelude::*;
use vstd::string::*;
use crate::names::{EnvironmentName, ExposedName};
use crate::strutil::{cat3, cat5, cat7, views_of_strings};

verus! {

/// The name and version of an installed package, as read from its package
/// record.
#[derive(Debug)]
pub struct PackageInfo {
    pub name: String,
    pub version: String,
}

impl PackageInfo {
    pub fn new(name: String, version: String) -> (r: PackageInfo)
        ensures
            r.name@ == name@,
            r.version@ == version@,
    {
        PackageInfo { name, version }
    }
}

/// One atomic, already-performed mutation.  Events are recorded after the
/// corresponding filesystem action succeeds, never before.
#[derive(Debug)]
pub enum StateChange {
    AddedExposed(ExposedName),
    RemovedExposed(ExposedName),
    UpdatedExposed(ExposedName),
    AddedPackage(PackageInfo),
    AddedEnvironment,
    RemovedEnvironment,
    UpdatedEnvironment,
}

pub open spec fn is_added(c: StateChange) -> bool {
    c is AddedExposed
}

pub open spec fn is_updated(c: StateChange) -> bool {
    c is UpdatedExposed
}

pub open spec fn is_removed_env(c: StateChange) -> bool {
    c is RemovedEnvironment
}

/// The exposed name an exposure event speaks of.
pub open spec fn change_name(c: StateChange) -> Seq<char> {
    match c {
        StateChange::AddedExposed(n) => n@,
        StateChange::RemovedExposed(n) => n@,
        StateChange::UpdatedExposed(n) => n@,
        _ => Seq::empty(),
    }
}

/// The ledger of one environment: its name and its ordered event sequence.
#[derive(Debug)]
pub struct EnvEntry {
    pub env: EnvironmentName,
    pub changes: Vec<StateChange>,
}

/// Environment names appear at most once.
pub open spec fn wf_entries(s: Seq<EnvEntry>) -> bool {
    forall|i: int, j: int| 0 <= i < j < s.len() ==> s[i].env@ != s[j].env@
}

pub open spec fn has_env_seq(s: Seq<EnvEntry>, k: Seq<char>) -> bool {
    exists|i: int| 0 <= i < s.len() && s[i].env@ == k
}

pub open spec fn idx_of(s: Seq<EnvEntry>, k: Seq<char>) -> int {
    choose|i: int| 0 <= i < s.len() && s[i].env@ == k
}

/// The event sequence recorded for environment `k`, if any.
pub open spec fn lookup_seq(s: Seq<EnvEntry>, k: Seq<char>) -> Option<Seq<StateChange>> {
    if has_env_seq(s, k) {
        Some(s[idx_of(s, k)].changes@)
    } else {
        None
    }
}

/// The environment names of a ledger's entries, in entry order.
pub open spec fn env_views(s: Seq<EnvEntry>) -> Seq<Seq<char>> {
    s.map_values(|e: EnvEntry| e.env@)
}

/// The entry order a merge produces: the receiver's environments first,
/// then the other ledger's environments that are new, in its order.
pub open spec fn merged_env_views(a: Seq<Seq<char>>, b: Seq<EnvEntry>) -> Seq<Seq<char>>
    decreases b.len(),
{
    if b.len() == 0 {
        a
    } else {
        let prefix = merged_env_views(a, b.drop_last());
        if prefix.contains(b.last().env@) {
            prefix
        } else {
            prefix.push(b.last().env@)
        }
    }
}

pub proof fn lemma_env_views_contains(s: Seq<EnvEntry>, k: Seq<char>)
    ensures
        env_views(s).contains(k) <==> has_env_seq(s, k),
{
    if has_env_seq(s, k) {
        let i = choose|i: int| 0 <= i < s.len() && s[i].env@ == k;
        assert(env_views(s)[i] == k);
    }
    if env_views(s).contains(k) {
        let i = choose|i: int| 0 <= i < env_views(s).len() && env_views(s)[i] == k;
        assert(s[i].env@ == k);
    }
}

pub proof fn lemma_idx(s: Seq<EnvEntry>, k: Seq<char>, i: int)
    requires
        wf_entries(s),
        0 <= i < s.len(),
        s[i].env@ == k,
    ensures
        has_env_seq(s, k),
        idx_of(s, k) == i,
        lookup_seq(s, k) == Some(s[i].changes@),
{
    assert(has_env_seq(s, k));
    let j = idx_of(s, k);
    assert(0 <= j < s.len() && s[j].env@ == k);
    if i != j {
        assert(s[i].env@ != s[j].env@);
    }
}

pub proof fn lemma_lookup_extend(s: Seq<EnvEntry>, k: Seq<char>)
    requires
        s.len() > 0,
        wf_entries(s),
    ensures
        k == s.last().env@ ==> lookup_seq(s, k) == Some(s.last().changes@),
        k != s.last().env@ ==> lookup_seq(s, k) == lookup_seq(s.drop_last(), k),
{
    assert(wf_entries(s.drop_last())) by {
        assert(forall|i: int|
            0 <= i < s.len() - 1 ==> s.drop_last()[i] == s[i]);
    }
    if k == s.last().env@ {
        lemma_idx(s, k, s.len() - 1);
    } else {
        if has_env_seq(s.drop_last(), k) {
            let i = choose|i: int| 0 <= i < s.drop_last().len() && s.drop_last()[i].env@ == k;
            assert(s[i].env@ == k);
            lemma_idx(s, k, i);
            lemma_idx(s.drop_last(), k, i);
        } else {
            if has_env_seq(s, k) {
                let i = choose|i: int| 0 <= i < s.len() && s[i].env@ == k;
                assert(i == s.len() - 1 ==> k == s.last().env@);
                assert(i < s.len() - 1 ==> s.drop_last()[i].env@ == k);
                assert(false);
            }
        }
    }
}

/// How a merge combines the event sequences recorded for one environment:
/// the receiver's events first, then the other side's, each side's internal
/// order preserved.
pub open spec fn merged_lookup(
    a: Option<Seq<StateChange>>,
    b: Option<Seq<StateChange>>,
) -> Option<Seq<StateChange>> {
    match (a, b) {
        (Some(x), Some(y)) => Some(x + y),
        (Some(x), None) => Some(x),
        (None, Some(y)) => Some(y),
        (None, None) => None,
    }
}

/// Merge associativity: combining the per-environment sequences of three
/// ledgers gives the same result however the merges are grouped.  Together
/// with the `merge` contract, `a.merge(b.merge(c))` and `a.merge(b).merge(c)`
/// record the same sequence for every environment.
pub proof fn lemma_merge_associative(
    a: Option<Seq<StateChange>>,
    b: Option<Seq<StateChange>>,
    c: Option<Seq<StateChange>>,
)
    ensures
        merged_lookup(a, merged_lookup(b, c)) == merged_lookup(merged_lookup(a, b), c),
{
    match (a, b, c) {
        (Some(x), Some(y), Some(z)) => {
            assert((x + y) + z =~= x + (y + z));
        },
        _ => {},
    }
}

/// Index of the last `RemovedEnvironment` event, or `-1` when there is none.
pub open spec fn last_removed(s: Seq<StateChange>) -> int
    decreases s.len(),
{
    if s.len() == 0 {
        -1
    } else if is_removed_env(s.last()) {
        s.len() - 1
    } else {
        last_removed(s.drop_last())
    }
}

/// The pruned form of one environment's event sequence: everything from the
/// last `RemovedEnvironment` on, or the whole sequence when there is none.
pub open spec fn prune_seq(s: Seq<StateChange>) -> Seq<StateChange> {
    if last_removed(s) >= 0 {
        s.subrange(last_removed(s), s.len() as int)
    } else {
        s
    }
}

pub proof fn lemma_last_removed_locate(s: Seq<StateChange>, k: int)
    requires
        -1 <= k < s.len(),
        k >= 0 ==> is_removed_env(s[k]),
        forall|j: int| k < j < s.len() ==> !is_removed_env(s[j]),
    ensures
        last_removed(s) == k,
    decreases s.len(),
{
    if s.len() == 0 {
    } else if is_removed_env(s.last()) {
        assert(k == s.len() - 1);
    } else {
        assert(k < s.len() - 1);
        lemma_last_removed_locate(s.drop_last(), k);
    }
}

/// Prune monotonicity: when a `RemovedEnvironment` stands at position `i`
/// and no later one follows it, pruning keeps no event from before `i` and
/// keeps every event from `i` on, in order.  When further removals follow,
/// the later one supersedes `i` in the same way.
pub proof fn lemma_prune_monotone(s: Seq<StateChange>, i: int)
    requires
        0 <= i < s.len(),
        is_removed_env(s[i]),
        forall|j: int| i < j < s.len() ==> !is_removed_env(s[j]),
    ensures
        prune_seq(s).len() == s.len() - i,
        forall|j: int| 0 <= j < prune_seq(s).len() ==> prune_seq(s)[j] == s[i + j],
{
    lemma_last_removed_locate(s, i);
}

fn is_removed_env_exec(c: &StateChange) -> (b: bool)
    ensures
        b == is_removed_env(*c),
{
    matches!(c, StateChange::RemovedEnvironment)
}

/// Prunes one environment's sequence in place.
fn prune_changes(changes: Vec<StateChange>) -> (r: Vec<StateChange>)
    ensures
        r@ == prune_seq(changes@),
{
    let ghost orig = changes@;
    let n = changes.len();
    let mut i: usize = n;
    while i > 0 && !is_removed_env_exec(&changes[i - 1])
        invariant
            n == changes@.len(),
            changes@ == orig,
            i <= n,
            forall|j: int| i <= j < n ==> !is_removed_env(orig[j]),
        decreases i,
    {
        i -= 1;
    }
    proof {
        lemma_last_removed_locate(orig, i - 1);
    }
    if i == 0 {
        changes
    } else {
        let mut v = changes;
        let mut t: usize = 0;
        let k = i - 1;
        while t < k
            invariant
                k < n,
                t <= k,
                v@ == orig.skip(t as int),
                n == orig.len(),
            decreases k - t,
        {
            let _ = v.remove(0);
            proof {
                assert(orig.skip(t as int).remove(0) =~= orig.skip(t + 1));
            }
            t += 1;
        }
        proof {
            assert(orig.skip(k as int) =~= orig.subrange(k as int, orig.len() as int));
        }
        v
    }
}

/// The texts of the report, one spec function per line shape.  The exact
/// wording follows the produced textual report; styling and the leading
/// marker belong to the presentation layer.
pub open spec fn line_single_added(name: Seq<char>, env: Seq<char>) -> Seq<char> {
    "Exposed executable `"@ + name + "` from environment `"@ + env + "`."@
}

pub open spec fn line_added_header(env: Seq<char>) -> Seq<char> {
    "Exposed executables from environment `"@ + env + "`:"@
}

pub open spec fn line_single_updated(name: Seq<char>, env: Seq<char>) -> Seq<char> {
    "Updated executable `"@ + name + "` of environment `"@ + env + "`."@
}

pub open spec fn line_updated_header(env: Seq<char>) -> Seq<char> {
    "Updated executables of environment `"@ + env + "`:"@
}

pub open spec fn line_bullet(name: Seq<char>) -> Seq<char> {
    "   - `"@ + name + "`"@
}

/// The one line rendered for an event that is never coalesced.
pub open spec fn other_line(c: StateChange, env: Seq<char>) -> Seq<char> {
    match c {
        StateChange::RemovedExposed(n) => "Removed exposed executable `"@ + n@
            + "` from environment `"@ + env + "`."@,
        StateChange::AddedPackage(p) => "Added package `"@ + p.name@ + "`=`"@ + p.version@
            + "` to environment `"@ + env + "`."@,
        StateChange::AddedEnvironment => "Added environment `"@ + env + "`."@,
        StateChange::RemovedEnvironment => "Removed environment `"@ + env + "`."@,
        StateChange::UpdatedEnvironment => "Updated environment `"@ + env + "`."@,
        _ => Seq::empty(),
    }
}

/// Whether `c` belongs to a coalescing run of the given kind: exposure
/// additions when `added` holds, exposure updates otherwise.
pub open spec fn kind_flag(c: StateChange, added: bool) -> bool {
    if added {
        is_added(c)
    } else {
        is_updated(c)
    }
}

/// The first position at or after `i` that does not continue a run of the
/// given kind.
pub open spec fn run_end(s: Seq<StateChange>, added: bool, i: int) -> int
    decreases s.len() - i,
{
    if i < s.len() && kind_flag(s[i], added) {
        run_end(s, added, i + 1)
    } else {
        i
    }
}

pub proof fn lemma_run_end(s: Seq<StateChange>, added: bool, i: int)
    requires
        0 <= i <= s.len(),
    ensures
        i <= run_end(s, added, i) <= s.len(),
        forall|t: int| i <= t < run_end(s, added, i) ==> kind_flag(#[trigger] s[t], added),
        run_end(s, added, i) == s.len() || !kind_flag(s[run_end(s, added, i)], added),
    decreases s.len() - i,
{
    if i < s.len() && kind_flag(s[i], added) {
        lemma_run_end(s, added, i + 1);
    }
}

pub proof fn lemma_run_end_locate(s: Seq<StateChange>, added: bool, i: int, j: int)
    requires
        0 <= i <= j <= s.len(),
        forall|t: int| i <= t < j ==> kind_flag(#[trigger] s[t], added),
        j == s.len() || !kind_flag(s[j as int], added),
    ensures
        run_end(s, added, i) == j,
    decreases j - i,
{
    if i < j {
        lemma_run_end_locate(s, added, i + 1, j);
    }
}

/// The names carried by the events at positions `i` to `j` (exclusive).
pub open spec fn run_names(s: Seq<StateChange>, i: int, j: int) -> Seq<Seq<char>> {
    Seq::new((j - i) as nat, |t: int| change_name(s[i + t]))
}

/// The lines of one coalesced group of exposure events: a single sentence
/// for a lone event, a header plus one indented bullet per name otherwise.
pub open spec fn exposure_group_lines(names: Seq<Seq<char>>, env: Seq<char>, added: bool) -> Seq<
    Seq<char>,
> {
    if names.len() == 1 {
        seq![
            if added {
                line_single_added(names[0], env)
            } else {
                line_single_updated(names[0], env)
            },
        ]
    } else {
        seq![
            if added {
                line_added_header(env)
            } else {
                line_updated_header(env)
            },
        ] + names.map_values(|n: Seq<char>| line_bullet(n))
    }
}

/// The rendered lines for one environment's events from position `i` on.
/// Immediately adjacent events of the same exposure kind (a run of
/// additions, or a run of updates) coalesce into one group; every other
/// event renders one line, in sequence order.
pub open spec fn render_from(s: Seq<StateChange>, env: Seq<char>, i: int) -> Seq<Seq<char>>
    decreases s.len() - i,
        when 0 <= i <= s.len()
        via render_from_dec
{
    if i >= s.len() {
        Seq::empty()
    } else if is_added(s[i]) || is_updated(s[i]) {
        let added = is_added(s[i]);
        let j = run_end(s, added, i + 1);
        exposure_group_lines(run_names(s, i, j), env, added) + render_from(s, env, j)
    } else {
        seq![other_line(s[i], env)] + render_from(s, env, i + 1)
    }
}

#[via_fn]
proof fn render_from_dec(s: Seq<StateChange>, env: Seq<char>, i: int) {
    if i < s.len() && (is_added(s[i]) || is_updated(s[i])) {
        lemma_run_end(s, is_added(s[i]), i + 1);
    }
}

fn is_exposure_kind(c: &StateChange, added: bool) -> (b: bool)
    ensures
        b == kind_flag(*c, added),
{
    if added {
        matches!(c, StateChange::AddedExposed(_))
    } else {
        matches!(c, StateChange::UpdatedExposed(_))
    }
}

/// Renders one environment's events from position `i` on.
fn render_changes(changes: &Vec<StateChange>, env: &EnvironmentName, i: usize) -> (r: Vec<String>)
    requires
        i <= changes@.len(),
    ensures
        views_of_strings(r@) == render_from(changes@, env@, i as int),
    decreases changes@.len() - i,
{
    let ghost s = changes@;
    if i == changes.len() {
        let r: Vec<String> = Vec::new();
        proof {
            assert(views_of_strings(r@) =~= render_from(s, env@, i as int));
        }
        return r;
    }
    let c_is_added = matches!(&changes[i], StateChange::AddedExposed(_));
    let c_is_updated = matches!(&changes[i], StateChange::UpdatedExposed(_));
    if c_is_added || c_is_updated {
        let added = c_is_added;
        let mut j: usize = i + 1;
        while j < changes.len() && is_exposure_kind(&changes[j], added)
            invariant
                i + 1 <= j <= s.len(),
                s == changes@,
                forall|t: int| i + 1 <= t < j ==> kind_flag(#[trigger] s[t], added),
            decreases s.len() - j,
        {
            j += 1;
        }
        proof {
            lemma_run_end_locate(s, added, i + 1, j as int);
        }
        let mut names: Vec<String> = Vec::new();
        let mut t: usize = i;
        while t < j
            invariant
                i <= t <= j <= s.len(),
                s == changes@,
                added == is_added(s[i as int]),
                (is_added(s[i as int]) || is_updated(s[i as int])),
                forall|u: int| i + 1 <= u < j ==> kind_flag(#[trigger] s[u], added),
                views_of_strings(names@) == run_names(s, i as int, t as int),
            decreases j - t,
        {
            let nm: String = match &changes[t] {
                StateChange::AddedExposed(n) => n.name.clone(),
                StateChange::UpdatedExposed(n) => n.name.clone(),
                _ => {
                    proof {
                        assert(false);
                    }
                    String::new()
                },
            };
            proof {
                crate::strutil::lemma_views_push(names@, nm);
                assert(run_names(s, i as int, t + 1) =~= run_names(s, i as int, t as int).push(
                    change_name(s[t as int]),
                ));
            }
            names.push(nm);
            t += 1;
        }
        let mut lines: Vec<String> = Vec::new();
        if names.len() == 1 {
            let line = if added {
                cat5(
                    "Exposed executable `",
                    names[0].as_str(),
                    "` from environment `",
                    env.name.as_str(),
                    "`.",
                )
            } else {
                cat5(
                    "Updated executable `",
                    names[0].as_str(),
                    "` of environment `",
                    env.name.as_str(),
                    "`.",
                )
            };
            lines.push(line);
            proof {
                assert(views_of_strings(lines@) =~= exposure_group_lines(
                    run_names(s, i as int, j as int),
                    env@,
                    added,
                ));
            }
        } else {
            let header = if added {
                cat3("Exposed executables from environment `", env.name.as_str(), "`:")
            } else {
                cat3("Updated executables of environment `", env.name.as_str(), "`:")
            };
            lines.push(header);
            let mut u: usize = 0;
            while u < names.len()
                invariant
                    u <= names@.len(),
                    lines@.len() == 1 + u,
                    lines@[0]@ == if added {
                        line_added_header(env@)
                    } else {
                        line_updated_header(env@)
                    },
                    forall|w: int|
                        0 <= w < u ==> #[trigger] lines@[1 + w]@ == line_bullet(names@[w]@),
                decreases names@.len() - u,
            {
                let bullet = cat3("   - `", names[u].as_str(), "`");
                lines.push(bullet);
                u += 1;
            }
            proof {
                let group = exposure_group_lines(run_names(s, i as int, j as int), env@, added);
                assert(run_names(s, i as int, j as int) == views_of_strings(names@));
                assert(views_of_strings(lines@) =~= group) by {
                    assert(group.len() == 1 + names@.len());
                    assert(forall|w: int|
                        0 <= w < names@.len() ==> group[1 + w] == line_bullet(
                            #[trigger] views_of_strings(names@)[w],
                        ));
                }
            }
        }
        let mut rest = render_changes(changes, env, j);
        proof {
            crate::strutil::lemma_views_concat(lines@, rest@);
        }
        lines.append(&mut rest);
        lines
    } else {
        let line: String = match &changes[i] {
            StateChange::RemovedExposed(n) => cat5(
                "Removed exposed executable `",
                n.name.as_str(),
                "` from environment `",
                env.name.as_str(),
                "`.",
            ),
            StateChange::AddedPackage(p) => cat7(
                "Added package `",
                p.name.as_str(),
                "`=`",
                p.version.as_str(),
                "` to environment `",
                env.name.as_str(),
                "`.",
            ),
            StateChange::AddedEnvironment => cat3("Added environment `", env.name.as_str(), "`."),
            StateChange::RemovedEnvironment => cat3(
                "Removed environment `",
                env.name.as_str(),
                "`.",
            ),
            StateChange::UpdatedEnvironment => cat3(
                "Updated environment `",
                env.name.as_str(),
                "`.",
            ),
            _ => {
                proof {
                    assert(false);
                }
                String::new()
            },
        };
        let mut lines: Vec<String> = Vec::new();
        lines.push(line);
        let mut rest = render_changes(changes, env, i + 1);
        proof {
            crate::strutil::lemma_views_concat(lines@, rest@);
            assert(views_of_strings(lines@) =~= seq![other_line(s[i as int], env@)]);
        }
        lines.append(&mut rest);
        lines
    }
}

/// The whole report: each environment's rendered lines in entry order,
/// environments with an empty sequence skipped.
pub open spec fn report_spec(entries: Seq<EnvEntry>) -> Seq<Seq<char>>
    decreases entries.len(),
{
    if entries.len() == 0 {
        Seq::empty()
    } else {
        report_spec(entries.drop_last()) + if entries.last().changes@.len() == 0 {
            Seq::empty()
        } else {
            render_from(entries.last().changes@, entries.last().env@, 0)
        }
    }
}

/// A mapping from environment name to the ordered sequence of changes
/// performed on it; insertion order of environments is preserved.
#[derive(Debug)]
pub struct StateChanges {
    pub entries: Vec<EnvEntry>,
}

impl StateChanges {
    pub open spec fn wf(&self) -> bool {
        wf_entries(self.entries@)
    }

    pub open spec fn lookup(&self, k: Seq<char>) -> Option<Seq<StateChange>> {
        lookup_seq(self.entries@, k)
    }

    /// An empty ledger.
    pub fn new() -> (r: StateChanges)
        ensures
            r.wf(),
            r.entries@.len() == 0,
            forall|k: Seq<char>| r.lookup(k) is None,
    {
        StateChanges { entries: Vec::new() }
    }

    /// A ledger seeded with one environment and an empty event sequence, so
    /// that the environment is reported on even when nothing else happens.
    pub fn new_with_env(env_name: EnvironmentName) -> (r: StateChanges)
        ensures
            r.wf(),
            r.entries@.len() == 1,
            r.entries@[0].env@ == env_name@,
            r.lookup(env_name@) == Some(Seq::<StateChange>::empty()),
            forall|k: Seq<char>| k != env_name@ ==> r.lookup(k) is None,
    {
        let mut entries: Vec<EnvEntry> = Vec::new();
        entries.push(EnvEntry { env: env_name, changes: Vec::new() });
        let r = StateChanges { entries };
        proof {
            lemma_idx(r.entries@, r.entries@[0].env@, 0);
        }
        r
    }

    /// True iff at least one environment's sequence is non-empty.
    pub fn has_changed(&self) -> (r: bool)
        ensures
            r == exists|i: int|
                0 <= i < self.entries@.len() && #[trigger] self.entries@[i].changes@.len() > 0,
    {
        let mut i: usize = 0;
        while i < self.entries.len()
            invariant
                i <= self.entries@.len(),
                forall|t: int| 0 <= t < i ==> #[trigger] self.entries@[t].changes@.len() == 0,
            decreases self.entries@.len() - i,
        {
            if self.entries[i].changes.len() > 0 {
                return true;
            }
            i += 1;
        }
        false
    }

    fn find_entry(&self, env_name: &EnvironmentName) -> (r: Option<usize>)
        requires
            self.wf(),
        ensures
            match r {
                Some(i) => i < self.entries@.len() && self.entries@[i as int].env@ == env_name@
                    && has_env_seq(self.entries@, env_name@),
                None => !has_env_seq(self.entries@, env_name@),
            },
    {
        let mut i: usize = 0;
        while i < self.entries.len()
            invariant
                i <= self.entries@.len(),
                forall|t: int| 0 <= t < i ==> #[trigger] self.entries@[t].env@ != env_name@,
            decreases self.entries@.len() - i,
        {
            if crate::strutil::str_eq(self.entries[i].env.name.as_str(), env_name.name.as_str()) {
                return Some(i);
            }
            i += 1;
        }
        None
    }

    /// Appends the given changes to the named environment's sequence,
    /// creating the environment's entry if it is absent.
    pub fn push_changes(&mut self, env_name: &EnvironmentName, changes: Vec<StateChange>)
        requires
            old(self).wf(),
        ensures
            final(self).wf(),
            final(self).lookup(env_name@) == match old(self).lookup(env_name@) {
                Some(s) => Some(s + changes@),
                None => Some(changes@),
            },
            forall|k: Seq<char>|
                k != env_name@ ==> final(self).lookup(k) == old(self).lookup(k),
            final(self).entries@.len() == old(self).entries@.len() + (
            if old(self).lookup(env_name@) is Some {
                0int
            } else {
                1int
            }),
            forall|t: int|
                0 <= t < old(self).entries@.len() ==> final(self).entries@[t].env@
                    == old(self).entries@[t].env@,
            old(self).lookup(env_name@) is None ==> final(self).entries@.last().env@ == env_name@,
    {
        let ghost old_entries = self.entries@;
        match self.find_entry(env_name) {
            Some(i) => {
                proof {
                    lemma_idx(old_entries, env_name@, i as int);
                }
                let mut entry = self.entries.remove(i);
                let mut more = changes;
                entry.changes.append(&mut more);
                self.entries.insert(i, entry);
                proof {
                    let fin = self.entries@;
                    assert(fin.len() == old_entries.len());
                    assert(forall|t: int|
                        0 <= t < fin.len() && t != i ==> fin[t] == old_entries[t]);
                    assert(fin[i as int].env@ == env_name@);
                    assert(fin[i as int].changes@ == old_entries[i as int].changes@ + changes@);
                    assert(wf_entries(fin)) by {
                        assert(forall|t: int|
                            0 <= t < fin.len() ==> fin[t].env@ == old_entries[t].env@);
                    }
                    lemma_idx(fin, env_name@, i as int);
                    assert forall|k: Seq<char>| k != env_name@ implies lookup_seq(fin, k)
                        == lookup_seq(old_entries, k) by {
                        if has_env_seq(old_entries, k) {
                            let t = choose|t: int|
                                0 <= t < old_entries.len() && old_entries[t].env@ == k;
                            lemma_idx(old_entries, k, t);
                            assert(fin[t].env@ == k);
                            lemma_idx(fin, k, t);
                            assert(t != i);
                        } else {
                            assert(forall|t: int|
                                0 <= t < fin.len() ==> fin[t].env@ == old_entries[t].env@);
                            assert(!has_env_seq(fin, k));
                        }
                    }
                }
            },
            None => {
                let entry = EnvEntry { env: env_name.duplicate(), changes };
                self.entries.push(entry);
                proof {
                    let fin = self.entries@;
                    assert(fin.drop_last() =~= old_entries);
                    assert(wf_entries(fin)) by {
                        assert(forall|t: int|
                            0 <= t < old_entries.len() ==> fin[t].env@ == old_entries[t].env@);
                    }
                    lemma_idx(fin, env_name@, fin.len() - 1);
                    assert forall|k: Seq<char>| k != env_name@ implies lookup_seq(fin, k)
                        == lookup_seq(old_entries, k) by {
                        lemma_lookup_extend(fin, k);
                    }
                }
            },
        }
    }

    /// Appends one change to the named environment's sequence, creating the
    /// entry if it is absent.
    pub fn insert_change(&mut self, env_name: &EnvironmentName, change: StateChange)
        requires
            old(self).wf(),
        ensures
            final(self).wf(),
            final(self).lookup(env_name@) == match old(self).lookup(env_name@) {
                Some(s) => Some(s.push(change)),
                None => Some(seq![change]),
            },
            forall|k: Seq<char>|
                k != env_name@ ==> final(self).lookup(k) == old(self).lookup(k),
            final(self).entries@.len() == old(self).entries@.len() + (
            if old(self).lookup(env_name@) is Some {
                0int
            } else {
                1int
            }),
            forall|t: int|
                0 <= t < old(self).entries@.len() ==> final(self).entries@[t].env@
                    == old(self).entries@[t].env@,
            old(self).lookup(env_name@) is None ==> final(self).entries@.last().env@ == env_name@,
    {
        let mut one: Vec<StateChange> = Vec::new();
        one.push(change);
        proof {
            assert(seq![change] =~= Seq::<StateChange>::empty().push(change));
        }
        self.push_changes(env_name, one);
        proof {
            if old(self).lookup(env_name@) is Some {
                let s = old(self).lookup(env_name@)->Some_0;
                assert(s + seq![change] =~= s.push(change));
            }
        }
    }

    /// Hands the per-environment entries out, in insertion order.
    pub fn changes(self) -> (r: Vec<EnvEntry>)
        ensures
            r@ == self.entries@,
    {
        self.entries
    }

    /// Merges another ledger into this one: for every environment in
    /// `other`, appends `other`'s sequence to this ledger's sequence for
    /// that environment, creating the entry if absent; each side's internal
    /// order is preserved.
    pub fn merge(&mut self, other: StateChanges)
        requires
            old(self).wf(),
            other.wf(),
        ensures
            final(self).wf(),
            forall|k: Seq<char>|
                final(self).lookup(k) == merged_lookup(old(self).lookup(k), other.lookup(k)),
            env_views(final(self).entries@) == merged_env_views(
                env_views(old(self).entries@),
                other.entries@,
            ),
    {
        let ghost orig = other.entries@;
        let mut rest = other.entries;
        while rest.len() > 0
            invariant
                self.wf(),
                rest@.len() <= orig.len(),
                rest@ == orig.skip(orig.len() - rest@.len()),
                wf_entries(orig),
                forall|k: Seq<char>|
                    lookup_seq(self.entries@, k) == merged_lookup(
                        old(self).lookup(k),
                        lookup_seq(orig.take(orig.len() - rest@.len()), k),
                    ),
                env_views(self.entries@) == merged_env_views(
                    env_views(old(self).entries@),
                    orig.take(orig.len() - rest@.len()),
                ),
            decreases rest@.len(),
        {
            let ghost p = orig.len() - rest@.len();
            let e = rest.remove(0);
            proof {
                assert(e == orig[p as int]);
                assert(rest@ =~= orig.skip(p as int + 1));
            }
            let EnvEntry { env, changes } = e;
            let ghost ch = changes@;
            let ghost pre = self.entries@;
            let ghost pre_state = *self;
            self.push_changes(&env, changes);
            proof {
                let taken = orig.take(p as int + 1);
                assert(taken.drop_last() =~= orig.take(p as int));
                assert(taken.last() == orig[p as int]);
                assert(taken.last().env@ == env@ && taken.last().changes@ == ch);
                assert(wf_entries(taken)) by {
                    assert(forall|t: int| 0 <= t < taken.len() ==> taken[t] == orig[t]);
                }
                assert forall|k: Seq<char>|
                    lookup_seq(self.entries@, k) == merged_lookup(
                        old(self).lookup(k),
                        lookup_seq(taken, k),
                    ) by {
                    lemma_lookup_extend(taken, k);
                    assert(pre_state.lookup(k) == lookup_seq(pre, k));
                    assert(self.lookup(k) == lookup_seq(self.entries@, k));
                    assert(lookup_seq(pre, k) == merged_lookup(
                        old(self).lookup(k),
                        lookup_seq(orig.take(p as int), k),
                    ));
                    if k == env@ {
                        assert(lookup_seq(taken, k) == Some(ch));
                        assert(lookup_seq(orig.take(p as int), k) is None) by {
                            if has_env_seq(orig.take(p as int), k) {
                                let t = choose|t: int|
                                    0 <= t < p && orig.take(p as int)[t].env@ == k;
                                assert(orig[t].env@ == k && orig[p as int].env@ == k);
                            }
                        }
                        assert(lookup_seq(self.entries@, k) == match lookup_seq(pre, k) {
                            Some(s) => Some(s + ch),
                            None => Some(ch),
                        });
                    } else {
                        assert(lookup_seq(self.entries@, k) == lookup_seq(pre, k));
                        assert(lookup_seq(taken, k) == lookup_seq(orig.take(p as int), k));
                    }
                }
                lemma_env_views_contains(pre, env@);
                assert(pre_state.lookup(env@) == lookup_seq(pre, env@));
                if has_env_seq(pre, env@) {
                    assert(env_views(self.entries@) =~= env_views(pre)) by {
                        assert(self.entries@.len() == pre.len());
                        assert(forall|t: int|
                            0 <= t < pre.len() ==> self.entries@[t].env@ == pre[t].env@);
                    }
                } else {
                    assert(env_views(self.entries@) =~= env_views(pre).push(env@)) by {
                        assert(self.entries@.len() == pre.len() + 1);
                        assert(forall|t: int|
                            0 <= t < pre.len() ==> self.entries@[t].env@ == pre[t].env@);
                        assert(self.entries@.last().env@ == env@);
                    }
                }
                assert(env_views(self.entries@) == merged_env_views(
                    env_views(old(self).entries@),
                    taken,
                ));
            }
        }
        proof {
            assert(orig.take(orig.len() as int) =~= orig);
        }
    }

    /// Removes history superseded by an environment removal: for each
    /// environment, only the events from the last `RemovedEnvironment` on
    /// remain.
    pub fn prune(&mut self)
        ensures
            final(self).entries@.len() == old(self).entries@.len(),
            forall|t: int|
                0 <= t < final(self).entries@.len() ==> final(self).entries@[t].env@
                    == old(self).entries@[t].env@ && final(self).entries@[t].changes@
                    == prune_seq(old(self).entries@[t].changes@),
            old(self).wf() ==> final(self).wf(),
    {
        let ghost orig = self.entries@;
        let mut rest: Vec<EnvEntry> = Vec::new();
        core::mem::swap(&mut rest, &mut self.entries);
        let mut out: Vec<EnvEntry> = Vec::new();
        while rest.len() > 0
            invariant
                rest@.len() <= orig.len(),
                rest@ == orig.skip(orig.len() - rest@.len()),
                out@.len() == orig.len() - rest@.len(),
                forall|t: int|
                    0 <= t < out@.len() ==> out@[t].env@ == orig[t].env@ && out@[t].changes@
                        == prune_seq(orig[t].changes@),
            decreases rest@.len(),
        {
            let ghost p = orig.len() - rest@.len();
            let e = rest.remove(0);
            proof {
                assert(e == orig[p as int]);
                assert(rest@ =~= orig.skip(p as int + 1));
            }
            let EnvEntry { env, changes } = e;
            let pruned = prune_changes(changes);
            out.push(EnvEntry { env, changes: pruned });
        }
        self.entries = out;
        proof {
            if wf_entries(orig) {
                assert forall|i: int, j: int|
                    0 <= i < j < self.entries@.len() implies self.entries@[i].env@
                    != self.entries@[j].env@ by {
                    assert(self.entries@[i].env@ == orig[i].env@);
                    assert(self.entries@[j].env@ == orig[j].env@);
                }
            }
        }
    }

    /// Prunes the ledger, then renders the coalesced report: one line per
    /// event or per coalesced group, per environment in entry order.
    pub fn report(&mut self) -> (r: Vec<String>)
        ensures
            final(self).entries@.len() == old(self).entries@.len(),
            forall|t: int|
                0 <= t < final(self).entries@.len() ==> final(self).entries@[t].env@
                    == old(self).entries@[t].env@ && final(self).entries@[t].changes@
                    == prune_seq(old(self).entries@[t].changes@),
            views_of_strings(r@) == report_spec(final(self).entries@),
    {
        self.prune();
        let ghost cur = self.entries@;
        let mut lines: Vec<String> = Vec::new();
        let mut i: usize = 0;
        while i < self.entries.len()
            invariant
                i <= cur.len(),
                self.entries@ == cur,
                views_of_strings(lines@) == report_spec(cur.take(i as int)),
            decreases cur.len() - i,
        {
            proof {
                assert(cur.take(i + 1).drop_last() =~= cur.take(i as int));
                assert(cur.take(i + 1).last() == cur[i as int]);
            }
            let e = &self.entries[i];
            if e.changes.len() > 0 {
                let mut ls = render_changes(&e.changes, &e.env, 0);
                proof {
                    crate::strutil::lemma_views_concat(lines@, ls@);
                }
                lines.append(&mut ls);
            } else {
                proof {
                    assert(views_of_strings(lines@) =~= report_spec(cur.take(i + 1)));
                }
            }
            i += 1;
        }
        proof {
            assert(cur.take(cur.len() as int) =~= cur);
        }
        lines
    }
}

} // verus!
