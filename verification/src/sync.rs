//! The sync status resolver: given the exposure scripts observed on disk and
//! the declared mapping set of one environment, computes which script paths
//! must be removed and which declared names are not yet exposed.

use vstd::prelude::*;
use vstd::string::*;
use crate::dirs::EnvDir;
use crate::names::{views_of_names, ExposedName, Mapping};
use crate::strutil::{
    derived_name, derived_name_spec, path_under, path_under_spec, views_of_strings,
};

verus! {

/// One exposure observed on disk: the script file in the binary directory
/// and the target executable path the script invokes.
pub struct ExposureRecord {
    pub exposed_path: String,
    pub executable_path: String,
}

/// A declared mapping matches an observed exposure when the logical names
/// derived from both file names equal the mapping's two names.
pub open spec fn mapping_matches(
    m: Mapping,
    exposed: Seq<char>,
    executable: Seq<char>,
    windows: bool,
) -> bool {
    derived_name_spec(exposed, windows) == m.exposed_name@ && derived_name_spec(
        executable,
        windows,
    ) == m.executable_name@
}

/// Some declared mapping matches the record.
pub open spec fn rec_matched(r: ExposureRecord, mappings: Seq<Mapping>, windows: bool) -> bool {
    exists|j: int|
        0 <= j < mappings.len() && mapping_matches(
            mappings[j],
            r.exposed_path@,
            r.executable_path@,
            windows,
        )
}

/// Some observed record matches the mapping.
pub open spec fn map_matched(m: Mapping, related: Seq<ExposureRecord>, windows: bool) -> bool {
    exists|i: int|
        0 <= i < related.len() && mapping_matches(
            m,
            related[i].exposed_path@,
            related[i].executable_path@,
            windows,
        )
}

/// The records whose target executable lies under the given environment
/// directory, in scan order.
pub open spec fn related_spec(records: Seq<ExposureRecord>, env_dir: Seq<char>) -> Seq<
    ExposureRecord,
>
    decreases records.len(),
{
    if records.len() == 0 {
        Seq::empty()
    } else {
        let prefix = related_spec(records.drop_last(), env_dir);
        if path_under_spec(records.last().executable_path@, env_dir) {
            prefix.push(records.last())
        } else {
            prefix
        }
    }
}

/// The script paths to remove: paths of related records that no declared
/// mapping matches, first occurrence kept, in scan order.
pub open spec fn stale_paths(
    related: Seq<ExposureRecord>,
    mappings: Seq<Mapping>,
    windows: bool,
) -> Seq<Seq<char>>
    decreases related.len(),
{
    if related.len() == 0 {
        Seq::empty()
    } else {
        let prefix = stale_paths(related.drop_last(), mappings, windows);
        let r = related.last();
        if !rec_matched(r, mappings, windows) && !prefix.contains(r.exposed_path@) {
            prefix.push(r.exposed_path@)
        } else {
            prefix
        }
    }
}

/// The exposed names to add: names of declared mappings that no related
/// record matches, first occurrence kept, in declaration order.
pub open spec fn wanted_names(
    related: Seq<ExposureRecord>,
    mappings: Seq<Mapping>,
    windows: bool,
) -> Seq<Seq<char>>
    decreases mappings.len(),
{
    if mappings.len() == 0 {
        Seq::empty()
    } else {
        let prefix = wanted_names(related, mappings.drop_last(), windows);
        let m = mappings.last();
        if !map_matched(m, related, windows) && !prefix.contains(m.exposed_name@) {
            prefix.push(m.exposed_name@)
        } else {
            prefix
        }
    }
}

/// Narrows a directory-wide scan to the exposures belonging to one
/// environment: keeps the records whose executable lies under its directory.
pub fn filter_related(records: Vec<ExposureRecord>, env_dir: &EnvDir) -> (r: Vec<ExposureRecord>)
    ensures
        r@ == related_spec(records@, env_dir.dir@),
{
    let ghost orig = records@;
    let mut rest = records;
    let mut r: Vec<ExposureRecord> = Vec::new();
    while rest.len() > 0
        invariant
            rest@.len() <= orig.len(),
            rest@ == orig.skip(orig.len() - rest@.len()),
            r@ == related_spec(orig.take(orig.len() - rest@.len()), env_dir.dir@),
        decreases rest@.len(),
    {
        let ghost k = orig.len() - rest@.len();
        let rec = rest.remove(0);
        proof {
            assert(rec == orig[k as int]);
            assert(rest@ =~= orig.skip(k as int + 1));
            assert(orig.take(k as int + 1).drop_last() =~= orig.take(k as int));
            assert(orig.take(k as int + 1).last() == orig[k as int]);
        }
        if path_under(rec.executable_path.as_str(), env_dir.path()) {
            r.push(rec);
        }
    }
    proof {
        assert(orig.take(orig.len() as int) =~= orig);
    }
    r
}

fn matches_mapping(m: &Mapping, exposed: &str, executable: &str, windows: bool) -> (b: bool)
    ensures
        b == mapping_matches(*m, exposed@, executable@, windows),
{
    let de = derived_name(exposed, windows);
    let dx = derived_name(executable, windows);
    let b1 = de == m.exposed_name.name;
    let b2 = dx == m.executable_name;
    b1 && b2
}

fn any_mapping_matches(mappings: &Vec<Mapping>, rec: &ExposureRecord, windows: bool) -> (b: bool)
    ensures
        b == rec_matched(*rec, mappings@, windows),
{
    let mut j: usize = 0;
    while j < mappings.len()
        invariant
            j <= mappings@.len(),
            forall|t: int|
                0 <= t < j ==> !mapping_matches(
                    mappings@[t],
                    rec.exposed_path@,
                    rec.executable_path@,
                    windows,
                ),
        decreases mappings@.len() - j,
    {
        if matches_mapping(&mappings[j], rec.exposed_path.as_str(), rec.executable_path.as_str(), windows) {
            return true;
        }
        j += 1;
    }
    false
}

fn any_record_matches(related: &Vec<ExposureRecord>, m: &Mapping, windows: bool) -> (b: bool)
    ensures
        b == map_matched(*m, related@, windows),
{
    let mut i: usize = 0;
    while i < related.len()
        invariant
            i <= related@.len(),
            forall|t: int|
                0 <= t < i ==> !mapping_matches(
                    *m,
                    related@[t].exposed_path@,
                    related@[t].executable_path@,
                    windows,
                ),
        decreases related@.len() - i,
    {
        if matches_mapping(m, related[i].exposed_path.as_str(), related[i].executable_path.as_str(), windows) {
            return true;
        }
        i += 1;
    }
    false
}

fn contains_string(v: &Vec<String>, s: &String) -> (b: bool)
    ensures
        b == views_of_strings(v@).contains(s@),
{
    let mut i: usize = 0;
    while i < v.len()
        invariant
            i <= v@.len(),
            forall|t: int| 0 <= t < i ==> v@[t]@ != s@,
        decreases v@.len() - i,
    {
        if crate::strutil::str_eq(v[i].as_str(), s.as_str()) {
            assert(views_of_strings(v@)[i as int] == s@);
            return true;
        }
        i += 1;
    }
    assert forall|t: int| 0 <= t < views_of_strings(v@).len() implies views_of_strings(v@)[t]
        != s@ by {}
    false
}

fn contains_name(v: &Vec<ExposedName>, s: &str) -> (b: bool)
    ensures
        b == views_of_names(v@).contains(s@),
{
    let mut i: usize = 0;
    while i < v.len()
        invariant
            i <= v@.len(),
            forall|t: int| 0 <= t < i ==> v@[t]@ != s@,
        decreases v@.len() - i,
    {
        if crate::strutil::str_eq(v[i].name.as_str(), s) {
            assert(views_of_names(v@)[i as int] == s@);
            return true;
        }
        i += 1;
    }
    assert forall|t: int| 0 <= t < views_of_names(v@).len() implies views_of_names(v@)[t]
        != s@ by {}
    false
}

/// The core diffing algorithm.  Returns the pair (`to_remove`, `to_add`):
/// the paths of related scripts that no declared mapping matches, and the
/// declared exposed names that no related script matches.  Both are free of
/// duplicates and keep first-occurrence order.
pub fn sync_status(related: &Vec<ExposureRecord>, mappings: &Vec<Mapping>, windows: bool) -> (r: (
    Vec<String>,
    Vec<ExposedName>,
))
    ensures
        views_of_strings(r.0@) == stale_paths(related@, mappings@, windows),
        views_of_names(r.1@) == wanted_names(related@, mappings@, windows),
{
    let mut to_remove: Vec<String> = Vec::new();
    let mut i: usize = 0;
    while i < related.len()
        invariant
            i <= related@.len(),
            views_of_strings(to_remove@) == stale_paths(related@.take(i as int), mappings@, windows),
        decreases related@.len() - i,
    {
        proof {
            assert(related@.take(i + 1).drop_last() =~= related@.take(i as int));
            assert(related@.take(i + 1).last() == related@[i as int]);
        }
        let rec = &related[i];
        if !any_mapping_matches(mappings, rec, windows) && !contains_string(
            &to_remove,
            &rec.exposed_path,
        ) {
            proof {
                crate::strutil::lemma_views_push(to_remove@, rec.exposed_path);
            }
            to_remove.push(rec.exposed_path.clone());
        }
        i += 1;
    }
    proof {
        assert(related@.take(related@.len() as int) =~= related@);
    }
    let mut to_add: Vec<ExposedName> = Vec::new();
    let mut j: usize = 0;
    while j < mappings.len()
        invariant
            j <= mappings@.len(),
            views_of_names(to_add@) == wanted_names(related@, mappings@.take(j as int), windows),
        decreases mappings@.len() - j,
    {
        proof {
            assert(mappings@.take(j + 1).drop_last() =~= mappings@.take(j as int));
            assert(mappings@.take(j + 1).last() == mappings@[j as int]);
        }
        let m = &mappings[j];
        if !any_record_matches(related, m, windows) && !contains_name(
            &to_add,
            m.exposed_name.name.as_str(),
        ) {
            proof {
                crate::names::lemma_name_views_push(to_add@, m.exposed_name);
            }
            to_add.push(m.exposed_name.duplicate());
        }
        j += 1;
    }
    proof {
        assert(mappings@.take(mappings@.len() as int) =~= mappings@);
    }
    (to_remove, to_add)
}

/// What `to_remove` holds: exactly the exposed paths of unmatched related
/// records, each once.
pub proof fn lemma_stale_paths_props(
    related: Seq<ExposureRecord>,
    mappings: Seq<Mapping>,
    windows: bool,
)
    ensures
        forall|p: Seq<char>|
            #[trigger] stale_paths(related, mappings, windows).contains(p) <==> exists|i: int|
                0 <= i < related.len() && related[i].exposed_path@ == p && !rec_matched(
                    related[i],
                    mappings,
                    windows,
                ),
        forall|a: int, b: int|
            0 <= a < b < stale_paths(related, mappings, windows).len() ==> stale_paths(
                related,
                mappings,
                windows,
            )[a] != stale_paths(related, mappings, windows)[b],
    decreases related.len(),
{
    let s = stale_paths(related, mappings, windows);
    if related.len() == 0 {
        assert(forall|p: Seq<char>| !s.contains(p));
    } else {
        lemma_stale_paths_props(related.drop_last(), mappings, windows);
        let prefix = stale_paths(related.drop_last(), mappings, windows);
        let r = related.last();
        assert(forall|i: int|
            0 <= i < related.len() - 1 ==> related.drop_last()[i] == related[i]);
        assert forall|p: Seq<char>| #[trigger] s.contains(p) implies exists|i: int|
            0 <= i < related.len() && related[i].exposed_path@ == p && !rec_matched(
                related[i],
                mappings,
                windows,
            ) by {
            if prefix.contains(p) {
                let i = choose|i: int|
                    0 <= i < related.drop_last().len() && related.drop_last()[i].exposed_path@ == p
                        && !rec_matched(related.drop_last()[i], mappings, windows);
                assert(related[i].exposed_path@ == p && !rec_matched(related[i], mappings, windows));
            } else {
                let k = choose|k: int| 0 <= k < s.len() && s[k] == p;
                assert(p == r.exposed_path@);
                assert(related[related.len() - 1].exposed_path@ == p && !rec_matched(
                    related[related.len() - 1],
                    mappings,
                    windows,
                ));
            }
        }
        assert forall|p: Seq<char>|
            (exists|i: int|
                0 <= i < related.len() && related[i].exposed_path@ == p && !rec_matched(
                    related[i],
                    mappings,
                    windows,
                )) implies #[trigger] s.contains(p) by {
            let i = choose|i: int|
                0 <= i < related.len() && related[i].exposed_path@ == p && !rec_matched(
                    related[i],
                    mappings,
                    windows,
                );
            if i < related.len() - 1 {
                assert(related.drop_last()[i] == related[i]);
                assert(prefix.contains(p));
                if !rec_matched(r, mappings, windows) && !prefix.contains(r.exposed_path@) {
                    let k = choose|k: int| 0 <= k < prefix.len() && prefix[k] == p;
                    assert(s[k] == p);
                } else {
                    assert(s.contains(p));
                }
            } else {
                if !rec_matched(r, mappings, windows) && !prefix.contains(r.exposed_path@) {
                    assert(s[s.len() - 1] == p);
                } else {
                    assert(prefix.contains(p));
                    let k = choose|k: int| 0 <= k < prefix.len() && prefix[k] == p;
                    assert(s[k] == p);
                }
            }
        }
        if !rec_matched(r, mappings, windows) && !prefix.contains(r.exposed_path@) {
            assert(forall|k: int| 0 <= k < prefix.len() ==> s[k] == prefix[k]);
            assert(forall|k: int| 0 <= k < prefix.len() ==> prefix.contains(prefix[k]));
        }
    }
}

/// What `to_add` holds: exactly the exposed names of unmatched declared
/// mappings, each once.
pub proof fn lemma_wanted_names_props(
    related: Seq<ExposureRecord>,
    mappings: Seq<Mapping>,
    windows: bool,
)
    ensures
        forall|n: Seq<char>|
            #[trigger] wanted_names(related, mappings, windows).contains(n) <==> exists|j: int|
                0 <= j < mappings.len() && mappings[j].exposed_name@ == n && !map_matched(
                    mappings[j],
                    related,
                    windows,
                ),
        forall|a: int, b: int|
            0 <= a < b < wanted_names(related, mappings, windows).len() ==> wanted_names(
                related,
                mappings,
                windows,
            )[a] != wanted_names(related, mappings, windows)[b],
    decreases mappings.len(),
{
    let s = wanted_names(related, mappings, windows);
    if mappings.len() == 0 {
        assert(forall|n: Seq<char>| !s.contains(n));
    } else {
        lemma_wanted_names_props(related, mappings.drop_last(), windows);
        let prefix = wanted_names(related, mappings.drop_last(), windows);
        let m = mappings.last();
        assert(forall|j: int|
            0 <= j < mappings.len() - 1 ==> mappings.drop_last()[j] == mappings[j]);
        assert forall|n: Seq<char>| #[trigger] s.contains(n) implies exists|j: int|
            0 <= j < mappings.len() && mappings[j].exposed_name@ == n && !map_matched(
                mappings[j],
                related,
                windows,
            ) by {
            if prefix.contains(n) {
                let j = choose|j: int|
                    0 <= j < mappings.drop_last().len() && mappings.drop_last()[j].exposed_name@
                        == n && !map_matched(mappings.drop_last()[j], related, windows);
                assert(mappings[j].exposed_name@ == n && !map_matched(
                    mappings[j],
                    related,
                    windows,
                ));
            } else {
                assert(n == m.exposed_name@);
                assert(mappings[mappings.len() - 1].exposed_name@ == n && !map_matched(
                    mappings[mappings.len() - 1],
                    related,
                    windows,
                ));
            }
        }
        assert forall|n: Seq<char>|
            (exists|j: int|
                0 <= j < mappings.len() && mappings[j].exposed_name@ == n && !map_matched(
                    mappings[j],
                    related,
                    windows,
                )) implies #[trigger] s.contains(n) by {
            let j = choose|j: int|
                0 <= j < mappings.len() && mappings[j].exposed_name@ == n && !map_matched(
                    mappings[j],
                    related,
                    windows,
                );
            if j < mappings.len() - 1 {
                assert(mappings.drop_last()[j] == mappings[j]);
                assert(prefix.contains(n));
                if !map_matched(m, related, windows) && !prefix.contains(m.exposed_name@) {
                    let k = choose|k: int| 0 <= k < prefix.len() && prefix[k] == n;
                    assert(s[k] == n);
                } else {
                    assert(s.contains(n));
                }
            } else {
                if !map_matched(m, related, windows) && !prefix.contains(m.exposed_name@) {
                    assert(s[s.len() - 1] == n);
                } else {
                    assert(prefix.contains(n));
                    let k = choose|k: int| 0 <= k < prefix.len() && prefix[k] == n;
                    assert(s[k] == n);
                }
            }
        }
        if !map_matched(m, related, windows) && !prefix.contains(m.exposed_name@) {
            assert(forall|k: int| 0 <= k < prefix.len() ==> s[k] == prefix[k]);
            assert(forall|k: int| 0 <= k < prefix.len() ==> prefix.contains(prefix[k]));
        }
    }
}

/// Disjointness: `to_remove` and `to_add` never reference the same exposed
/// name, provided no observed exposure shares a declared exposed name while
/// pointing at a different executable (a retarget, which legitimately puts
/// the same name in both sets).
pub proof fn lemma_sync_disjoint(
    related: Seq<ExposureRecord>,
    mappings: Seq<Mapping>,
    windows: bool,
)
    requires
        forall|i: int, j: int|
            0 <= i < related.len() && 0 <= j < mappings.len() && derived_name_spec(
                related[i].exposed_path@,
                windows,
            ) == mappings[j].exposed_name@ ==> derived_name_spec(
                related[i].executable_path@,
                windows,
            ) == mappings[j].executable_name@,
    ensures
        forall|a: int, b: int|
            0 <= a < stale_paths(related, mappings, windows).len() && 0 <= b < wanted_names(
                related,
                mappings,
                windows,
            ).len() ==> derived_name_spec(stale_paths(related, mappings, windows)[a], windows)
                != wanted_names(related, mappings, windows)[b],
{
    let s = stale_paths(related, mappings, windows);
    let w = wanted_names(related, mappings, windows);
    lemma_stale_paths_props(related, mappings, windows);
    lemma_wanted_names_props(related, mappings, windows);
    assert forall|a: int, b: int|
        0 <= a < s.len() && 0 <= b < w.len() implies derived_name_spec(s[a], windows)
        != w[b] by {
        assert(s.contains(s[a]));
        assert(w.contains(w[b]));
        let i = choose|i: int|
            0 <= i < related.len() && related[i].exposed_path@ == s[a] && !rec_matched(
                related[i],
                mappings,
                windows,
            );
        let j = choose|j: int|
            0 <= j < mappings.len() && mappings[j].exposed_name@ == w[b] && !map_matched(
                mappings[j],
                related,
                windows,
            );
        if derived_name_spec(s[a], windows) == w[b] {
            assert(mapping_matches(
                mappings[j],
                related[i].exposed_path@,
                related[i].executable_path@,
                windows,
            ));
            assert(rec_matched(related[i], mappings, windows));
        }
    }
}

/// The executables one package provides, by name.
pub struct PackageBinaries {
    pub package: String,
    pub executables: Vec<String>,
}

/// Some declared mapping names this executable.
pub open spec fn exec_covered(mappings: Seq<Mapping>, name: Seq<char>) -> bool {
    exists|k: int| 0 <= k < mappings.len() && #[trigger] mappings[k].executable_name@ == name
}

/// Every executable any package provides is covered by some declared
/// mapping's executable name.
pub open spec fn all_exposed_spec(
    env_binaries: Seq<PackageBinaries>,
    mappings: Seq<Mapping>,
) -> bool {
    forall|i: int, j: int|
        0 <= i < env_binaries.len() && 0 <= j < env_binaries[i].executables@.len()
            ==> exec_covered(mappings, #[trigger] env_binaries[i].executables@[j]@)
}

fn mappings_cover(mappings: &Vec<Mapping>, name: &str) -> (b: bool)
    ensures
        b == exec_covered(mappings@, name@),
{
    let mut k: usize = 0;
    while k < mappings.len()
        invariant
            k <= mappings@.len(),
            forall|t: int| 0 <= t < k ==> #[trigger] mappings@[t].executable_name@ != name@,
        decreases mappings@.len() - k,
    {
        if crate::strutil::str_eq(mappings[k].executable_name.as_str(), name) {
            return true;
        }
        k += 1;
    }
    false
}

fn package_covered(mappings: &Vec<Mapping>, execs: &Vec<String>) -> (b: bool)
    ensures
        b == forall|j: int|
            0 <= j < execs@.len() ==> exec_covered(mappings@, #[trigger] execs@[j]@),
{
    let mut j: usize = 0;
    while j < execs.len()
        invariant
            j <= execs@.len(),
            forall|b: int| 0 <= b < j ==> exec_covered(mappings@, #[trigger] execs@[b]@),
        decreases execs@.len() - j,
    {
        if !mappings_cover(mappings, execs[j].as_str()) {
            return false;
        }
        j += 1;
    }
    true
}

/// Checks whether all of an environment's binaries are exposed, or the
/// user selected only a subset of them.
pub fn check_all_exposed(
    env_binaries: &Vec<PackageBinaries>,
    exposed_mapping_binaries: &Vec<Mapping>,
) -> (r: bool)
    ensures
        r == all_exposed_spec(env_binaries@, exposed_mapping_binaries@),
{
    let mut i: usize = 0;
    while i < env_binaries.len()
        invariant
            i <= env_binaries@.len(),
            forall|a: int, b: int|
                0 <= a < i && 0 <= b < env_binaries@[a].executables@.len() ==> exec_covered(
                    exposed_mapping_binaries@,
                    #[trigger] env_binaries@[a].executables@[b]@,
                ),
        decreases env_binaries@.len() - i,
    {
        if !package_covered(exposed_mapping_binaries, &env_binaries[i].executables) {
            return false;
        }
        i += 1;
    }
    true
}

proof fn lemma_all_matched_stale_empty(
    related: Seq<ExposureRecord>,
    mappings: Seq<Mapping>,
    windows: bool,
)
    requires
        forall|i: int| 0 <= i < related.len() ==> rec_matched(#[trigger] related[i], mappings, windows),
    ensures
        stale_paths(related, mappings, windows).len() == 0,
    decreases related.len(),
{
    if related.len() > 0 {
        assert(forall|i: int|
            0 <= i < related.len() - 1 ==> related.drop_last()[i] == related[i]);
        lemma_all_matched_stale_empty(related.drop_last(), mappings, windows);
        assert(rec_matched(related[related.len() - 1], mappings, windows));
    }
}

proof fn lemma_all_mappings_matched_wanted_empty(
    related: Seq<ExposureRecord>,
    mappings: Seq<Mapping>,
    windows: bool,
)
    requires
        forall|j: int| 0 <= j < mappings.len() ==> map_matched(#[trigger] mappings[j], related, windows),
    ensures
        wanted_names(related, mappings, windows).len() == 0,
    decreases mappings.len(),
{
    if mappings.len() > 0 {
        assert(forall|j: int|
            0 <= j < mappings.len() - 1 ==> mappings.drop_last()[j] == mappings[j]);
        lemma_all_mappings_matched_wanted_empty(related, mappings.drop_last(), windows);
        assert(map_matched(mappings[mappings.len() - 1], related, windows));
    }
}

/// Idempotence: once `to_remove` has been deleted and every wanted name
/// materialized, a second resolver run finds nothing to do.  `applied`
/// stands for the records a fresh scan observes afterwards: each one is
/// either a kept record (it matched a mapping, so it was not removed) or a
/// launcher created for a wanted mapping; and every matched record was kept
/// and every wanted mapping was materialized.  An orchestrator can only
/// reach such a state when no two declared mappings pair one exposed name
/// with different executables.
pub proof fn lemma_sync_idempotent(
    related: Seq<ExposureRecord>,
    mappings: Seq<Mapping>,
    windows: bool,
    applied: Seq<ExposureRecord>,
)
    requires
        forall|i: int|
            0 <= i < applied.len() ==> (exists|j: int|
                0 <= j < related.len() && related[j].exposed_path@ == #[trigger] applied[i].exposed_path@
                    && related[j].executable_path@ == applied[i].executable_path@ && rec_matched(
                    related[j],
                    mappings,
                    windows,
                )) || (exists|j: int|
                0 <= j < mappings.len() && !map_matched(mappings[j], related, windows)
                    && mapping_matches(
                    mappings[j],
                    applied[i].exposed_path@,
                    applied[i].executable_path@,
                    windows,
                )),
        forall|j: int|
            0 <= j < related.len() && rec_matched(#[trigger] related[j], mappings, windows)
                ==> exists|i: int|
                0 <= i < applied.len() && applied[i].exposed_path@ == related[j].exposed_path@
                    && applied[i].executable_path@ == related[j].executable_path@,
        forall|j: int|
            0 <= j < mappings.len() && !map_matched(#[trigger] mappings[j], related, windows)
                ==> exists|i: int|
                0 <= i < applied.len() && mapping_matches(
                    mappings[j],
                    applied[i].exposed_path@,
                    applied[i].executable_path@,
                    windows,
                ),
    ensures
        stale_paths(applied, mappings, windows).len() == 0,
        wanted_names(applied, mappings, windows).len() == 0,
{
    assert forall|i: int| 0 <= i < applied.len() implies rec_matched(
        #[trigger] applied[i],
        mappings,
        windows,
    ) by {
        if exists|j: int|
            0 <= j < related.len() && related[j].exposed_path@ == applied[i].exposed_path@
                && related[j].executable_path@ == applied[i].executable_path@ && rec_matched(
                related[j],
                mappings,
                windows,
            ) {
            let j = choose|j: int|
                0 <= j < related.len() && related[j].exposed_path@ == applied[i].exposed_path@
                    && related[j].executable_path@ == applied[i].executable_path@ && rec_matched(
                    related[j],
                    mappings,
                    windows,
                );
            let t = choose|t: int|
                0 <= t < mappings.len() && mapping_matches(
                    mappings[t],
                    related[j].exposed_path@,
                    related[j].executable_path@,
                    windows,
                );
            assert(mapping_matches(
                mappings[t],
                applied[i].exposed_path@,
                applied[i].executable_path@,
                windows,
            ));
        } else {
            let j = choose|j: int|
                0 <= j < mappings.len() && !map_matched(mappings[j], related, windows)
                    && mapping_matches(
                    mappings[j],
                    applied[i].exposed_path@,
                    applied[i].executable_path@,
                    windows,
                );
            assert(mapping_matches(
                mappings[j],
                applied[i].exposed_path@,
                applied[i].executable_path@,
                windows,
            ));
        }
    }
    lemma_all_matched_stale_empty(applied, mappings, windows);
    assert forall|j: int| 0 <= j < mappings.len() implies map_matched(
        #[trigger] mappings[j],
        applied,
        windows,
    ) by {
        if map_matched(mappings[j], related, windows) {
            let t = choose|t: int|
                0 <= t < related.len() && mapping_matches(
                    mappings[j],
                    related[t].exposed_path@,
                    related[t].executable_path@,
                    windows,
                );
            assert(rec_matched(related[t], mappings, windows));
            let i = choose|i: int|
                0 <= i < applied.len() && applied[i].exposed_path@ == related[t].exposed_path@
                    && applied[i].executable_path@ == related[t].executable_path@;
            assert(mapping_matches(
                mappings[j],
                applied[i].exposed_path@,
                applied[i].executable_path@,
                windows,
            ));
        } else {
            let i = choose|i: int|
                0 <= i < applied.len() && mapping_matches(
                    mappings[j],
                    applied[i].exposed_path@,
                    applied[i].executable_path@,
                    windows,
                );
            assert(mapping_matches(
                mappings[j],
                applied[i].exposed_path@,
                applied[i].executable_path@,
                windows,
            ));
        }
    }
    lemma_all_mappings_matched_wanted_empty(applied, mappings, windows);
}

} // verus!
