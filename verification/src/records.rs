//! Package-record reading policy: which files of an environment's metadata
//! directory count as package records, and how parse results are folded
//! into one result.  Reading and parsing the individual files is the
//! caller's concern; the policy over the outcomes lives here.

use vstd::prelude::*;
use vstd::string::*;
use crate::dirs::DirEntryInfo;
use crate::ledger::PackageInfo;
use crate::strutil::{base_name, base_name_spec, ends_with_spec, str_ends_with, views_of_strings};
use crate::GlobalError;

verus! {

pub open spec fn json_suffix() -> Seq<char> {
    seq!['.', 'j', 's', 'o', 'n']
}

/// A path names a metadata file when its final component has a `.json`
/// extension: it ends with the suffix and has a non-empty stem before it.
pub open spec fn has_metadata_ext(p: Seq<char>) -> bool {
    ends_with_spec(base_name_spec(p), json_suffix()) && base_name_spec(p).len() > 5
}

pub fn is_metadata_file(p: &str) -> (r: bool)
    ensures
        r == has_metadata_ext(p@),
{
    let base = base_name(p);
    proof {
        reveal_strlit(".json");
        assert(".json"@ =~= json_suffix());
    }
    let ends = str_ends_with(base.as_str(), ".json");
    ends && base.as_str().unicode_len() > 5
}

/// The paths of the regular files with a metadata extension, in listing
/// order.
pub open spec fn metadata_candidates_spec(entries: Seq<DirEntryInfo>) -> Seq<Seq<char>>
    decreases entries.len(),
{
    if entries.len() == 0 {
        Seq::empty()
    } else {
        let prefix = metadata_candidates_spec(entries.drop_last());
        if entries.last().is_file && has_metadata_ext(entries.last().path@) {
            prefix.push(entries.last().path@)
        } else {
            prefix
        }
    }
}

/// Keeps from a metadata directory listing exactly the package-record
/// candidates: regular files with the metadata extension.
pub fn metadata_candidates(entries: &Vec<DirEntryInfo>) -> (r: Vec<String>)
    ensures
        views_of_strings(r@) == metadata_candidates_spec(entries@),
{
    let mut r: Vec<String> = Vec::new();
    let mut i: usize = 0;
    while i < entries.len()
        invariant
            i <= entries@.len(),
            views_of_strings(r@) == metadata_candidates_spec(entries@.take(i as int)),
        decreases entries@.len() - i,
    {
        proof {
            assert(entries@.take(i + 1).drop_last() =~= entries@.take(i as int));
            assert(entries@.take(i + 1).last() == entries@[i as int]);
        }
        let e = &entries[i];
        if e.is_file && is_metadata_file(e.path.as_str()) {
            proof {
                crate::strutil::lemma_views_push(r@, e.path);
            }
            r.push(e.path.clone());
        }
        i += 1;
    }
    proof {
        assert(entries@.take(entries@.len() as int) =~= entries@);
    }
    r
}

/// The outcome of parsing one candidate file: the record it holds, or
/// nothing when it failed to parse.
pub struct ParsedRecord {
    pub path: String,
    pub record: Option<PackageInfo>,
}

/// Folds the per-file parse outcomes into one result.  The whole read
/// fails on the first file that did not parse, naming that file; a
/// directory that yielded zero candidates is a corruption, not an
/// empty-but-valid state, and fails as such.
pub fn collect_package_records(meta_dir: &str, parsed: Vec<ParsedRecord>) -> (r: Result<
    Vec<PackageInfo>,
    GlobalError,
>)
    ensures
        match r {
            Ok(v) => parsed@.len() > 0 && v@.len() == parsed@.len() && forall|t: int|
                0 <= t < parsed@.len() ==> #[trigger] parsed@[t].record == Some(v@[t]),
            Err(e) => match e {
                GlobalError::MetadataCorrupt(p) => exists|t: int|
                    0 <= t < parsed@.len() && #[trigger] parsed@[t].record is None && p@
                        == parsed@[t].path@ && forall|u: int|
                        0 <= u < t ==> #[trigger] parsed@[u].record is Some,
                GlobalError::NoMetadataFound(d) => parsed@.len() == 0 && d@ == meta_dir@,
                _ => false,
            },
        },
{
    if parsed.len() == 0 {
        return Err(GlobalError::NoMetadataFound(meta_dir.to_owned()));
    }
    let n = parsed.len();
    let mut t: usize = 0;
    while t < n
        invariant
            n == parsed@.len(),
            t <= n,
            forall|u: int| 0 <= u < t ==> #[trigger] parsed@[u].record is Some,
        decreases n - t,
    {
        if parsed[t].record.is_none() {
            return Err(GlobalError::MetadataCorrupt(parsed[t].path.clone()));
        }
        t += 1;
    }
    let ghost orig = parsed@;
    let mut rest = parsed;
    let mut out: Vec<PackageInfo> = Vec::new();
    while rest.len() > 0
        invariant
            rest@.len() <= orig.len(),
            rest@ == orig.skip(orig.len() - rest@.len()),
            out@.len() == orig.len() - rest@.len(),
            forall|u: int| 0 <= u < orig.len() ==> #[trigger] orig[u].record is Some,
            forall|u: int| 0 <= u < out@.len() ==> #[trigger] orig[u].record == Some(out@[u]),
        decreases rest@.len(),
    {
        let ghost p = orig.len() - rest@.len();
        let pr = rest.remove(0);
        proof {
            assert(pr == orig[p as int]);
            assert(rest@ =~= orig.skip(p as int + 1));
        }
        match pr.record {
            Some(rec) => {
                out.push(rec);
            },
            None => {
                proof {
                    assert(orig[p as int].record is Some);
                    assert(false);
                }
            },
        }
    }
    Ok(out)
}

} // verus!
