//! The orchestrator: resolving the set of profiles to scan and scanning
//! each in sequence.
//!
//! The profile set comes either from explicit caller-supplied paths, each
//! validated independently against the profile predicate (invalid paths are
//! reported and excluded, never fatal), or, when none are supplied, from
//! discovery over the catalog. An empty resolved set ends the run with a
//! distinct outcome for each of the two sources. No failure aborts a run.

use crate::catalog::Platform;
use crate::dataset::ThreatDataset;
use crate::locator::{discover, discovered_shape, discovery_explained, is_profile, paths_view};
use crate::scanner::{result_wf, scan, ScanResult};
use vstd::prelude::*;

verus! {

/// The scan of one profile: the profile path and its result.
#[derive(Debug)]
pub struct ProfileReport {
    pub profile: String,
    pub result: ScanResult,
}

/// How a run ended.
#[derive(Debug)]
pub enum RunOutcome {
    /// Explicit paths were given and none satisfied the profile predicate.
    NoValidArgs,
    /// No paths were given and discovery found no profile.
    NoneDiscovered,
    /// The resolved profiles, scanned in order.
    Scanned(Vec<ProfileReport>),
}

/// The outcome of a whole run, along with the explicit paths that were
/// rejected by the profile predicate, in the order they were given.
#[derive(Debug)]
pub struct RunReport {
    pub invalid_args: Vec<String>,
    pub outcome: RunOutcome,
}

/// The elements of `s` that `mask` marks with `keep`, in order.
pub open spec fn select(s: Seq<String>, mask: Seq<bool>, keep: bool) -> Seq<String>
    decreases s.len(),
{
    if s.len() == 0 || mask.len() != s.len() {
        Seq::empty()
    } else {
        let rest = select(s.drop_last(), mask.drop_last(), keep);
        if mask.last() == keep {
            rest.push(s.last())
        } else {
            rest
        }
    }
}

proof fn lemma_select_push(s: Seq<String>, mask: Seq<bool>, x: String, b: bool, keep: bool)
    requires
        s.len() == mask.len(),
    ensures
        select(s.push(x), mask.push(b), keep) == if b == keep {
            select(s, mask, keep).push(x)
        } else {
            select(s, mask, keep)
        },
{
    assert(s.push(x).drop_last() =~= s);
    assert(mask.push(b).drop_last() =~= mask);
}

/// Scans each profile in order: one report per profile, each well formed
/// over the dataset.
pub fn scan_all(profiles: &Vec<String>, ds: &ThreatDataset) -> (r: Vec<ProfileReport>)
    ensures
        r@.len() == profiles@.len(),
        forall|k: int|
            0 <= k < r@.len() ==> (#[trigger] r@[k]).profile == profiles@[k] && result_wf(
                r@[k].result,
                ds@,
            ),
{
    let mut r: Vec<ProfileReport> = Vec::new();
    let mut i: usize = 0;
    while i < profiles.len()
        invariant
            i <= profiles@.len(),
            r@.len() == i,
            forall|k: int|
                0 <= k < r@.len() ==> (#[trigger] r@[k]).profile == profiles@[k] && result_wf(
                    r@[k].result,
                    ds@,
                ),
        decreases profiles.len() - i,
    {
        let result = scan(profiles[i].as_str(), ds);
        r.push(ProfileReport { profile: profiles[i].clone(), result });
        i = i + 1;
    }
    r
}

/// Resolves the profile set and scans it.
///
/// With explicit paths: each is validated independently, the invalid ones
/// are collected in order, and exactly the valid ones are scanned, in order;
/// when none is valid the run ends as `NoValidArgs`. With no paths: the
/// discovered profiles are scanned, and an empty discovery ends the run as
/// `NoneDiscovered`. Either way every scan result is well formed over the
/// dataset, and no input ever makes the run fail.
pub fn run(args: &Vec<String>, platform: Platform, ds: &ThreatDataset) -> (r: RunReport)
    ensures
        args@.len() > 0 ==> exists|mask: Seq<bool>|
            {
                &&& mask.len() == args@.len()
                &&& r.invalid_args@ == #[trigger] select(args@, mask, false)
                &&& match r.outcome {
                    RunOutcome::NoValidArgs => select(args@, mask, true).len() == 0,
                    RunOutcome::NoneDiscovered => false,
                    RunOutcome::Scanned(reps) => {
                        &&& select(args@, mask, true).len() > 0
                        &&& reps@.len() == select(args@, mask, true).len()
                        &&& forall|k: int|
                            0 <= k < reps@.len() ==> (#[trigger] reps@[k]).profile == select(
                                args@,
                                mask,
                                true,
                            )[k] && result_wf(reps@[k].result, ds@)
                    },
                }
            },
        args@.len() == 0 ==> {
            &&& r.invalid_args@.len() == 0
            &&& exists|found: Seq<String>|
                {
                    &&& #[trigger] discovery_explained(paths_view(found), platform)
                    &&& forall|i: int|
                        0 <= i < found.len() ==> #[trigger] discovered_shape(found[i]@, platform)
                    &&& match r.outcome {
                        RunOutcome::NoValidArgs => false,
                        RunOutcome::NoneDiscovered => found.len() == 0,
                        RunOutcome::Scanned(reps) => {
                            &&& found.len() > 0
                            &&& reps@.len() == found.len()
                            &&& forall|k: int|
                                0 <= k < reps@.len() ==> (#[trigger] reps@[k]).profile == found[k]
                                    && result_wf(reps@[k].result, ds@)
                        },
                    }
                }
        },
{
    if args.len() > 0 {
        let mut valid: Vec<String> = Vec::new();
        let mut invalid: Vec<String> = Vec::new();
        let ghost mut mask: Seq<bool> = Seq::empty();
        let mut i: usize = 0;
        proof {
            assert(args@.subrange(0, 0) =~= Seq::<String>::empty());
        }
        while i < args.len()
            invariant
                i <= args@.len(),
                mask.len() == i,
                valid@ == select(args@.subrange(0, i as int), mask, true),
                invalid@ == select(args@.subrange(0, i as int), mask, false),
            decreases args.len() - i,
        {
            let ok = is_profile(args[i].as_str());
            proof {
                let prev = args@.subrange(0, i as int);
                let next = args@.subrange(0, i as int + 1);
                assert(next =~= prev.push(args@[i as int]));
                lemma_select_push(prev, mask, args@[i as int], ok, true);
                lemma_select_push(prev, mask, args@[i as int], ok, false);
                mask = mask.push(ok);
            }
            if ok {
                valid.push(args[i].clone());
            } else {
                invalid.push(args[i].clone());
            }
            i = i + 1;
        }
        proof {
            assert(args@.subrange(0, args@.len() as int) =~= args@);
        }
        if valid.len() == 0 {
            RunReport { invalid_args: invalid, outcome: RunOutcome::NoValidArgs }
        } else {
            let reports = scan_all(&valid, ds);
            RunReport { invalid_args: invalid, outcome: RunOutcome::Scanned(reports) }
        }
    } else {
        let profiles = discover(platform);
        let ghost found = profiles@;
        if profiles.len() == 0 {
            RunReport { invalid_args: Vec::new(), outcome: RunOutcome::NoneDiscovered }
        } else {
            let reports = scan_all(&profiles, ds);
            proof {
                assert(discovery_explained(paths_view(found), platform));
            }
            RunReport { invalid_args: Vec::new(), outcome: RunOutcome::Scanned(reports) }
        }
    }
}

} // verus!
