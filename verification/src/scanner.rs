//! Scanning one profile for flagged extensions.
//!
//! The extension identifiers of a profile are the entry names directly under
//! its `Extensions` subdirectory. Matching never looks at the catalog and
//! never inspects extension content: an identifier is flagged exactly when
//! the threat dataset contains it. A profile is classified into exactly one
//! of three outcomes: no extensions installed, extensions installed with
//! none flagged, or at least one flagged.

use crate::dataset::ThreatDataset;
use crate::locator::join;
use crate::probe;
use vstd::prelude::*;

verus! {

/// The classification of one profile.
#[derive(Clone, Copy, Debug, PartialEq, Eq, Structural)]
pub enum ScanOutcome {
    /// No extension entry could be enumerated: the `Extensions` directory is
    /// absent, unreadable, or empty.
    NoExtensions,
    /// Extensions were enumerated and none of them is in the dataset.
    NothingFlagged,
    /// At least one enumerated extension is in the dataset.
    Flagged,
}

/// One flagged extension: its identifier and the reference URL that says why
/// it is flagged.
#[derive(Debug)]
pub struct FlaggedExtension {
    pub id: String,
    pub url: String,
}

/// The result of scanning one profile.
#[derive(Debug)]
pub struct ScanResult {
    pub outcome: ScanOutcome,
    pub flagged: Vec<FlaggedExtension>,
}

/// The view of a list of identifiers as character sequences.
pub open spec fn ids_view(s: Seq<String>) -> Seq<Seq<char>> {
    s.map_values(|x: String| x@)
}

/// The view of flagged extensions as (identifier, URL) pairs.
pub open spec fn flagged_view(s: Seq<FlaggedExtension>) -> Seq<(Seq<char>, Seq<char>)> {
    s.map_values(|f: FlaggedExtension| (f.id@, f.url@))
}

/// The flagged (identifier, URL) pairs among `ids` under mapping `m`, in
/// enumeration order: exactly the identifiers that `m` contains, each paired
/// with its reference URL.
pub open spec fn flagged_pairs(
    ids: Seq<Seq<char>>,
    m: Map<Seq<char>, Seq<char>>,
) -> Seq<(Seq<char>, Seq<char>)>
    decreases ids.len(),
{
    if ids.len() == 0 {
        Seq::empty()
    } else {
        let rest = flagged_pairs(ids.drop_last(), m);
        if m.contains_key(ids.last()) {
            rest.push((ids.last(), m[ids.last()]))
        } else {
            rest
        }
    }
}

/// The outcome implied by an enumeration: no entries at all, entries but
/// nothing flagged, or at least one flagged pair.
pub open spec fn spec_outcome(ids: Seq<Seq<char>>, m: Map<Seq<char>, Seq<char>>) -> ScanOutcome {
    if ids.len() == 0 {
        ScanOutcome::NoExtensions
    } else if flagged_pairs(ids, m).len() == 0 {
        ScanOutcome::NothingFlagged
    } else {
        ScanOutcome::Flagged
    }
}

/// Soundness of flagging: every flagged pair is a genuine association of
/// `m` over an identifier that occurs among `ids`. An identifier outside the
/// dataset is never reported.
pub proof fn lemma_flagged_pairs_sound(ids: Seq<Seq<char>>, m: Map<Seq<char>, Seq<char>>)
    ensures
        forall|k: int|
            0 <= k < flagged_pairs(ids, m).len() ==> {
                let pair = #[trigger] flagged_pairs(ids, m)[k];
                &&& ids.contains(pair.0)
                &&& m.contains_key(pair.0)
                &&& pair.1 == m[pair.0]
            },
    decreases ids.len(),
{
    if ids.len() > 0 {
        let rest = ids.drop_last();
        lemma_flagged_pairs_sound(rest, m);
        assert forall|k: int| 0 <= k < flagged_pairs(ids, m).len() implies {
            let pair = #[trigger] flagged_pairs(ids, m)[k];
            &&& ids.contains(pair.0)
            &&& m.contains_key(pair.0)
            &&& pair.1 == m[pair.0]
        } by {
            if k < flagged_pairs(rest, m).len() {
                let pair = flagged_pairs(rest, m)[k];
                let i = choose|i: int| 0 <= i < rest.len() && rest[i] == pair.0;
                assert(ids[i] == pair.0);
            } else {
                assert(ids[ids.len() - 1] == flagged_pairs(ids, m)[k].0);
            }
        }
    }
}

/// Completeness of flagging: every identifier among `ids` that `m` contains
/// appears in the flagged pairs with its reference URL.
pub proof fn lemma_flagged_pairs_complete(ids: Seq<Seq<char>>, m: Map<Seq<char>, Seq<char>>, i: int)
    requires
        0 <= i < ids.len(),
        m.contains_key(ids[i]),
    ensures
        exists|k: int|
            0 <= k < flagged_pairs(ids, m).len() && #[trigger] flagged_pairs(ids, m)[k] == (
                ids[i],
                m[ids[i]],
            ),
    decreases ids.len(),
{
    let rest = ids.drop_last();
    if i == ids.len() - 1 {
        let k = flagged_pairs(rest, m).len() as int;
        assert(flagged_pairs(ids, m)[k] == (ids[i], m[ids[i]]));
    } else {
        lemma_flagged_pairs_complete(rest, m, i);
        let k = choose|k: int|
            0 <= k < flagged_pairs(rest, m).len() && #[trigger] flagged_pairs(rest, m)[k] == (
                rest[i],
                m[rest[i]],
            );
        assert(flagged_pairs(ids, m)[k] == (ids[i], m[ids[i]]));
    }
}

/// What `scan` guarantees of a result whatever the filesystem returned: the
/// outcome agrees with the flagged list, and every flagged pair is a genuine
/// association of the dataset.
pub open spec fn result_wf(r: ScanResult, m: Map<Seq<char>, Seq<char>>) -> bool {
    &&& (r.outcome is Flagged <==> r.flagged@.len() > 0)
    &&& (r.outcome is NoExtensions ==> r.flagged@.len() == 0)
    &&& forall|k: int|
        0 <= k < r.flagged@.len() ==> {
            let f = #[trigger] r.flagged@[k];
            m.contains_key(f.id@) && f.url@ == m[f.id@]
        }
}

/// Classifies an enumerated list of extension identifiers against the
/// dataset: the flagged pairs in enumeration order, and the implied outcome.
pub fn classify(ids: &Vec<String>, ds: &ThreatDataset) -> (r: ScanResult)
    ensures
        flagged_view(r.flagged@) == flagged_pairs(ids_view(ids@), ds@),
        r.outcome == spec_outcome(ids_view(ids@), ds@),
        result_wf(r, ds@),
{
    let mut flagged: Vec<FlaggedExtension> = Vec::new();
    let mut i: usize = 0;
    proof {
        assert(ids_view(ids@).subrange(0, 0) =~= Seq::<Seq<char>>::empty());
    }
    while i < ids.len()
        invariant
            i <= ids@.len(),
            flagged_view(flagged@) == flagged_pairs(ids_view(ids@).subrange(0, i as int), ds@),
        decreases ids.len() - i,
    {
        let ghost prev = ids_view(ids@).subrange(0, i as int);
        let ghost next = ids_view(ids@).subrange(0, i as int + 1);
        proof {
            assert(next.drop_last() =~= prev);
            assert(next.last() == ids@[i as int]@);
        }
        match ds.get(&ids[i]) {
            Some(url) => {
                let ghost gurl = url@;
                flagged.push(FlaggedExtension { id: ids[i].clone(), url });
                proof {
                    assert(flagged_view(flagged@) =~= flagged_view(flagged@.drop_last()).push(
                        (ids@[i as int]@, gurl),
                    ));
                }
            },
            None => {},
        }
        i = i + 1;
    }
    proof {
        assert(ids_view(ids@).subrange(0, ids@.len() as int) =~= ids_view(ids@));
        lemma_flagged_pairs_sound(ids_view(ids@), ds@);
        assert(flagged_view(flagged@).len() == flagged@.len());
        assert forall|k: int| 0 <= k < flagged@.len() implies {
            let f = #[trigger] flagged@[k];
            ds@.contains_key(f.id@) && f.url@ == ds@[f.id@]
        } by {
            assert(flagged_view(flagged@)[k] == (flagged@[k].id@, flagged@[k].url@));
            assert(flagged_pairs(ids_view(ids@), ds@)[k] == flagged_view(flagged@)[k]);
        }
    }
    let outcome = if ids.len() == 0 {
        ScanOutcome::NoExtensions
    } else if flagged.len() == 0 {
        ScanOutcome::NothingFlagged
    } else {
        ScanOutcome::Flagged
    };
    ScanResult { outcome, flagged }
}

/// The result `scan` owes for one possible outcome of listing the
/// `Extensions` directory: an unreadable or absent directory forces "no
/// extensions installed" with nothing flagged, and a listing forces exactly
/// `classify`'s result on it.
pub open spec fn scan_explained(
    r: ScanResult,
    listing: Option<Seq<String>>,
    m: Map<Seq<char>, Seq<char>>,
) -> bool {
    match listing {
        None => r.outcome == ScanOutcome::NoExtensions && r.flagged@.len() == 0,
        Some(ids) => {
            &&& flagged_view(r.flagged@) == flagged_pairs(ids_view(ids), m)
            &&& r.outcome == spec_outcome(ids_view(ids), m)
        },
    }
}

/// Scans one profile: computes `profile/Extensions`, treats an unreadable or
/// absent directory as "no extensions installed", and classifies the
/// enumerated entry names against the dataset. Entries the probe could not
/// resolve are skipped, never fatal. Whatever the filesystem returned, the
/// result is well formed over the dataset and is explained by some listing
/// outcome: either the directory was unreadable, or the result is exactly
/// the classification of the enumerated names.
pub fn scan(profile: &str, ds: &ThreatDataset) -> (r: ScanResult)
    ensures
        result_wf(r, ds@),
        exists|listing: Option<Seq<String>>| #[trigger] scan_explained(r, listing, ds@),
{
    let ext_dir = join(profile, "Extensions");
    match probe::read_dir_names(ext_dir.as_str()) {
        Some(ids) => {
            let r = classify(&ids, ds);
            proof {
                assert(scan_explained(r, Some(ids@), ds@));
            }
            r
        },
        None => {
            let r = ScanResult { outcome: ScanOutcome::NoExtensions, flagged: Vec::new() };
            proof {
                assert(scan_explained(r, None::<Seq<String>>, ds@));
            }
            r
        },
    }
}

} // verus!
