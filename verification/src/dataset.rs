//! The threat dataset: a read-only mapping from flagged extension
//! identifiers to the reference URLs describing why they are flagged.
//!
//! The mapping is held as the sequence of associations in the order they were
//! made; its mathematical contents are the fold of those associations into a
//! map, so a later association for the same identifier wins.

use vstd::prelude::*;

verus! {

/// One association: a flagged extension identifier and its reference URL.
#[derive(Debug)]
pub struct DatasetEntry {
    pub id: String,
    pub url: String,
}

/// The mathematical contents of a sequence of (identifier, URL) pairs: each
/// pair is inserted in order, so a later pair for the same identifier wins.
pub open spec fn pairs_map(s: Seq<(Seq<char>, Seq<char>)>) -> Map<Seq<char>, Seq<char>>
    decreases s.len(),
{
    if s.len() == 0 {
        Map::empty()
    } else {
        pairs_map(s.drop_last()).insert(s.last().0, s.last().1)
    }
}

/// The view of a sequence of entries as (identifier, URL) pairs.
pub open spec fn entry_pairs(s: Seq<DatasetEntry>) -> Seq<(Seq<char>, Seq<char>)> {
    s.map(|i: int, e: DatasetEntry| (e.id@, e.url@))
}

/// A mapping from flagged extension identifiers to reference URLs. An
/// identifier's absence means "not known malicious": no claim of benignity.
#[derive(Debug)]
pub struct ThreatDataset {
    entries: Vec<DatasetEntry>,
}

impl View for ThreatDataset {
    type V = Map<Seq<char>, Seq<char>>;

    closed spec fn view(&self) -> Map<Seq<char>, Seq<char>> {
        pairs_map(entry_pairs(self.entries@))
    }
}

impl ThreatDataset {
    /// The empty dataset: no identifier is flagged.
    pub fn new() -> (r: ThreatDataset)
        ensures
            r@ == Map::<Seq<char>, Seq<char>>::empty(),
    {
        let r = ThreatDataset { entries: Vec::new() };
        proof {
            assert(entry_pairs(r.entries@) =~= Seq::<(Seq<char>, Seq<char>)>::empty());
        }
        r
    }

    /// Associates `id` with `url`, overriding any earlier association.
    pub fn insert(&mut self, id: String, url: String)
        ensures
            final(self)@ == old(self)@.insert(id@, url@),
    {
        let ghost gid = id@;
        let ghost gurl = url@;
        self.entries.push(DatasetEntry { id, url });
        proof {
            let p_old = entry_pairs(old(self).entries@);
            let p_new = entry_pairs(self.entries@);
            assert(p_new.drop_last() =~= p_old);
            assert(p_new.last() == (gid, gurl));
        }
    }

    /// Looks up an extension identifier: `Some` with the associated reference
    /// URL exactly when the identifier is flagged, `None` otherwise.
    pub fn get(&self, id: &String) -> (r: Option<String>)
        ensures
            match r {
                Some(url) => self@.contains_key(id@) && url@ == self@[id@],
                None => !self@.contains_key(id@),
            },
    {
        let mut i = self.entries.len();
        while i > 0
            invariant
                i <= self.entries.len(),
                forall|j: int| i <= j < self.entries@.len() ==> self.entries@[j].id@ != id@,
            decreases i,
        {
            i = i - 1;
            if self.entries[i].id == *id {
                proof {
                    lemma_pairs_map_last_wins(entry_pairs(self.entries@), i as int);
                }
                return Some(self.entries[i].url.clone());
            }
        }
        proof {
            lemma_pairs_map_absent(entry_pairs(self.entries@), id@);
        }
        None
    }
}

/// A later association wins: if position `i` holds the last pair for its
/// identifier, the mapping associates that identifier with the URL at `i`.
pub proof fn lemma_pairs_map_last_wins(s: Seq<(Seq<char>, Seq<char>)>, i: int)
    requires
        0 <= i < s.len(),
        forall|j: int| i < j < s.len() ==> s[j].0 != s[i].0,
    ensures
        pairs_map(s).contains_key(s[i].0),
        pairs_map(s)[s[i].0] == s[i].1,
    decreases s.len(),
{
    if i < s.len() - 1 {
        lemma_pairs_map_last_wins(s.drop_last(), i);
    }
}

/// An identifier that occurs in no pair is absent from the mapping.
pub proof fn lemma_pairs_map_absent(s: Seq<(Seq<char>, Seq<char>)>, k: Seq<char>)
    requires
        forall|j: int| 0 <= j < s.len() ==> s[j].0 != k,
    ensures
        !pairs_map(s).contains_key(k),
    decreases s.len(),
{
    if s.len() > 0 {
        lemma_pairs_map_absent(s.drop_last(), k);
    }
}

} // verus!
