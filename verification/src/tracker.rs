//! Grouping records by fingerprint and recording divergent pairs.
//!
//! Per fingerprint the tracker moves through three states: unseen, then
//! canonical once a first record arrives, then diverged once a later record
//! with the same fingerprint declares different outputs. The diverged state
//! is terminal: it stores the canonical record and the first divergent one,
//! and every further record with that fingerprint is ignored.

use vstd::prelude::*;

use crate::outputs::{outputs_are_same, outputs_same};
use crate::record::SpawnExec;

verus! {

/// One reported divergence: two records sharing a fingerprint whose declared
/// outputs differ. `first` is the fingerprint's first-observed record and
/// `second` the first record that diverged from it.
#[derive(Debug)]
pub struct Divergence {
    pub fingerprint: Vec<u8>,
    pub first: SpawnExec,
    pub second: SpawnExec,
}

/// The map from fingerprint to canonical record that a list of entries
/// denotes.
pub open spec fn canon_map_of(s: Seq<(Vec<u8>, SpawnExec)>) -> Map<Seq<u8>, SpawnExec>
    decreases s.len(),
{
    if s.len() == 0 {
        Map::<Seq<u8>, SpawnExec>::empty()
    } else {
        canon_map_of(s.drop_last()).insert(s.last().0@, s.last().1)
    }
}

/// The map from fingerprint to divergent pair that a list of divergences
/// denotes.
pub open spec fn div_map_of(s: Seq<Divergence>) -> Map<Seq<u8>, (SpawnExec, SpawnExec)>
    decreases s.len(),
{
    if s.len() == 0 {
        Map::<Seq<u8>, (SpawnExec, SpawnExec)>::empty()
    } else {
        div_map_of(s.drop_last()).insert(s.last().fingerprint@, (s.last().first, s.last().second))
    }
}

/// How one record moves the tracker: from the canonical map and the
/// divergence map, the two maps after the record is consumed. A fingerprint
/// already diverged ignores the record; an unseen one stores it as
/// canonical; a canonical one with equal outputs drops it; a canonical one
/// with differing outputs moves the stored record and the new one into the
/// divergence map.
pub open spec fn step_record(
    canon: Map<Seq<u8>, SpawnExec>,
    div: Map<Seq<u8>, (SpawnExec, SpawnExec)>,
    fp: Seq<u8>,
    rec: SpawnExec,
) -> (Map<Seq<u8>, SpawnExec>, Map<Seq<u8>, (SpawnExec, SpawnExec)>) {
    if div.contains_key(fp) {
        (canon, div)
    } else if !canon.contains_key(fp) {
        (canon.insert(fp, rec), div)
    } else if outputs_same(canon[fp].actual_outputs@, rec.actual_outputs@) {
        (canon, div)
    } else {
        (canon.remove(fp), div.insert(fp, (canon[fp], rec)))
    }
}

/// Accumulated state over all records seen so far: the canonical record of
/// each fingerprint that has not diverged, and the divergent pair of each
/// fingerprint that has, in the order the divergences were found.
#[derive(Debug)]
pub struct Tracker {
    canonical: Vec<(Vec<u8>, SpawnExec)>,
    diverged: Vec<Divergence>,
}

impl Tracker {
    /// The map from fingerprint to its canonical record.
    pub closed spec fn canon_map(self) -> Map<Seq<u8>, SpawnExec> {
        canon_map_of(self.canonical@)
    }

    /// The divergences found so far, oldest first.
    pub closed spec fn div_seq(self) -> Seq<Divergence> {
        self.diverged@
    }

    /// The map from fingerprint to its divergent pair.
    pub open spec fn div_map(self) -> Map<Seq<u8>, (SpawnExec, SpawnExec)> {
        div_map_of(self.div_seq())
    }

    /// Each fingerprint is tracked at most once: the stored entries carry
    /// pairwise distinct fingerprints, and no fingerprint is both canonical
    /// and diverged.
    pub closed spec fn wf(self) -> bool {
        &&& forall|i: int, j: int|
            0 <= i < j < self.canonical@.len() ==> (#[trigger] self.canonical@[i]).0@ != (
            #[trigger] self.canonical@[j]).0@
        &&& forall|i: int, j: int|
            0 <= i < j < self.diverged@.len() ==> (#[trigger] self.diverged@[i]).fingerprint@ != (
            #[trigger] self.diverged@[j]).fingerprint@
        &&& forall|i: int, j: int|
            0 <= i < self.canonical@.len() && 0 <= j < self.diverged@.len() ==> (
            #[trigger] self.canonical@[i]).0@ != (#[trigger] self.diverged@[j]).fingerprint@
    }

    /// A tracker that has seen no records: both maps empty.
    pub fn new() -> (t: Tracker)
        ensures
            t.wf(),
            t.canon_map() == Map::<Seq<u8>, SpawnExec>::empty(),
            t.div_seq() == Seq::<Divergence>::empty(),
    {
        Tracker { canonical: Vec::new(), diverged: Vec::new() }
    }

    /// Consumes one decoded record under its fingerprint. The two maps move
    /// exactly as `step_record` says; a new divergence is appended to the
    /// report order.
    pub fn process(&mut self, fingerprint: Vec<u8>, rec: SpawnExec)
        requires
            old(self).wf(),
        ensures
            final(self).wf(),
            ({
                let next = step_record(
                    old(self).canon_map(),
                    old(self).div_map(),
                    fingerprint@,
                    rec,
                );
                &&& final(self).canon_map() == next.0
                &&& final(self).div_map() == next.1
            }),
            final(self).div_seq() == if old(self).div_map().contains_key(fingerprint@) || !old(
                self,
            ).canon_map().contains_key(fingerprint@) || outputs_same(
                old(self).canon_map()[fingerprint@].actual_outputs@,
                rec.actual_outputs@,
            ) {
                old(self).div_seq()
            } else {
                old(self).div_seq().push(
                    (Divergence {
                        fingerprint,
                        first: old(self).canon_map()[fingerprint@],
                        second: rec,
                    }),
                )
            },
    {
        proof {
            lemma_div_map_of_contains(self.diverged@, fingerprint@);
        }
        if find_divergence(&self.diverged, &fingerprint).is_some() {
            return ;
        }
        proof {
            lemma_canon_map_of_contains(self.canonical@, fingerprint@);
        }
        match find_canonical(&self.canonical, &fingerprint) {
            None => {
                let ghost pre = self.canonical@;
                self.canonical.push((fingerprint, rec));
                proof {
                    assert(pre.push((fingerprint, rec)).drop_last() =~= pre);
                    lemma_canon_map_of_contains(pre, fingerprint@);
                }
            },
            Some(at) => {
                proof {
                    lemma_canon_map_of_index(self.canonical@, at as int);
                }
                let same = {
                    let entry = &self.canonical[at];
                    outputs_are_same(entry.1.actual_outputs.as_slice(), rec.actual_outputs.as_slice())
                };
                if !same {
                    proof {
                        lemma_canon_map_of_remove(self.canonical@, at as int);
                    }
                    let ghost precanon = self.canonical@;
                    let ghost prediv = self.diverged@;
                    let entry = self.canonical.remove(at);
                    let d = Divergence { fingerprint, first: entry.1, second: rec };
                    self.diverged.push(d);
                    proof {
                        assert(self.canonical@ =~= precanon.remove(at as int));
                        assert(prediv.push(d).drop_last() =~= prediv);
                        lemma_div_map_of_contains(prediv, fingerprint@);
                    }
                }
            },
        }
    }

    /// The divergences found, oldest first. Each entry's fingerprint keys
    /// its pair in the divergence map.
    pub fn divergences(&self) -> (r: &Vec<Divergence>)
        ensures
            r@ == self.div_seq(),
    {
        &self.diverged
    }
}

/// Whether two byte strings hold the same bytes.
fn bytes_eq(a: &Vec<u8>, b: &Vec<u8>) -> (r: bool)
    ensures
        r == (a@ == b@),
{
    if a.len() != b.len() {
        return false;
    }
    let n = a.len();
    let mut i: usize = 0;
    while i < n
        invariant
            n == a@.len() == b@.len(),
            0 <= i <= n,
            forall|j: int| 0 <= j < i ==> a@[j] == b@[j],
        decreases n - i,
    {
        if a[i] != b[i] {
            return false;
        }
        i = i + 1;
    }
    proof {
        assert(a@ =~= b@);
    }
    true
}

/// The position of a fingerprint among the divergences, if it is there.
fn find_divergence(s: &Vec<Divergence>, fp: &Vec<u8>) -> (r: Option<usize>)
    ensures
        r is Some ==> 0 <= r->0 < s@.len() && s@[r->0 as int].fingerprint@ == fp@,
        r is None ==> forall|i: int| 0 <= i < s@.len() ==> (#[trigger] s@[i]).fingerprint@ != fp@,
{
    let n = s.len();
    let mut i: usize = 0;
    while i < n
        invariant
            n == s@.len(),
            0 <= i <= n,
            forall|j: int| 0 <= j < i ==> (#[trigger] s@[j]).fingerprint@ != fp@,
        decreases n - i,
    {
        if bytes_eq(&s[i].fingerprint, fp) {
            return Some(i);
        }
        i = i + 1;
    }
    None
}

/// The position of a fingerprint among the canonical entries, if it is
/// there.
fn find_canonical(s: &Vec<(Vec<u8>, SpawnExec)>, fp: &Vec<u8>) -> (r: Option<usize>)
    ensures
        r is Some ==> 0 <= r->0 < s@.len() && s@[r->0 as int].0@ == fp@,
        r is None ==> forall|i: int| 0 <= i < s@.len() ==> (#[trigger] s@[i]).0@ != fp@,
{
    let n = s.len();
    let mut i: usize = 0;
    while i < n
        invariant
            n == s@.len(),
            0 <= i <= n,
            forall|j: int| 0 <= j < i ==> (#[trigger] s@[j]).0@ != fp@,
        decreases n - i,
    {
        if bytes_eq(&s[i].0, fp) {
            return Some(i);
        }
        i = i + 1;
    }
    None
}

/// A fingerprint keys the denoted canonical map exactly when some entry
/// carries it.
proof fn lemma_canon_map_of_contains(s: Seq<(Vec<u8>, SpawnExec)>, fp: Seq<u8>)
    ensures
        canon_map_of(s).contains_key(fp) <==> exists|i: int|
            0 <= i < s.len() && (#[trigger] s[i]).0@ == fp,
    decreases s.len(),
{
    if s.len() > 0 {
        lemma_canon_map_of_contains(s.drop_last(), fp);
        if canon_map_of(s).contains_key(fp) && s.last().0@ != fp {
            let i = choose|i: int| 0 <= i < s.drop_last().len() && (#[trigger] s.drop_last()[i]).0@
                == fp;
            assert(s[i].0@ == fp);
        }
        if exists|i: int| 0 <= i < s.len() && (#[trigger] s[i]).0@ == fp {
            let i = choose|i: int| 0 <= i < s.len() && (#[trigger] s[i]).0@ == fp;
            if i < s.len() - 1 {
                assert(s.drop_last()[i].0@ == fp);
            }
        }
    }
}

/// A fingerprint keys the denoted divergence map exactly when some entry
/// carries it.
proof fn lemma_div_map_of_contains(s: Seq<Divergence>, fp: Seq<u8>)
    ensures
        div_map_of(s).contains_key(fp) <==> exists|i: int|
            0 <= i < s.len() && (#[trigger] s[i]).fingerprint@ == fp,
    decreases s.len(),
{
    if s.len() > 0 {
        lemma_div_map_of_contains(s.drop_last(), fp);
        if div_map_of(s).contains_key(fp) && s.last().fingerprint@ != fp {
            let i = choose|i: int|
                0 <= i < s.drop_last().len() && (#[trigger] s.drop_last()[i]).fingerprint@ == fp;
            assert(s[i].fingerprint@ == fp);
        }
        if exists|i: int| 0 <= i < s.len() && (#[trigger] s[i]).fingerprint@ == fp {
            let i = choose|i: int| 0 <= i < s.len() && (#[trigger] s[i]).fingerprint@ == fp;
            if i < s.len() - 1 {
                assert(s.drop_last()[i].fingerprint@ == fp);
            }
        }
    }
}

/// With pairwise distinct fingerprints, the denoted canonical map sends an
/// entry's fingerprint to that entry's record.
proof fn lemma_canon_map_of_index(s: Seq<(Vec<u8>, SpawnExec)>, at: int)
    requires
        0 <= at < s.len(),
        forall|i: int, j: int| 0 <= i < j < s.len() ==> (#[trigger] s[i]).0@ != (#[trigger] s[j]).0@,
    ensures
        canon_map_of(s).contains_key(s[at].0@),
        canon_map_of(s)[s[at].0@] == s[at].1,
    decreases s.len(),
{
    if at == s.len() - 1 {
    } else {
        lemma_canon_map_of_index(s.drop_last(), at);
        assert(s.drop_last()[at] == s[at]);
    }
}

/// Removing an entry removes exactly its fingerprint from the denoted
/// canonical map, when fingerprints are pairwise distinct.
proof fn lemma_canon_map_of_remove(s: Seq<(Vec<u8>, SpawnExec)>, at: int)
    requires
        0 <= at < s.len(),
        forall|i: int, j: int| 0 <= i < j < s.len() ==> (#[trigger] s[i]).0@ != (#[trigger] s[j]).0@,
    ensures
        canon_map_of(s.remove(at)) == canon_map_of(s).remove(s[at].0@),
    decreases s.len(),
{
    lemma_canon_map_of_contains(s.drop_last(), s[at].0@);
    if at == s.len() - 1 {
        assert(s.remove(at) =~= s.drop_last());
        assert(!canon_map_of(s.drop_last()).contains_key(s[at].0@));
        assert(canon_map_of(s.drop_last()) =~= canon_map_of(s).remove(s[at].0@));
    } else {
        lemma_canon_map_of_remove(s.drop_last(), at);
        assert(s.drop_last()[at] == s[at]);
        assert(s.remove(at).drop_last() =~= s.drop_last().remove(at));
        assert(s.remove(at).last() == s.last());
        assert(canon_map_of(s.remove(at)) == canon_map_of(s.drop_last().remove(at)).insert(
            s.last().0@,
            s.last().1,
        ));
        assert(canon_map_of(s).remove(s[at].0@) =~= canon_map_of(s.drop_last()).remove(
            s[at].0@,
        ).insert(s.last().0@, s.last().1));
    }
}

/// Two records with one fingerprint and differing outputs yield exactly one
/// divergence, holding those two records; any third record with that
/// fingerprint moves nothing.
pub proof fn lemma_divergence_reported_once(
    canon: Map<Seq<u8>, SpawnExec>,
    div: Map<Seq<u8>, (SpawnExec, SpawnExec)>,
    fp: Seq<u8>,
    r1: SpawnExec,
    r2: SpawnExec,
    r3: SpawnExec,
)
    requires
        !canon.contains_key(fp),
        !div.contains_key(fp),
        !outputs_same(r1.actual_outputs@, r2.actual_outputs@),
    ensures
        ({
            let s1 = step_record(canon, div, fp, r1);
            let s2 = step_record(s1.0, s1.1, fp, r2);
            let s3 = step_record(s2.0, s2.1, fp, r3);
            &&& s2.1 == div.insert(fp, (r1, r2))
            &&& s3 == s2
        }),
{
}

} // verus!
