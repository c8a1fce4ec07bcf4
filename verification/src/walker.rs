//! The commit graph walker: recovering the commits that a rebase
//! discarded by following first-parent pointers from an old branch tip
//! back to the merge base.
//!
//! The walk itself is a pure function of the commit graph: `walk` runs
//! it over records held in memory, and `Walker` exposes the same
//! decisions one fetch at a time, for a driver that retrieves each
//! record from the remote as the walk asks for it.

use vstd::prelude::*;

use crate::bitbucket::Commit;
use crate::bitbucket::CommitParent;
use crate::bitbucket::CommitView;
use crate::hashes::is_same_commit;
use crate::hashes::same_commit;
use crate::hashes::str_eq;
use crate::hashes::string_views;

verus! {

/// The most record fetches one walk may make. A chain longer than this
/// is treated as malformed (or cyclic) parent data.
pub const WALK_CAP: usize = 500;

/// How a traversal fails.
///
/// `Transport` stands for a commit record that could not be retrieved;
/// `Traversal` says the merge base was not reached within `WALK_CAP`
/// steps, so the graph's parent data is malformed or cyclic.
#[derive(Clone, Copy, Debug, PartialEq, Eq, Structural)]
pub enum WalkError {
    Transport,
    Traversal,
}

/// The first record of the graph bearing the given hash, if any.
pub open spec fn lookup(g: Seq<CommitView>, h: Seq<char>) -> Option<CommitView>
    decreases g.len(),
{
    if g.len() == 0 {
        None
    } else if g[0].hash == h {
        Some(g[0])
    } else {
        lookup(g.subrange(1, g.len() as int), h)
    }
}

/// Where the walk moves after taking a record: to the record's first
/// parent, or, for a parentless record, straight to the merge base.
pub open spec fn next_cursor(c: CommitView, mb: Seq<char>) -> Seq<char> {
    if c.parents.len() > 0 {
        c.parents[0]
    } else {
        mb
    }
}

/// Prefixes the collected records onto the rest of a walk's outcome.
pub open spec fn prepend_walked(
    prefix: Seq<CommitView>,
    r: Result<Seq<CommitView>, WalkError>,
) -> Result<Seq<CommitView>, WalkError> {
    match r {
        Ok(rest) => Ok(prefix + rest),
        Err(e) => Err(e),
    }
}

/// The walk from `cursor` toward the merge base `mb`, with `fuel` steps
/// left: collect each record in child-to-ancestor order, stopping as
/// soon as the cursor denotes the merge base itself.
pub open spec fn walk_from(
    g: Seq<CommitView>,
    mb: Seq<char>,
    cursor: Seq<char>,
    fuel: nat,
) -> Result<Seq<CommitView>, WalkError>
    decreases fuel,
{
    if same_commit(cursor, mb) {
        Ok(Seq::empty())
    } else if fuel == 0 {
        Err(WalkError::Traversal)
    } else {
        match lookup(g, cursor) {
            None => Err(WalkError::Transport),
            Some(c) => prepend_walked(
                seq![c],
                walk_from(g, mb, next_cursor(c, mb), (fuel - 1) as nat),
            ),
        }
    }
}

/// The whole walk: from the source tip toward the merge base, with the
/// full iteration budget.
pub open spec fn walk_spec(g: Seq<CommitView>, mb: Seq<char>, source: Seq<char>) -> Result<
    Seq<CommitView>,
    WalkError,
> {
    walk_from(g, mb, source, WALK_CAP as nat)
}

/// The views of a sequence of commit records.
pub open spec fn commit_views(s: Seq<Commit>) -> Seq<CommitView> {
    s.map_values(|c: Commit| c@)
}

/// Finds the first record bearing the given hash, as `lookup` does.
fn find_commit(graph: &Vec<Commit>, h: &String) -> (r: Option<usize>)
    ensures
        match r {
            Some(i) => i < graph@.len() && lookup(commit_views(graph@), h@) == Some(
                graph@[i as int]@,
            ),
            None => lookup(commit_views(graph@), h@) is None,
        },
{
    let ghost gv = commit_views(graph@);
    let n = graph.len();
    proof {
        assert(gv.subrange(0, n as int) =~= gv);
    }
    let mut i: usize = 0;
    while i < n
        invariant
            i <= n,
            n == graph@.len(),
            gv == commit_views(graph@),
            lookup(gv, h@) == lookup(gv.subrange(i as int, n as int), h@),
        decreases n - i,
    {
        let ghost rest = gv.subrange(i as int, n as int);
        proof {
            assert(rest[0] == gv[i as int]);
            assert(rest.subrange(1, rest.len() as int) =~= gv.subrange(i + 1, n as int));
        }
        if str_eq(graph[i].hash.as_str(), h.as_str()) {
            return Some(i);
        }
        i = i + 1;
    }
    proof {
        assert(gv.subrange(n as int, n as int) =~= Seq::<CommitView>::empty());
    }
    None
}

/// Walks the graph from the source tip back to the merge base and
/// returns the records that the rebase discarded, in child-to-ancestor
/// order. The merge base itself is not among them.
pub fn walk(graph: &Vec<Commit>, merge_base_hash: &String, source_hash: &String) -> (r: Result<
    Vec<Commit>,
    WalkError,
>)
    ensures
        (match r {
            Ok(v) => walk_spec(commit_views(graph@), merge_base_hash@, source_hash@) == Ok::<
                _,
                WalkError,
            >(commit_views(v@)),
            Err(e) => walk_spec(commit_views(graph@), merge_base_hash@, source_hash@) == Err::<
                Seq<CommitView>,
                _,
            >(e),
        }),
{
    let ghost gv = commit_views(graph@);
    let ghost mbv = merge_base_hash@;
    let ghost srcv = source_hash@;
    let mut cursor: String = source_hash.clone();
    let mut results: Vec<Commit> = Vec::new();
    let mut steps: usize = 0;
    proof {
        assert(commit_views(results@) + Seq::<CommitView>::empty() =~= commit_views(results@));
    }
    loop
        invariant
            steps <= WALK_CAP,
            gv == commit_views(graph@),
            mbv == merge_base_hash@,
            srcv == source_hash@,
            walk_spec(gv, mbv, srcv) == prepend_walked(
                commit_views(results@),
                walk_from(gv, mbv, cursor@, (WALK_CAP - steps) as nat),
            ),
        decreases WALK_CAP - steps,
    {
        let ghost fuel = (WALK_CAP - steps) as nat;
        if is_same_commit(cursor.as_str(), merge_base_hash.as_str()) {
            proof {
                assert(walk_from(gv, mbv, cursor@, fuel) == Ok::<_, WalkError>(
                    Seq::<CommitView>::empty(),
                ));
                assert(commit_views(results@) + Seq::<CommitView>::empty() =~= commit_views(
                    results@,
                ));
            }
            return Ok(results);
        }
        if steps == WALK_CAP {
            return Err(WalkError::Traversal);
        }
        match find_commit(graph, &cursor) {
            None => {
                return Err(WalkError::Transport);
            },
            Some(idx) => {
                let c = graph[idx].duplicate();
                let next: String = if c.parents.len() > 0 {
                    let h = match &c.parents[0] {
                        CommitParent::Commit { hash } => hash.clone(),
                    };
                    proof {
                        assert(h@ == c@.parents[0]);
                    }
                    h
                } else {
                    merge_base_hash.clone()
                };
                proof {
                    assert(next@ == next_cursor(c@, mbv));
                    assert(lookup(gv, cursor@) == Some(c@));
                }
                let ghost pre = commit_views(results@);
                results.push(c);
                proof {
                    assert(commit_views(results@) =~= pre + seq![c@]);
                    let tail_r = walk_from(gv, mbv, next_cursor(c@, mbv), (fuel - 1) as nat);
                    assert(walk_from(gv, mbv, cursor@, fuel) == prepend_walked(seq![c@], tail_r));
                    match tail_r {
                        Ok(rest) => {
                            assert(pre + (seq![c@] + rest) =~= (pre + seq![c@]) + rest);
                        },
                        Err(_) => {},
                    }
                }
                cursor = next;
                steps = steps + 1;
            },
        }
    }
}

/// The hashes of a sequence of commit records.
pub open spec fn hashes_of(cs: Seq<CommitView>) -> Seq<Seq<char>> {
    cs.map_values(|c: CommitView| c.hash)
}

/// Picks each walked record's hash, in walk order.
pub fn walked_hashes(commits: &Vec<Commit>) -> (r: Vec<String>)
    ensures
        string_views(r@) == hashes_of(commit_views(commits@)),
{
    let ghost target = hashes_of(commit_views(commits@));
    let mut out: Vec<String> = Vec::new();
    proof {
        assert(string_views(out@) =~= target.subrange(0, 0));
    }
    let mut i: usize = 0;
    while i < commits.len()
        invariant
            i <= commits@.len(),
            target == hashes_of(commit_views(commits@)),
            string_views(out@) == target.subrange(0, i as int),
        decreases commits@.len() - i,
    {
        let ghost before = string_views(out@);
        out.push(commits[i].hash.clone());
        proof {
            assert(string_views(out@) =~= before.push(commits@[i as int]@.hash));
            assert(before.push(commits@[i as int]@.hash) =~= target.subrange(0, i + 1));
        }
        i = i + 1;
    }
    proof {
        assert(target.subrange(0, commits@.len() as int) =~= target);
    }
    out
}

/// A chain of `k` fetchable records leads from `cursor` to the merge
/// base: after `k` fetches, each moving to the record's first parent,
/// the cursor denotes the merge base for the first time.
pub open spec fn chain_reaches(g: Seq<CommitView>, cursor: Seq<char>, mb: Seq<char>, k: nat) -> bool
    decreases k,
{
    if k == 0 {
        same_commit(cursor, mb)
    } else {
        &&& !same_commit(cursor, mb)
        &&& lookup(g, cursor) is Some
        &&& chain_reaches(g, next_cursor(lookup(g, cursor)->0, mb), mb, (k - 1) as nat)
    }
}

/// The walk terminates on any finite chain: with a chain of `k`
/// records ending at the merge base and at least `k` steps of budget,
/// it returns exactly `k` records — one record fetch per record, so a
/// whole traversal makes `k` fetches beside the one merge-base
/// resolution.
pub proof fn lemma_walk_chain_terminates(
    g: Seq<CommitView>,
    mb: Seq<char>,
    cursor: Seq<char>,
    k: nat,
    fuel: nat,
)
    requires
        chain_reaches(g, cursor, mb, k),
        k <= fuel,
    ensures
        walk_from(g, mb, cursor, fuel) is Ok,
        walk_from(g, mb, cursor, fuel)->Ok_0.len() == k,
    decreases k,
{
    if k == 0 {
    } else {
        let c = lookup(g, cursor)->0;
        lemma_walk_chain_terminates(g, mb, next_cursor(c, mb), (k - 1) as nat, (fuel - 1) as nat);
    }
}

/// A walk of the whole budget over a chain of `k <= WALK_CAP` records
/// succeeds with exactly `k` records.
pub proof fn lemma_walk_spec_chain(g: Seq<CommitView>, mb: Seq<char>, source: Seq<char>, k: nat)
    requires
        chain_reaches(g, source, mb, k),
        k <= WALK_CAP,
    ensures
        walk_spec(g, mb, source) is Ok,
        walk_spec(g, mb, source)->Ok_0.len() == k,
{
    lemma_walk_chain_terminates(g, mb, source, k, WALK_CAP as nat);
}

/// `n` fetches from `cursor` are possible without ever meeting the
/// merge base.
pub open spec fn chain_avoids(g: Seq<CommitView>, cursor: Seq<char>, mb: Seq<char>, n: nat) -> bool
    decreases n,
{
    &&& !same_commit(cursor, mb)
    &&& (n > 0 ==> lookup(g, cursor) is Some && chain_avoids(
        g,
        next_cursor(lookup(g, cursor)->0, mb),
        mb,
        (n - 1) as nat,
    ))
}

/// A walk whose budget runs out before the merge base is met reports
/// the traversal error rather than looping on.
pub proof fn lemma_walk_fuel_spent(g: Seq<CommitView>, mb: Seq<char>, cursor: Seq<char>, fuel: nat)
    requires
        chain_avoids(g, cursor, mb, fuel),
    ensures
        walk_from(g, mb, cursor, fuel) == Err::<Seq<CommitView>, WalkError>(WalkError::Traversal),
    decreases fuel,
{
    if fuel == 0 {
    } else {
        let c = lookup(g, cursor)->0;
        lemma_walk_fuel_spent(g, mb, next_cursor(c, mb), (fuel - 1) as nat);
    }
}

/// When the merge base is unreachable within the iteration cap, the
/// whole walk reports the traversal error.
pub proof fn lemma_walk_spec_cap(g: Seq<CommitView>, mb: Seq<char>, source: Seq<char>)
    requires
        chain_avoids(g, source, mb, WALK_CAP as nat),
    ensures
        walk_spec(g, mb, source) == Err::<Seq<CommitView>, WalkError>(WalkError::Traversal),
{
    lemma_walk_fuel_spent(g, mb, source, WALK_CAP as nat);
}

/// The walk's state between two record fetches. A driver that
/// retrieves records from the remote asks `next_fetch` what the walk
/// needs, performs the one fetch it names, and hands the record back
/// through `record`; every decision stays here.
pub struct Walker {
    pub merge_base: String,
    pub cursor: String,
    pub collected: Vec<Commit>,
    pub steps: usize,
}

impl Walker {
    /// Starts a walk at the source tip, toward the given merge base.
    pub fn new(merge_base_hash: String, source_hash: String) -> (w: Walker)
        ensures
            w.merge_base@ == merge_base_hash@,
            w.cursor@ == source_hash@,
            w.collected@.len() == 0,
            w.steps == 0,
    {
        Walker { merge_base: merge_base_hash, cursor: source_hash, collected: Vec::new(), steps: 0 }
    }

    /// What the walk needs next: nothing when the cursor denotes the
    /// merge base, the record named by the cursor otherwise — unless
    /// the iteration cap is spent, which is the traversal error.
    pub fn next_fetch(&self) -> (r: Result<Option<String>, WalkError>)
        ensures
            match r {
                Ok(fetch) => match fetch {
                    None => same_commit(self.cursor@, self.merge_base@),
                    Some(h) => !same_commit(self.cursor@, self.merge_base@) && self.steps < WALK_CAP
                        && h@ == self.cursor@,
                },
                Err(e) => !same_commit(self.cursor@, self.merge_base@) && self.steps >= WALK_CAP
                    && e == WalkError::Traversal,
            },
    {
        if is_same_commit(self.cursor.as_str(), self.merge_base.as_str()) {
            Ok(None)
        } else if self.steps < WALK_CAP {
            Ok(Some(self.cursor.clone()))
        } else {
            Err(WalkError::Traversal)
        }
    }

    /// Takes one fetched record: collects it and moves the cursor to
    /// the record's first parent, or straight to the merge base when
    /// the record has none.
    pub fn record(&mut self, c: Commit)
        requires
            old(self).steps < WALK_CAP,
        ensures
            final(self).merge_base@ == old(self).merge_base@,
            final(self).cursor@ == next_cursor(c@, old(self).merge_base@),
            final(self).collected@ == old(self).collected@.push(c),
            final(self).steps == old(self).steps + 1,
    {
        let next: String = if c.parents.len() > 0 {
            let h = match &c.parents[0] {
                CommitParent::Commit { hash } => hash.clone(),
            };
            proof {
                assert(h@ == c@.parents[0]);
            }
            h
        } else {
            self.merge_base.clone()
        };
        self.collected.push(c);
        self.cursor = next;
        self.steps = self.steps + 1;
    }

    /// The records collected so far, in child-to-ancestor order.
    pub fn into_commits(self) -> (r: Vec<Commit>)
        ensures
            r == self.collected,
    {
        self.collected
    }
}

} // verus!
