//! The comment aggregator: attaching commit-level comments to the
//! reconciled commit set and merging them with the activity feed into
//! one sequence of timeline entries.
//!
//! Commit-derived entries come first, in commit order and then comment
//! order; every activity entry follows, projected in feed order. No
//! chronological interleaving is performed here.

use vstd::prelude::*;
use vstd::string::StringExecFns;

use crate::bitbucket::ActivityView;
use crate::bitbucket::Comment;
use crate::bitbucket::CommentView;
use crate::bitbucket::PullRequestActivity;

verus! {

/// What shape of event a timeline entry records.
#[derive(Clone, Copy, Debug, PartialEq, Eq, Structural)]
pub enum TimelineKind {
    Comment,
    Approval,
    Update,
}

/// One renderable entry of the finished timeline.
pub struct TimelineEntry {
    pub kind: TimelineKind,
    pub actor: String,
    pub timestamp: String,
    pub text: String,
    pub originating_commit: Option<String>,
}

#[verifier::ext_equal]
pub struct TimelineEntryView {
    pub kind: TimelineKind,
    pub actor: Seq<char>,
    pub timestamp: Seq<char>,
    pub text: Seq<char>,
    pub originating_commit: Option<Seq<char>>,
}

impl View for TimelineEntry {
    type V = TimelineEntryView;

    open spec fn view(&self) -> TimelineEntryView {
        TimelineEntryView {
            kind: self.kind,
            actor: self.actor@,
            timestamp: self.timestamp@,
            text: self.text@,
            originating_commit: match self.originating_commit {
                Some(ref h) => Some(h@),
                None => None,
            },
        }
    }
}

/// A retained commit hash together with the comments fetched for it.
pub struct CommitComments {
    pub commit: String,
    pub comments: Vec<Comment>,
}

#[verifier::ext_equal]
pub struct CommitCommentsView {
    pub commit: Seq<char>,
    pub comments: Seq<CommentView>,
}

/// The views of a sequence of comments.
pub open spec fn comment_views(s: Seq<Comment>) -> Seq<CommentView> {
    s.map_values(|c: Comment| c@)
}

impl View for CommitComments {
    type V = CommitCommentsView;

    open spec fn view(&self) -> CommitCommentsView {
        CommitCommentsView { commit: self.commit@, comments: comment_views(self.comments@) }
    }
}

/// The views of a sequence of timeline entries.
pub open spec fn timeline_views(s: Seq<TimelineEntry>) -> Seq<TimelineEntryView> {
    s.map_values(|e: TimelineEntry| e@)
}

/// The views of a sequence of activity entries.
pub open spec fn activity_views(s: Seq<PullRequestActivity>) -> Seq<ActivityView> {
    s.map_values(|a: PullRequestActivity| a@)
}

/// The views of a sequence of commit-with-comments records.
pub open spec fn commit_comments_views(s: Seq<CommitComments>) -> Seq<CommitCommentsView> {
    s.map_values(|cc: CommitComments| cc@)
}

/// The entry recording one comment made on a retained commit.
pub open spec fn entry_of_commit_comment(commit: Seq<char>, c: CommentView) -> TimelineEntryView {
    TimelineEntryView {
        kind: TimelineKind::Comment,
        actor: c.user.display_name,
        timestamp: c.created_on,
        text: c.content,
        originating_commit: Some(commit),
    }
}

/// The entries of one retained commit, one per comment, in order.
pub open spec fn entries_of_commit(cc: CommitCommentsView) -> Seq<TimelineEntryView> {
    cc.comments.map_values(|c: CommentView| entry_of_commit_comment(cc.commit, c))
}

/// The commit-derived entries of the whole retained set, in commit
/// order.
pub open spec fn commit_entries(ccs: Seq<CommitCommentsView>) -> Seq<TimelineEntryView>
    decreases ccs.len(),
{
    if ccs.len() == 0 {
        Seq::empty()
    } else {
        entries_of_commit(ccs[0]) + commit_entries(ccs.subrange(1, ccs.len() as int))
    }
}

/// The entry projected from one activity feed entry. An update renders
/// the moved tips as the range `destination..source`, with the hashes
/// exactly as the feed carried them.
pub open spec fn entry_of_activity(a: ActivityView) -> TimelineEntryView {
    match a {
        ActivityView::Comment { comment } => TimelineEntryView {
            kind: TimelineKind::Comment,
            actor: comment.user.display_name,
            timestamp: comment.created_on,
            text: comment.content,
            originating_commit: None,
        },
        ActivityView::Approval { approval } => TimelineEntryView {
            kind: TimelineKind::Approval,
            actor: approval.user.display_name,
            timestamp: approval.date,
            text: Seq::empty(),
            originating_commit: None,
        },
        ActivityView::Update { update } => TimelineEntryView {
            kind: TimelineKind::Update,
            actor: update.author.display_name,
            timestamp: update.date,
            text: update.destination + ".."@ + update.source,
            originating_commit: None,
        },
    }
}

/// The entries projected from the activity feed, in feed order.
pub open spec fn activity_entries(acts: Seq<ActivityView>) -> Seq<TimelineEntryView> {
    acts.map_values(|a: ActivityView| entry_of_activity(a))
}

/// The whole aggregation: commit-derived entries first, activity
/// projections second.
pub open spec fn aggregate_spec(ccs: Seq<CommitCommentsView>, acts: Seq<ActivityView>) -> Seq<
    TimelineEntryView,
> {
    commit_entries(ccs) + activity_entries(acts)
}

/// How many comments the retained commits carry in all.
pub open spec fn total_comments(ccs: Seq<CommitCommentsView>) -> nat
    decreases ccs.len(),
{
    if ccs.len() == 0 {
        0
    } else {
        ccs[0].comments.len() + total_comments(ccs.subrange(1, ccs.len() as int))
    }
}

/// The commit-derived entries number exactly the comments.
proof fn lemma_commit_entries_len(ccs: Seq<CommitCommentsView>)
    ensures
        commit_entries(ccs).len() == total_comments(ccs),
    decreases ccs.len(),
{
    if ccs.len() == 0 {
    } else {
        lemma_commit_entries_len(ccs.subrange(1, ccs.len() as int));
    }
}

/// The aggregation's length is the comment count over all retained
/// commits plus the activity feed's length.
pub proof fn lemma_aggregate_len(ccs: Seq<CommitCommentsView>, acts: Seq<ActivityView>)
    ensures
        aggregate_spec(ccs, acts).len() == total_comments(ccs) + acts.len(),
{
    lemma_commit_entries_len(ccs);
}

/// Builds the entry for one comment on a retained commit.
fn entry_for_commit_comment(commit: &String, c: &Comment) -> (r: TimelineEntry)
    ensures
        r@ == entry_of_commit_comment(commit@, c@),
{
    TimelineEntry {
        kind: TimelineKind::Comment,
        actor: c.user.display_name.clone(),
        timestamp: c.created_on.clone(),
        text: c.content.raw.clone(),
        originating_commit: Some(commit.clone()),
    }
}

/// Projects one activity feed entry.
fn entry_for_activity(a: &PullRequestActivity) -> (r: TimelineEntry)
    ensures
        r@ == entry_of_activity(a@),
{
    match a {
        PullRequestActivity::Comment { comment } => TimelineEntry {
            kind: TimelineKind::Comment,
            actor: comment.user.display_name.clone(),
            timestamp: comment.created_on.clone(),
            text: comment.content.raw.clone(),
            originating_commit: None,
        },
        PullRequestActivity::Approval { approval } => TimelineEntry {
            kind: TimelineKind::Approval,
            actor: approval.user.display_name.clone(),
            timestamp: approval.date.clone(),
            text: String::new(),
            originating_commit: None,
        },
        PullRequestActivity::Update { update } => {
            let mut text = update.destination.commit.hash.clone();
            text.append("..");
            text.append(update.source.commit.hash.as_str());
            TimelineEntry {
                kind: TimelineKind::Update,
                actor: update.author.display_name.clone(),
                timestamp: update.date.clone(),
                text,
                originating_commit: None,
            }
        },
    }
}

/// Merges the retained commits' comments with the activity feed into
/// one sequence of timeline entries: for each retained commit one
/// entry per fetched comment, then one entry per activity feed entry.
pub fn aggregate(
    commit_comments: &Vec<CommitComments>,
    activities: &Vec<PullRequestActivity>,
) -> (r: Vec<TimelineEntry>)
    ensures
        timeline_views(r@) == aggregate_spec(
            commit_comments_views(commit_comments@),
            activity_views(activities@),
        ),
{
    let ghost ccv = commit_comments_views(commit_comments@);
    let ghost av = activity_views(activities@);
    let mut out: Vec<TimelineEntry> = Vec::new();
    let n = commit_comments.len();
    proof {
        assert(ccv.subrange(0, n as int) =~= ccv);
        assert(timeline_views(out@) + commit_entries(ccv) =~= commit_entries(ccv));
    }
    let mut i: usize = 0;
    while i < n
        invariant
            i <= n,
            n == commit_comments@.len(),
            ccv == commit_comments_views(commit_comments@),
            commit_entries(ccv) == timeline_views(out@) + commit_entries(
                ccv.subrange(i as int, n as int),
            ),
        decreases n - i,
    {
        let ghost rest = ccv.subrange(i as int, n as int);
        let ghost rest1 = ccv.subrange(i + 1, n as int);
        proof {
            assert(rest[0] == ccv[i as int]);
            assert(rest.subrange(1, rest.len() as int) =~= rest1);
            assert(commit_entries(rest) == entries_of_commit(ccv[i as int]) + commit_entries(
                rest1,
            ));
        }
        let cc = &commit_comments[i];
        let ghost base = timeline_views(out@);
        let m = cc.comments.len();
        let mut j: usize = 0;
        proof {
            assert(base + entries_of_commit(ccv[i as int]).subrange(0, 0) =~= base);
        }
        while j < m
            invariant
                j <= m,
                m == cc.comments@.len(),
                cc == commit_comments@[i as int],
                0 <= i < commit_comments@.len(),
                ccv == commit_comments_views(commit_comments@),
                timeline_views(out@) == base + entries_of_commit(ccv[i as int]).subrange(
                    0,
                    j as int,
                ),
            decreases m - j,
        {
            let e = entry_for_commit_comment(&cc.commit, &cc.comments[j]);
            proof {
                assert(ccv[i as int] == cc@);
                assert(entries_of_commit(ccv[i as int]).len() == m);
                assert(entries_of_commit(ccv[i as int])[j as int] == entry_of_commit_comment(
                    cc.commit@,
                    cc.comments@[j as int]@,
                ));
                assert(e@ == entries_of_commit(ccv[i as int])[j as int]);
            }
            let ghost before = timeline_views(out@);
            let ghost ev = e@;
            out.push(e);
            proof {
                assert(timeline_views(out@) =~= before.push(ev));
                assert(before.push(ev) =~= base + entries_of_commit(ccv[i as int]).subrange(
                    0,
                    j + 1,
                ));
            }
            j = j + 1;
        }
        proof {
            assert(entries_of_commit(ccv[i as int]).subrange(0, m as int) =~= entries_of_commit(
                ccv[i as int],
            ));
            assert((base + entries_of_commit(ccv[i as int])) + commit_entries(rest1) =~= base + (
            entries_of_commit(ccv[i as int]) + commit_entries(rest1)));
        }
        i = i + 1;
    }
    proof {
        assert(ccv.subrange(n as int, n as int) =~= Seq::<CommitCommentsView>::empty());
        assert(timeline_views(out@) + commit_entries(Seq::<CommitCommentsView>::empty())
            =~= timeline_views(out@));
        assert(timeline_views(out@) == commit_entries(ccv));
    }
    let ghost commit_part = timeline_views(out@);
    let k = activities.len();
    let mut t: usize = 0;
    proof {
        assert(commit_part + activity_entries(av).subrange(0, 0) =~= commit_part);
    }
    while t < k
        invariant
            t <= k,
            k == activities@.len(),
            av == activity_views(activities@),
            timeline_views(out@) == commit_part + activity_entries(av).subrange(0, t as int),
        decreases k - t,
    {
        let e = entry_for_activity(&activities[t]);
        proof {
            assert(activity_entries(av).len() == k);
            assert(activity_entries(av)[t as int] == entry_of_activity(
                activities@[t as int]@,
            ));
            assert(e@ == activity_entries(av)[t as int]);
        }
        let ghost before = timeline_views(out@);
        let ghost ev = e@;
        out.push(e);
        proof {
            assert(timeline_views(out@) =~= before.push(ev));
            assert(before.push(ev) =~= commit_part + activity_entries(av).subrange(0, t + 1));
        }
        t = t + 1;
    }
    proof {
        assert(activity_entries(av).subrange(0, k as int) =~= activity_entries(av));
    }
    out
}

/// The (source, destination) tip pairs of the feed's update events, in
/// feed order.
pub open spec fn update_pairs(acts: Seq<ActivityView>) -> Seq<(Seq<char>, Seq<char>)>
    decreases acts.len(),
{
    if acts.len() == 0 {
        Seq::empty()
    } else {
        let rest = update_pairs(acts.subrange(1, acts.len() as int));
        match acts[0] {
            ActivityView::Update { update } => seq![(update.source, update.destination)] + rest,
            _ => rest,
        }
    }
}

/// The views of a sequence of hash pairs.
pub open spec fn pair_views(s: Seq<(String, String)>) -> Seq<(Seq<char>, Seq<char>)> {
    s.map_values(|p: (String, String)| (p.0@, p.1@))
}

/// Picks each update event's (source, destination) hash pair out of
/// the activity feed; a walk is run for each.
pub fn update_events(activities: &Vec<PullRequestActivity>) -> (r: Vec<(String, String)>)
    ensures
        pair_views(r@) == update_pairs(activity_views(activities@)),
{
    let ghost av = activity_views(activities@);
    let n = activities.len();
    let mut out: Vec<(String, String)> = Vec::new();
    proof {
        assert(av.subrange(0, n as int) =~= av);
        assert(pair_views(out@) + update_pairs(av) =~= update_pairs(av));
    }
    let mut i: usize = 0;
    while i < n
        invariant
            i <= n,
            n == activities@.len(),
            av == activity_views(activities@),
            update_pairs(av) == pair_views(out@) + update_pairs(av.subrange(i as int, n as int)),
        decreases n - i,
    {
        let ghost rest = av.subrange(i as int, n as int);
        let ghost rest1 = av.subrange(i + 1, n as int);
        proof {
            assert(rest[0] == av[i as int]);
            assert(rest.subrange(1, rest.len() as int) =~= rest1);
        }
        match &activities[i] {
            PullRequestActivity::Update { update } => {
                let ghost pre = pair_views(out@);
                out.push(
                    (update.source.commit.hash.clone(), update.destination.commit.hash.clone()),
                );
                proof {
                    assert(pair_views(out@) =~= pre + seq![
                        (update.source@, update.destination@),
                    ]);
                    assert(update_pairs(rest) == seq![(update.source@, update.destination@)]
                        + update_pairs(rest1));
                    assert((pre + seq![(update.source@, update.destination@)]) + update_pairs(
                        rest1,
                    ) =~= pre + (seq![(update.source@, update.destination@)] + update_pairs(
                        rest1,
                    )));
                }
            },
            _ => {
                proof {
                    assert(update_pairs(rest) == update_pairs(rest1));
                }
            },
        }
        i = i + 1;
    }
    proof {
        assert(av.subrange(n as int, n as int) =~= Seq::<ActivityView>::empty());
        assert(pair_views(out@) + update_pairs(Seq::<ActivityView>::empty()) =~= pair_views(
            out@,
        ));
    }
    out
}

} // verus!
