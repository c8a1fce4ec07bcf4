//! The data model of a hosted pull request: users, pagination
//! envelopes, the activity feed and commit records.
//!
//! Each executable type has a ghost view holding the same data over
//! mathematical sequences; contracts across the crate speak of those
//! views.

use vstd::prelude::*;

use crate::hashes::string_views;

verus! {

/// A user as the host reports it.
#[derive(Debug, PartialEq, Eq)]
pub struct User {
    pub display_name: String,
    pub nickname: String,
}

#[verifier::ext_equal]
pub struct UserView {
    pub display_name: Seq<char>,
    pub nickname: Seq<char>,
}

impl View for User {
    type V = UserView;

    open spec fn view(&self) -> UserView {
        UserView { display_name: self.display_name@, nickname: self.nickname@ }
    }
}

/// One page of a paginated listing.
#[derive(Debug, PartialEq, Eq)]
pub struct Paginated<T> {
    pub pagelen: u32,
    pub values: Vec<T>,
}

#[verifier::ext_equal]
pub struct PaginatedView<V> {
    pub pagelen: u32,
    pub values: Seq<V>,
}

impl<T: View> View for Paginated<T> {
    type V = PaginatedView<T::V>;

    open spec fn view(&self) -> PaginatedView<T::V> {
        PaginatedView { pagelen: self.pagelen, values: self.values@.map_values(|t: T| t@) }
    }
}

/// A pull request snapshot.
#[derive(Debug)]
pub struct PullRequest {
    pub id: u32,
    pub title: String,
    pub comment_count: u32,
    pub state: String,
    pub created_on: String,
    pub updated_on: String,
    pub author: User,
}

#[verifier::ext_equal]
pub struct PullRequestView {
    pub id: u32,
    pub title: Seq<char>,
    pub comment_count: u32,
    pub state: Seq<char>,
    pub created_on: Seq<char>,
    pub updated_on: Seq<char>,
    pub author: UserView,
}

impl View for PullRequest {
    type V = PullRequestView;

    open spec fn view(&self) -> PullRequestView {
        PullRequestView {
            id: self.id,
            title: self.title@,
            comment_count: self.comment_count,
            state: self.state@,
            created_on: self.created_on@,
            updated_on: self.updated_on@,
            author: self.author@,
        }
    }
}

/// Where an inline comment is anchored.
#[derive(Debug, PartialEq, Eq)]
pub struct Inline {
    from: Option<u32>,
    to: Option<u32>,
    path: Option<String>,
}

#[verifier::ext_equal]
pub struct InlineView {
    pub from: Option<u32>,
    pub to: Option<u32>,
    pub path: Option<Seq<char>>,
}

impl View for Inline {
    type V = InlineView;

    closed spec fn view(&self) -> InlineView {
        InlineView {
            from: self.from,
            to: self.to,
            path: match self.path {
                Some(p) => Some(p@),
                None => None,
            },
        }
    }
}

impl Inline {
    pub fn new(from: Option<u32>, to: Option<u32>, path: Option<String>) -> (r: Inline)
        ensures
            r@.from == from,
            r@.to == to,
            r@.path == match path {
                Some(p) => Some(p@),
                None => None::<Seq<char>>,
            },
    {
        Inline { from, to, path }
    }
}

/// The text of a comment.
#[derive(Debug, PartialEq, Eq)]
pub struct CommentContent {
    pub raw: String,
}

impl View for CommentContent {
    type V = Seq<char>;

    open spec fn view(&self) -> Seq<char> {
        self.raw@
    }
}

/// A comment, either on the pull request or on a single commit.
#[derive(Debug, PartialEq, Eq)]
pub struct Comment {
    pub user: User,
    pub created_on: String,
    pub content: CommentContent,
    pub inline: Option<Inline>,
}

#[verifier::ext_equal]
pub struct CommentView {
    pub user: UserView,
    pub created_on: Seq<char>,
    pub content: Seq<char>,
    pub inline: Option<InlineView>,
}

impl View for Comment {
    type V = CommentView;

    open spec fn view(&self) -> CommentView {
        CommentView {
            user: self.user@,
            created_on: self.created_on@,
            content: self.content@,
            inline: match self.inline {
                Some(ref i) => Some(i@),
                None => None,
            },
        }
    }
}

/// An approval of the pull request.
#[derive(Debug)]
pub struct Approval {
    pub user: User,
    pub date: String,
}

#[verifier::ext_equal]
pub struct ApprovalView {
    pub user: UserView,
    pub date: Seq<char>,
}

impl View for Approval {
    type V = ApprovalView;

    open spec fn view(&self) -> ApprovalView {
        ApprovalView { user: self.user@, date: self.date@ }
    }
}

/// A commit reference inside a pull request listing or an update event.
#[derive(Debug)]
pub struct PullRequestCommit {
    pub hash: String,
}

impl View for PullRequestCommit {
    type V = Seq<char>;

    open spec fn view(&self) -> Seq<char> {
        self.hash@
    }
}

/// The hash references of a pull request commit listing.
pub open spec fn pr_commit_hashes(s: Seq<PullRequestCommit>) -> Seq<Seq<char>> {
    s.map_values(|c: PullRequestCommit| c@)
}

/// Picks the hash out of each listed commit.
pub fn commit_hashes(commits: &Vec<PullRequestCommit>) -> (r: Vec<String>)
    ensures
        string_views(r@) == pr_commit_hashes(commits@),
{
    let mut out: Vec<String> = Vec::new();
    proof {
        assert(string_views(out@) =~= pr_commit_hashes(commits@).subrange(0, 0));
    }
    let mut i: usize = 0;
    while i < commits.len()
        invariant
            i <= commits@.len(),
            string_views(out@) == pr_commit_hashes(commits@).subrange(0, i as int),
        decreases commits@.len() - i,
    {
        let ghost before = string_views(out@);
        out.push(commits[i].hash.clone());
        proof {
            assert(string_views(out@) =~= before.push(commits@[i as int]@));
            assert(before.push(commits@[i as int]@) =~= pr_commit_hashes(commits@).subrange(
                0,
                i + 1,
            ));
        }
        i = i + 1;
    }
    proof {
        assert(pr_commit_hashes(commits@).subrange(0, commits@.len() as int) =~= pr_commit_hashes(
            commits@,
        ));
    }
    out
}

/// One side of an update event.
#[derive(Debug)]
pub struct Source {
    pub commit: PullRequestCommit,
}

impl View for Source {
    type V = Seq<char>;

    open spec fn view(&self) -> Seq<char> {
        self.commit@
    }
}

/// A branch-tip move (a rebase or force push), with the old and new tip.
#[derive(Debug)]
pub struct Update {
    pub author: User,
    pub date: String,
    pub source: Source,
    pub destination: Source,
}

#[verifier::ext_equal]
pub struct UpdateView {
    pub author: UserView,
    pub date: Seq<char>,
    pub source: Seq<char>,
    pub destination: Seq<char>,
}

impl View for Update {
    type V = UpdateView;

    open spec fn view(&self) -> UpdateView {
        UpdateView {
            author: self.author@,
            date: self.date@,
            source: self.source@,
            destination: self.destination@,
        }
    }
}

/// One entry of the activity feed.
#[derive(Debug)]
pub enum PullRequestActivity {
    Comment { comment: Comment },
    Approval { approval: Approval },
    Update { update: Update },
}

#[verifier::ext_equal]
pub enum ActivityView {
    Comment { comment: CommentView },
    Approval { approval: ApprovalView },
    Update { update: UpdateView },
}

impl View for PullRequestActivity {
    type V = ActivityView;

    open spec fn view(&self) -> ActivityView {
        match self {
            PullRequestActivity::Comment { comment } => ActivityView::Comment {
                comment: comment@,
            },
            PullRequestActivity::Approval { approval } => ActivityView::Approval {
                approval: approval@,
            },
            PullRequestActivity::Update { update } => ActivityView::Update { update: update@ },
        }
    }
}

/// A parent reference inside a commit record.
#[derive(Debug)]
pub enum CommitParent {
    Commit { hash: String },
}

impl View for CommitParent {
    type V = Seq<char>;

    open spec fn view(&self) -> Seq<char> {
        match self {
            CommitParent::Commit { hash } => hash@,
        }
    }
}

/// The hash references of a sequence of parent records.
pub open spec fn parent_views(ps: Seq<CommitParent>) -> Seq<Seq<char>> {
    ps.map_values(|p: CommitParent| p@)
}

/// A full commit record, with its ordered parent references.
#[derive(Debug)]
pub struct Commit {
    pub hash: String,
    pub parents: Vec<CommitParent>,
}

#[verifier::ext_equal]
pub struct CommitView {
    pub hash: Seq<char>,
    pub parents: Seq<Seq<char>>,
}

impl View for Commit {
    type V = CommitView;

    open spec fn view(&self) -> CommitView {
        CommitView { hash: self.hash@, parents: parent_views(self.parents@) }
    }
}

impl Commit {
    /// An exact copy of the record.
    pub fn duplicate(&self) -> (r: Commit)
        ensures
            r@ == self@,
    {
        let mut parents: Vec<CommitParent> = Vec::new();
        let mut i: usize = 0;
        while i < self.parents.len()
            invariant
                i <= self.parents@.len(),
                parents@.len() == i,
                parent_views(parents@) == parent_views(self.parents@).subrange(0, i as int),
            decreases self.parents@.len() - i,
        {
            let p = &self.parents[i];
            let hash = match p {
                CommitParent::Commit { hash } => hash.clone(),
            };
            proof {
                assert(hash@ == p@);
            }
            parents.push(CommitParent::Commit { hash });
            proof {
                assert((CommitParent::Commit { hash })@ == self.parents@[i as int]@);
                assert(parent_views(parents@) =~= parent_views(self.parents@).subrange(0, i + 1));
            }
            i = i + 1;
        }
        let r = Commit { hash: self.hash.clone(), parents };
        proof {
            assert(parent_views(self.parents@).subrange(0, self.parents@.len() as int)
                =~= parent_views(self.parents@));
            assert(r@ =~= self@);
        }
        r
    }
}

} // verus!
