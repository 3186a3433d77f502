//! Newsletter issues: immutable content, stored once and read by the
//! delivery worker.

use vstd::prelude::*;

verus! {

/// The content of an issue.
pub struct NewsletterIssue {
    pub title: String,
    pub html_content: String,
    pub text_content: String,
}

/// An issue's content as contracts see it.
pub struct IssueContent {
    pub title: Seq<char>,
    pub html_content: Seq<char>,
    pub text_content: Seq<char>,
}

impl View for NewsletterIssue {
    type V = IssueContent;

    open spec fn view(&self) -> IssueContent {
        IssueContent {
            title: self.title@,
            html_content: self.html_content@,
            text_content: self.text_content@,
        }
    }
}

impl NewsletterIssue {
    /// A copy of the content.
    pub fn duplicate(&self) -> (copy: NewsletterIssue)
        ensures
            copy@ == self@,
    {
        NewsletterIssue {
            title: self.title.clone(),
            html_content: self.html_content.clone(),
            text_content: self.text_content.clone(),
        }
    }
}

struct StoredIssue {
    id: u128,
    content: NewsletterIssue,
}

/// The issues that were published, by identifier.
pub struct IssueStore {
    issues: Vec<StoredIssue>,
}

/// The issues as contracts see them: content by identifier.
spec fn issues_view(issues: Seq<StoredIssue>) -> Map<u128, IssueContent>
    decreases issues.len(),
{
    if issues.len() == 0 {
        Map::empty()
    } else {
        issues_view(issues.drop_last()).insert(issues.last().id, issues.last().content@)
    }
}

/// No two stored issues have the same identifier.
spec fn distinct_ids(issues: Seq<StoredIssue>) -> bool {
    forall|i: int, j: int|
        0 <= i < issues.len() && 0 <= j < issues.len() && i != j ==> (#[trigger] issues[i]).id != (
        #[trigger] issues[j]).id
}

/// The map holds exactly the stored issues, each under its identifier.
proof fn lemma_issues_view(issues: Seq<StoredIssue>)
    requires
        distinct_ids(issues),
    ensures
        forall|i: int|
            0 <= i < issues.len() ==> issues_view(issues).contains_key((#[trigger] issues[i]).id)
                && issues_view(issues)[issues[i].id] == issues[i].content@,
        forall|id: u128|
            issues_view(issues).contains_key(id) ==> exists|i: int|
                0 <= i < issues.len() && (#[trigger] issues[i]).id == id,
    decreases issues.len(),
{
    if issues.len() > 0 {
        let front = issues.drop_last();
        lemma_issues_view(front);
        assert forall|i: int| 0 <= i < issues.len() implies issues_view(issues).contains_key(
            (#[trigger] issues[i]).id,
        ) && issues_view(issues)[issues[i].id] == issues[i].content@ by {
            if i < front.len() {
                assert(front[i] == issues[i]);
                assert(issues[i].id != issues[issues.len() - 1].id);
            }
        }
        assert forall|id: u128| issues_view(issues).contains_key(id) implies exists|i: int|
            0 <= i < issues.len() && (#[trigger] issues[i]).id == id by {
            if id == issues.last().id {
                assert(issues[issues.len() - 1].id == id);
            } else {
                assert(issues_view(front).contains_key(id));
                let i = choose|i: int| 0 <= i < front.len() && (#[trigger] front[i]).id == id;
                assert(front[i] == issues[i]);
            }
        }
    }
}

impl View for IssueStore {
    type V = Map<u128, IssueContent>;

    closed spec fn view(&self) -> Map<u128, IssueContent> {
        issues_view(self.issues@)
    }
}

/// Why an issue was not stored.
#[derive(Debug, Clone, Copy, PartialEq, Eq, Structural)]
pub enum IssueError {
    /// An issue with this identifier exists already.
    DuplicateId,
}

impl IssueStore {
    /// No identifier is stored twice.
    #[verifier::type_invariant]
    spec fn well_formed(self) -> bool {
        distinct_ids(self.issues@)
    }

    /// A store without issues.
    pub fn new() -> (store: IssueStore)
        ensures
            store@ == Map::<u128, IssueContent>::empty(),
    {
        IssueStore { issues: Vec::new() }
    }

    /// The number of issues.
    pub fn len(&self) -> (n: usize)
        ensures
            n == self@.len(),
            self@.dom().finite(),
    {
        proof {
            use_type_invariant(self);
            lemma_issues_len(self.issues@);
        }
        self.issues.len()
    }

    /// The index of the issue `id`, or the number of issues if it is not
    /// stored.
    fn find(&self, id: u128) -> (p: usize)
        ensures
            p <= self.issues@.len(),
            p < self.issues@.len() ==> self.issues@[p as int].id == id,
            p == self.issues@.len() ==> !self@.contains_key(id),
            distinct_ids(self.issues@),
    {
        proof {
            use_type_invariant(self);
        }
        let mut i: usize = 0;
        while i < self.issues.len()
            invariant
                i <= self.issues.len(),
                distinct_ids(self.issues@),
                forall|j: int| 0 <= j < i ==> (#[trigger] self.issues@[j]).id != id,
            decreases self.issues.len() - i,
        {
            if self.issues[i].id == id {
                return i;
            }
            i += 1;
        }
        proof {
            lemma_issues_view(self.issues@);
        }
        i
    }

    /// The content of the issue `id`, if it was published.
    pub fn get_issue(&self, id: u128) -> (r: Option<NewsletterIssue>)
        ensures
            match r {
                Some(issue) => self@.contains_key(id) && self@[id] == issue@,
                None => !self@.contains_key(id),
            },
    {
        let p = self.find(id);
        if p < self.issues.len() {
            proof {
                lemma_issues_view(self.issues@);
            }
            Some(self.issues[p].content.duplicate())
        } else {
            None
        }
    }

    /// Stores a new issue under `id`. An identifier that is taken is
    /// refused, and the store stays as it was: issues are never replaced.
    pub fn insert_newsletter_issue(
        &mut self,
        id: u128,
        title: &str,
        text_content: &str,
        html_content: &str,
    ) -> (r: Result<(), IssueError>)
        ensures
            match r {
                Ok(()) => !old(self)@.contains_key(id) && final(self)@ == old(self)@.insert(
                    id,
                    IssueContent {
                        title: title@,
                        html_content: html_content@,
                        text_content: text_content@,
                    },
                ),
                Err(e) => {
                    &&& e == IssueError::DuplicateId
                    &&& old(self)@.contains_key(id)
                    &&& final(self)@ == old(self)@
                },
            },
    {
        let p = self.find(id);
        if p < self.issues.len() {
            proof {
                lemma_issues_view(self.issues@);
            }
            return Err(IssueError::DuplicateId);
        }
        let ghost before = self.issues@;
        proof {
            lemma_issues_view(before);
        }
        let mut taken = IssueStore::new();
        core::mem::swap(self, &mut taken);
        let IssueStore { issues } = taken;
        let mut issues = issues;
        let stored = StoredIssue {
            id,
            content: NewsletterIssue {
                title: title.to_owned(),
                html_content: html_content.to_owned(),
                text_content: text_content.to_owned(),
            },
        };
        proof {
            let after = before.push(stored);
            assert(after.drop_last() =~= before);
            assert forall|i: int, j: int|
                0 <= i < after.len() && 0 <= j < after.len() && i != j implies (
            #[trigger] after[i]).id != (#[trigger] after[j]).id by {
                if i < before.len() && j < before.len() {
                    assert(before[i].id != before[j].id);
                } else if i < before.len() {
                    assert(before[i].id != id);
                } else {
                    assert(before[j].id != id);
                }
            }
        }
        issues.push(stored);
        *self = IssueStore { issues };
        Ok(())
    }
}

/// The map has as many entries as there are stored issues.
proof fn lemma_issues_len(issues: Seq<StoredIssue>)
    requires
        distinct_ids(issues),
    ensures
        issues_view(issues).dom().finite(),
        issues_view(issues).len() == issues.len(),
    decreases issues.len(),
{
    if issues.len() > 0 {
        let front = issues.drop_last();
        lemma_issues_len(front);
        lemma_issues_view(front);
        if issues_view(front).contains_key(issues.last().id) {
            let i = choose|i: int| 0 <= i < front.len() && (#[trigger] front[i]).id == issues.last().id;
            assert(issues[i].id == issues[issues.len() - 1].id);
        }
    }
}

} // verus!
