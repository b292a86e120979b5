//! What is computed over a list of issues: the widths of the columns they
//! are shown in, and their groups by assignee.

use crate::ordered_map::OrderedMap;
use crate::tracker::{Issue, IssueView};
use vstd::prelude::*;
use vstd::utf8::encode_utf8;

verus! {

/// A list of issues.
pub type Issues = Vec<Issue>;

/// The name under which issues without assignee are grouped.
pub const UNASSIGNED: &'static str = "<unassigned>";

/// The width of a text in a column: the length of its UTF-8 encoding.
pub open spec fn width(text: Seq<char>) -> nat {
    encode_utf8(text).len()
}

/// The largest of `widths`, or 0 where there are none.
pub open spec fn widest(widths: Seq<nat>) -> nat
    decreases widths.len(),
{
    if widths.len() == 0 {
        0
    } else {
        let rest = widest(widths.drop_last());
        if widths.last() > rest {
            widths.last()
        } else {
            rest
        }
    }
}

/// The width of the permalink of each issue.
pub open spec fn permalink_widths(issues: Seq<IssueView>) -> Seq<nat> {
    Seq::new(issues.len(), |i: int| width(issues[i].permalink))
}

/// The width of the status name of each issue, 0 for one without status.
pub open spec fn status_widths(issues: Seq<IssueView>) -> Seq<nat> {
    Seq::new(
        issues.len(),
        |i: int|
            match issues[i].status {
                Some(name) => width(name),
                None => 0,
            },
    )
}

/// The width of the key of each issue.
pub open spec fn key_widths(issues: Seq<IssueView>) -> Seq<nat> {
    Seq::new(issues.len(), |i: int| width(issues[i].key))
}

/// The name under which `issue` is grouped: that of its assignee, or the
/// placeholder for issues without one.
pub open spec fn assignee_name(issue: IssueView) -> Seq<char> {
    match issue.assignee {
        Some(name) => name,
        None => UNASSIGNED@,
    }
}

/// The test for being grouped under `name`.
pub open spec fn is_assigned_to(name: Seq<char>) -> spec_fn(IssueView) -> bool {
    |issue: IssueView| assignee_name(issue) == name
}

/// The issues grouped under `name`, in the order they stand in.
pub open spec fn assigned_to(issues: Seq<IssueView>, name: Seq<char>) -> Seq<IssueView> {
    issues.filter(is_assigned_to(name))
}

/// The largest width is 0 for no widths; otherwise it is one of them, and
/// none is larger.
pub proof fn lemma_widest(widths: Seq<nat>)
    ensures
        widths.len() == 0 ==> widest(widths) == 0,
        widths.len() > 0 ==> exists|i: int| 0 <= i < widths.len() && widths[i] == widest(widths),
        forall|i: int| 0 <= i < widths.len() ==> widths[i] <= widest(widths),
    decreases widths.len(),
{
    if widths.len() > 0 {
        let rest = widths.drop_last();
        lemma_widest(rest);
        assert forall|i: int| 0 <= i < widths.len() implies widths[i] <= widest(widths) by {
            if i < rest.len() {
                assert(rest[i] == widths[i]);
            }
        }
        if widths.last() > widest(rest) || rest.len() == 0 {
            assert(widths[widths.len() - 1] == widest(widths));
        } else {
            let i = choose|i: int| 0 <= i < rest.len() && rest[i] == widest(rest);
            assert(widths[i] == widest(widths));
        }
    }
}

/// The largest width of the columns of a list of issues.
pub trait IssuesPadding {
    /// The width of the widest permalink, 0 for no issues.
    fn permalink_padding(&self) -> usize;

    /// The width of the widest status name, 0 for no issues.
    fn status_padding(&self) -> usize;

    /// The width of the widest key, 0 for no issues.
    fn key_padding(&self) -> usize;
}

/// The groups of a list of issues.
pub trait IssuesGrouping {
    /// The issues of each assignee, under the assignee's name.
    fn group_by_assignee(&self) -> OrderedMap<Vec<&Issue>>;
}

impl IssuesPadding for Issues {
    fn permalink_padding(&self) -> (r: usize)
        ensures
            r == widest(permalink_widths(self.deep_view())),
    {
        let ghost all = permalink_widths(self.deep_view());
        let mut most: usize = 0;
        let mut i: usize = 0;
        while i < self.len()
            invariant
                i <= self.len(),
                all == permalink_widths(self.deep_view()),
                most == widest(all.take(i as int)),
            decreases self.len() - i,
        {
            let this = self[i].permalink.as_str().as_bytes().len();
            proof {
                assert(all.take(i + 1).drop_last() =~= all.take(i as int));
                assert(all.take(i + 1).last() == this);
            }
            if this > most {
                most = this;
            }
            i += 1;
        }
        assert(all.take(self.len() as int) =~= all);
        most
    }

    fn status_padding(&self) -> (r: usize)
        ensures
            r == widest(status_widths(self.deep_view())),
    {
        let ghost all = status_widths(self.deep_view());
        let mut most: usize = 0;
        let mut i: usize = 0;
        while i < self.len()
            invariant
                i <= self.len(),
                all == status_widths(self.deep_view()),
                most == widest(all.take(i as int)),
            decreases self.len() - i,
        {
            let this = match &self[i].status {
                Some(name) => name.as_str().as_bytes().len(),
                None => 0,
            };
            proof {
                assert(all.take(i + 1).drop_last() =~= all.take(i as int));
                assert(all.take(i + 1).last() == this);
            }
            if this > most {
                most = this;
            }
            i += 1;
        }
        assert(all.take(self.len() as int) =~= all);
        most
    }

    fn key_padding(&self) -> (r: usize)
        ensures
            r == widest(key_widths(self.deep_view())),
    {
        let ghost all = key_widths(self.deep_view());
        let mut most: usize = 0;
        let mut i: usize = 0;
        while i < self.len()
            invariant
                i <= self.len(),
                all == key_widths(self.deep_view()),
                most == widest(all.take(i as int)),
            decreases self.len() - i,
        {
            let this = self[i].key.as_str().as_bytes().len();
            proof {
                assert(all.take(i + 1).drop_last() =~= all.take(i as int));
                assert(all.take(i + 1).last() == this);
            }
            if this > most {
                most = this;
            }
            i += 1;
        }
        assert(all.take(self.len() as int) =~= all);
        most
    }
}

/// The list that `groups` holds under `name`: empty where it holds none.
pub open spec fn group_of(groups: Map<Seq<char>, Vec<&Issue>>, name: Seq<char>) -> Seq<IssueView> {
    if groups.contains_key(name) {
        groups[name].deep_view()
    } else {
        Seq::empty()
    }
}

impl IssuesGrouping for Issues {
    /// There is a group for each name under which an issue is grouped, and
    /// no other. It holds the issues grouped under the name, in the order
    /// they stand in.
    fn group_by_assignee(&self) -> (r: OrderedMap<Vec<&Issue>>)
        ensures
            forall|name: Seq<char>|
                r@.contains_key(name) <==> #[trigger] assigned_to(self.deep_view(), name).len() > 0,
            forall|name: Seq<char>|
                r@.contains_key(name) ==> r@[name].deep_view() == #[trigger] assigned_to(
                    self.deep_view(),
                    name,
                ),
    {
        let ghost all = self.deep_view();
        let mut groups: OrderedMap<Vec<&Issue>> = OrderedMap::new();
        let mut i: usize = 0;
        assert(all.take(0) =~= Seq::empty());
        assert forall|name: Seq<char>| #[trigger] assigned_to(all.take(0), name).len() == 0 by {
            all.take(0).lemma_filter_len(is_assigned_to(name));
        }
        while i < self.len()
            invariant
                i <= self.len(),
                all == self.deep_view(),
                forall|name: Seq<char>|
                    groups@.contains_key(name) <==> #[trigger] assigned_to(
                        all.take(i as int),
                        name,
                    ).len() > 0,
                forall|name: Seq<char>|
                    groups@.contains_key(name) ==> groups@[name].deep_view() == #[trigger] assigned_to(
                        all.take(i as int),
                        name,
                    ),
            decreases self.len() - i,
        {
            let issue = &self[i];
            let name = match &issue.assignee {
                Some(assignee) => assignee.clone(),
                None => UNASSIGNED.to_owned(),
            };
            assert(name@ == assignee_name(issue@));
            let ghost old_groups = groups@;
            let ghost seen = all.take(i as int);
            let mut list: Vec<&Issue> = match groups.remove(name.as_str()) {
                Some(list) => list,
                None => Vec::new(),
            };
            assert(list.deep_view() =~= assigned_to(seen, name@)) by {
                if !old_groups.contains_key(name@) {
                    assert(assigned_to(seen, name@).len() == 0);
                }
            }
            let ghost old_list = list.deep_view();
            list.push(issue);
            assert(list.deep_view() =~= old_list.push(issue@));
            let ghost new_list = list.deep_view();
            groups.insert(name, list);
            proof {
                assert(all.take(i + 1) =~= seen.push(all[i as int]));
                assert(all[i as int] == issue@);
                assert forall|other: Seq<char>| #![trigger assigned_to(all.take(i + 1), other)]
                    (groups@.contains_key(other) <==> assigned_to(all.take(i + 1), other).len() > 0)
                    && (groups@.contains_key(other) ==> groups@[other].deep_view() == assigned_to(
                    all.take(i + 1),
                    other,
                )) by {
                    seen.lemma_filter_push(issue@, is_assigned_to(other));
                    if other == name@ {
                        assert(groups@[other].deep_view() == new_list);
                    } else {
                        assert(assigned_to(all.take(i + 1), other) == assigned_to(seen, other));
                        assert(groups@.contains_key(other) == old_groups.contains_key(other));
                        if groups@.contains_key(other) {
                            assert(groups@[other] == old_groups[other]);
                        }
                    }
                }
            }
            i += 1;
        }
        assert(all.take(self.len() as int) =~= all);
        groups
    }
}

} // verus!
