//! Issues as the listings show them: in groups by assignee, the groups in
//! the order of their names, the issues of each group sorted.

use crate::extend_issues::{assigned_to, Issues, IssuesGrouping};
use crate::ordered_map::{ascending, OrderedMap};
use crate::sorting::{arrange, arranged, ranks, sort_order, sorted_order, Ranked};
use crate::tracker::{Issue, IssueView};
use vstd::prelude::*;

verus! {

/// What the issues of a group are sorted by.
#[derive(Clone, Copy, Debug)]
pub enum SortBy<'a> {
    /// By the number the tracker gave each issue.
    Id,
    /// By the text of the field with this name; issues without the field
    /// come first.
    Field(&'a str),
}

/// A sorting criterion as a mathematical value.
pub enum SortByView {
    Id,
    Field(Seq<char>),
}

impl<'a> View for SortBy<'a> {
    type V = SortByView;

    open spec fn view(&self) -> SortByView {
        match self {
            SortBy::Id => SortByView::Id,
            SortBy::Field(name) => SortByView::Field(name@),
        }
    }
}

/// The issues of one assignee.
#[derive(Clone, Debug)]
pub struct Group<'a> {
    /// The assignee's name, or the placeholder for issues without one.
    pub assignee: String,
    pub issues: Vec<&'a Issue>,
}

/// A group as a mathematical value.
pub struct GroupView {
    pub assignee: Seq<char>,
    pub issues: Seq<IssueView>,
}

impl<'a> View for Group<'a> {
    type V = GroupView;

    open spec fn view(&self) -> GroupView {
        GroupView { assignee: self.assignee@, issues: self.issues.deep_view() }
    }
}

impl<'a> DeepView for Group<'a> {
    type V = GroupView;

    open spec fn deep_view(&self) -> GroupView {
        self@
    }
}

/// The number of each issue.
pub open spec fn ids(issues: Seq<IssueView>) -> Seq<u64> {
    Seq::new(issues.len(), |i: int| issues[i].id)
}

/// The text that each issue has in the field called `name`.
pub open spec fn field_values(issues: Seq<IssueView>, name: Seq<char>) -> Seq<Option<Seq<char>>> {
    Seq::new(issues.len(), |i: int| issues[i].field(name))
}

/// `issues` sorted by `by`; issues that `by` does not tell apart stay in
/// the order they stand in.
pub open spec fn in_order(issues: Seq<IssueView>, by: SortByView) -> Seq<IssueView> {
    match by {
        SortByView::Id => arranged(issues, sorted_order(ids(issues))),
        SortByView::Field(name) => arranged(issues, sorted_order(field_values(issues, name))),
    }
}

/// The names of `groups`, in their order.
pub open spec fn group_names(groups: Seq<GroupView>) -> Seq<Seq<char>> {
    Seq::new(groups.len(), |g: int| groups[g].assignee)
}

/// Whether `groups` are the groups of `issues` by assignee: in ascending
/// order of their names, one for each name under which an issue is
/// grouped, each with the issues grouped under its name, sorted by `by`.
pub open spec fn is_grouping(groups: Seq<GroupView>, issues: Seq<IssueView>, by: SortByView) -> bool {
    &&& ascending(group_names(groups))
    &&& forall|name: Seq<char>|
        group_names(groups).contains(name) <==> #[trigger] assigned_to(issues, name).len() > 0
    &&& forall|g: int|
        0 <= g < groups.len() ==> (#[trigger] groups[g]).issues == in_order(
            assigned_to(issues, groups[g].assignee),
            by,
        )
}

/// Sorts `list` by `by`.
pub fn sorted<'a>(list: &Vec<&'a Issue>, by: SortBy) -> (r: Vec<&'a Issue>)
    ensures
        r.deep_view() == in_order(list.deep_view(), by@),
{
    let order = match by {
        SortBy::Id => {
            let mut keys: Vec<u64> = Vec::new();
            let mut i: usize = 0;
            while i < list.len()
                invariant
                    i <= list.len(),
                    keys.len() == i,
                    forall|j: int| 0 <= j < i ==> keys@[j] == list@[j].id,
                decreases list.len() - i,
            {
                keys.push(list[i].id);
                i += 1;
            }
            assert(ranks(keys@) =~= ids(list.deep_view()));
            sort_order(&keys)
        },
        SortBy::Field(name) => {
            let mut keys: Vec<Option<&str>> = Vec::new();
            let mut i: usize = 0;
            while i < list.len()
                invariant
                    i <= list.len(),
                    keys.len() == i,
                    forall|j: int| 0 <= j < i ==> (#[trigger] keys@[j]).rank() == list@[j]@.field(name@),
                decreases list.len() - i,
            {
                let key = list[i].field(name);
                assert(key.rank() == key.deep_view());
                keys.push(key);
                i += 1;
            }
            assert(ranks(keys@) =~= field_values(list.deep_view(), name@));
            sort_order(&keys)
        },
    };
    let r = arrange(list, &order);
    assert(r.deep_view() =~= arranged(list.deep_view(), order@));
    r
}

/// Groups `issues` by assignee and sorts each group by `by`.
pub fn grouped<'a>(issues: &'a Issues, by: SortBy) -> (r: Vec<Group<'a>>)
    ensures
        is_grouping(r.deep_view(), issues.deep_view(), by@),
{
    let map: OrderedMap<Vec<&Issue>> = issues.group_by_assignee();
    proof {
        use_type_invariant(&map);
        map.lemma_entries();
    }
    let ghost names = map.ordered_keys();
    let mut groups: Vec<Group<'a>> = Vec::new();
    let mut g: usize = 0;
    while g < map.len()
        invariant
            g <= map.ordered_keys().len(),
            groups.len() == g,
            names == map.ordered_keys(),
            forall|name: Seq<char>|
                map@.contains_key(name) ==> map@[name].deep_view() == #[trigger] assigned_to(
                    issues.deep_view(),
                    name,
                ),
            forall|h: int| 0 <= h < g ==> (#[trigger] groups@[h]).assignee@ == names[h],
            forall|h: int|
                0 <= h < g ==> (#[trigger] groups@[h]).issues.deep_view() == in_order(
                    assigned_to(issues.deep_view(), names[h]),
                    by@,
                ),
        decreases map.ordered_keys().len() - g,
    {
        let name = map.key_at(g);
        let list = map.value_at(g);
        groups.push(Group { assignee: name.to_owned(), issues: sorted(list, by) });
        g += 1;
    }
    proof {
        let views = groups.deep_view();
        assert(group_names(views) =~= names);
        assert forall|name: Seq<char>|
            group_names(views).contains(name) <==> #[trigger] assigned_to(
                issues.deep_view(),
                name,
            ).len() > 0 by {
            assert(names.to_set().contains(name) == names.contains(name));
        }
        assert forall|h: int| 0 <= h < views.len() implies (#[trigger] views[h]).issues == in_order(
            assigned_to(issues.deep_view(), views[h].assignee),
            by@,
        ) by {
            assert(views[h] == groups@[h]@);
        }
    }
    groups
}

} // verus!
