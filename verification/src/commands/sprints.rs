//! The command that lists the sprints around the active one, and those to
//! come.

use crate::extend_sprints::{id_widths, Sprints, SprintsPadding};
use crate::extend_issues::widest;
use crate::sorting::{arrange, arranged, ranks, sort_order, sorted_order, Ranked};
use crate::tokens::{lemma_run_len_is, run_len};
use crate::tracker::{Sprint, SprintState, SprintView};
use vstd::prelude::*;

verus! {

/// How many sprints before the active one are shown, and how far after
/// its place the shown ones end.
pub const SPRINTS_WINDOW: usize = 2;

/// The sprints as they are listed.
#[derive(Clone, Debug)]
pub struct Listing<'a> {
    /// The width of the column of identifiers.
    pub id_padding: usize,
    pub sprints: Vec<&'a Sprint>,
}

/// The test for being a sprint to come.
pub open spec fn is_future() -> spec_fn(SprintView) -> bool {
    |sprint: SprintView| sprint.state == SprintState::Future
}

/// The test for being a sprint that has begun: any but one to come.
pub open spec fn has_begun() -> spec_fn(SprintView) -> bool {
    |sprint: SprintView| sprint.state != SprintState::Future
}

/// The test for being an active sprint.
pub open spec fn is_active() -> spec_fn(SprintView) -> bool {
    |sprint: SprintView| sprint.state == SprintState::Active
}

/// The start date of each sprint.
pub open spec fn start_dates(sprints: Seq<SprintView>) -> Seq<Option<Seq<char>>> {
    Seq::new(sprints.len(), |i: int| sprints[i].start_date)
}

/// The name of each sprint.
pub open spec fn names(sprints: Seq<SprintView>) -> Seq<Seq<char>> {
    Seq::new(sprints.len(), |i: int| sprints[i].name)
}

/// The sprints that have begun, by start date; those without one first.
pub open spec fn begun_sprints(sprints: Seq<SprintView>) -> Seq<SprintView> {
    let begun = sprints.filter(has_begun());
    arranged(begun, sorted_order(start_dates(begun)))
}

/// The sprints to come, by name.
pub open spec fn future_sprints(sprints: Seq<SprintView>) -> Seq<SprintView> {
    let future = sprints.filter(is_future());
    arranged(future, sorted_order(names(future)))
}

/// The part of `begun` around its first active sprint: from two places
/// before it to one place after it, as far as there are such places. All of
/// `begun` where no sprint is active.
pub open spec fn window(begun: Seq<SprintView>) -> Seq<SprintView> {
    let at = run_len(begun, is_active()) as int;
    if at < begun.len() {
        let from = if at > SPRINTS_WINDOW { at - SPRINTS_WINDOW } else { 0 };
        let to = if at + SPRINTS_WINDOW < begun.len() { at + SPRINTS_WINDOW } else { begun.len() as int };
        begun.subrange(from, to)
    } else {
        begun
    }
}

/// The sprints that are listed: the window of those that have begun, and
/// then all those to come.
pub open spec fn listed_sprints(sprints: Seq<SprintView>) -> Seq<SprintView> {
    window(begun_sprints(sprints)) + future_sprints(sprints)
}

/// With the first active sprint at place `at`, the window runs from place
/// `at - 2` up to, and without, place `at + 2`, cut to the places there are.
pub proof fn lemma_window_around(begun: Seq<SprintView>, at: int)
    requires
        0 <= at < begun.len(),
        begun[at].state == SprintState::Active,
        forall|i: int| 0 <= i < at ==> begun[i].state != SprintState::Active,
    ensures
        window(begun) == begun.subrange(
            if at - 2 > 0 { at - 2 } else { 0 },
            if at + 2 < begun.len() { at + 2 } else { begun.len() as int },
        ),
{
    lemma_run_len_is(begun, is_active(), at);
}

/// Without an active sprint, the window is all the sprints.
pub proof fn lemma_window_without_active(begun: Seq<SprintView>)
    requires
        forall|i: int| 0 <= i < begun.len() ==> begun[i].state != SprintState::Active,
    ensures
        window(begun) == begun,
{
    lemma_run_len_is(begun, is_active(), begun.len() as int);
}

/// The sprints of `sprints` that are to come, if `future`, or else those
/// that have begun, in the order they stand in.
fn select<'a>(sprints: &'a Sprints, future: bool) -> (r: Vec<&'a Sprint>)
    ensures
        r.deep_view() == sprints.deep_view().filter(if future { is_future() } else { has_begun() }),
{
    let ghost all = sprints.deep_view();
    let ghost test = if future { is_future() } else { has_begun() };
    let mut chosen: Vec<&Sprint> = Vec::new();
    let mut i: usize = 0;
    assert(all.take(0).filter(test).len() == 0) by {
        all.take(0).lemma_filter_len(test);
    }
    assert(chosen.deep_view() =~= all.take(0).filter(test));
    while i < sprints.len()
        invariant
            i <= sprints.len(),
            all == sprints.deep_view(),
            test == (if future { is_future() } else { has_begun() }),
            chosen.deep_view() == all.take(i as int).filter(test),
        decreases sprints.len() - i,
    {
        let sprint = &sprints[i];
        let is_future = sprint.state == SprintState::Future;
        proof {
            assert(all.take(i + 1) =~= all.take(i as int).push(sprint@));
            all.take(i as int).lemma_filter_push(sprint@, test);
        }
        if is_future == future {
            let ghost before = chosen.deep_view();
            chosen.push(sprint);
            assert(chosen.deep_view() =~= before.push(sprint@));
        }
        i += 1;
    }
    assert(all.take(sprints.len() as int) =~= all);
    chosen
}

/// The sprints of `sprints` that have begun, by start date.
fn begun_by_start<'a>(sprints: &'a Sprints) -> (r: Vec<&'a Sprint>)
    ensures
        r.deep_view() == begun_sprints(sprints.deep_view()),
{
    let begun = select(sprints, false);
    let mut keys: Vec<Option<&str>> = Vec::new();
    let mut i: usize = 0;
    while i < begun.len()
        invariant
            i <= begun.len(),
            keys.len() == i,
            forall|j: int| 0 <= j < i ==> (#[trigger] keys@[j]).rank() == begun@[j]@.start_date,
        decreases begun.len() - i,
    {
        let key: Option<&str> = match &begun[i].start_date {
            Some(date) => Some(date.as_str()),
            None => None,
        };
        assert(key.rank() == begun@[i as int]@.start_date);
        keys.push(key);
        i += 1;
    }
    assert(ranks(keys@) =~= start_dates(begun.deep_view()));
    let order = sort_order(&keys);
    let r = arrange(&begun, &order);
    assert(r.deep_view() =~= arranged(begun.deep_view(), order@));
    r
}

/// The sprints of `sprints` that are to come, by name.
fn future_by_name<'a>(sprints: &'a Sprints) -> (r: Vec<&'a Sprint>)
    ensures
        r.deep_view() == future_sprints(sprints.deep_view()),
{
    let future = select(sprints, true);
    let mut keys: Vec<&str> = Vec::new();
    let mut i: usize = 0;
    while i < future.len()
        invariant
            i <= future.len(),
            keys.len() == i,
            forall|j: int| 0 <= j < i ==> (#[trigger] keys@[j]).rank() == future@[j]@.name,
        decreases future.len() - i,
    {
        keys.push(future[i].name.as_str());
        i += 1;
    }
    assert(ranks(keys@) =~= names(future.deep_view()));
    let order = sort_order(&keys);
    let r = arrange(&future, &order);
    assert(r.deep_view() =~= arranged(future.deep_view(), order@));
    r
}

/// The listing of `sprints`, all the sprints of the board.
pub fn command<'a>(sprints: &'a Sprints) -> (r: Listing<'a>)
    ensures
        r.id_padding == widest(id_widths(sprints.deep_view())),
        r.sprints.deep_view() == listed_sprints(sprints.deep_view()),
{
    let begun = begun_by_start(sprints);
    let future = future_by_name(sprints);
    let ghost begun_views = begun.deep_view();
    // The place of the first active sprint.
    let mut at: usize = 0;
    while at < begun.len() && begun[at].state != SprintState::Active
        invariant
            at <= begun.len(),
            begun_views == begun.deep_view(),
            forall|i: int| 0 <= i < at ==> !is_active()(begun_views[i]),
        decreases begun.len() - at,
    {
        at += 1;
    }
    proof {
        lemma_run_len_is(begun_views, is_active(), at as int);
    }
    let (from, to) = if at < begun.len() {
        (
            if at > SPRINTS_WINDOW {
                at - SPRINTS_WINDOW
            } else {
                0
            },
            if begun.len() - at > SPRINTS_WINDOW {
                at + SPRINTS_WINDOW
            } else {
                begun.len()
            },
        )
    } else {
        (0, begun.len())
    };
    assert(window(begun_views) =~= begun_views.subrange(from as int, to as int));
    let mut listed: Vec<&Sprint> = Vec::new();
    let mut i: usize = from;
    while i < to
        invariant
            from <= i <= to <= begun.len(),
            begun_views == begun.deep_view(),
            listed.deep_view() == begun_views.subrange(from as int, i as int),
        decreases to - i,
    {
        let ghost before = listed.deep_view();
        listed.push(begun[i]);
        assert(listed.deep_view() =~= before.push(begun_views[i as int]));
        assert(begun_views.subrange(from as int, i + 1) =~= before.push(begun_views[i as int]));
        i += 1;
    }
    let mut j: usize = 0;
    assert(listed.deep_view() =~= window(begun_views) + future.deep_view().take(0));
    while j < future.len()
        invariant
            j <= future.len(),
            listed.deep_view() == window(begun_views) + future.deep_view().take(j as int),
        decreases future.len() - j,
    {
        let ghost before = listed.deep_view();
        listed.push(future[j]);
        assert(listed.deep_view() =~= before.push(future@[j as int]@));
        assert(window(begun_views) + future.deep_view().take(j + 1) =~= before.push(
            future@[j as int]@,
        ));
        j += 1;
    }
    assert(future.deep_view().take(future.len() as int) =~= future.deep_view());
    Listing { id_padding: sprints.id_padding(), sprints: listed }
}

} // verus!
