//! The command that counts the labels of the current sprint's issues.

use crate::extend_issues::Issues;
use crate::ordered_map::{text_values, OrderedMap};
use crate::tracker::IssueView;
use vstd::prelude::*;

verus! {

/// The labels of `issues`, one after the other: a label as often as issues
/// carry it.
pub open spec fn all_labels(issues: Seq<IssueView>) -> Seq<Seq<char>>
    decreases issues.len(),
{
    if issues.len() == 0 {
        Seq::empty()
    } else {
        all_labels(issues.drop_last()) + issues.last().labels
    }
}

/// The name under which `label` is counted: the one that `mapping` gives
/// it, or else the label in angle brackets.
pub open spec fn display_name(mapping: Map<Seq<char>, Seq<char>>, label: Seq<char>) -> Seq<char> {
    if mapping.contains_key(label) {
        mapping[label]
    } else {
        "<"@ + label + ">"@
    }
}

/// The test for being counted under `name`.
pub open spec fn is_counted_as(mapping: Map<Seq<char>, Seq<char>>, name: Seq<char>) -> spec_fn(
    Seq<char>,
) -> bool {
    |label: Seq<char>| display_name(mapping, label) == name
}

/// How many of `labels` are counted under `name`.
pub open spec fn count_of(
    labels: Seq<Seq<char>>,
    mapping: Map<Seq<char>, Seq<char>>,
    name: Seq<char>,
) -> nat {
    labels.filter(is_counted_as(mapping, name)).len()
}

/// The count that `counts` holds for `name`: 0 where it holds none.
pub open spec fn counted(counts: Map<Seq<char>, usize>, name: Seq<char>) -> nat {
    if counts.contains_key(name) {
        counts[name] as nat
    } else {
        0
    }
}

/// Counts the labels of `issues` by the names that `mapping` gives them.
/// The result holds a count for each name under which a label is counted,
/// and no count of 0.
pub fn command(issues: &Issues, mapping: &OrderedMap<String>) -> (r: OrderedMap<usize>)
    requires
        all_labels(issues.deep_view()).len() <= usize::MAX,
    ensures
        forall|name: Seq<char>|
            r@.contains_key(name) <==> #[trigger] count_of(
                all_labels(issues.deep_view()),
                text_values(mapping@),
                name,
            ) > 0,
        forall|name: Seq<char>|
            r@.contains_key(name) ==> r@[name] == #[trigger] count_of(
                all_labels(issues.deep_view()),
                text_values(mapping@),
                name,
            ),
{
    let ghost all = issues.deep_view();
    let ghost names = text_values(mapping@);
    let mut counts: OrderedMap<usize> = OrderedMap::new();
    let mut i: usize = 0;
    proof {
        assert(all.take(0) =~= Seq::empty());
        assert forall|name: Seq<char>| #[trigger]
            count_of(all_labels(all.take(0)), names, name) == 0 by {
            all_labels(all.take(0)).lemma_filter_len(is_counted_as(names, name));
        }
    }
    while i < issues.len()
        invariant
            i <= issues.len(),
            all == issues.deep_view(),
            names == text_values(mapping@),
            all_labels(all).len() <= usize::MAX,
            forall|name: Seq<char>|
                counted(counts@, name) == #[trigger] count_of(
                    all_labels(all.take(i as int)),
                    names,
                    name,
                ),
            forall|name: Seq<char>| counts@.contains_key(name) ==> counts@[name] > 0,
        decreases issues.len() - i,
    {
        let labels = &issues[i].labels;
        let ghost seen = all_labels(all.take(i as int));
        let ghost these = labels.deep_view();
        proof {
            assert(all.take(i + 1).drop_last() =~= all.take(i as int));
            assert(all.take(i + 1).last() == issues@[i as int]@);
            assert(all_labels(all.take(i + 1)) == seen + these);
            lemma_all_labels_len(all, i + 1);
            assert(seen + these.take(0) =~= seen);
        }
        let mut j: usize = 0;
        while j < labels.len()
            invariant
                j <= labels.len(),
                these == labels.deep_view(),
                names == text_values(mapping@),
                seen.len() + these.len() <= usize::MAX,
                forall|name: Seq<char>|
                    counted(counts@, name) == #[trigger] count_of(
                        seen + these.take(j as int),
                        names,
                        name,
                    ),
                forall|name: Seq<char>| counts@.contains_key(name) ==> counts@[name] > 0,
            decreases labels.len() - j,
        {
            let label = labels[j].as_str();
            let name: String = match mapping.get(label) {
                Some(text) => text.clone(),
                None => {
                    let mut text = "<".to_owned();
                    text.append(label);
                    text.append(">");
                    text
                },
            };
            assert(name@ == display_name(names, label@));
            let ghost done = seen + these.take(j as int);
            let ghost old_counts = counts@;
            proof {
                assert(seen + these.take(j + 1) =~= done.push(label@));
                done.lemma_filter_push(label@, is_counted_as(names, name@));
                done.push(label@).lemma_filter_len(is_counted_as(names, name@));
            }
            let so_far: usize = match counts.get(name.as_str()) {
                Some(count) => *count,
                None => 0,
            };
            let ghost text = name@;
            proof {
                assert(so_far == counted(old_counts, text));
                assert(so_far == count_of(done, names, text));
                done.lemma_filter_len(is_counted_as(names, text));
                assert(done.len() == seen.len() + j);
            }
            counts.insert(name, so_far + 1);
            proof {
                assert forall|other: Seq<char>|
                    counted(counts@, other) == #[trigger] count_of(
                        seen + these.take(j + 1),
                        names,
                        other,
                    ) by {
                    done.lemma_filter_push(label@, is_counted_as(names, other));
                    assert(is_counted_as(names, other)(label@) == (other == text));
                    assert(counted(old_counts, other) == count_of(done, names, other));
                    if other != text {
                        assert(counted(counts@, other) == counted(old_counts, other));
                    } else {
                        assert(counted(counts@, other) == so_far + 1);
                    }
                }
            }
            j += 1;
        }
        assert(these.take(labels.len() as int) =~= these);
        i += 1;
    }
    proof {
        assert(all.take(issues.len() as int) =~= all);
        assert forall|name: Seq<char>|
            counts@.contains_key(name) <==> #[trigger] count_of(all_labels(all), names, name)
                > 0 by {
            assert(counted(counts@, name) == count_of(all_labels(all), names, name));
        }
        assert forall|name: Seq<char>| counts@.contains_key(name) implies counts@[name]
            == #[trigger] count_of(all_labels(all), names, name) by {
            assert(counted(counts@, name) == count_of(all_labels(all), names, name));
        }
    }
    counts
}

/// The labels of the first issues of a list are no more than those of all.
proof fn lemma_all_labels_len(issues: Seq<IssueView>, k: int)
    requires
        0 <= k <= issues.len(),
    ensures
        all_labels(issues.take(k)).len() <= all_labels(issues).len(),
    decreases issues.len(),
{
    if k == issues.len() {
        assert(issues.take(k) =~= issues);
    } else {
        lemma_all_labels_len(issues.drop_last(), k);
        assert(issues.drop_last().take(k) =~= issues.take(k));
    }
}

} // verus!
