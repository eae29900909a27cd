use vstd::prelude::*;
use crate::address::{Address, address_text};
use crate::motes::{
    MoteView, after_advertised, after_observed, advert_changes, child_rows, cleared, first_match,
    fits, forest_text, forest_upto, knows, node_rows, plain_labels, reparented, rendering_of,
    is_first_match, lemma_first_match, lemma_first_match_exists,
};

verus! {

/// A device seen twice is recorded once: the second sighting changes nothing,
/// and the first adds one mote exactly where the address was new.
pub proof fn lemma_observe_twice(m: Seq<MoteView>, a: Address)
    ensures
        knows(after_observed(m, a), a),
        after_observed(after_observed(m, a), a) == after_observed(m, a),
        after_observed(m, a).len() == m.len() + if knows(m, a) {
            0int
        } else {
            1int
        },
{
    if !knows(m, a) {
        let n = after_observed(m, a);
        assert(n[m.len() as int].ip == a);
    }
}

/// A parent claimed twice in a row is a change at most the first time.
pub proof fn lemma_advertise_twice(m: Seq<MoteView>, a: Address, p: Address)
    ensures
        !advert_changes(after_advertised(m, a, p), a, p),
{
    if advert_changes(m, a, p) {
        let i = first_match(m, a);
        lemma_first_match_exists(m, a);
        let n = after_advertised(m, a, p);
        assert(is_first_match(n, a, i));
        lemma_first_match(n, a, i);
    }
}

/// After a render no mote is highlighted.
pub proof fn lemma_render_clears(m: Seq<MoteView>)
    ensures
        forall|i: int| 0 <= i < cleared(m).len() ==> !(#[trigger] cleared(m)[i]).highlighted,
{
}

proof fn lemma_rows_keep(m: Seq<MoteView>, labels: Seq<Seq<char>>, i: int, fuel: nat)
    requires
        0 <= i < m.len(),
    ensures
        node_rows(cleared(m), labels, i, fuel) == node_rows(m, labels, i, fuel),
    decreases fuel, 0int,
{
    if fuel > 0 {
        lemma_children_keep(m, labels, m[i].ip, (fuel - 1) as nat, m.len() as int);
    }
}

proof fn lemma_children_keep(
    m: Seq<MoteView>,
    labels: Seq<Seq<char>>,
    p: Address,
    fuel: nat,
    k: int,
)
    requires
        k <= m.len(),
    ensures
        child_rows(cleared(m), labels, p, fuel, k) == child_rows(m, labels, p, fuel, k),
    decreases fuel, k,
{
    if k > 0 {
        lemma_children_keep(m, labels, p, fuel, k - 1);
        lemma_rows_keep(m, labels, k - 1, fuel);
    }
}

proof fn lemma_forest_keep(m: Seq<MoteView>, labels: Seq<Seq<char>>, k: int)
    requires
        k <= m.len(),
    ensures
        forest_upto(cleared(m), labels, k) == forest_upto(m, labels, k),
    decreases k,
{
    if k > 0 {
        lemma_forest_keep(m, labels, k - 1);
        lemma_rows_keep(m, labels, k - 1, m.len() as nat);
    }
}

/// Highlights do not change the shape of the forest: clearing them leaves the
/// rendered text, for given labels, as it is.
pub proof fn lemma_forest_ignores_highlights(m: Seq<MoteView>, labels: Seq<Seq<char>>)
    ensures
        forest_text(cleared(m), labels) == forest_text(m, labels),
{
    lemma_forest_keep(m, labels, m.len() as int);
}

/// Rendering twice with nothing between: the first text is the forest with
/// emphasised labels for the highlighted motes, the second is the same forest
/// with plain labels only; where nothing was highlighted the two are equal.
pub proof fn lemma_render_twice(m: Seq<MoteView>, first: Seq<char>, second: Seq<char>)
    requires
        rendering_of(m, first),
        rendering_of(cleared(m), second),
    ensures
        second == forest_text(m, plain_labels(m)),
        (forall|i: int| 0 <= i < m.len() ==> !(#[trigger] m[i]).highlighted) ==> first == second,
{
    let l2 = choose|l: Seq<Seq<char>>| fits(cleared(m), l) && second == forest_text(cleared(m), l);
    assert(l2 =~= plain_labels(m));
    lemma_forest_ignores_highlights(m, l2);
    if forall|i: int| 0 <= i < m.len() ==> !(#[trigger] m[i]).highlighted {
        let l1 = choose|l: Seq<Seq<char>>| fits(m, l) && first == forest_text(m, l);
        assert(l1 =~= plain_labels(m));
    }
}

} // verus!
