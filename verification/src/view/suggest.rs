//! Which entities the audio view is meant for.

use crate::text_order::{
    ascending, text_before, text_order, text_order_is_transitive, TextOrder,
};
use crate::view::playback::{contains_name, names};
use vstd::prelude::*;

verus! {

/// The audio view.
#[derive(Debug, Clone, Copy)]
pub struct AudioView;

impl Default for AudioView {
    fn default() -> (r: Self)
        ensures
            r == AudioView,
    {
        AudioView
    }
}

impl AudioView {
    /// The name of the view for people.
    pub fn display_name(&self) -> (r: &'static str)
        ensures
            r@ == "Audio"@,
    {
        "Audio"
    }

    /// Those of the offered visualizers that belong to the view, in order.
    pub fn recommended_visualizers_for_entity(own: &Vec<String>, offered: &Vec<String>) -> (r: Vec<
        String,
    >)
        ensures
            names(r@) == members_among(names(offered@), names(own@), offered@.len()),
    {
        let mut out: Vec<String> = Vec::new();
        let mut i: usize = 0;
        while i < offered.len()
            invariant
                i <= offered@.len(),
                names(out@) == members_among(names(offered@), names(own@), i as nat),
            decreases offered@.len() - i,
        {
            assert(names(offered@)[i as int] == offered@[i as int]@);
            if contains_name(own, &offered[i]) {
                let ghost so_far = out@;
                let name = offered[i].clone();
                out.push(name);
                assert(names(out@) =~= names(so_far).push(name@));
            }
            i = i + 1;
        }
        out
    }
}

/// Those of the first `n` of `list` that are in `own`, in order.
pub open spec fn members_among(list: Seq<Seq<char>>, own: Seq<Seq<char>>, n: nat) -> Seq<Seq<char>>
    decreases n,
{
    if n == 0 {
        Seq::empty()
    } else {
        let before = members_among(list, own, (n - 1) as nat);
        if own.contains(list[n - 1]) {
            before.push(list[n - 1])
        } else {
            before
        }
    }
}

/// What one visualizer can do with entities.
#[derive(Debug)]
pub struct VisualizerEntities {
    /// Entities that were logged for the visualizer.
    pub indicated: Vec<String>,
    /// Entities that the visualizer can show.
    pub visualizable: Vec<String>,
}

/// Whether an entity is suggested by the first `n` visualizers: one that can show it was meant
/// for it, and the entity is not left out.
pub open spec fn suggested(
    visualizers: Seq<VisualizerEntities>,
    included: Seq<Seq<char>>,
    entity: Seq<char>,
    n: nat,
) -> bool {
    &&& included.contains(entity)
    &&& exists|v: int|
        0 <= v < n && names((#[trigger] visualizers[v]).indicated@).contains(entity) && names(
            visualizers[v].visualizable@,
        ).contains(entity)
}

proof fn lemma_push_contains(list: Seq<Seq<char>>, name: Seq<char>)
    ensures
        forall|e: Seq<char>| #[trigger]
            list.push(name).contains(e) <==> list.contains(e) || e == name,
{
    assert forall|e: Seq<char>| #[trigger] list.push(name).contains(e) <==> list.contains(e) || e
        == name by {
        if list.contains(e) {
            let i = choose|i: int| 0 <= i < list.len() && list[i] == e;
            assert(list.push(name)[i] == e);
        }
        if e == name {
            assert(list.push(name)[list.len() as int] == e);
        }
        if list.push(name).contains(e) && e != name {
            let i = choose|i: int| 0 <= i < list.push(name).len() && list.push(name)[i] == e;
            assert(list[i] == e);
        }
    }
}

proof fn lemma_insert_contains(list: Seq<Seq<char>>, at: int, name: Seq<char>)
    requires
        0 <= at <= list.len(),
    ensures
        forall|e: Seq<char>| #[trigger]
            list.insert(at, name).contains(e) <==> list.contains(e) || e == name,
{
    let after = list.insert(at, name);
    assert forall|e: Seq<char>| #[trigger] after.contains(e) <==> list.contains(e) || e == name by {
        if list.contains(e) {
            let i = choose|i: int| 0 <= i < list.len() && list[i] == e;
            assert(after[if i < at {
                i
            } else {
                i + 1
            }] == e);
        }
        if e == name {
            assert(after[at] == e);
        }
        if after.contains(e) && e != name {
            let i = choose|i: int| 0 <= i < after.len() && after[i] == e;
            assert(list[if i < at {
                i
            } else {
                i - 1
            }] == e);
        }
    }
}

/// Puts a name at its place in a list that is in ascending order, where it is not there already.
fn insert_name(list: &mut Vec<String>, name: &String)
    requires
        ascending(names(old(list)@)),
    ensures
        ascending(names(final(list)@)),
        forall|e: Seq<char>| #[trigger]
            names(final(list)@).contains(e) <==> names(old(list)@).contains(e) || e == name@,
{
    let ghost before = names(list@);
    let mut at: usize = 0;
    while at < list.len()
        invariant
            at <= list@.len(),
            list@ == old(list)@,
            before == names(list@),
            ascending(before),
            forall|i: int| 0 <= i < at ==> text_before(#[trigger] before[i], name@),
        decreases list@.len() - at,
    {
        assert(before[at as int] == list@[at as int]@);
        match text_order(list[at].as_str(), name.as_str()) {
            TextOrder::Before => {
                at = at + 1;
            },
            TextOrder::Same => {
                assert(before.contains(name@));
                return ;
            },
            TextOrder::After => {
                let copy = name.clone();
                list.insert(at, copy);
                proof {
                    let after = names(list@);
                    assert(after =~= before.insert(at as int, name@));
                    lemma_insert_contains(before, at as int, name@);
                    assert forall|i: int, j: int| 0 <= i < j < after.len() implies text_before(
                        #[trigger] after[i],
                        #[trigger] after[j],
                    ) by {
                        if j < at {
                            assert(text_before(before[i], before[j]));
                        } else if j > at && i == at {
                            if j - 1 > at {
                                assert(text_before(before[at as int], before[j - 1]));
                                text_order_is_transitive(name@, before[at as int], before[j - 1]);
                            }
                        } else if j > at {
                            let k = if i < at {
                                i
                            } else {
                                i - 1
                            };
                            assert(text_before(before[k], before[j - 1]));
                        }
                    }
                }
                return ;
            },
        }
    }
    let copy = name.clone();
    list.push(copy);
    proof {
        assert(names(list@) =~= before.push(name@));
        lemma_push_contains(before, name@);
    }
}

/// Suggests a view for each entity that a visualizer was meant for and can show, and that is not
/// left out. Each entity is suggested once, in ascending order of their paths' text.
pub fn suggest_audio_view_for_each_entity(
    visualizers: &Vec<VisualizerEntities>,
    included: &Vec<String>,
) -> (r: Vec<String>)
    ensures
        ascending(names(r@)),
        forall|entity: Seq<char>| #[trigger]
            names(r@).contains(entity) <==> suggested(
                visualizers@,
                names(included@),
                entity,
                visualizers@.len(),
            ),
{
    let ghost own = names(included@);
    let mut out: Vec<String> = Vec::new();
    let mut v: usize = 0;
    while v < visualizers.len()
        invariant
            v <= visualizers@.len(),
            own == names(included@),
            ascending(names(out@)),
            forall|entity: Seq<char>| #[trigger]
                names(out@).contains(entity) <==> suggested(visualizers@, own, entity, v as nat),
        decreases visualizers@.len() - v,
    {
        let visualizer = &visualizers[v];
        let ghost meant = names(visualizer.indicated@);
        let ghost shown = names(visualizer.visualizable@);
        let ghost before = names(out@);
        let mut i: usize = 0;
        while i < visualizer.indicated.len()
            invariant
                i <= visualizer.indicated@.len(),
                own == names(included@),
                meant == names(visualizer.indicated@),
                shown == names(visualizer.visualizable@),
                ascending(names(out@)),
                forall|entity: Seq<char>| #[trigger]
                    names(out@).contains(entity) <==> before.contains(entity) || (own.contains(
                        entity,
                    ) && shown.contains(entity) && meant.take(i as int).contains(entity)),
            decreases visualizer.indicated@.len() - i,
        {
            let entity = &visualizer.indicated[i];
            assert(meant[i as int] == entity@);
            let wanted: bool = contains_name(&visualizer.visualizable, entity) && contains_name(
                included,
                entity,
            );
            if wanted {
                insert_name(&mut out, entity);
            }
            proof {
                lemma_push_contains(meant.take(i as int), entity@);
                assert(meant.take(i + 1) =~= meant.take(i as int).push(entity@));
            }
            i = i + 1;
        }
        proof {
            assert(meant.take(i as int) =~= meant);
            assert forall|entity: Seq<char>| #[trigger]
                names(out@).contains(entity) <==> suggested(
                    visualizers@,
                    own,
                    entity,
                    (v + 1) as nat,
                ) by {
                assert(before.contains(entity) <==> suggested(
                    visualizers@,
                    own,
                    entity,
                    v as nat,
                ));
                if own.contains(entity) && shown.contains(entity) && meant.contains(entity) {
                    assert(names(visualizers@[v as int].indicated@).contains(entity));
                }
                if suggested(visualizers@, own, entity, v as nat) {
                    let w = choose|w: int|
                        0 <= w < v && names((#[trigger] visualizers@[w]).indicated@).contains(
                            entity,
                        ) && names(visualizers@[w].visualizable@).contains(entity);
                    assert(names(visualizers@[w].indicated@).contains(entity));
                }
                if suggested(visualizers@, own, entity, (v + 1) as nat) {
                    let w = choose|w: int|
                        0 <= w < v + 1 && names((#[trigger] visualizers@[w]).indicated@).contains(
                            entity,
                        ) && names(visualizers@[w].visualizable@).contains(entity);
                    if w < v {
                        assert(suggested(visualizers@, own, entity, v as nat));
                    }
                }
            }
        }
        v = v + 1;
    }
    out
}

proof fn lemma_members(list: Seq<Seq<char>>, own: Seq<Seq<char>>, n: nat)
    requires
        n <= list.len(),
    ensures
        members_among(list, own, n) == list.take(n as int).filter(
            |name: Seq<char>| own.contains(name),
        ),
    decreases n,
{
    reveal(Seq::filter);
    let pred = |name: Seq<char>| own.contains(name);
    if n == 0 {
        assert(members_among(list, own, 0) =~= list.take(0).filter(pred));
    } else {
        lemma_members(list, own, (n - 1) as nat);
        assert(list.take(n as int).drop_last() =~= list.take(n - 1));
    }
}

/// Of the offered visualizers exactly those that belong to the view are recommended, in order.
pub proof fn own_visualizers_are_recommended(
    own: &Vec<String>,
    offered: &Vec<String>,
    r: Vec<String>,
)
    requires
        call_ensures(AudioView::recommended_visualizers_for_entity, (own, offered), r),
    ensures
        names(r@) == names(offered@).filter(|name: Seq<char>| names(own@).contains(name)),
{
    lemma_members(names(offered@), names(own@), offered@.len());
    assert(names(offered@).take(offered@.len() as int) =~= names(offered@));
}

/// An entity is suggested exactly when it is among those to be shown and one visualizer was both
/// meant for it and can show it. No entity is suggested twice, and they come in ascending order.
pub proof fn entities_are_suggested_for_their_visualizers(
    visualizers: &Vec<VisualizerEntities>,
    included: &Vec<String>,
    r: Vec<String>,
    entity: Seq<char>,
)
    requires
        call_ensures(suggest_audio_view_for_each_entity, (visualizers, included), r),
    ensures
        names(r@).contains(entity) <==> names(included@).contains(entity) && exists|v: int|
            0 <= v < visualizers@.len() && names((#[trigger] visualizers@[v]).indicated@).contains(
                entity,
            ) && names(visualizers@[v].visualizable@).contains(entity),
        forall|i: int, j: int|
            0 <= i < j < r@.len() ==> text_before(#[trigger] names(r@)[i], #[trigger] names(r@)[j]),
{
}

} // verus!
