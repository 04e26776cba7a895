//! The spec selector: among several event specs, the first that an event
//! matches.
//!
//! Specs are meant to be mutually exclusive, so the first match in the order
//! supplied is the match. Where two specs do match one event, the earlier one
//! wins and no conflict is reported.

use vstd::prelude::*;

use crate::event::{Event, EventModel};
use crate::event_spec::{EventSpec, SpecModel};
use crate::matcher::{conforms, event_matches_spec};

verus! {

/// The models of a sequence of event specs, position by position.
pub open spec fn spec_models(specs: Seq<EventSpec>) -> Seq<SpecModel> {
    specs.map_values(|s: EventSpec| s@)
}

/// `specs[at]` is the first spec in the list that the event matches.
pub open spec fn is_first_match(event: EventModel, specs: Seq<SpecModel>, at: int) -> bool {
    &&& 0 <= at < specs.len()
    &&& conforms(event, specs[at])
    &&& forall|j: int| 0 <= j < at ==> !conforms(event, #[trigger] specs[j])
}

/// The event matches none of the specs.
pub open spec fn matches_none(event: EventModel, specs: Seq<SpecModel>) -> bool {
    forall|j: int| 0 <= j < specs.len() ==> !conforms(event, #[trigger] specs[j])
}

/// The position of the first spec that the event matches, if it matches any.
pub open spec fn first_match(event: EventModel, specs: Seq<SpecModel>) -> Option<int> {
    if exists|at: int| is_first_match(event, specs, at) {
        Some(choose|at: int| is_first_match(event, specs, at))
    } else {
        None
    }
}

/// The first spec that the event matches, if it matches any.
pub open spec fn selected(event: EventModel, specs: Seq<SpecModel>) -> Option<SpecModel> {
    match first_match(event, specs) {
        Some(at) => Some(specs[at]),
        None => None,
    }
}

/// The test "the event matches this spec".
pub open spec fn matched_by(event: EventModel) -> spec_fn(SpecModel) -> bool {
    |spec: SpecModel| conforms(event, spec)
}

/// There is at most one first match, and there is none exactly when the event
/// matches no spec of the list.
pub proof fn lemma_first_match_is_unique(event: EventModel, specs: Seq<SpecModel>, at: int)
    requires
        is_first_match(event, specs, at),
    ensures
        first_match(event, specs) == Some(at),
        !matches_none(event, specs),
{
    let chosen = choose|at: int| is_first_match(event, specs, at);
    assert(is_first_match(event, specs, chosen));
    if chosen < at {
        assert(!conforms(event, specs[chosen]));
    }
    if at < chosen {
        assert(!conforms(event, specs[at]));
    }
}

/// Where the event matches no spec of the list, nothing is selected.
pub proof fn lemma_no_match_selects_nothing(event: EventModel, specs: Seq<SpecModel>)
    requires
        matches_none(event, specs),
    ensures
        first_match(event, specs) is None,
        selected(event, specs) is None,
{
    if exists|at: int| is_first_match(event, specs, at) {
        let at = choose|at: int| is_first_match(event, specs, at);
        assert(!conforms(event, specs[at]));
    }
}

/// The position of the first spec in `specs` that `event` matches, or `None`
/// where it matches none.
pub fn select_index(event: &Event, specs: &Vec<EventSpec>) -> (r: Option<usize>)
    ensures
        match r {
            Some(at) => is_first_match(event@, spec_models(specs@), at as int),
            None => matches_none(event@, spec_models(specs@)),
        },
        match r {
            Some(at) => first_match(event@, spec_models(specs@)) == Some(at as int),
            None => first_match(event@, spec_models(specs@)) is None,
        },
{
    let mut i: usize = 0;
    while i < specs.len()
        invariant
            i <= specs.len(),
            forall|j: int| 0 <= j < i ==> !conforms(event@, #[trigger] spec_models(specs@)[j]),
        decreases specs.len() - i,
    {
        if event_matches_spec(event, &specs[i]) {
            proof {
                lemma_first_match_is_unique(event@, spec_models(specs@), i as int);
            }
            return Some(i);
        }
        i += 1;
    }
    proof {
        lemma_no_match_selects_nothing(event@, spec_models(specs@));
    }
    None
}

/// The first spec in `specs` that `event` matches, or `None` where it matches
/// none.
pub fn select<'a>(event: &Event, specs: &'a Vec<EventSpec>) -> (r: Option<&'a EventSpec>)
    ensures
        match r {
            Some(spec) => selected(event@, spec_models(specs@)) == Some(spec@),
            None => selected(event@, spec_models(specs@)) is None,
        },
        r is Some <==> exists|j: int|
            0 <= j < specs@.len() && conforms(event@, #[trigger] spec_models(specs@)[j]),
{
    match select_index(event, specs) {
        Some(at) => {
            assert(conforms(event@, spec_models(specs@)[at as int]));
            Some(&specs[at])
        },
        None => None,
    }
}

/// Selection looks only at the specs that the event matches, in their order:
/// two lists that hold the same matching specs in the same order select the
/// same spec, however the specs that do not match are placed among them.
pub proof fn lemma_selection_ignores_non_matches(
    event: EventModel,
    specs: Seq<SpecModel>,
    other: Seq<SpecModel>,
)
    requires
        specs.filter(matched_by(event)) == other.filter(matched_by(event)),
    ensures
        selected(event, specs) == selected(event, other),
{
    lemma_selected_is_head_of_matches(event, specs);
    lemma_selected_is_head_of_matches(event, other);
}

/// What is selected is the first of the matching specs.
pub proof fn lemma_selected_is_head_of_matches(event: EventModel, specs: Seq<SpecModel>)
    ensures
        selected(event, specs) == if specs.filter(matched_by(event)).len() > 0 {
            Some(specs.filter(matched_by(event))[0])
        } else {
            None
        },
    decreases specs.len(),
{
    reveal(Seq::filter);
    let matching = specs.filter(matched_by(event));
    if specs.len() == 0 {
        lemma_no_match_selects_nothing(event, specs);
    } else {
        let front = specs.drop_last();
        lemma_selected_is_head_of_matches(event, front);
        let front_matching = front.filter(matched_by(event));
        if front_matching.len() > 0 {
            // The first match lies in the front; the last spec cannot displace it.
            let at = first_match(event, front)->Some_0;
            assert(is_first_match(event, front, at));
            assert(specs[at] == front[at]);
            assert forall|j: int| 0 <= j < at implies !conforms(event, #[trigger] specs[j]) by {
                assert(specs[j] == front[j]);
            }
            lemma_first_match_is_unique(event, specs, at);
            assert(matching[0] == front_matching[0]);
        } else {
            // Nothing in the front matches.
            assert(first_match(event, front) is None);
            assert forall|j: int| 0 <= j < front.len() implies !conforms(event, #[trigger] front[j]) by {
                if conforms(event, front[j]) {
                    lemma_some_match_has_first(event, front, j);
                }
            }
            if conforms(event, specs.last()) {
                let at = specs.len() - 1;
                assert forall|j: int| 0 <= j < at implies !conforms(event, #[trigger] specs[j]) by {
                    assert(specs[j] == front[j]);
                }
                lemma_first_match_is_unique(event, specs, at);
                assert(matching =~= seq![specs.last()]);
            } else {
                assert forall|j: int| 0 <= j < specs.len() implies !conforms(
                    event,
                    #[trigger] specs[j],
                ) by {
                    if j < front.len() {
                        assert(specs[j] == front[j]);
                    }
                }
                lemma_no_match_selects_nothing(event, specs);
            }
        }
    }
}

/// Where the event matches some spec of the list, it has a first match, at or
/// before that spec.
pub proof fn lemma_some_match_has_first(event: EventModel, specs: Seq<SpecModel>, at: int)
    requires
        0 <= at < specs.len(),
        conforms(event, specs[at]),
    ensures
        exists|first: int| first <= at && is_first_match(event, specs, first),
    decreases at,
{
    if exists|j: int| 0 <= j < at && conforms(event, #[trigger] specs[j]) {
        let j = choose|j: int| 0 <= j < at && conforms(event, #[trigger] specs[j]);
        lemma_some_match_has_first(event, specs, j);
        let first = choose|first: int| first <= j && is_first_match(event, specs, first);
        assert(first <= at && is_first_match(event, specs, first));
    } else {
        assert(is_first_match(event, specs, at));
    }
}

} // verus!
