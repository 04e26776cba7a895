//! Events: an ordered list of topic values and one payload value.

use vstd::prelude::*;

use crate::value::{lemma_value_models, value_models, Value, ValueModel};

verus! {

/// A contract event as the matcher sees it.
///
/// By convention the leading topics are fixed name tokens and the rest carry
/// parameter values; nothing in the type enforces that.
#[derive(Debug, PartialEq, Eq)]
pub struct Event {
    /// The emitting contract, in its textual form; it is carried through
    /// unread.
    pub contract_id: Option<String>,
    pub topics: Vec<Value>,
    pub data: Value,
}

/// The mathematical model of an [`Event`].
pub struct EventModel {
    pub contract_id: Option<Seq<char>>,
    pub topics: Seq<ValueModel>,
    pub data: ValueModel,
}

impl View for Event {
    type V = EventModel;

    open spec fn view(&self) -> EventModel {
        EventModel {
            contract_id: match self.contract_id {
                Some(id) => Some(id@),
                None => None,
            },
            topics: value_models(self.topics@),
            data: self.data@,
        }
    }
}

impl Clone for Event {
    fn clone(&self) -> (r: Self)
        ensures
            r@ == self@,
    {
        let contract_id = match &self.contract_id {
            Some(id) => Some(id.clone()),
            None => None,
        };
        let mut topics: Vec<Value> = Vec::new();
        let mut i: usize = 0;
        while i < self.topics.len()
            invariant
                i <= self.topics.len(),
                topics@.len() == i,
                forall|j: int| 0 <= j < i ==> (#[trigger] topics@[j])@ == self.topics@[j]@,
            decreases self.topics.len() - i,
        {
            topics.push(self.topics[i].clone());
            i += 1;
        }
        proof {
            lemma_value_models(topics@);
            lemma_value_models(self.topics@);
            assert(value_models(topics@) =~= value_models(self.topics@));
        }
        Event { contract_id, topics, data: self.data.clone() }
    }
}

} // verus!
