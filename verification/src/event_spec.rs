//! Event specs: the declared shape of one class of events.

use vstd::prelude::*;

use crate::type_decl::TypeDecl;

verus! {

/// Where a declared parameter's value is read from.
#[derive(Clone, Copy, Debug, PartialEq, Eq)]
pub enum ParamLocation {
    /// From the topics that follow the prefix, one topic per such parameter.
    TopicList,
    /// From the payload, in the way the spec's data format says.
    Data,
}

/// The shape of the payload when at least one parameter is read from it.
#[derive(Clone, Copy, Debug, PartialEq, Eq)]
pub enum DataFormat {
    /// The payload is the value of the one data parameter.
    SingleValue,
    /// The payload is a vector; data parameters take its items by position.
    Vec,
    /// The payload is a mapping; data parameters take its entries by name.
    Mapping,
}

/// One declared parameter of an event spec.
#[derive(Debug, PartialEq, Eq)]
pub struct SpecParam {
    pub name: String,
    pub type_: TypeDecl,
    pub location: ParamLocation,
}

/// The declared shape of one class of events.
///
/// Parameters keep their declaration order: it is the order of projection and,
/// among data parameters under the vector format, the order of positions.
#[derive(Debug, PartialEq, Eq)]
pub struct EventSpec {
    pub name: String,
    /// The name tokens that the leading topics of a matching event must spell.
    pub prefix_topics: Vec<String>,
    pub params: Vec<SpecParam>,
    pub data_format: DataFormat,
}

/// The mathematical model of a [`SpecParam`].
pub struct ParamModel {
    pub name: Seq<char>,
    pub type_: TypeDecl,
    pub location: ParamLocation,
}

/// The mathematical model of an [`EventSpec`].
pub struct SpecModel {
    pub name: Seq<char>,
    pub prefix_topics: Seq<Seq<char>>,
    pub params: Seq<ParamModel>,
    pub data_format: DataFormat,
}

impl View for SpecParam {
    type V = ParamModel;

    open spec fn view(&self) -> ParamModel {
        ParamModel { name: self.name@, type_: self.type_, location: self.location }
    }
}

/// The models of a sequence of parameters, position by position.
pub open spec fn param_models(params: Seq<SpecParam>) -> Seq<ParamModel> {
    params.map_values(|p: SpecParam| p@)
}

/// The character sequences of a sequence of strings, position by position.
pub open spec fn string_models(strings: Seq<String>) -> Seq<Seq<char>> {
    strings.map_values(|s: String| s@)
}

impl View for EventSpec {
    type V = SpecModel;

    open spec fn view(&self) -> SpecModel {
        SpecModel {
            name: self.name@,
            prefix_topics: string_models(self.prefix_topics@),
            params: param_models(self.params@),
            data_format: self.data_format,
        }
    }
}

impl Clone for SpecParam {
    fn clone(&self) -> (r: Self)
        ensures
            r@ == self@,
    {
        SpecParam { name: self.name.clone(), type_: self.type_.clone(), location: self.location }
    }
}

impl Clone for EventSpec {
    fn clone(&self) -> (r: Self)
        ensures
            r@ == self@,
    {
        let mut prefix_topics: Vec<String> = Vec::new();
        let mut i: usize = 0;
        while i < self.prefix_topics.len()
            invariant
                i <= self.prefix_topics.len(),
                prefix_topics@.len() == i,
                forall|j: int|
                    0 <= j < i ==> (#[trigger] prefix_topics@[j])@ == self.prefix_topics@[j]@,
            decreases self.prefix_topics.len() - i,
        {
            prefix_topics.push(self.prefix_topics[i].clone());
            i += 1;
        }
        let mut params: Vec<SpecParam> = Vec::new();
        let mut k: usize = 0;
        while k < self.params.len()
            invariant
                k <= self.params.len(),
                params@.len() == k,
                forall|j: int| 0 <= j < k ==> (#[trigger] params@[j])@ == self.params@[j]@,
            decreases self.params.len() - k,
        {
            params.push(self.params[k].clone());
            k += 1;
        }
        assert(string_models(prefix_topics@) =~= string_models(self.prefix_topics@));
        assert(param_models(params@) =~= param_models(self.params@));
        EventSpec { name: self.name.clone(), prefix_topics, params, data_format: self.data_format }
    }
}

} // verus!
