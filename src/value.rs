use vstd::prelude::*;

verus! {

/// What a stored value is, as a mathematical object.
pub enum ValueModel {
    /// A single string.
    Text(Seq<char>),
    /// An ordered sequence of strings.
    List(Seq<Seq<char>>),
    /// Key/value pairs, in order.
    Pairs(Seq<(Seq<char>, Seq<char>)>),
}

/// A value held by the store.
pub enum Value {
    String(String),
    VecStr(Vec<String>),
    Hash(Vec<(String, String)>),
}

/// The characters of each string.
pub open spec fn strings_view(v: Seq<String>) -> Seq<Seq<char>> {
    v.map_values(|s: String| s@)
}

/// The characters of each key and value.
pub open spec fn pairs_view(v: Seq<(String, String)>) -> Seq<(Seq<char>, Seq<char>)> {
    v.map_values(|p: (String, String)| (p.0@, p.1@))
}

impl View for Value {
    type V = ValueModel;

    open spec fn view(&self) -> ValueModel {
        match self {
            Value::String(s) => ValueModel::Text(s@),
            Value::VecStr(v) => ValueModel::List(strings_view(v@)),
            Value::Hash(h) => ValueModel::Pairs(pairs_view(h@)),
        }
    }
}

impl Value {
    /// A copy of this value.
    pub fn duplicate(&self) -> (r: Value)
        ensures
            r@ == self@,
    {
        match self {
            Value::String(s) => Value::String(s.clone()),
            Value::VecStr(v) => {
                let c = v.clone();
                assert(strings_view(c@) =~= strings_view(v@));
                Value::VecStr(c)
            },
            Value::Hash(h) => {
                let mut c: Vec<(String, String)> = Vec::new();
                for i in 0..h.len()
                    invariant
                        c@.len() == i,
                        forall|j: int| 0 <= j < i ==> c@[j].0@ == h@[j].0@ && c@[j].1@ == h@[j].1@,
                {
                    c.push((h[i].0.clone(), h[i].1.clone()));
                }
                assert(pairs_view(c@) =~= pairs_view(h@));
                Value::Hash(c)
            },
        }
    }
}

} // verus!
