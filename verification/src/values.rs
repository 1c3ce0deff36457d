//! Values flowing along graph edges, and the named-value mappings that
//! operations consume and produce. A `ValueMap` is modelled as the
//! mathematical map from names to values in which a later binding for a name
//! shadows an earlier one.

use vstd::prelude::*;

verus! {

/// An opaque node value: what an operation reads from its inputs and writes
/// to its outputs. The evaluator moves these around without interpreting
/// them.
#[derive(Clone, Debug, PartialEq, Eq)]
pub enum BlackjackValue {
    Int(i64),
    Text(String),
}

impl BlackjackValue {
    /// An explicit copy, proved to equal the original.
    pub fn dup(&self) -> (r: Self)
        ensures
            r == *self,
    {
        match self {
            BlackjackValue::Int(i) => BlackjackValue::Int(*i),
            BlackjackValue::Text(s) => BlackjackValue::Text(s.clone()),
        }
    }
}

/// The map described by an association list, later entries shadowing earlier
/// ones.
pub open spec fn assoc_value_map(s: Seq<(String, BlackjackValue)>) -> Map<
    Seq<char>,
    BlackjackValue,
>
    decreases s.len(),
{
    if s.len() == 0 {
        Map::empty()
    } else {
        assoc_value_map(s.drop_last()).insert(s.last().0@, s.last().1)
    }
}

/// A mapping from names to values: the input map handed to an operation, or
/// the output map one produces.
#[derive(Clone, Debug)]
pub struct ValueMap {
    entries: Vec<(String, BlackjackValue)>,
}

impl View for ValueMap {
    type V = Map<Seq<char>, BlackjackValue>;

    closed spec fn view(&self) -> Map<Seq<char>, BlackjackValue> {
        assoc_value_map(self.entries@)
    }
}

impl ValueMap {
    pub fn new() -> (r: Self)
        ensures
            r@ == Map::<Seq<char>, BlackjackValue>::empty(),
    {
        ValueMap { entries: Vec::new() }
    }

    /// Binds `name` to `value`, shadowing any earlier binding of `name`.
    pub fn insert(&mut self, name: String, value: BlackjackValue)
        ensures
            final(self)@ == old(self)@.insert(name@, value),
    {
        let ghost before = self.entries@;
        self.entries.push((name, value));
        proof {
            assert(self.entries@.drop_last() =~= before);
        }
    }

    /// Looks the most recent binding of `name` up.
    pub fn get(&self, name: &String) -> (r: Option<&BlackjackValue>)
        ensures
            match r {
                Some(v) => self@.contains_key(name@) && *v == self@[name@],
                None => !self@.contains_key(name@),
            },
    {
        let mut i: usize = self.entries.len();
        proof {
            assert(self.entries@.take(i as int) =~= self.entries@);
        }
        while i > 0
            invariant
                i <= self.entries@.len(),
                self@.contains_key(name@) == assoc_value_map(
                    self.entries@.take(i as int),
                ).contains_key(name@),
                assoc_value_map(self.entries@.take(i as int)).contains_key(name@)
                    ==> assoc_value_map(self.entries@.take(i as int))[name@] == self@[name@],
            decreases i,
        {
            proof {
                assert(self.entries@.take(i as int).drop_last() =~= self.entries@.take(i - 1));
                assert(self.entries@.take(i as int).last() == self.entries@[i - 1]);
            }
            if self.entries[i - 1].0 == *name {
                return Some(&self.entries[i - 1].1);
            }
            i = i - 1;
        }
        proof {
            assert(self.entries@.take(0) =~= Seq::<(String, BlackjackValue)>::empty());
        }
        None
    }

    /// An explicit copy whose model equals the original's.
    pub fn dup(&self) -> (r: Self)
        ensures
            r@ == self@,
    {
        let mut entries: Vec<(String, BlackjackValue)> = Vec::new();
        let mut i: usize = 0;
        while i < self.entries.len()
            invariant
                i <= self.entries@.len(),
                entries@ =~= self.entries@.take(i as int),
            decreases self.entries@.len() - i,
        {
            let (name, value) = &self.entries[i];
            entries.push((name.clone(), value.dup()));
            proof {
                assert(entries@ =~= self.entries@.take(i + 1));
            }
            i = i + 1;
        }
        proof {
            assert(self.entries@.take(self.entries@.len() as int) =~= self.entries@);
        }
        ValueMap { entries }
    }
}

} // verus!
