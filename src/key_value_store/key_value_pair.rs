use crate::proto::PairView;
use vstd::prelude::*;
use vstd::string::*;

verus! {

/// A key and its value, as the store hands them out.
#[derive(Debug, Clone)]
pub struct KeyValuePair {
    key_: String,
    value_: String,
}

impl View for KeyValuePair {
    type V = PairView;

    closed spec fn view(&self) -> PairView {
        (self.key_@, self.value_@)
    }
}

impl KeyValuePair {
    pub fn new(k: &str, v: &str) -> (r: KeyValuePair)
        ensures
            r@ == (k@, v@),
    {
        KeyValuePair { key_: String::from_str(k), value_: String::from_str(v) }
    }

    pub fn key(&self) -> (r: &str)
        ensures
            r@ == self@.0,
    {
        self.key_.as_str()
    }

    pub fn value(&self) -> (r: &str)
        ensures
            r@ == self@.1,
    {
        self.value_.as_str()
    }

    pub fn has_key(&self, k: &String) -> (r: bool)
        ensures
            r == (self@.0 == k@),
    {
        self.key_.eq(k)
    }

    pub fn update_value(&mut self, new_val: &str)
        ensures
            final(self)@ == (old(self)@.0, new_val@),
    {
        self.value_ = String::from_str(new_val);
    }
}

impl PartialEq for KeyValuePair {
    fn eq(&self, other: &KeyValuePair) -> (r: bool) {
        self.key_ == other.key_ && self.value_ == other.value_
    }
}

impl vstd::std_specs::cmp::PartialEqSpecImpl for KeyValuePair {
    open spec fn obeys_eq_spec() -> bool {
        true
    }

    open spec fn eq_spec(&self, other: &KeyValuePair) -> bool {
        self@ == other@
    }
}

} // verus!
