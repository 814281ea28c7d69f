use vstd::prelude::*;
use vstd::hash_map::StringHashMap;

verus! {

#[derive(Debug)]
pub enum Value {
    String(String),
    Array(Vec<String>),
}

impl Value {
    /// A copy of the value.
    pub fn duplicate(&self) -> (r: Value)
        ensures
            r.spec_str() == self.spec_str(),
            r is String <==> self is String,
            r is String ==> r->String_0@ == self->String_0@,
    {
        match self {
            Value::String(s) => Value::String(s.clone()),
            Value::Array(elems) => {
                let mut v: Vec<String> = Vec::new();
                let mut i: usize = 0;
                while i < elems.len()
                    invariant
                        i <= elems@.len(),
                        v@.len() == i,
                        forall|k: int| 0 <= k < i ==> v@[k]@ == elems@[k]@,
                    decreases elems@.len() - i,
                {
                    v.push(elems[i].clone());
                    i += 1;
                }
                Value::Array(v)
            },
        }
    }

    /// The value read as a string: an array reads as its first element, or empty.
    pub open spec fn spec_str(&self) -> Seq<char> {
        match self {
            Value::String(s) => s@,
            Value::Array(elems) => if elems@.len() > 0 {
                elems@[0]@
            } else {
                Seq::empty()
            },
        }
    }
}

#[derive(Debug)]
pub struct Variable {
    /// The inner value. `None` represents *null*.
    value: Option<Value>,
}

impl Variable {
    pub closed spec fn spec_value(&self) -> Option<Value> {
        self.value
    }

    /// What `as_str` gives: null reads as the empty string.
    pub open spec fn spec_str(&self) -> Seq<char> {
        match self.spec_value() {
            Some(v) => v.spec_str(),
            None => Seq::empty(),
        }
    }

    pub fn new(value: Option<Value>) -> (r: Variable)
        ensures
            r.spec_value() == value,
    {
        Variable { value }
    }

    pub fn value(&self) -> (r: &Option<Value>)
        ensures
            *r == self.spec_value(),
    {
        &self.value
    }

    pub fn as_str(&self) -> (r: &str)
        ensures
            r@ == self.spec_str(),
    {
        match &self.value {
            Some(Value::String(value)) => value.as_str(),
            Some(Value::Array(elems)) => {
                if elems.len() > 0 {
                    elems[0].as_str()
                } else {
                    proof {
                        reveal_strlit("");
                    }
                    ""
                }
            },
            None => {
                proof {
                    reveal_strlit("");
                }
                ""
            },
        }
    }
}

/// One scope of variables.
pub struct Frame {
    /// key: variable name, value: variable.
    vars: StringHashMap<Variable>,
}

impl Frame {
    pub closed spec fn spec_vars(&self) -> Map<Seq<char>, Variable> {
        self.vars@
    }

    pub fn new() -> (r: Frame)
        ensures
            r.spec_vars() == Map::<Seq<char>, Variable>::empty(),
    {
        Frame { vars: StringHashMap::new() }
    }

    pub fn get(&self, key: &str) -> (r: Option<&Variable>)
        ensures
            match r {
                Some(v) => self.spec_vars().contains_key(key@) && *v == self.spec_vars()[key@],
                None => !self.spec_vars().contains_key(key@),
            },
    {
        self.vars.get(key)
    }

    pub fn set(&mut self, key: &str, value: Value)
        ensures
            final(self).spec_vars().contains_key(key@),
            final(self).spec_vars()[key@].spec_value() == Some(value),
            final(self).spec_vars() == old(self).spec_vars().insert(key@, final(self).spec_vars()[key@]),
    {
        self.vars.insert(key.to_owned(), Variable::new(Some(value)));
    }
}

} // verus!
