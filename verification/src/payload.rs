//! The decoded event record and parameter lookup.

use vstd::prelude::*;
use crate::text::str_eq;

verus! {

/// One named argument attached to an event.  `required` is descriptive
/// metadata only; the core never enforces it.
#[derive(Debug)]
pub struct Parameter {
    pub name: String,
    pub description: Option<String>,
    pub required: bool,
    pub value: String,
}

/// A decoded event record.  Parameter names need not be unique;
/// lookup uses the first match in declaration order.
#[derive(Debug)]
pub struct MessagePayload {
    pub timestamp: String,
    pub action: String,
    pub text: String,
    pub description: String,
    pub parameters: Vec<Parameter>,
}

/// Mathematical model of a `Parameter`.
pub ghost struct ParamView {
    pub name: Seq<char>,
    pub description: Option<Seq<char>>,
    pub required: bool,
    pub value: Seq<char>,
}

/// Mathematical model of a `MessagePayload`.
pub ghost struct EventView {
    pub timestamp: Seq<char>,
    pub action: Seq<char>,
    pub text: Seq<char>,
    pub description: Seq<char>,
    pub parameters: Seq<ParamView>,
}

impl View for Parameter {
    type V = ParamView;

    open spec fn view(&self) -> ParamView {
        ParamView {
            name: self.name@,
            description: match self.description {
                Some(ref d) => Some(d@),
                None => None,
            },
            required: self.required,
            value: self.value@,
        }
    }
}

impl View for MessagePayload {
    type V = EventView;

    open spec fn view(&self) -> EventView {
        EventView {
            timestamp: self.timestamp@,
            action: self.action@,
            text: self.text@,
            description: self.description@,
            parameters: self.parameters@.map_values(|p: Parameter| p@),
        }
    }
}

/// The value of the first parameter named `name`, if any.
pub open spec fn find_param(ps: Seq<ParamView>, name: Seq<char>) -> Option<Seq<char>>
    decreases ps.len(),
{
    if ps.len() == 0 {
        None
    } else if ps[0].name == name {
        Some(ps[0].value)
    } else {
        find_param(ps.drop_first(), name)
    }
}

impl MessagePayload {
    /// The value of the first parameter whose name equals `name`.
    pub fn get_parameter_value(&self, name: &str) -> (r: Option<String>)
        ensures
            match r {
                Some(v) => find_param(self@.parameters, name@) == Some(v@),
                None => find_param(self@.parameters, name@) is None,
            },
    {
        let ghost ps = self@.parameters;
        let n = self.parameters.len();
        assert(ps.skip(0) =~= ps);
        let mut i: usize = 0;
        while i < n
            invariant
                n == self.parameters.len(),
                ps == self@.parameters,
                ps.len() == n,
                i <= n,
                find_param(ps, name@) == find_param(ps.skip(i as int), name@),
            decreases n - i,
        {
            assert(ps.skip(i as int)[0] == ps[i as int]);
            if str_eq(self.parameters[i].name.as_str(), name) {
                return Some(self.parameters[i].value.clone());
            }
            assert(ps.skip(i as int).drop_first() =~= ps.skip(i + 1));
            i += 1;
        }
        assert(ps.skip(n as int) =~= Seq::<ParamView>::empty());
        None
    }
}

} // verus!

