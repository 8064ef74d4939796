//! Request payloads and response bodies of the store's front ends.
use vstd::prelude::*;

verus! {

/// The text of a boolean.
pub open spec fn bool_text(b: bool) -> Seq<char> {
    if b {
        "true"@
    } else {
        "false"@
    }
}

/// The text of an optional value: the value, or `null`.
pub open spec fn opt_text(v: Option<String>) -> Seq<char> {
    match v {
        Some(s) => s@,
        None => "null"@,
    }
}

fn push_bool(s: &mut String, b: bool)
    ensures
        final(s)@ == old(s)@ + bool_text(b),
{
    if b {
        s.append("true");
    } else {
        s.append("false");
    }
}

fn push_opt(s: &mut String, v: &Option<String>)
    ensures
        final(s)@ == old(s)@ + opt_text(*v),
{
    match v {
        Some(x) => s.append(x.as_str()),
        None => s.append("null"),
    }
}

/// The payload of a set request.
#[derive(Debug, Clone, PartialEq, Eq)]
pub struct SetItem {
    pub key: String,
    pub val: String,
}

impl SetItem {
    /// `{key: K, val: V}`.
    pub fn display(&self) -> (r: String)
        ensures
            r@ == "{key: "@ + self.key@ + ", val: "@ + self.val@ + "}"@,
    {
        let mut s = String::from_str("{key: ");
        s.append(self.key.as_str());
        s.append(", val: ");
        s.append(self.val.as_str());
        s.append("}");
        s
    }
}

/// The payload of a remove request.
#[derive(Debug, Clone, PartialEq, Eq)]
pub struct RmItem {
    pub key: String,
}

impl RmItem {
    /// `{key: K}`.
    pub fn display(&self) -> (r: String)
        ensures
            r@ == "{key: "@ + self.key@ + "}"@,
    {
        let mut s = String::from_str("{key: ");
        s.append(self.key.as_str());
        s.append("}");
        s
    }
}

/// The answer to a get request.
#[derive(Debug, Clone, PartialEq, Eq)]
pub struct GetBody {
    pub found: bool,
    pub val: Option<String>,
}

impl From<(bool, Option<String>)> for GetBody {
    fn from(body: (bool, Option<String>)) -> (r: GetBody) {
        GetBody { found: body.0, val: body.1 }
    }
}

impl vstd::std_specs::convert::FromSpecImpl<(bool, Option<String>)> for GetBody {
    open spec fn obeys_from_spec() -> bool {
        true
    }

    open spec fn from_spec(body: (bool, Option<String>)) -> GetBody {
        GetBody { found: body.0, val: body.1 }
    }
}

impl GetBody {
    /// `{found: B, val: V}`, with `null` for no value.
    pub fn display(&self) -> (r: String)
        ensures
            r@ == "{found: "@ + bool_text(self.found) + ", val: "@ + opt_text(self.val) + "}"@,
    {
        let mut s = String::from_str("{found: ");
        push_bool(&mut s, self.found);
        s.append(", val: ");
        push_opt(&mut s, &self.val);
        s.append("}");
        s
    }
}

/// The answer to a set request.
#[derive(Debug, Clone, PartialEq, Eq)]
pub struct SetBody {
    pub inserted: bool,
    pub ejected_val: Option<String>,
}

impl From<(bool, Option<String>)> for SetBody {
    fn from(body: (bool, Option<String>)) -> (r: SetBody) {
        SetBody { inserted: body.0, ejected_val: body.1 }
    }
}

impl vstd::std_specs::convert::FromSpecImpl<(bool, Option<String>)> for SetBody {
    open spec fn obeys_from_spec() -> bool {
        true
    }

    open spec fn from_spec(body: (bool, Option<String>)) -> SetBody {
        SetBody { inserted: body.0, ejected_val: body.1 }
    }
}

impl SetBody {
    /// `{inserted: B, ejected_val: V}`, with `null` for no value.
    pub fn display(&self) -> (r: String)
        ensures
            r@ == "{inserted: "@ + bool_text(self.inserted) + ", ejected_val: "@ + opt_text(
                self.ejected_val,
            ) + "}"@,
    {
        let mut s = String::from_str("{inserted: ");
        push_bool(&mut s, self.inserted);
        s.append(", ejected_val: ");
        push_opt(&mut s, &self.ejected_val);
        s.append("}");
        s
    }
}

/// The answer to a remove request. `found` follows `removed`: a key is
/// removed exactly when it was found.
#[derive(Debug, Clone, PartialEq, Eq)]
pub struct RmBody {
    pub removed: bool,
    pub found: bool,
    pub ejected_val: Option<String>,
}

impl From<(bool, Option<String>)> for RmBody {
    fn from(body: (bool, Option<String>)) -> (r: RmBody) {
        RmBody { removed: body.0, found: body.0, ejected_val: body.1 }
    }
}

impl vstd::std_specs::convert::FromSpecImpl<(bool, Option<String>)> for RmBody {
    open spec fn obeys_from_spec() -> bool {
        true
    }

    open spec fn from_spec(body: (bool, Option<String>)) -> RmBody {
        RmBody { removed: body.0, found: body.0, ejected_val: body.1 }
    }
}

impl RmBody {
    /// `{removed: B, found: B, ejected_val: V}`, with `null` for no value.
    pub fn display(&self) -> (r: String)
        ensures
            r@ == "{removed: "@ + bool_text(self.removed) + ", found: "@ + bool_text(self.found)
                + ", ejected_val: "@ + opt_text(self.ejected_val) + "}"@,
    {
        let mut s = String::from_str("{removed: ");
        push_bool(&mut s, self.removed);
        s.append(", found: ");
        push_bool(&mut s, self.found);
        s.append(", ejected_val: ");
        push_opt(&mut s, &self.ejected_val);
        s.append("}");
        s
    }
}

} // verus!
