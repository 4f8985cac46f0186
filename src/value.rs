use vstd::prelude::*;

verus! {

/// A single cell: a tagged primitive.
///
/// A 64-bit float is held as its decimal text (the form it is displayed and
/// compared in); the engine never computes with it.
#[derive(Debug, PartialEq)]
pub enum Value {
    Str(String),
    Bool(bool),
    Int(i64),
    Float(String),
    Null,
}

/// The character of a decimal digit.
pub open spec fn digit_char(d: nat) -> char {
    if d == 0 { '0' }
    else if d == 1 { '1' }
    else if d == 2 { '2' }
    else if d == 3 { '3' }
    else if d == 4 { '4' }
    else if d == 5 { '5' }
    else if d == 6 { '6' }
    else if d == 7 { '7' }
    else if d == 8 { '8' }
    else { '9' }
}

/// The decimal digits of a natural number, most significant first.
pub open spec fn decimal_digits(n: nat) -> Seq<char>
    decreases n,
{
    if n < 10 {
        seq![digit_char(n)]
    } else {
        decimal_digits(n / 10).push(digit_char(n % 10))
    }
}

/// The decimal text of an integer, with a leading `-` when negative.
pub open spec fn decimal_text(i: int) -> Seq<char> {
    if i < 0 {
        seq!['-'] + decimal_digits((-i) as nat)
    } else {
        decimal_digits(i as nat)
    }
}

pub open spec fn bool_text(b: bool) -> Seq<char> {
    if b {
        seq!['t', 'r', 'u', 'e']
    } else {
        seq!['f', 'a', 'l', 's', 'e']
    }
}

/// Relies on `i64`'s `Display` (through `ToString`): the decimal form, with a
/// leading `-` for negative numbers.
#[verifier::external_body]
fn int_to_text(i: i64) -> (r: String)
    ensures
        r@ == decimal_text(i as int),
{
    i.to_string()
}

impl Value {
    /// The textual form of a value; `None` for `Null`.
    pub open spec fn text(self) -> Option<Seq<char>> {
        match self {
            Value::Str(s) => Some(s@),
            Value::Bool(b) => Some(bool_text(b)),
            Value::Int(i) => Some(decimal_text(i as int)),
            Value::Float(f) => Some(f@),
            Value::Null => None,
        }
    }

    /// The string projection used for comparisons: the text, or the empty
    /// string for `Null`.
    pub open spec fn projection(self) -> Seq<char> {
        match self.text() {
            Some(t) => t,
            None => Seq::empty(),
        }
    }

    /// Returns the value as a string: `None` only for `Null`.
    pub fn as_string(&self) -> (r: Option<String>)
        ensures
            r matches Some(s) ==> self.text() == Some(s@),
            r is None ==> self.text() is None,
    {
        match self {
            Value::Str(s) => Some(s.clone()),
            Value::Bool(b) => {
                if *b {
                    let t = String::from_str("true");
                    proof {
                        reveal_strlit("true");
                    }
                    Some(t)
                } else {
                    let t = String::from_str("false");
                    proof {
                        reveal_strlit("false");
                    }
                    Some(t)
                }
            },
            Value::Int(i) => Some(int_to_text(*i)),
            Value::Float(f) => Some(f.clone()),
            Value::Null => None,
        }
    }

    /// The string projection of the value: its text, or `""` for `Null`.
    pub fn projection_string(&self) -> (r: String)
        ensures
            r@ == self.projection(),
    {
        match self.as_string() {
            Some(s) => s,
            None => String::new(),
        }
    }
}

impl Clone for Value {
    fn clone(&self) -> (r: Self)
        ensures
            r == *self,
    {
        match self {
            Value::Str(s) => Value::Str(s.clone()),
            Value::Bool(b) => Value::Bool(*b),
            Value::Int(i) => Value::Int(*i),
            Value::Float(f) => Value::Float(f.clone()),
            Value::Null => Value::Null,
        }
    }
}

impl From<String> for Value {
    fn from(value: String) -> (r: Value)
        ensures
            r == Value::Str(value),
    {
        Value::Str(value)
    }
}

impl vstd::std_specs::convert::FromSpecImpl<String> for Value {
    open spec fn obeys_from_spec() -> bool {
        true
    }

    open spec fn from_spec(v: String) -> Value {
        Value::Str(v)
    }
}

impl From<bool> for Value {
    fn from(value: bool) -> (r: Value)
        ensures
            r == Value::Bool(value),
    {
        Value::Bool(value)
    }
}

impl vstd::std_specs::convert::FromSpecImpl<bool> for Value {
    open spec fn obeys_from_spec() -> bool {
        true
    }

    open spec fn from_spec(v: bool) -> Value {
        Value::Bool(v)
    }
}

impl From<i64> for Value {
    fn from(value: i64) -> (r: Value)
        ensures
            r == Value::Int(value),
    {
        Value::Int(value)
    }
}

impl vstd::std_specs::convert::FromSpecImpl<i64> for Value {
    open spec fn obeys_from_spec() -> bool {
        true
    }

    open spec fn from_spec(v: i64) -> Value {
        Value::Int(v)
    }
}

impl Value {
    /// A string value, or `Null` when there is no string.
    pub fn from_optional(value: Option<&str>) -> (r: Value)
        ensures
            match value {
                Some(s) => r matches Value::Str(t) && t@ == s@,
                None => r == Value::Null,
            },
    {
        match value {
            Some(s) => Value::Str(String::from_str(s)),
            None => Value::Null,
        }
    }
}

} // verus!
