//! Formatting of primitive values into SCAD literal syntax, and the option
//! lists from which leaf sentences are assembled.

use vstd::prelude::*;
use vstd::string::StringExecFns;

use crate::text::decimal_rep;
use crate::text::decimal_string;
use crate::text::join_comma;
use crate::text::join_comma_spec;
use crate::text::quoted;
use crate::text::quoted_spec;

verus! {

/// Types that can be written as a SCAD value literal.
pub trait ScadDisplay {
    /// The SCAD literal text for this value.
    spec fn repr_spec(&self) -> Seq<char>;

    /// Returns the SCAD literal text for this value.
    fn repr_scad(&self) -> (r: String)
        ensures
            r@ == self.repr_spec(),
    ;
}

impl ScadDisplay for u64 {
    open spec fn repr_spec(&self) -> Seq<char> {
        decimal_rep(*self as nat)
    }

    fn repr_scad(&self) -> (r: String) {
        decimal_string(*self)
    }
}

impl ScadDisplay for usize {
    open spec fn repr_spec(&self) -> Seq<char> {
        decimal_rep(*self as nat)
    }

    fn repr_scad(&self) -> (r: String) {
        decimal_string(*self as u64)
    }
}

impl ScadDisplay for bool {
    open spec fn repr_spec(&self) -> Seq<char> {
        if *self {
            "true"@
        } else {
            "false"@
        }
    }

    fn repr_scad(&self) -> (r: String) {
        if *self {
            "true".to_owned()
        } else {
            "false".to_owned()
        }
    }
}

impl ScadDisplay for String {
    open spec fn repr_spec(&self) -> Seq<char> {
        quoted_spec(self@)
    }

    fn repr_scad(&self) -> (r: String) {
        quoted(self.as_str())
    }
}

/// A bare identifier (or any pre-formatted expression) written to SCAD code
/// as it is, without quoting.
#[derive(Clone, Debug)]
pub struct Identifier(pub String);

impl ScadDisplay for Identifier {
    open spec fn repr_spec(&self) -> Seq<char> {
        self.0@
    }

    fn repr_scad(&self) -> (r: String) {
        self.0.clone()
    }
}

/// The model of a [`ScadOption`]: its texts as character sequences.
pub enum ScadOptionModel {
    /// A positional value.
    Value(Seq<char>),
    /// A `key = value` pair.
    KeyValue(Seq<char>, Seq<char>),
}

/// A single argument of a SCAD sentence: either a bare value or a
/// `key = value` pair, both already formatted.
#[derive(Debug, PartialEq, Eq)]
pub enum ScadOption {
    /// Single value, no key.
    Value(String),
    /// Key-value pair.
    KeyValue((String, String)),
}

impl Clone for ScadOption {
    fn clone(&self) -> (r: Self)
        ensures
            r == *self,
    {
        match self {
            ScadOption::Value(v) => ScadOption::Value(v.clone()),
            ScadOption::KeyValue((k, v)) => ScadOption::KeyValue((k.clone(), v.clone())),
        }
    }
}

impl View for ScadOption {
    type V = ScadOptionModel;

    open spec fn view(&self) -> ScadOptionModel {
        match self {
            ScadOption::Value(v) => ScadOptionModel::Value(v@),
            ScadOption::KeyValue((k, v)) => ScadOptionModel::KeyValue(k@, v@),
        }
    }
}

/// The argument text of one option: the value alone, or `key = value`.
pub open spec fn option_repr_spec(o: ScadOptionModel) -> Seq<char> {
    match o {
        ScadOptionModel::Value(v) => v,
        ScadOptionModel::KeyValue(k, v) => k + " = "@ + v,
    }
}

impl ScadDisplay for ScadOption {
    open spec fn repr_spec(&self) -> Seq<char> {
        option_repr_spec(self@)
    }

    fn repr_scad(&self) -> (r: String) {
        match self {
            ScadOption::Value(v) => v.clone(),
            ScadOption::KeyValue((k, v)) => {
                let mut r = k.clone();
                r.append(" = ");
                r.append(v.as_str());
                proof {
                    assert(r@ =~= option_repr_spec(self@));
                }
                r
            },
        }
    }
}

impl ScadOption {
    /// Creates an option from a key and a value; an empty key makes a bare,
    /// positional value.
    pub fn from_key_value<T: ScadDisplay>(name: &str, value: T) -> (r: Self)
        ensures
            r@ == (if name@.len() == 0 {
                ScadOptionModel::Value(value.repr_spec())
            } else {
                ScadOptionModel::KeyValue(name@, value.repr_spec())
            }),
    {
        if name.is_empty() {
            ScadOption::Value(value.repr_scad())
        } else {
            ScadOption::KeyValue((name.to_owned(), value.repr_scad()))
        }
    }

    /// Creates an option from a key and an optional value; a `None` value
    /// makes no option.  An empty key makes a bare, positional value.
    pub fn from_key_value_option<T: ScadDisplay>(name: &str, value: Option<T>) -> (r: Option<Self>)
        ensures
            match value {
                Some(v) => r matches Some(o) && o@ == (if name@.len() == 0 {
                    ScadOptionModel::Value(v.repr_spec())
                } else {
                    ScadOptionModel::KeyValue(name@, v.repr_spec())
                }),
                None => r is None,
            },
    {
        match value {
            Some(v) => Some(Self::from_key_value(name, v)),
            None => None,
        }
    }
}

/// A SCAD list literal of already-formatted items: brackets around the
/// comma-joined items.
pub open spec fn list_repr_spec(items: Seq<Seq<char>>) -> Seq<char> {
    seq!['['] + join_comma_spec(items) + seq![']']
}

/// Renders pre-formatted values as a SCAD list literal, as used for
/// vectors and points.
pub fn repr_list(items: &Vec<String>) -> (r: String)
    ensures
        r@ == list_repr_spec(items.deep_view()),
{
    let mut r = String::new();
    r.push('[');
    let joined = join_comma(items);
    r.append(joined.as_str());
    r.push(']');
    proof {
        assert(r@ =~= list_repr_spec(items.deep_view()));
    }
    r
}

/// A SCAD matrix literal of already-formatted entries: a list of row
/// lists.
pub open spec fn matrix_repr_spec(rows: Seq<Seq<Seq<char>>>) -> Seq<char> {
    list_repr_spec(rows.map_values(|row: Seq<Seq<char>>| list_repr_spec(row)))
}

/// Renders rows of pre-formatted entries as a SCAD matrix literal.
#[verifier::loop_isolation(false)]
pub fn repr_matrix(rows: &Vec<Vec<String>>) -> (r: String)
    ensures
        r@ == matrix_repr_spec(rows.deep_view()),
{
    let ghost target = rows.deep_view().map_values(|row: Seq<Seq<char>>| list_repr_spec(row));
    let mut row_reprs: Vec<String> = Vec::new();
    let mut i: usize = 0;
    while i < rows.len()
        invariant
            i <= rows@.len(),
            row_reprs.deep_view().len() == i,
            forall|j: int| 0 <= j < i ==> row_reprs.deep_view()[j] == target[j],
        decreases rows@.len() - i,
    {
        let repr = repr_list(&rows[i]);
        row_reprs.push(repr);
        i = i + 1;
    }
    proof {
        assert(row_reprs.deep_view() =~= target);
    }
    repr_list(&row_reprs)
}

/// The rows of the 3x4 affine matrix that embeds a 2x3 planar affine map
/// into space: the third column is zero, and the appended bottom row maps
/// the z axis to itself.
pub open spec fn affine_2d_embedding(m: Seq<Seq<Seq<char>>>) -> Seq<Seq<Seq<char>>> {
    seq![
        seq![m[0][0], m[0][1], "0"@, m[0][2]],
        seq![m[1][0], m[1][1], "0"@, m[1][2]],
        seq!["0"@, "0"@, "1"@, "0"@],
    ]
}

/// Embeds the rows of a 2x3 planar affine matrix, with pre-formatted
/// entries, into the 3x4 affine matrix SCAD expects: a zero third column
/// and a unit bottom row.
pub fn affine_2d_to_3d_rows(m: &Vec<Vec<String>>) -> (r: Vec<Vec<String>>)
    requires
        m.deep_view().len() == 2,
        m.deep_view()[0].len() == 3,
        m.deep_view()[1].len() == 3,
    ensures
        r.deep_view() == affine_2d_embedding(m.deep_view()),
{
    let zero = "0";
    let one = "1";
    let mut row0: Vec<String> = Vec::new();
    row0.push(m[0][0].clone());
    row0.push(m[0][1].clone());
    row0.push(zero.to_owned());
    row0.push(m[0][2].clone());
    let mut row1: Vec<String> = Vec::new();
    row1.push(m[1][0].clone());
    row1.push(m[1][1].clone());
    row1.push(zero.to_owned());
    row1.push(m[1][2].clone());
    let mut row2: Vec<String> = Vec::new();
    row2.push(zero.to_owned());
    row2.push(zero.to_owned());
    row2.push(one.to_owned());
    row2.push(zero.to_owned());
    let mut r: Vec<Vec<String>> = Vec::new();
    r.push(row0);
    r.push(row1);
    r.push(row2);
    proof {
        assert forall|i: int, j: int| 0 <= i < 3 && 0 <= j < 4 implies r.deep_view()[i][j]
            == affine_2d_embedding(m.deep_view())[i][j] by {
            assert(r.deep_view()[i] == r@[i].deep_view());
        }
        assert forall|i: int| 0 <= i < 3 implies r.deep_view()[i] =~= affine_2d_embedding(
            m.deep_view(),
        )[i] by {
            assert(r.deep_view()[i] == r@[i].deep_view());
        }
        assert(r.deep_view() =~= affine_2d_embedding(m.deep_view()));
    }
    r
}

/// The full text of a SCAD sentence: the name, then the comma-separated
/// options in parentheses.
pub open spec fn sentence_repr_spec(name: Seq<char>, opts: Seq<ScadOptionModel>) -> Seq<char> {
    name + seq!['('] + join_comma_spec(opts.map_values(|o: ScadOptionModel| option_repr_spec(o)))
        + seq![')']
}

/// Renders a SCAD sentence: the name followed by the parenthesized,
/// comma-separated option list.
pub fn generate_sentence_repr(name: &str, opts: Vec<ScadOption>) -> (r: String)
    ensures
        r@ == sentence_repr_spec(name@, opts@.map_values(|o: ScadOption| o@)),
{
    let ghost target = opts@.map_values(|o: ScadOption| o@).map_values(
        |o: ScadOptionModel| option_repr_spec(o),
    );
    let mut reprs: Vec<String> = Vec::new();
    let mut i: usize = 0;
    while i < opts.len()
        invariant
            i <= opts@.len(),
            reprs.deep_view().len() == i,
            forall|j: int| 0 <= j < i ==> reprs.deep_view()[j] == target[j],
            target.len() == opts@.len(),
            forall|j: int|
                0 <= j < opts@.len() ==> target[j] == option_repr_spec(#[trigger] opts@[j]@),
        decreases opts@.len() - i,
    {
        let repr = opts[i].repr_scad();
        reprs.push(repr);
        i = i + 1;
    }
    let joined = join_comma(&reprs);
    let mut r = name.to_owned();
    r.push('(');
    r.append(joined.as_str());
    r.push(')');
    proof {
        assert(reprs.deep_view() =~= target);
        assert(r@ =~= sentence_repr_spec(name@, opts@.map_values(|o: ScadOption| o@)));
    }
    r
}

} // verus!
