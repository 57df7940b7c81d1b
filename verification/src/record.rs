//! The record: a fixed schema of named fields, and the binding table that a
//! record gives for the fields an expression needs.

use crate::evaluator::{all_literals, is_literal};
use crate::expression::{Decimal, DecimalView, Expression, Term};
use crate::numeral::{is_decimal, is_decimal_text, numeric, numeric_pairs, numeric_tree};
use crate::resolver::all_words;
use crate::table::{
    bind, bindings, distinct_names, empty_table, insert_binding, lemma_bind_keeps_names_distinct,
    lemma_bind_keeps_values, lemma_bound_is_found, lemma_others_are_kept, lookup,
};
use indexmap::IndexMap;
use vstd::prelude::*;
use vstd::string::StringExecFns;

verus! {

/// A position on the globe, each coordinate as decimal text.
#[derive(Debug, Clone, PartialEq)]
pub struct GeoPosition {
    pub latitude: String,
    pub longitude: String,
}

/// A record. In an expression its fields are called `type`, `id`, `key`,
/// `name`, `fullName`, `iataCode`, `locationType`, `country`, `latitude`,
/// `longitude`, `locationId`, `inEurope`, `countryCode`, `coreCountry` and
/// `distance`.
#[derive(Debug, Clone, PartialEq)]
pub struct FakeData {
    pub _type: String,
    pub _id: u32,
    pub key: Option<String>,
    pub name: String,
    pub full_name: String,
    pub iata_airport_code: Option<String>,
    pub location_type: String,
    pub country: String,
    pub geo_position: GeoPosition,
    pub location_id: u32,
    pub in_europe: bool,
    pub country_code: String,
    pub core_country: bool,
    pub distance: Option<Decimal>,
}

/// The names of the fields, in the order of the schema.
pub open spec fn schema() -> Seq<Seq<char>> {
    seq![
        "type"@,
        "id"@,
        "key"@,
        "name"@,
        "fullName"@,
        "iataCode"@,
        "locationType"@,
        "country"@,
        "latitude"@,
        "longitude"@,
        "locationId"@,
        "inEurope"@,
        "countryCode"@,
        "coreCountry"@,
        "distance"@,
    ]
}

/// The names of the fields, in the order of the schema.
pub fn fields() -> (names: Vec<String>)
    ensures
        names.deep_view() == schema(),
{
    let mut names: Vec<String> = Vec::new();
    names.push(String::from_str("type"));
    names.push(String::from_str("id"));
    names.push(String::from_str("key"));
    names.push(String::from_str("name"));
    names.push(String::from_str("fullName"));
    names.push(String::from_str("iataCode"));
    names.push(String::from_str("locationType"));
    names.push(String::from_str("country"));
    names.push(String::from_str("latitude"));
    names.push(String::from_str("longitude"));
    names.push(String::from_str("locationId"));
    names.push(String::from_str("inEurope"));
    names.push(String::from_str("countryCode"));
    names.push(String::from_str("coreCountry"));
    names.push(String::from_str("distance"));
    names
}

/// Every name of the schema can be searched for.
pub proof fn lemma_schema_words()
    ensures
        all_words(schema()),
{
    reveal_strlit("type");
    reveal_strlit("id");
    reveal_strlit("key");
    reveal_strlit("name");
    reveal_strlit("fullName");
    reveal_strlit("iataCode");
    reveal_strlit("locationType");
    reveal_strlit("country");
    reveal_strlit("latitude");
    reveal_strlit("longitude");
    reveal_strlit("locationId");
    reveal_strlit("inEurope");
    reveal_strlit("countryCode");
    reveal_strlit("coreCountry");
    reveal_strlit("distance");
}

/// A text that may be absent: the text, or `null`.
pub open spec fn optional_text(value: Option<String>) -> Term {
    match value {
        Some(text) => Term::Text(text@),
        None => Term::Text("null"@),
    }
}

/// A truth value as text: `true` or `false`.
pub open spec fn truth_text(value: bool) -> Term {
    if value {
        Term::Text("true"@)
    } else {
        Term::Text("false"@)
    }
}

/// A decimal that may be absent: the decimal, or zero.
pub open spec fn optional_decimal(value: Option<Decimal>) -> Term {
    match value {
        Some(d) => Term::Float(d@),
        None => Term::Float(DecimalView::Whole(0)),
    }
}

/// The value of the field of this name, if the schema has the name. An
/// identifier is a number, a coordinate and the distance are decimals, and
/// every other field is a text.
pub open spec fn field_value(record: FakeData, name: Seq<char>) -> Option<Term> {
    if name == "type"@ {
        Some(Term::Text(record._type@))
    } else if name == "id"@ {
        Some(Term::Number(record._id as i64))
    } else if name == "key"@ {
        Some(optional_text(record.key))
    } else if name == "name"@ {
        Some(Term::Text(record.name@))
    } else if name == "fullName"@ {
        Some(Term::Text(record.full_name@))
    } else if name == "iataCode"@ {
        Some(optional_text(record.iata_airport_code))
    } else if name == "locationType"@ {
        Some(Term::Text(record.location_type@))
    } else if name == "country"@ {
        Some(Term::Text(record.country@))
    } else if name == "latitude"@ {
        Some(Term::Float(DecimalView::Literal(record.geo_position.latitude@)))
    } else if name == "longitude"@ {
        Some(Term::Float(DecimalView::Literal(record.geo_position.longitude@)))
    } else if name == "locationId"@ {
        Some(Term::Number(record.location_id as i64))
    } else if name == "inEurope"@ {
        Some(truth_text(record.in_europe))
    } else if name == "countryCode"@ {
        Some(Term::Text(record.country_code@))
    } else if name == "coreCountry"@ {
        Some(truth_text(record.core_country))
    } else if name == "distance"@ {
        Some(optional_decimal(record.distance))
    } else {
        None
    }
}

/// What a requested name binds: a field of the schema binds its value under
/// its name, and any other name binds the text `None` under the name `None`.
pub open spec fn binding_of(record: FakeData, name: Seq<char>) -> (Seq<char>, Term) {
    match field_value(record, name) {
        Some(value) => (name, value),
        None => ("None"@, Term::Text("None"@)),
    }
}

/// The table that the first `count` of the names give, bound one after the
/// other.
pub open spec fn table_among(record: FakeData, names: Seq<Seq<char>>, count: int) -> Seq<
    (Seq<char>, Term),
>
    decreases count,
{
    if count <= 0 {
        Seq::empty()
    } else {
        let binding = binding_of(record, names[count - 1]);
        bind(table_among(record, names, count - 1), binding.0, binding.1)
    }
}

/// The table that a record gives for the names.
pub open spec fn table_of(record: FakeData, names: Seq<Seq<char>>) -> Seq<(Seq<char>, Term)> {
    table_among(record, names, names.len() as int)
}

/// The name `None`, under which a name outside the schema is bound, is
/// itself outside the schema.
proof fn lemma_none_is_no_field(record: FakeData)
    ensures
        field_value(record, "None"@) is None,
{
    reveal_strlit("None");
    reveal_strlit("type");
    reveal_strlit("id");
    reveal_strlit("key");
    reveal_strlit("name");
    reveal_strlit("fullName");
    reveal_strlit("iataCode");
    reveal_strlit("locationType");
    reveal_strlit("country");
    reveal_strlit("latitude");
    reveal_strlit("longitude");
    reveal_strlit("locationId");
    reveal_strlit("inEurope");
    reveal_strlit("countryCode");
    reveal_strlit("coreCountry");
    reveal_strlit("distance");
    // Only `type` and `name` are as long as `None`.
    assert("None"@[0] != "type"@[0]);
    assert("None"@[0] != "name"@[0]);
}

/// A field of the schema that is among the requested names is bound to its
/// value: no constant that names a requested field is unknown.
pub proof fn lemma_requested_field_is_bound(
    record: FakeData,
    names: Seq<Seq<char>>,
    name: Seq<char>,
    count: int,
)
    requires
        0 <= count <= names.len(),
        exists|i: int| 0 <= i < count && names[i] == name,
        field_value(record, name) is Some,
    ensures
        lookup(table_among(record, names, count), name) == field_value(record, name),
    decreases count,
{
    let last = names[count - 1];
    let binding = binding_of(record, last);
    let earlier = table_among(record, names, count - 1);
    if last == name {
        lemma_bound_is_found(earlier, name, binding.1);
    } else {
        lemma_none_is_no_field(record);
        lemma_others_are_kept(earlier, binding.0, binding.1, name);
        lemma_requested_field_is_bound(record, names, name, count - 1);
    }
}

/// In the table of a record no name occurs twice.
pub proof fn lemma_table_names_are_distinct(record: FakeData, names: Seq<Seq<char>>, count: int)
    requires
        count <= names.len(),
    ensures
        distinct_names(table_among(record, names, count)),
    decreases count,
{
    if count > 0 {
        lemma_table_names_are_distinct(record, names, count - 1);
        let binding = binding_of(record, names[count - 1]);
        lemma_bind_keeps_names_distinct(
            table_among(record, names, count - 1),
            binding.0,
            binding.1,
        );
    }
}

/// The table of a record holds literals only.
pub proof fn lemma_table_holds_literals(record: FakeData, names: Seq<Seq<char>>, count: int)
    requires
        count <= names.len(),
    ensures
        all_literals(table_among(record, names, count)),
    decreases count,
{
    if count > 0 {
        lemma_table_holds_literals(record, names, count - 1);
        let binding = binding_of(record, names[count - 1]);
        lemma_bind_keeps_values(
            table_among(record, names, count - 1),
            binding.0,
            binding.1,
            |value: Term| is_literal(value),
        );
    }
}

/// Whether the decimals of a record are numeric: both coordinates write a
/// decimal number, and so does every literal of the distance.
pub open spec fn well_formed(record: FakeData) -> bool {
    &&& is_decimal_text(record.geo_position.latitude@)
    &&& is_decimal_text(record.geo_position.longitude@)
    &&& record.distance matches Some(d) ==> numeric(d@)
}

/// The table of a well-formed record is numeric, whatever names it is built
/// for.
pub proof fn lemma_table_is_numeric(record: FakeData, names: Seq<Seq<char>>, count: int)
    requires
        well_formed(record),
        count <= names.len(),
    ensures
        numeric_pairs(table_among(record, names, count)),
    decreases count,
{
    if count > 0 {
        lemma_table_is_numeric(record, names, count - 1);
        let binding = binding_of(record, names[count - 1]);
        lemma_bind_keeps_values(
            table_among(record, names, count - 1),
            binding.0,
            binding.1,
            |value: Term| numeric_tree(value),
        );
    }
}

fn named(name: &String, literal: &str) -> (b: bool)
    ensures
        b == (name@ == literal@),
{
    *name == String::from_str(literal)
}

fn text_or_null(value: &Option<String>) -> (e: Expression)
    ensures
        e@ == optional_text(*value),
{
    match value {
        Some(text) => Expression::Text(text.clone()),
        None => Expression::Text(String::from_str("null")),
    }
}

fn truth(value: bool) -> (e: Expression)
    ensures
        e@ == truth_text(value),
{
    if value {
        Expression::Text(String::from_str("true"))
    } else {
        Expression::Text(String::from_str("false"))
    }
}

fn decimal_or_zero(value: &Option<Decimal>) -> (e: Expression)
    ensures
        e@ == optional_decimal(*value),
{
    match value {
        Some(d) => Expression::Float(d.clone()),
        None => Expression::Float(Decimal::Whole(0)),
    }
}

impl FakeData {
    /// Whether the decimals of the record are numeric.
    pub fn is_well_formed(&self) -> (b: bool)
        ensures
            b == well_formed(*self),
    {
        is_decimal(self.geo_position.latitude.as_str()) && is_decimal(
            self.geo_position.longitude.as_str(),
        ) && match &self.distance {
            Some(d) => d.is_numeric(),
            None => true,
        }
    }

    /// The value of the field of this name, if the schema has the name.
    pub fn field(&self, name: &String) -> (value: Option<Expression>)
        ensures
            match value {
                Some(e) => field_value(*self, name@) == Some(e@),
                None => field_value(*self, name@) is None,
            },
    {
        if named(name, "type") {
            Some(Expression::Text(self._type.clone()))
        } else if named(name, "id") {
            Some(Expression::Number(self._id as i64))
        } else if named(name, "key") {
            Some(text_or_null(&self.key))
        } else if named(name, "name") {
            Some(Expression::Text(self.name.clone()))
        } else if named(name, "fullName") {
            Some(Expression::Text(self.full_name.clone()))
        } else if named(name, "iataCode") {
            Some(text_or_null(&self.iata_airport_code))
        } else if named(name, "locationType") {
            Some(Expression::Text(self.location_type.clone()))
        } else if named(name, "country") {
            Some(Expression::Text(self.country.clone()))
        } else if named(name, "latitude") {
            Some(Expression::Float(Decimal::Literal(self.geo_position.latitude.clone())))
        } else if named(name, "longitude") {
            Some(Expression::Float(Decimal::Literal(self.geo_position.longitude.clone())))
        } else if named(name, "locationId") {
            Some(Expression::Number(self.location_id as i64))
        } else if named(name, "inEurope") {
            Some(truth(self.in_europe))
        } else if named(name, "countryCode") {
            Some(Expression::Text(self.country_code.clone()))
        } else if named(name, "coreCountry") {
            Some(truth(self.core_country))
        } else if named(name, "distance") {
            Some(decimal_or_zero(&self.distance))
        } else {
            None
        }
    }

    /// Builds the binding table for the names, in their order.
    pub fn get_filtered_indexmap(&self, fields: &Vec<String>) -> (map: IndexMap<String, Expression>)
        ensures
            bindings(map) == table_of(*self, fields.deep_view()),
    {
        let mut map = empty_table();
        let mut at: usize = 0;
        while at < fields.len()
            invariant
                at <= fields.len(),
                bindings(map) == table_among(*self, fields.deep_view(), at as int),
            decreases fields.len() - at,
        {
            match self.field(&fields[at]) {
                Some(value) => {
                    insert_binding(&mut map, fields[at].clone(), value);
                },
                None => {
                    insert_binding(
                        &mut map,
                        String::from_str("None"),
                        Expression::Text(String::from_str("None")),
                    );
                },
            }
            at = at + 1;
        }
        map
    }
}

} // verus!
