//! The binding table: an insertion-ordered map from field names to values.
//!
//! The table is an `indexmap::IndexMap`. Verus does not read that crate, so
//! what the table holds is a named sequence of pairs, and each method that the
//! library calls is reached through a wrapper whose contract is taken on
//! trust from the crate's documentation.

use crate::expression::{Expression, Term};
use indexmap::IndexMap;
use vstd::prelude::*;

verus! {

/// `indexmap::IndexMap`, of which the verifier sees nothing but the name.
#[verifier::external_type_specification]
#[verifier::external_body]
#[verifier::reject_recursive_types(K)]
#[verifier::reject_recursive_types(V)]
#[verifier::reject_recursive_types(S)]
pub struct ExIndexMap<K, V, S>(IndexMap<K, V, S>);

/// The pairs of name and value that a table holds, in the table's order:
/// the order in which the names were first inserted.
pub uninterp spec fn bindings(table: IndexMap<String, Expression>) -> Seq<(Seq<char>, Term)>;

/// The value bound to `name`: that of the first pair with this name.
pub open spec fn lookup(pairs: Seq<(Seq<char>, Term)>, name: Seq<char>) -> Option<Term>
    decreases pairs.len(),
{
    if pairs.len() == 0 {
        None
    } else if pairs[0].0 == name {
        Some(pairs[0].1)
    } else {
        lookup(pairs.drop_first(), name)
    }
}

/// The pairs after `name` has been bound to `value`: a pair with this name
/// keeps its place and takes the new value, otherwise the pair comes last.
pub open spec fn bind(pairs: Seq<(Seq<char>, Term)>, name: Seq<char>, value: Term) -> Seq<
    (Seq<char>, Term),
>
    decreases pairs.len(),
{
    if pairs.len() == 0 {
        seq![(name, value)]
    } else if pairs[0].0 == name {
        seq![(name, value)] + pairs.drop_first()
    } else {
        seq![pairs[0]] + bind(pairs.drop_first(), name, value)
    }
}

/// No name occurs twice.
pub open spec fn distinct_names(pairs: Seq<(Seq<char>, Term)>) -> bool {
    forall|i: int, j: int|
        0 <= i < j < pairs.len() ==> (#[trigger] pairs[i]).0 != (#[trigger] pairs[j]).0
}

/// Whether every value that the pairs hold is as `good` asks.
pub open spec fn all_values(pairs: Seq<(Seq<char>, Term)>, good: spec_fn(Term) -> bool) -> bool {
    forall|i: int| 0 <= i < pairs.len() ==> good((#[trigger] pairs[i]).1)
}

/// What a table binds to a name is one of the values it holds.
pub proof fn lemma_found_is_held(
    pairs: Seq<(Seq<char>, Term)>,
    name: Seq<char>,
    good: spec_fn(Term) -> bool,
)
    requires
        all_values(pairs, good),
    ensures
        lookup(pairs, name) matches Some(value) ==> good(value),
    decreases pairs.len(),
{
    if pairs.len() > 0 && pairs[0].0 != name {
        let rest = pairs.drop_first();
        assert(all_values(rest, good));
        lemma_found_is_held(rest, name, good);
    }
}

/// After binding, a table holds the bound value and values it held before.
pub proof fn lemma_bind_keeps_values(
    pairs: Seq<(Seq<char>, Term)>,
    name: Seq<char>,
    value: Term,
    good: spec_fn(Term) -> bool,
)
    requires
        all_values(pairs, good),
        good(value),
    ensures
        all_values(bind(pairs, name, value), good),
    decreases pairs.len(),
{
    if pairs.len() > 0 && pairs[0].0 != name {
        let rest = pairs.drop_first();
        assert(all_values(rest, good));
        lemma_bind_keeps_values(rest, name, value, good);
    }
}

/// After a name has been bound, the table gives its value for the name.
pub proof fn lemma_bound_is_found(pairs: Seq<(Seq<char>, Term)>, name: Seq<char>, value: Term)
    ensures
        lookup(bind(pairs, name, value), name) == Some(value),
    decreases pairs.len(),
{
    if pairs.len() > 0 && pairs[0].0 != name {
        let rest = bind(pairs.drop_first(), name, value);
        lemma_bound_is_found(pairs.drop_first(), name, value);
        assert((seq![pairs[0]] + rest).drop_first() =~= rest);
    }
}

/// Binding a name leaves every other name as it was.
pub proof fn lemma_others_are_kept(
    pairs: Seq<(Seq<char>, Term)>,
    name: Seq<char>,
    value: Term,
    other: Seq<char>,
)
    requires
        other != name,
    ensures
        lookup(bind(pairs, name, value), other) == lookup(pairs, other),
    decreases pairs.len(),
{
    if pairs.len() == 0 {
        assert(seq![(name, value)].drop_first() =~= pairs);
    } else if pairs[0].0 == name {
        assert((seq![(name, value)] + pairs.drop_first()).drop_first() =~= pairs.drop_first());
    } else {
        let rest = bind(pairs.drop_first(), name, value);
        lemma_others_are_kept(pairs.drop_first(), name, value, other);
        assert((seq![pairs[0]] + rest).drop_first() =~= rest);
    }
}

/// Binding keeps the names apart: a table in which no name occurs twice
/// stays one, and the bound name is in it.
pub proof fn lemma_bind_keeps_names_distinct(
    pairs: Seq<(Seq<char>, Term)>,
    name: Seq<char>,
    value: Term,
)
    requires
        distinct_names(pairs),
    ensures
        distinct_names(bind(pairs, name, value)),
        forall|i: int|
            0 <= i < bind(pairs, name, value).len() ==> (#[trigger] bind(pairs, name, value)[i]).0
                == name || exists|j: int|
                0 <= j < pairs.len() && (#[trigger] pairs[j]).0 == bind(pairs, name, value)[i].0,
    decreases pairs.len(),
{
    if pairs.len() > 0 && pairs[0].0 != name {
        let rest = pairs.drop_first();
        assert(distinct_names(rest));
        lemma_bind_keeps_names_distinct(rest, name, value);
    }
}

/// `IndexMap::new`: the new table holds nothing.
#[verifier::external_body]
pub(crate) fn empty_table() -> (table: IndexMap<String, Expression>)
    ensures
        bindings(table) == Seq::<(Seq<char>, Term)>::empty(),
{
    IndexMap::new()
}

/// `IndexMap::insert`: a name already in the table keeps its place and takes
/// the new value, and the value it had is returned; a new name is added last,
/// and nothing is returned.
#[verifier::external_body]
pub(crate) fn insert_binding(
    table: &mut IndexMap<String, Expression>,
    name: String,
    value: Expression,
) -> (previous: Option<Expression>)
    ensures
        bindings(*final(table)) == bind(bindings(*old(table)), name@, value@),
        match previous {
            Some(e) => lookup(bindings(*old(table)), name@) == Some(e@),
            None => lookup(bindings(*old(table)), name@) is None,
        },
{
    table.insert(name, value)
}

/// `IndexMap::get`: the value stored for the name, if the table has the name.
#[verifier::external_body]
pub(crate) fn get_binding<'a>(table: &'a IndexMap<String, Expression>, name: &str) -> (found:
    Option<&'a Expression>)
    ensures
        match found {
            Some(e) => lookup(bindings(*table), name@) == Some(e@),
            None => lookup(bindings(*table), name@) is None,
        },
{
    table.get(name)
}

} // verus!
