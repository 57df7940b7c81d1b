//! The resolver and the parser agree: a name that a well-formed expression
//! uses as a constant stands in its text as a whole word. So the table that
//! is built for a list of ASCII texts binds every field that they mention,
//! and no constant that names a field is unknown. (In a text with other
//! characters the search for whole words is the `regex` crate's alone, and
//! nothing is proved of it.) It follows that to bind only the fields that
//! the texts refer to changes nothing: the cells are those that the table
//! of every field gives.

use crate::compute::{cells_among, Fault};
use crate::evaluator::{evaluation, Failure};
use crate::expression::Term;
use crate::lexer::{
    is_name_part, is_name_start, is_space, lemma_name_end, lemma_quote_found, token_at, tokens,
    tokens_from, Lexeme, ParseError,
};
use crate::parser::{
    additive, enclosed, joined, multiplicative, operand, parse, product, product_tail, sum,
    sum_tail, syntax,
};
use crate::record::{
    binding_of, field_value, lemma_requested_field_is_bound, schema, table_among, table_of,
    FakeData,
};
use crate::resolver::{
    is_ascii_text, lemma_referred_is_required, lemma_required_is_referred, occurs_as_word,
    required, stands_at,
};
use crate::table::{lemma_others_are_kept, lookup};
use vstd::prelude::*;

verus! {

/// Whether the name occurs in the tree as a constant.
pub open spec fn mentions(term: Term, name: Seq<char>) -> bool
    decreases term,
{
    match term {
        Term::Constant(n) => n == name,
        Term::Number(_) | Term::Float(_) | Term::Text(_) => false,
        Term::Negate(inner) => mentions(*inner, name),
        Term::Parenthesis(inner) => mentions(*inner, name),
        Term::Call(_, argument) => mentions(*argument, name),
        Term::BinOp(_, left, right) => mentions(*left, name) || mentions(*right, name),
    }
}

/// Whether the token at `k` comes directly after a number or a decimal.
pub open spec fn follows_number(ts: Seq<Lexeme>, k: int) -> bool {
    0 < k <= ts.len() && (ts[k - 1] is Number || ts[k - 1] is Decimal)
}

/// Whether an identifier that starts at `at` would start a word there.
pub open spec fn word_may_start(s: Seq<char>, at: int) -> bool {
    at <= 0 || at >= s.len() || !is_name_part(s[at - 1]) || !is_name_start(s[at])
}

/// An unknown constant is a constant of the tree that the table lacks.
pub proof fn lemma_unknown_is_mentioned(term: Term, pairs: Seq<(Seq<char>, Term)>, name: Seq<char>)
    requires
        evaluation(term, pairs) == Err::<Term, Failure>(Failure::UnknownConstant(name)),
    ensures
        mentions(term, name),
        lookup(pairs, name) is None,
    decreases term,
{
    match term {
        Term::Number(_) | Term::Float(_) | Term::Text(_) => {},
        Term::Constant(_) => {},
        Term::Parenthesis(inner) => {
            lemma_unknown_is_mentioned(*inner, pairs, name);
        },
        Term::Negate(inner) => {
            if evaluation(*inner, pairs) is Err {
                lemma_unknown_is_mentioned(*inner, pairs, name);
            }
        },
        Term::Call(_, argument) => {
            if evaluation(*argument, pairs) is Err {
                lemma_unknown_is_mentioned(*argument, pairs, name);
            }
        },
        Term::BinOp(_, left, right) => {
            if evaluation(*left, pairs) is Err {
                lemma_unknown_is_mentioned(*left, pairs, name);
            } else if evaluation(*right, pairs) is Err {
                lemma_unknown_is_mentioned(*right, pairs, name);
            }
        },
    }
}

/// The name token behind a constant inside parentheses.
proof fn lemma_enclosed_names(ts: Seq<Lexeme>, at: int, name: Seq<char>) -> (k: int)
    requires
        0 <= at < ts.len(),
        ts[at] is Open,
        enclosed(ts, at) matches Ok((term, _)) && mentions(term, name),
    ensures
        enclosed(ts, at) matches Ok((_, next)) && at < k < next <= ts.len(),
        ts[k] == Lexeme::Name(name),
        !follows_number(ts, k),
    decreases ts.len() - at, 0nat,
{
    lemma_sum_names(ts, at + 1, name)
}

/// The name token behind a constant of an operand: it is the first token of
/// the operand, or it does not come directly after a number.
proof fn lemma_operand_names(ts: Seq<Lexeme>, at: int, name: Seq<char>) -> (k: int)
    requires
        operand(ts, at) matches Ok((term, _)) && mentions(term, name),
    ensures
        operand(ts, at) matches Ok((_, next)) && at <= k < next <= ts.len(),
        ts[k] == Lexeme::Name(name),
        k == at || !follows_number(ts, k),
    decreases ts.len() - at, 1nat,
{
    match ts[at] {
        Lexeme::Name(found) => {
            if at + 1 < ts.len() && ts[at + 1] is Open {
                lemma_enclosed_names(ts, at + 1, name)
            } else {
                at
            }
        },
        Lexeme::Open => lemma_enclosed_names(ts, at, name),
        Lexeme::Minus => lemma_operand_names(ts, at + 1, name),
        _ => at,
    }
}

/// The name token behind a constant of the tail of a product, unless the
/// constant is one of the operand on the left.
proof fn lemma_product_tail_names(ts: Seq<Lexeme>, at: int, left: Term, name: Seq<char>) -> (found:
    Option<int>)
    requires
        0 <= at <= ts.len(),
        product_tail(ts, at, left) matches Ok((term, _)) && mentions(term, name),
    ensures
        product_tail(ts, at, left) matches Ok((_, next)) && at <= next <= ts.len() && match found {
            Some(k) => at < k < next && ts[k] == Lexeme::Name(name) && !follows_number(ts, k),
            None => mentions(left, name),
        },
    decreases ts.len() - at, 0nat,
{
    if at < ts.len() && multiplicative(ts[at]) is Some {
        let (right, next) = operand(ts, at + 1)->Ok_0;
        let both = joined(multiplicative(ts[at])->0, left, right);
        match lemma_product_tail_names(ts, next, both, name) {
            Some(k) => Some(k),
            None => {
                if mentions(left, name) {
                    None
                } else {
                    Some(lemma_operand_names(ts, at + 1, name))
                }
            },
        }
    } else {
        None
    }
}

/// The name token behind a constant of a product.
proof fn lemma_product_names(ts: Seq<Lexeme>, at: int, name: Seq<char>) -> (k: int)
    requires
        product(ts, at) matches Ok((term, _)) && mentions(term, name),
    ensures
        product(ts, at) matches Ok((_, next)) && at <= k < next <= ts.len(),
        ts[k] == Lexeme::Name(name),
        k == at || !follows_number(ts, k),
    decreases ts.len() - at, 2nat,
{
    let (left, next) = operand(ts, at)->Ok_0;
    match lemma_product_tail_names(ts, next, left, name) {
        Some(k) => k,
        None => lemma_operand_names(ts, at, name),
    }
}

/// The name token behind a constant of the tail of a sum, unless the
/// constant is one of the product on the left.
proof fn lemma_sum_tail_names(ts: Seq<Lexeme>, at: int, left: Term, name: Seq<char>) -> (found:
    Option<int>)
    requires
        0 <= at <= ts.len(),
        sum_tail(ts, at, left) matches Ok((term, _)) && mentions(term, name),
    ensures
        sum_tail(ts, at, left) matches Ok((_, next)) && at <= next <= ts.len() && match found {
            Some(k) => at < k < next && ts[k] == Lexeme::Name(name) && !follows_number(ts, k),
            None => mentions(left, name),
        },
    decreases ts.len() - at, 0nat,
{
    if at < ts.len() && additive(ts[at]) is Some {
        let (right, next) = product(ts, at + 1)->Ok_0;
        let both = joined(additive(ts[at])->0, left, right);
        match lemma_sum_tail_names(ts, next, both, name) {
            Some(k) => Some(k),
            None => {
                if mentions(left, name) {
                    None
                } else {
                    Some(lemma_product_names(ts, at + 1, name))
                }
            },
        }
    } else {
        None
    }
}

/// The name token behind a constant of a sum.
proof fn lemma_sum_names(ts: Seq<Lexeme>, at: int, name: Seq<char>) -> (k: int)
    requires
        sum(ts, at) matches Ok((term, _)) && mentions(term, name),
    ensures
        sum(ts, at) matches Ok((_, next)) && at <= k < next <= ts.len(),
        ts[k] == Lexeme::Name(name),
        k == at || !follows_number(ts, k),
    decreases ts.len() - at, 3nat,
{
    let (left, next) = product(ts, at)->Ok_0;
    match lemma_sum_tail_names(ts, next, left, name) {
        Some(k) => k,
        None => lemma_product_names(ts, at, name),
    }
}

/// Behind every constant of a parsed tree stands a name token that does not
/// come directly after a number.
pub proof fn lemma_constant_has_token(ts: Seq<Lexeme>, name: Seq<char>) -> (k: int)
    requires
        parse(ts) matches Ok(tree) && mentions(tree, name),
    ensures
        0 <= k < ts.len(),
        ts[k] == Lexeme::Name(name),
        !follows_number(ts, k),
{
    lemma_sum_names(ts, 0, name)
}

/// Where a name token that does not come directly after a number was read,
/// the name stands as a whole word.
pub proof fn lemma_name_token_stands(
    s: Seq<char>,
    at: int,
    ts: Seq<Lexeme>,
    k: int,
    name: Seq<char>,
) -> (place: int)
    requires
        0 <= at <= s.len(),
        tokens_from(s, at) == Ok::<Seq<Lexeme>, ParseError>(ts),
        0 <= k < ts.len(),
        ts[k] == Lexeme::Name(name),
        k == 0 ==> word_may_start(s, at),
        !follows_number(ts, k),
    ensures
        stands_at(name, s, place),
    decreases s.len() - at,
{
    if is_space(s[at]) {
        // After white space a word may start.
        lemma_name_token_stands(s, at + 1, ts, k, name)
    } else {
        // The token read here is the first of `ts`, and `rest` are the others.
        let (token, next) = token_at(s, at)->Ok_0;
        let rest = tokens_from(s, next)->Ok_0;
        lemma_name_end(s, at);
        lemma_quote_found(s, at + 1);
        if k == 0 {
            // The name is read here: it stands from `at` to where it ends.
            at
        } else {
            // A word may start after `token` unless `token` is a number or a
            // decimal, and the token before the name is neither.
            assert(ts[k - 1] == if k == 1 {
                token
            } else {
                rest[k - 2]
            });
            lemma_name_token_stands(s, next, rest, k - 1, name)
        }
    }
}

/// A name that a well-formed expression uses as a constant stands in the
/// text of the expression as a whole word.
pub proof fn lemma_constant_occurs_as_word(text: Seq<char>, name: Seq<char>)
    requires
        syntax(text) matches Ok(tree) && mentions(tree, name),
    ensures
        occurs_as_word(name, text),
{
    let ts = tokens(text)->Ok_0;
    let k = lemma_constant_has_token(ts, name);
    let place = lemma_name_token_stands(text, 0, ts, k, name);
}

/// A name that has a value in a record is a name of the schema.
pub proof fn lemma_field_is_in_schema(record: FakeData, name: Seq<char>) -> (j: int)
    requires
        field_value(record, name) is Some,
    ensures
        0 <= j < schema().len(),
        schema()[j] == name,
{
    if name == "type"@ {
        0
    } else if name == "id"@ {
        1
    } else if name == "key"@ {
        2
    } else if name == "name"@ {
        3
    } else if name == "fullName"@ {
        4
    } else if name == "iataCode"@ {
        5
    } else if name == "locationType"@ {
        6
    } else if name == "country"@ {
        7
    } else if name == "latitude"@ {
        8
    } else if name == "longitude"@ {
        9
    } else if name == "locationId"@ {
        10
    } else if name == "inEurope"@ {
        11
    } else if name == "countryCode"@ {
        12
    } else if name == "coreCountry"@ {
        13
    } else {
        14
    }
}

/// A field that a well-formed ASCII expression of the list mentions is bound
/// to its value in the table that is built for the list.
pub proof fn lemma_mentioned_field_is_bound(
    record: FakeData,
    texts: Seq<Seq<char>>,
    at: int,
    name: Seq<char>,
)
    requires
        0 <= at < texts.len(),
        is_ascii_text(texts[at]),
        syntax(texts[at]) matches Ok(tree) && mentions(tree, name),
        field_value(record, name) is Some,
    ensures
        lookup(table_of(record, required(schema(), texts)), name) == field_value(record, name),
{
    lemma_constant_occurs_as_word(texts[at], name);
    let j = lemma_field_is_in_schema(record, name);
    let i = lemma_referred_is_required(schema(), texts, j, schema().len() as int);
    let names = required(schema(), texts);
    lemma_requested_field_is_bound(record, names, name, names.len() as int);
}

/// Whether every text of the list is an ASCII text.
pub open spec fn all_ascii(texts: Seq<Seq<char>>) -> bool {
    forall|i: int| 0 <= i < texts.len() ==> is_ascii_text(#[trigger] texts[i])
}

/// In a list of ASCII texts, no cell fails for a constant that names a
/// field of the record: whatever the expressions mention is bound.
pub proof fn lemma_no_field_is_unknown(
    record: FakeData,
    texts: Seq<Seq<char>>,
    name: Seq<char>,
    count: int,
    at: int,
)
    requires
        all_ascii(texts),
        field_value(record, name) is Some,
        0 <= count <= texts.len(),
    ensures
        cells_among(texts, table_of(record, required(schema(), texts)), count) != Err::<
            Seq<Term>,
            Fault,
        >(Fault::Eval(at, Failure::UnknownConstant(name))),
    decreases count,
{
    let pairs = table_of(record, required(schema(), texts));
    if count > 0 {
        lemma_no_field_is_unknown(record, texts, name, count - 1, at);
        if cells_among(texts, pairs, count - 1) is Ok {
            match syntax(texts[count - 1]) {
                Ok(tree) => {
                    if evaluation(tree, pairs) == Err::<Term, Failure>(
                        Failure::UnknownConstant(name),
                    ) {
                        lemma_unknown_is_mentioned(tree, pairs, name);
                        lemma_mentioned_field_is_bound(record, texts, count - 1, name);
                    }
                },
                Err(_) => {},
            }
        }
    }
}

/// Whether every one of the names is a field of the record.
pub open spec fn all_fields(record: FakeData, names: Seq<Seq<char>>) -> bool {
    forall|i: int| 0 <= i < names.len() ==> field_value(record, #[trigger] names[i]) is Some
}

/// Every name of the schema is a field of the record.
pub proof fn lemma_schema_is_all_fields(record: FakeData)
    ensures
        all_fields(record, schema()),
{
}

/// The required names are fields of the record.
pub proof fn lemma_required_are_fields(record: FakeData, texts: Seq<Seq<char>>)
    ensures
        all_fields(record, required(schema(), texts)),
{
    let names = required(schema(), texts);
    lemma_schema_is_all_fields(record);
    assert forall|i: int| 0 <= i < names.len() implies field_value(record, #[trigger] names[i])
        is Some by {
        let j = lemma_required_is_referred(schema(), texts, schema().len() as int, i);
    }
}

/// A table that is built for fields binds nothing that is no field.
pub proof fn lemma_no_field_is_not_bound(
    record: FakeData,
    names: Seq<Seq<char>>,
    name: Seq<char>,
    count: int,
)
    requires
        all_fields(record, names),
        count <= names.len(),
        field_value(record, name) is None,
    ensures
        lookup(table_among(record, names, count), name) is None,
    decreases count,
{
    if count > 0 {
        lemma_no_field_is_not_bound(record, names, name, count - 1);
        let binding = binding_of(record, names[count - 1]);
        lemma_others_are_kept(table_among(record, names, count - 1), binding.0, binding.1, name);
    }
}

/// Whether two tables bind every constant of a tree alike.
pub open spec fn agree_on(
    term: Term,
    first: Seq<(Seq<char>, Term)>,
    second: Seq<(Seq<char>, Term)>,
) -> bool {
    forall|name: Seq<char>| #[trigger]
        mentions(term, name) ==> lookup(first, name) == lookup(second, name)
}

/// Under two tables that bind every constant of a tree alike, the tree has
/// one value or one failure.
pub proof fn lemma_evaluation_agrees(
    term: Term,
    first: Seq<(Seq<char>, Term)>,
    second: Seq<(Seq<char>, Term)>,
)
    requires
        agree_on(term, first, second),
    ensures
        evaluation(term, first) == evaluation(term, second),
    decreases term,
{
    match term {
        Term::Number(_) | Term::Float(_) | Term::Text(_) => {},
        Term::Constant(name) => {
            assert(mentions(term, name));
        },
        Term::Parenthesis(inner) => {
            assert forall|name: Seq<char>| #[trigger] mentions(*inner, name) implies lookup(
                first,
                name,
            ) == lookup(second, name) by {
                assert(mentions(term, name));
            }
            lemma_evaluation_agrees(*inner, first, second);
        },
        Term::Negate(inner) => {
            assert forall|name: Seq<char>| #[trigger] mentions(*inner, name) implies lookup(
                first,
                name,
            ) == lookup(second, name) by {
                assert(mentions(term, name));
            }
            lemma_evaluation_agrees(*inner, first, second);
        },
        Term::Call(_, argument) => {
            assert forall|name: Seq<char>| #[trigger] mentions(*argument, name) implies lookup(
                first,
                name,
            ) == lookup(second, name) by {
                assert(mentions(term, name));
            }
            lemma_evaluation_agrees(*argument, first, second);
        },
        Term::BinOp(_, left, right) => {
            assert forall|name: Seq<char>| #[trigger] mentions(*left, name) implies lookup(
                first,
                name,
            ) == lookup(second, name) by {
                assert(mentions(term, name));
            }
            assert forall|name: Seq<char>| #[trigger] mentions(*right, name) implies lookup(
                first,
                name,
            ) == lookup(second, name) by {
                assert(mentions(term, name));
            }
            lemma_evaluation_agrees(*left, first, second);
            lemma_evaluation_agrees(*right, first, second);
        },
    }
}

/// To bind only the fields that the texts refer to changes nothing: in a
/// list of ASCII texts, every cell and every failure is the one that the
/// table of all the fields gives.
pub proof fn lemma_unused_fields_change_nothing(
    record: FakeData,
    texts: Seq<Seq<char>>,
    count: int,
)
    requires
        all_ascii(texts),
        0 <= count <= texts.len(),
    ensures
        cells_among(texts, table_of(record, required(schema(), texts)), count) == cells_among(
            texts,
            table_of(record, schema()),
            count,
        ),
    decreases count,
{
    if count > 0 {
        lemma_unused_fields_change_nothing(record, texts, count - 1);
        let names = required(schema(), texts);
        let few = table_of(record, names);
        let all = table_of(record, schema());
        match syntax(texts[count - 1]) {
            Ok(tree) => {
                lemma_required_are_fields(record, texts);
                lemma_schema_is_all_fields(record);
                assert forall|name: Seq<char>| #[trigger] mentions(tree, name) implies lookup(
                    few,
                    name,
                ) == lookup(all, name) by {
                    if field_value(record, name) is Some {
                        lemma_mentioned_field_is_bound(record, texts, count - 1, name);
                        let j = lemma_field_is_in_schema(record, name);
                        lemma_requested_field_is_bound(
                            record,
                            schema(),
                            name,
                            schema().len() as int,
                        );
                    } else {
                        lemma_no_field_is_not_bound(record, names, name, names.len() as int);
                        lemma_no_field_is_not_bound(
                            record,
                            schema(),
                            name,
                            schema().len() as int,
                        );
                    }
                }
                lemma_evaluation_agrees(tree, few, all);
            },
            Err(_) => {},
        }
    }
}

} // verus!
