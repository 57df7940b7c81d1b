//! Computed columns: the cells that a list of expression texts gives for a
//! record, and for a list of records.
//!
//! Only the fields that the texts refer to are bound; the first expression
//! that fails, in the order of the list, fails the whole.

use crate::evaluator::{evaluation, is_literal, lemma_value_is_literal, EvalError, Failure};
use crate::expression::{Expression, Term};
use crate::lexer::ParseError;
use crate::numeral::{lemma_parsed_is_numeric, lemma_value_is_numeric, numeric_tree};
use crate::parser::{parse_expression, syntax};
use crate::record::{
    lemma_schema_words, lemma_table_holds_literals, lemma_table_is_numeric, schema,
    table_of, well_formed, FakeData,
};
use crate::resolver::{
    ask, lemma_asked_marks, lemma_selection_is_required, marks_agree, required, select, selection,
    ResolveError,
};
use crate::table::bindings;
use indexmap::IndexMap;
use vstd::prelude::*;

verus! {

/// Why a list of expressions has no cells.
#[derive(Debug, PartialEq)]
pub enum ComputeError {
    /// The fields that the expressions refer to could not be told.
    Resolve(ResolveError),
    /// The expression at this place in the list is not well formed.
    Parse(usize, ParseError),
    /// The expression at this place in the list has no value.
    Eval(usize, EvalError),
}

/// The model of a [`ComputeError`].
pub enum Fault {
    Resolve(ResolveError),
    Parse(int, ParseError),
    Eval(int, Failure),
}

impl View for ComputeError {
    type V = Fault;

    open spec fn view(&self) -> Fault {
        match self {
            ComputeError::Resolve(e) => Fault::Resolve(*e),
            ComputeError::Parse(at, e) => Fault::Parse(*at as int, *e),
            ComputeError::Eval(at, e) => Fault::Eval(*at as int, e@),
        }
    }
}

/// The models of a sequence of expressions.
pub open spec fn terms(expressions: Seq<Expression>) -> Seq<Term> {
    Seq::new(expressions.len(), |i: int| expressions[i]@)
}

/// The trees of the first `count` texts, or the first fault among them.
pub open spec fn parsed_among(texts: Seq<Seq<char>>, count: int) -> Result<Seq<Term>, Fault>
    decreases count,
{
    if count <= 0 {
        Ok(Seq::empty())
    } else {
        match parsed_among(texts, count - 1) {
            Ok(trees) => match syntax(texts[count - 1]) {
                Ok(tree) => Ok(trees.push(tree)),
                Err(e) => Err(Fault::Parse(count - 1, e)),
            },
            Err(fault) => Err(fault),
        }
    }
}

/// The values of the first `count` trees under a table, or the first
/// failure among them.
pub open spec fn evaluated_among(
    trees: Seq<Term>,
    pairs: Seq<(Seq<char>, Term)>,
    count: int,
) -> Result<Seq<Term>, Fault>
    decreases count,
{
    if count <= 0 {
        Ok(Seq::empty())
    } else {
        match evaluated_among(trees, pairs, count - 1) {
            Ok(values) => match evaluation(trees[count - 1], pairs) {
                Ok(value) => Ok(values.push(value)),
                Err(failure) => Err(Fault::Eval(count - 1, failure)),
            },
            Err(fault) => Err(fault),
        }
    }
}

/// The cells of the first `count` texts under a table, each text parsed and
/// then evaluated before the next is looked at.
pub open spec fn cells_among(texts: Seq<Seq<char>>, pairs: Seq<(Seq<char>, Term)>, count: int)
    -> Result<Seq<Term>, Fault>
    decreases count,
{
    if count <= 0 {
        Ok(Seq::empty())
    } else {
        match cells_among(texts, pairs, count - 1) {
            Ok(values) => match syntax(texts[count - 1]) {
                Ok(tree) => match evaluation(tree, pairs) {
                    Ok(value) => Ok(values.push(value)),
                    Err(failure) => Err(Fault::Eval(count - 1, failure)),
                },
                Err(e) => Err(Fault::Parse(count - 1, e)),
            },
            Err(fault) => Err(fault),
        }
    }
}

/// The cells that the texts give for a record.
pub open spec fn cells(record: FakeData, texts: Seq<Seq<char>>) -> Result<Seq<Term>, Fault> {
    cells_among(texts, table_of(record, required(schema(), texts)), texts.len() as int)
}

/// The rows that the trees give for the first `count` records, or the first
/// failure among them.
pub open spec fn rows_among(
    records: Seq<FakeData>,
    names: Seq<Seq<char>>,
    trees: Seq<Term>,
    count: int,
) -> Result<Seq<Seq<Term>>, Fault>
    decreases count,
{
    if count <= 0 {
        Ok(Seq::empty())
    } else {
        match rows_among(records, names, trees, count - 1) {
            Ok(rows) => match evaluated_among(
                trees,
                table_of(records[count - 1], names),
                trees.len() as int,
            ) {
                Ok(row) => Ok(rows.push(row)),
                Err(fault) => Err(fault),
            },
            Err(fault) => Err(fault),
        }
    }
}

/// The rows that the texts give for the records: every text is parsed
/// first, then the records are taken one after the other.
pub open spec fn rows(records: Seq<FakeData>, texts: Seq<Seq<char>>) -> Result<
    Seq<Seq<Term>>,
    Fault,
> {
    match parsed_among(texts, texts.len() as int) {
        Ok(trees) => rows_among(records, required(schema(), texts), trees, records.len() as int),
        Err(fault) => Err(fault),
    }
}

/// The cells that the texts give for a record when the search has given
/// the marks: one mark for each field of the schema, in order, that says
/// whether the texts refer to the field, or that the search was refused.
pub open spec fn cells_from_marks(
    record: FakeData,
    texts: Seq<Seq<char>>,
    marks: Seq<Option<bool>>,
) -> Result<Seq<Term>, Fault> {
    match selection(schema(), marks) {
        Ok(names) => cells_among(texts, table_of(record, names), texts.len() as int),
        Err(e) => Err(Fault::Resolve(e)),
    }
}

/// The rows that the texts give for the records when the search has given
/// the marks. A text that is not well formed fails before the marks are
/// looked at.
pub open spec fn rows_from_marks(
    records: Seq<FakeData>,
    texts: Seq<Seq<char>>,
    marks: Seq<Option<bool>>,
) -> Result<Seq<Seq<Term>>, Fault> {
    match parsed_among(texts, texts.len() as int) {
        Ok(trees) => match selection(schema(), marks) {
            Ok(names) => rows_among(records, names, trees, records.len() as int),
            Err(e) => Err(Fault::Resolve(e)),
        },
        Err(fault) => Err(fault),
    }
}

/// With marks that say which fields the texts refer to, the cells are those
/// that the texts give for the record.
pub proof fn lemma_cells_from_true_marks(
    record: FakeData,
    texts: Seq<Seq<char>>,
    marks: Seq<Option<bool>>,
)
    requires
        marks_agree(schema(), texts, marks, schema().len() as int),
    ensures
        cells_from_marks(record, texts, marks) == cells(record, texts),
{
    lemma_schema_words();
    lemma_selection_is_required(schema(), texts, marks);
}

/// With marks that say which fields the texts refer to, the rows are those
/// that the texts give for the records.
pub proof fn lemma_rows_from_true_marks(
    records: Seq<FakeData>,
    texts: Seq<Seq<char>>,
    marks: Seq<Option<bool>>,
)
    requires
        marks_agree(schema(), texts, marks, schema().len() as int),
    ensures
        rows_from_marks(records, texts, marks) == rows(records, texts),
{
    lemma_schema_words();
    lemma_selection_is_required(schema(), texts, marks);
}

/// The model of what computing cells returns.
pub open spec fn computed(r: Result<Vec<Expression>, ComputeError>) -> Result<Seq<Term>, Fault> {
    match r {
        Ok(values) => Ok(terms(values@)),
        Err(e) => Err(e@),
    }
}

/// The models of a sequence of rows.
pub open spec fn row_terms(rows: Seq<Vec<Expression>>) -> Seq<Seq<Term>> {
    Seq::new(rows.len(), |i: int| terms(rows[i]@))
}

/// Parses every text of a list.
pub fn parse_all(texts: &Vec<String>) -> (r: Result<Vec<Expression>, ComputeError>)
    ensures
        computed(r) == parsed_among(texts.deep_view(), texts.len() as int),
        r matches Err(e) ==> e is Parse,
{
    let mut trees: Vec<Expression> = Vec::new();
    let mut at: usize = 0;
    assert(terms(trees@) =~= Seq::<Term>::empty());
    while at < texts.len()
        invariant
            at <= texts.len(),
            parsed_among(texts.deep_view(), at as int) == Ok::<Seq<Term>, Fault>(terms(trees@)),
        decreases texts.len() - at,
    {
        match parse_expression(texts[at].as_str()) {
            Ok(tree) => {
                let ghost before = terms(trees@);
                let ghost model = tree@;
                trees.push(tree);
                assert(terms(trees@) =~= before.push(model));
            },
            Err(e) => {
                proof {
                    lemma_parse_fault_stays(texts.deep_view(), at as int + 1, texts.len() as int);
                }
                return Err(ComputeError::Parse(at, e));
            },
        }
        at = at + 1;
    }
    Ok(trees)
}

/// A fault among the first texts is the fault of every longer list.
proof fn lemma_parse_fault_stays(texts: Seq<Seq<char>>, count: int, more: int)
    requires
        count <= more,
        parsed_among(texts, count) is Err,
    ensures
        parsed_among(texts, more) == parsed_among(texts, count),
    decreases more - count,
{
    if count < more {
        lemma_parse_fault_stays(texts, count, more - 1);
    }
}

/// A failure among the first trees is the failure of every longer list.
proof fn lemma_eval_fault_stays(
    trees: Seq<Term>,
    pairs: Seq<(Seq<char>, Term)>,
    count: int,
    more: int,
)
    requires
        count <= more,
        evaluated_among(trees, pairs, count) is Err,
    ensures
        evaluated_among(trees, pairs, more) == evaluated_among(trees, pairs, count),
    decreases more - count,
{
    if count < more {
        lemma_eval_fault_stays(trees, pairs, count, more - 1);
    }
}

/// Evaluates every expression of a list under one binding table.
pub fn evaluate_all(trees: &Vec<Expression>, map: &IndexMap<String, Expression>) -> (r: Result<
    Vec<Expression>,
    ComputeError,
>)
    ensures
        computed(r) == evaluated_among(terms(trees@), bindings(*map), trees.len() as int),
        r matches Err(e) ==> e is Eval,
{
    let mut values: Vec<Expression> = Vec::new();
    let mut at: usize = 0;
    assert(terms(values@) =~= Seq::<Term>::empty());
    while at < trees.len()
        invariant
            at <= trees.len(),
            evaluated_among(terms(trees@), bindings(*map), at as int) == Ok::<Seq<Term>, Fault>(
                terms(values@),
            ),
        decreases trees.len() - at,
    {
        match trees[at].eval(map) {
            Ok(value) => {
                let ghost before = terms(values@);
                let ghost model = value@;
                values.push(value);
                assert(terms(values@) =~= before.push(model));
            },
            Err(e) => {
                proof {
                    lemma_eval_fault_stays(
                        terms(trees@),
                        bindings(*map),
                        at as int + 1,
                        trees.len() as int,
                    );
                }
                return Err(ComputeError::Eval(at, e));
            },
        }
        at = at + 1;
    }
    Ok(values)
}

/// A fault among the first cells is the fault of every longer list.
proof fn lemma_cell_fault_stays(
    texts: Seq<Seq<char>>,
    pairs: Seq<(Seq<char>, Term)>,
    count: int,
    more: int,
)
    requires
        count <= more,
        cells_among(texts, pairs, count) is Err,
    ensures
        cells_among(texts, pairs, more) == cells_among(texts, pairs, count),
    decreases more - count,
{
    if count < more {
        lemma_cell_fault_stays(texts, pairs, count, more - 1);
    }
}

/// A failure among the first rows is the failure of every longer list.
proof fn lemma_row_fault_stays(
    records: Seq<FakeData>,
    names: Seq<Seq<char>>,
    trees: Seq<Term>,
    count: int,
    more: int,
)
    requires
        count <= more,
        rows_among(records, names, trees, count) is Err,
    ensures
        rows_among(records, names, trees, more) == rows_among(records, names, trees, count),
    decreases more - count,
{
    if count < more {
        lemma_row_fault_stays(records, names, trees, count, more - 1);
    }
}

impl FakeData {
    /// Computes the cells of the record for a list of expression texts,
    /// binding the fields of the given names.
    ///
    /// Each text is parsed and evaluated before the next is looked at; the
    /// first one that fails is reported with its place in the list.
    pub fn compute_with(&self, fields: &Vec<String>, names: &Vec<String>) -> (r: Result<
        Vec<Expression>,
        ComputeError,
    >)
        ensures
            computed(r) == cells_among(
                fields.deep_view(),
                table_of(*self, names.deep_view()),
                fields.len() as int,
            ),
            r matches Err(e) ==> e is Parse || e is Eval,
    {
        let map = self.get_filtered_indexmap(names);
        let mut values: Vec<Expression> = Vec::new();
        let mut at: usize = 0;
        assert(terms(values@) =~= Seq::<Term>::empty());
        while at < fields.len()
            invariant
                at <= fields.len(),
                bindings(map) == table_of(*self, names.deep_view()),
                cells_among(fields.deep_view(), bindings(map), at as int) == Ok::<
                    Seq<Term>,
                    Fault,
                >(terms(values@)),
            decreases fields.len() - at,
        {
            let tree = match parse_expression(fields[at].as_str()) {
                Ok(tree) => tree,
                Err(e) => {
                    proof {
                        lemma_cell_fault_stays(
                            fields.deep_view(),
                            bindings(map),
                            at as int + 1,
                            fields.len() as int,
                        );
                    }
                    return Err(ComputeError::Parse(at, e));
                },
            };
            match tree.eval(&map) {
                Ok(value) => {
                    let ghost before = terms(values@);
                    let ghost model = value@;
                    values.push(value);
                    assert(terms(values@) =~= before.push(model));
                },
                Err(e) => {
                    proof {
                        lemma_cell_fault_stays(
                            fields.deep_view(),
                            bindings(map),
                            at as int + 1,
                            fields.len() as int,
                        );
                    }
                    return Err(ComputeError::Eval(at, e));
                },
            }
            at = at + 1;
        }
        Ok(values)
    }

    /// Computes the cells of the record for a list of expression texts,
    /// with the marks that the search has given: one mark for each field of
    /// the schema, in order, that says whether the texts refer to the field,
    /// or `None` if the search for it was refused.
    ///
    /// The fields whose mark is a hit are bound, and no others. A refusal
    /// among the marks is the failure of the whole.
    pub fn compute_from_marks(&self, fields: &Vec<String>, marks: &Vec<Option<bool>>) -> (r:
        Result<Vec<Expression>, ComputeError>)
        ensures
            computed(r) == cells_from_marks(*self, fields.deep_view(), marks@),
            r matches Err(ComputeError::Resolve(e)) ==> selection(schema(), marks@) == Err::<
                Seq<Seq<char>>,
                ResolveError,
            >(e),
    {
        match select(&crate::record::fields(), marks) {
            Ok(names) => self.compute_with(fields, &names),
            Err(e) => Err(ComputeError::Resolve(e)),
        }
    }

    /// Computes the cells of the record for a list of expression texts.
    ///
    /// The fields that the texts refer to are bound, and no others. The
    /// result is what [`cells`] defines, unless the search for the fields
    /// was refused; with an empty list no search is made. What is returned
    /// for each answer of the search, [`FakeData::compute_from_marks`] says.
    pub fn to_computed_vec(&self, fields: &Vec<String>) -> (r: Result<
        Vec<Expression>,
        ComputeError,
    >)
        ensures
            match r {
                Err(ComputeError::Resolve(e)) => e == ResolveError::PatternRejected
                    && fields.len() > 0,
                _ => computed(r) == cells(*self, fields.deep_view()),
            },
    {
        let marks = ask(fields, &crate::record::fields());
        proof {
            lemma_schema_words();
            lemma_asked_marks(schema(), fields.deep_view(), marks@);
        }
        self.compute_from_marks(fields, &marks)
    }
}

/// Computes one row of values for each record, with the trees of the
/// expressions and the names of the fields to bind.
pub fn compute_rows_with(
    records: &Vec<FakeData>,
    names: &Vec<String>,
    trees: &Vec<Expression>,
) -> (r: Result<Vec<Vec<Expression>>, ComputeError>)
    ensures
        match r {
            Ok(found) => rows_among(
                records@,
                names.deep_view(),
                terms(trees@),
                records.len() as int,
            ) == Ok::<Seq<Seq<Term>>, Fault>(row_terms(found@)),
            Err(e) => e is Eval && rows_among(
                records@,
                names.deep_view(),
                terms(trees@),
                records.len() as int,
            ) == Err::<Seq<Seq<Term>>, Fault>(e@),
        },
{
    let mut found: Vec<Vec<Expression>> = Vec::new();
    let mut at: usize = 0;
    assert(row_terms(found@) =~= Seq::<Seq<Term>>::empty());
    while at < records.len()
        invariant
            at <= records.len(),
            rows_among(records@, names.deep_view(), terms(trees@), at as int) == Ok::<
                Seq<Seq<Term>>,
                Fault,
            >(row_terms(found@)),
        decreases records.len() - at,
    {
        let map = records[at].get_filtered_indexmap(names);
        match evaluate_all(trees, &map) {
            Ok(row) => {
                let ghost before = row_terms(found@);
                let ghost model = terms(row@);
                found.push(row);
                assert(row_terms(found@) =~= before.push(model));
            },
            Err(e) => {
                proof {
                    lemma_row_fault_stays(
                        records@,
                        names.deep_view(),
                        terms(trees@),
                        at as int + 1,
                        records.len() as int,
                    );
                }
                return Err(e);
            },
        }
        at = at + 1;
    }
    Ok(found)
}

/// Computes one row of values for each record, with the marks that the
/// search has given: one mark for each field of the schema, in order, that
/// says whether the texts refer to the field, or `None` if the search for
/// it was refused.
///
/// Every text is parsed once, before the marks and the records are looked
/// at. There is one row for each record, in their order, and one value for
/// each text in a row; the first failure is the failure of the whole.
pub fn compute_rows_from_marks(
    records: &Vec<FakeData>,
    fields: &Vec<String>,
    marks: &Vec<Option<bool>>,
) -> (r: Result<Vec<Vec<Expression>>, ComputeError>)
    ensures
        match r {
            Ok(found) => rows_from_marks(records@, fields.deep_view(), marks@) == Ok::<
                Seq<Seq<Term>>,
                Fault,
            >(row_terms(found@)),
            Err(e) => rows_from_marks(records@, fields.deep_view(), marks@) == Err::<
                Seq<Seq<Term>>,
                Fault,
            >(e@),
        },
        r matches Err(ComputeError::Resolve(e)) ==> parsed_among(
            fields.deep_view(),
            fields.len() as int,
        ) is Ok && selection(schema(), marks@) == Err::<Seq<Seq<char>>, ResolveError>(e),
{
    let trees = match parse_all(fields) {
        Ok(trees) => trees,
        Err(e) => {
            return Err(e);
        },
    };
    match select(&crate::record::fields(), marks) {
        Ok(names) => compute_rows_with(records, &names, &trees),
        Err(e) => Err(ComputeError::Resolve(e)),
    }
}

/// Computes one row of values for each record: the table that a list of
/// expression texts gives for a list of records.
///
/// The result is what [`rows`] defines, unless the search for the fields
/// was refused; with an empty list of texts no search is made. What is
/// returned for each answer of the search, [`compute_rows_from_marks`]
/// says.
pub fn compute_rows(records: &Vec<FakeData>, fields: &Vec<String>) -> (r: Result<
    Vec<Vec<Expression>>,
    ComputeError,
>)
    ensures
        match r {
            Ok(found) => rows(records@, fields.deep_view()) == Ok::<Seq<Seq<Term>>, Fault>(
                row_terms(found@),
            ),
            Err(ComputeError::Resolve(e)) => e == ResolveError::PatternRejected && fields.len() > 0
                && parsed_among(fields.deep_view(), fields.len() as int) is Ok,
            Err(e) => rows(records@, fields.deep_view()) == Err::<Seq<Seq<Term>>, Fault>(e@),
        },
{
    let marks = ask(fields, &crate::record::fields());
    proof {
        lemma_schema_words();
        lemma_asked_marks(schema(), fields.deep_view(), marks@);
    }
    compute_rows_from_marks(records, fields, &marks)
}

/// What the cells are, place by place: each cell is the value of the tree
/// of its text; a fault is that of the first text that has one, and the
/// texts before it have cells.
pub proof fn lemma_cells_place_by_place(
    texts: Seq<Seq<char>>,
    pairs: Seq<(Seq<char>, Term)>,
    count: int,
)
    requires
        0 <= count <= texts.len(),
    ensures
        match cells_among(texts, pairs, count) {
            Ok(values) => values.len() == count && forall|i: int|
                0 <= i < count ==> (syntax(#[trigger] texts[i]) matches Ok(tree) && evaluation(
                    tree,
                    pairs,
                ) == Ok::<Term, Failure>(values[i])),
            Err(Fault::Parse(at, e)) => 0 <= at < count && cells_among(texts, pairs, at) is Ok
                && syntax(texts[at]) == Err::<Term, ParseError>(e),
            Err(Fault::Eval(at, failure)) => 0 <= at < count && cells_among(texts, pairs, at) is Ok
                && (syntax(texts[at]) matches Ok(tree) && evaluation(tree, pairs) == Err::<
                Term,
                Failure,
            >(failure)),
            Err(Fault::Resolve(_)) => false,
        },
    decreases count,
{
    if count > 0 {
        lemma_cells_place_by_place(texts, pairs, count - 1);
    }
}

/// What the trees are, place by place.
pub proof fn lemma_trees_place_by_place(texts: Seq<Seq<char>>, count: int)
    requires
        0 <= count <= texts.len(),
    ensures
        match parsed_among(texts, count) {
            Ok(trees) => trees.len() == count && forall|i: int|
                0 <= i < count ==> syntax(#[trigger] texts[i]) == Ok::<Term, ParseError>(trees[i]),
            Err(Fault::Parse(at, e)) => 0 <= at < count && parsed_among(texts, at) is Ok && syntax(
                texts[at],
            ) == Err::<Term, ParseError>(e),
            Err(_) => false,
        },
    decreases count,
{
    if count > 0 {
        lemma_trees_place_by_place(texts, count - 1);
    }
}

/// What the values are, place by place.
pub proof fn lemma_values_place_by_place(
    trees: Seq<Term>,
    pairs: Seq<(Seq<char>, Term)>,
    count: int,
)
    requires
        0 <= count <= trees.len(),
    ensures
        match evaluated_among(trees, pairs, count) {
            Ok(values) => values.len() == count && forall|i: int|
                0 <= i < count ==> evaluation(#[trigger] trees[i], pairs) == Ok::<Term, Failure>(
                    values[i],
                ),
            Err(Fault::Eval(at, failure)) => 0 <= at < count && evaluated_among(trees, pairs, at)
                is Ok && evaluation(trees[at], pairs) == Err::<Term, Failure>(failure),
            Err(_) => false,
        },
    decreases count,
{
    if count > 0 {
        lemma_values_place_by_place(trees, pairs, count - 1);
    }
}

/// What the rows are, record by record: each row holds the values of the
/// trees under the table of its record; a failure is that of the first
/// record that has one.
pub proof fn lemma_rows_record_by_record(
    records: Seq<FakeData>,
    names: Seq<Seq<char>>,
    trees: Seq<Term>,
    count: int,
)
    requires
        0 <= count <= records.len(),
    ensures
        match rows_among(records, names, trees, count) {
            Ok(rows) => rows.len() == count && forall|r: int|
                0 <= r < count ==> evaluated_among(
                    trees,
                    table_of(#[trigger] records[r], names),
                    trees.len() as int,
                ) == Ok::<Seq<Term>, Fault>(rows[r]),
            Err(fault) => exists|r: int|
                0 <= r < count && rows_among(records, names, trees, r) is Ok && evaluated_among(
                    trees,
                    table_of(#[trigger] records[r], names),
                    trees.len() as int,
                ) == Err::<Seq<Term>, Fault>(fault),
        },
    decreases count,
{
    if count > 0 {
        lemma_rows_record_by_record(records, names, trees, count - 1);
    }
}

/// Every cell of a well-formed record is numeric: each decimal among the
/// cells is a recipe that yields a double.
pub proof fn lemma_cells_are_numeric(record: FakeData, texts: Seq<Seq<char>>, count: int)
    requires
        well_formed(record),
        count <= texts.len(),
    ensures
        cells_among(texts, table_of(record, required(schema(), texts)), count) matches Ok(values)
            ==> forall|i: int| 0 <= i < values.len() ==> numeric_tree(#[trigger] values[i]),
    decreases count,
{
    let names = required(schema(), texts);
    let pairs = table_of(record, names);
    if count > 0 {
        lemma_cells_are_numeric(record, texts, count - 1);
        lemma_table_is_numeric(record, names, names.len() as int);
        lemma_parsed_is_numeric(texts[count - 1]);
        match syntax(texts[count - 1]) {
            Ok(tree) => {
                lemma_value_is_numeric(tree, pairs);
            },
            Err(_) => {},
        }
    }
}

/// Every cell of a record is a literal: a number, a decimal or a text.
pub proof fn lemma_cells_are_literals(record: FakeData, texts: Seq<Seq<char>>, count: int)
    requires
        count <= texts.len(),
    ensures
        cells_among(texts, table_of(record, required(schema(), texts)), count) matches Ok(values)
            ==> forall|i: int| 0 <= i < values.len() ==> is_literal(#[trigger] values[i]),
    decreases count,
{
    let names = required(schema(), texts);
    let pairs = table_of(record, names);
    if count > 0 {
        lemma_cells_are_literals(record, texts, count - 1);
        lemma_table_holds_literals(record, names, names.len() as int);
        match syntax(texts[count - 1]) {
            Ok(tree) => {
                lemma_value_is_literal(tree, pairs);
            },
            Err(_) => {},
        }
    }
}

} // verus!
