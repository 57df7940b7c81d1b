//! Which fields of a schema a set of expression texts refers to.
//!
//! A field is referred to where its name stands in a text as a whole word:
//! `type` does not stand in `locationType`. The search itself is the `regex`
//! crate's; what it finds is stated here and taken on trust.
//!
//! The crate may refuse a pattern, and whether it does is measured in the
//! bytes that the compiled pattern takes on the machine at hand. So nothing
//! is said of when an answer comes. [`bindings_required`] makes the search
//! and says what holds of every outcome; [`decide`] and [`select`] take the
//! answers of the search and say what each of them leads to.

use crate::lexer::{characters, is_name_part};
use vstd::prelude::*;
use vstd::string::StringExecFns;

verus! {

/// Why the fields that a set of texts refers to could not be told.
#[derive(Debug, Clone, Copy, PartialEq, Eq, Structural)]
pub enum ResolveError {
    /// A name of the schema is empty or holds a character other than an
    /// ASCII letter, an ASCII digit and the underscore.
    InvalidFieldName,
    /// The search pattern for a name was refused.
    PatternRejected,
}

/// A name that can be searched for: not empty, and made of ASCII letters,
/// ASCII digits and underscores.
pub open spec fn is_word(name: Seq<char>) -> bool {
    name.len() > 0 && forall|i: int| 0 <= i < name.len() ==> is_name_part(#[trigger] name[i])
}

/// Whether every character of the text is an ASCII character.
pub open spec fn is_ascii_text(text: Seq<char>) -> bool {
    forall|i: int| 0 <= i < text.len() ==> (#[trigger] text[i] as u32) < 128
}

/// Whether `word` stands in `text` at `at` with no letter, digit or
/// underscore next to it on either side.
pub open spec fn stands_at(word: Seq<char>, text: Seq<char>, at: int) -> bool {
    &&& 0 <= at
    &&& at + word.len() <= text.len()
    &&& text.subrange(at, at + word.len()) == word
    &&& (at == 0 || !is_name_part(text[at - 1]))
    &&& (at + word.len() == text.len() || !is_name_part(text[at + word.len()]))
}

/// Whether `word` stands somewhere in `text` as a whole word.
pub open spec fn occurs_as_word(word: Seq<char>, text: Seq<char>) -> bool {
    exists|at: int| stands_at(word, text, at)
}

/// The search pattern for a word: the word between two word boundaries,
/// each written `\b`.
pub open spec fn pattern_of(word: Seq<char>) -> Seq<char> {
    seq!['\\', 'b'] + word + seq!['\\', 'b']
}

/// The word that a search pattern asks for.
pub open spec fn word_of(pattern: Seq<char>) -> Seq<char> {
    pattern.subrange(2, pattern.len() - 2)
}

/// Whether a text is the search pattern for a word that can be searched
/// for.
pub open spec fn is_word_pattern(pattern: Seq<char>) -> bool {
    pattern.len() >= 4 && is_word(word_of(pattern)) && pattern == pattern_of(word_of(pattern))
}

/// What the `regex` crate answers when it is asked whether a pattern that
/// it has accepted is found in a text. Outside ASCII the crate decides by
/// the Unicode tables what belongs to a word.
pub uninterp spec fn pattern_found(pattern: Seq<char>, text: Seq<char>) -> bool;

/// Whether `text` refers to `word`: in an ASCII text, whether the word
/// occurs in it as a whole word; in any other text, what the search for the
/// pattern of the word answers.
pub open spec fn refers_to(word: Seq<char>, text: Seq<char>) -> bool {
    if is_ascii_text(text) {
        occurs_as_word(word, text)
    } else {
        pattern_found(pattern_of(word), text)
    }
}

/// Whether one of the texts refers to the name.
pub open spec fn referred_to(name: Seq<char>, texts: Seq<Seq<char>>) -> bool {
    exists|j: int| 0 <= j < texts.len() && refers_to(name, #[trigger] texts[j])
}

/// The names among the first `count` of the schema that the texts refer to,
/// in the order of the schema.
pub open spec fn required_among(schema: Seq<Seq<char>>, texts: Seq<Seq<char>>, count: int) -> Seq<
    Seq<char>,
>
    decreases count,
{
    if count <= 0 {
        Seq::empty()
    } else if referred_to(schema[count - 1], texts) {
        required_among(schema, texts, count - 1).push(schema[count - 1])
    } else {
        required_among(schema, texts, count - 1)
    }
}

/// The names of the schema that the texts refer to, in the order of the
/// schema.
pub open spec fn required(schema: Seq<Seq<char>>, texts: Seq<Seq<char>>) -> Seq<Seq<char>> {
    required_among(schema, texts, schema.len() as int)
}

/// A name does not occur as a whole word in a longer identifier: `type`
/// does not occur in `locationType`.
pub proof fn lemma_hidden_in_longer_identifier(word: Seq<char>, identifier: Seq<char>)
    requires
        is_word(word),
        is_word(identifier),
        identifier != word,
    ensures
        !occurs_as_word(word, identifier),
{
    assert forall|at: int| !stands_at(word, identifier, at) by {
        if 0 <= at && at + word.len() <= identifier.len() && identifier.subrange(
            at,
            at + word.len(),
        ) == word {
            if at == 0 && at + word.len() == identifier.len() {
                assert(identifier.subrange(0, identifier.len() as int) =~= identifier);
            }
        }
    }
}

/// A name occurs as a whole word where nothing but characters that are no
/// letter, digit or underscore stands around it: `type` occurs in `type + 1`.
pub proof fn lemma_found_between_separators(word: Seq<char>, before: Seq<char>, after: Seq<char>)
    requires
        before.len() == 0 || !is_name_part(before.last()),
        after.len() == 0 || !is_name_part(after.first()),
    ensures
        occurs_as_word(word, before + word + after),
{
    let text = before + word + after;
    let at = before.len() as int;
    assert(text.subrange(at, at + word.len()) =~= word);
    assert(stands_at(word, text, at));
}

/// A name of the schema that the texts refer to is among the required
/// names.
pub proof fn lemma_referred_is_required(
    names: Seq<Seq<char>>,
    texts: Seq<Seq<char>>,
    j: int,
    count: int,
) -> (i: int)
    requires
        0 <= j < count <= names.len(),
        referred_to(names[j], texts),
    ensures
        0 <= i < required_among(names, texts, count).len(),
        required_among(names, texts, count)[i] == names[j],
    decreases count,
{
    if j == count - 1 {
        required_among(names, texts, count).len() - 1
    } else {
        lemma_referred_is_required(names, texts, j, count - 1)
    }
}

/// Every required name is a name of the schema that the texts refer to.
pub proof fn lemma_required_is_referred(
    names: Seq<Seq<char>>,
    texts: Seq<Seq<char>>,
    count: int,
    i: int,
) -> (j: int)
    requires
        count <= names.len(),
        0 <= i < required_among(names, texts, count).len(),
    ensures
        0 <= j < count,
        names[j] == required_among(names, texts, count)[i],
        referred_to(names[j], texts),
    decreases count,
{
    if referred_to(names[count - 1], texts) && i == required_among(names, texts, count).len() - 1 {
        count - 1
    } else {
        lemma_required_is_referred(names, texts, count - 1, i)
    }
}

/// Whether every name of the schema can be searched for.
pub open spec fn all_words(schema: Seq<Seq<char>>) -> bool {
    forall|i: int| 0 <= i < schema.len() ==> is_word(#[trigger] schema[i])
}

/// What a run of answers decides, one answer for each text in order: the
/// first answer that is a hit or a refusal, and no hit if there is none.
/// `None` is a refusal.
pub open spec fn decided(answers: Seq<Option<bool>>) -> Option<bool>
    decreases answers.len(),
{
    if answers.len() == 0 {
        Some(false)
    } else if answers[0] == Some(false) {
        decided(answers.drop_first())
    } else {
        answers[0]
    }
}

/// Whether one of the first `count` names has a refusal for its mark.
pub open spec fn refused_among(marks: Seq<Option<bool>>, count: int) -> bool {
    exists|j: int| 0 <= j < count && j < marks.len() && (#[trigger] marks[j]) is None
}

/// The names among the first `count` whose mark is a hit, in their order. A
/// name without a mark counts as not hit.
pub open spec fn marked_among(names: Seq<Seq<char>>, marks: Seq<Option<bool>>, count: int) -> Seq<
    Seq<char>,
>
    decreases count,
{
    if count <= 0 {
        Seq::empty()
    } else if count <= marks.len() && marks[count - 1] == Some(true) {
        marked_among(names, marks, count - 1).push(names[count - 1])
    } else {
        marked_among(names, marks, count - 1)
    }
}

/// What the marks of a schema select, one mark for each name in order: no
/// name if one of them cannot be searched for; no name if the search for
/// one of them was refused; otherwise the names whose mark is a hit.
pub open spec fn selection(schema: Seq<Seq<char>>, marks: Seq<Option<bool>>) -> Result<
    Seq<Seq<char>>,
    ResolveError,
> {
    if !all_words(schema) {
        Err(ResolveError::InvalidFieldName)
    } else if refused_among(marks, schema.len() as int) {
        Err(ResolveError::PatternRejected)
    } else {
        Ok(marked_among(schema, marks, schema.len() as int))
    }
}

/// Whether the marks say of each of the first `count` names whether the
/// texts refer to it.
pub open spec fn marks_agree(
    schema: Seq<Seq<char>>,
    texts: Seq<Seq<char>>,
    marks: Seq<Option<bool>>,
    count: int,
) -> bool {
    count <= marks.len() && forall|j: int|
        0 <= j < count ==> #[trigger] marks[j] == Some(referred_to(schema[j], texts))
}

/// With marks that say which names the texts refer to, the marked names are
/// the required ones.
pub proof fn lemma_marked_are_required(
    schema: Seq<Seq<char>>,
    texts: Seq<Seq<char>>,
    marks: Seq<Option<bool>>,
    count: int,
)
    requires
        marks_agree(schema, texts, marks, count),
    ensures
        marked_among(schema, marks, count) == required_among(schema, texts, count),
    decreases count,
{
    if count > 0 {
        lemma_marked_are_required(schema, texts, marks, count - 1);
    }
}

/// With marks that say which names the texts refer to, the selection is the
/// required names.
pub proof fn lemma_selection_is_required(
    schema: Seq<Seq<char>>,
    texts: Seq<Seq<char>>,
    marks: Seq<Option<bool>>,
)
    requires
        all_words(schema),
        marks_agree(schema, texts, marks, schema.len() as int),
    ensures
        selection(schema, marks) == Ok::<Seq<Seq<char>>, ResolveError>(required(schema, texts)),
{
    lemma_marked_are_required(schema, texts, marks, schema.len() as int);
}

/// With a hit for every name, the marked names are all the names.
pub proof fn lemma_all_hits_mark_all(names: Seq<Seq<char>>, marks: Seq<Option<bool>>, count: int)
    requires
        0 <= count <= names.len(),
        count <= marks.len(),
        forall|j: int| 0 <= j < count ==> #[trigger] marks[j] == Some(true),
    ensures
        marked_among(names, marks, count) == names.subrange(0, count),
    decreases count,
{
    if count > 0 {
        lemma_all_hits_mark_all(names, marks, count - 1);
        assert(names.subrange(0, count - 1).push(names[count - 1]) =~= names.subrange(0, count));
    } else {
        assert(names.subrange(0, 0) =~= Seq::<Seq<char>>::empty());
    }
}

/// With a hit for every name, a schema of names that can be searched for
/// selects itself.
pub proof fn lemma_all_hits_select_all(schema: Seq<Seq<char>>, marks: Seq<Option<bool>>)
    requires
        all_words(schema),
        marks.len() == schema.len(),
        forall|j: int| 0 <= j < marks.len() ==> #[trigger] marks[j] == Some(true),
    ensures
        selection(schema, marks) == Ok::<Seq<Seq<char>>, ResolveError>(schema),
{
    lemma_all_hits_mark_all(schema, marks, schema.len() as int);
    assert(schema.subrange(0, schema.len() as int) =~= schema);
}

/// Answers that are no hit, followed by one more answer, decide what that
/// answer says.
pub proof fn lemma_last_answer_decides(answers: Seq<Option<bool>>)
    requires
        answers.len() > 0,
        forall|i: int| 0 <= i < answers.len() - 1 ==> #[trigger] answers[i] == Some(false),
    ensures
        decided(answers) == answers.last(),
    decreases answers.len(),
{
    if answers.len() > 1 {
        let rest = answers.drop_first();
        assert(rest.last() == answers.last());
        lemma_last_answer_decides(rest);
    } else {
        assert(decided(answers.drop_first()) == Some(false));
    }
}

/// Writes the search pattern for a word.
pub fn word_pattern(word: &str) -> (pattern: String)
    ensures
        pattern@ == pattern_of(word@),
{
    proof {
        reveal_strlit("\\b");
    }
    let mut pattern = String::from_str("\\b");
    pattern.append(word);
    pattern.append("\\b");
    assert(pattern@ =~= pattern_of(word@));
    pattern
}

/// `regex::Regex::new` on the pattern, then `Regex::is_match` on the text.
/// The pattern asks for a word between two word boundaries, and a word
/// boundary is a place with a word character on one side only. In ASCII the
/// word characters are the letters, the digits and the underscore. `None`
/// says that the crate refused the pattern; whether it does depends on the
/// machine as well as on the pattern, so nothing is said of it.
#[verifier::external_body]
fn search(pattern: &str, text: &str) -> (found: Option<bool>)
    requires
        is_word_pattern(pattern@),
    ensures
        found matches Some(hit) ==> hit == (if is_ascii_text(text@) {
            occurs_as_word(word_of(pattern@), text@)
        } else {
            pattern_found(pattern@, text@)
        }),
{
    match regex::Regex::new(pattern) {
        Ok(compiled) => Some(compiled.is_match(text)),
        Err(_) => None,
    }
}

fn name_part(c: char) -> (b: bool)
    ensures
        b == is_name_part(c),
{
    ('a' <= c && c <= 'z') || ('A' <= c && c <= 'Z') || c == '_' || ('0' <= c && c <= '9')
}

/// Whether a name can be searched for.
pub fn searchable(name: &str) -> (b: bool)
    ensures
        b == is_word(name@),
{
    let chars = characters(name);
    if chars.len() == 0 {
        return false;
    }
    let mut at: usize = 0;
    while at < chars.len()
        invariant
            chars@ == name@,
            at <= chars.len(),
            forall|i: int| 0 <= i < at ==> is_name_part(#[trigger] name@[i]),
        decreases chars.len() - at,
    {
        if !name_part(chars[at]) {
            return false;
        }
        at = at + 1;
    }
    true
}

fn all_searchable(schema: &Vec<String>) -> (b: bool)
    ensures
        b == all_words(schema.deep_view()),
{
    let mut at: usize = 0;
    while at < schema.len()
        invariant
            at <= schema.len(),
            forall|i: int| 0 <= i < at ==> is_word(#[trigger] schema.deep_view()[i]),
        decreases schema.len() - at,
    {
        assert(schema.deep_view()[at as int] == schema@[at as int]@);
        if !searchable(schema[at].as_str()) {
            return false;
        }
        at = at + 1;
    }
    true
}

/// Whether a text refers to a word, or `None` if the search was refused.
fn search_word(word: &str, text: &str) -> (found: Option<bool>)
    requires
        is_word(word@),
    ensures
        found matches Some(hit) ==> hit == refers_to(word@, text@),
{
    let pattern = word_pattern(word);
    assert(word_of(pattern@) =~= word@);
    search(pattern.as_str(), text)
}

/// Decides from a run of answers, one for each text in order, whether the
/// texts refer to a name: the first hit or refusal decides.
pub fn decide(answers: &Vec<Option<bool>>) -> (verdict: Option<bool>)
    ensures
        verdict == decided(answers@),
{
    let mut at: usize = 0;
    assert(answers@.subrange(0, answers.len() as int) =~= answers@);
    while at < answers.len()
        invariant
            at <= answers.len(),
            decided(answers@) == decided(answers@.subrange(at as int, answers.len() as int)),
        decreases answers.len() - at,
    {
        let ghost rest = answers@.subrange(at as int, answers.len() as int);
        assert(rest.drop_first() =~= answers@.subrange(at as int + 1, answers.len() as int));
        match answers[at] {
            Some(false) => {},
            other => {
                return other;
            },
        }
        at = at + 1;
    }
    Some(false)
}

/// Asks of each text in turn whether it refers to the name, up to the first
/// hit or refusal, and decides from the answers.
fn referred(name: &str, texts: &Vec<String>) -> (verdict: Option<bool>)
    requires
        is_word(name@),
    ensures
        verdict matches Some(b) ==> b == referred_to(name@, texts.deep_view()),
        verdict is None ==> texts.len() > 0,
{
    let mut answers: Vec<Option<bool>> = Vec::new();
    let mut at: usize = 0;
    while at < texts.len()
        invariant
            is_word(name@),
            at <= texts.len(),
            answers.len() == at,
            forall|j: int| 0 <= j < at ==> #[trigger] answers@[j] == Some(false),
            forall|j: int| 0 <= j < at ==> !refers_to(name@, #[trigger] texts.deep_view()[j]),
        decreases texts.len() - at,
    {
        assert(texts.deep_view()[at as int] == texts@[at as int]@);
        let answer = search_word(name, texts[at].as_str());
        answers.push(answer);
        match answer {
            Some(false) => {},
            _ => {
                proof {
                    lemma_last_answer_decides(answers@);
                }
                return decide(&answers);
            },
        }
        at = at + 1;
    }
    proof {
        if answers.len() > 0 {
            lemma_last_answer_decides(answers@);
        }
    }
    decide(&answers)
}

/// Asks for each name of the schema whether the texts refer to it, up to
/// the first refusal. A schema with a name that cannot be searched for is
/// not searched at all.
pub(crate) fn ask(expression_texts: &Vec<String>, schema: &Vec<String>) -> (marks: Vec<
    Option<bool>,
>)
    ensures
        marks.len() <= schema.len(),
        !all_words(schema.deep_view()) ==> marks.len() == 0,
        forall|j: int|
            0 <= j < marks.len() ==> ((#[trigger] marks@[j]) matches Some(b) ==> b == referred_to(
                schema.deep_view()[j],
                expression_texts.deep_view(),
            )),
        forall|j: int| 0 <= j < marks.len() - 1 ==> (#[trigger] marks@[j]) is Some,
        all_words(schema.deep_view()) ==> marks.len() == schema.len() || (marks.len() > 0
            && marks@.last() is None),
        expression_texts.len() == 0 ==> forall|j: int|
            0 <= j < marks.len() ==> (#[trigger] marks@[j]) is Some,
{
    let mut marks: Vec<Option<bool>> = Vec::new();
    if !all_searchable(schema) {
        return marks;
    }
    let mut at: usize = 0;
    while at < schema.len()
        invariant
            at <= schema.len(),
            marks.len() == at,
            all_words(schema.deep_view()),
            forall|j: int|
                0 <= j < at ==> (#[trigger] marks@[j]) == Some(
                    referred_to(schema.deep_view()[j], expression_texts.deep_view()),
                ),
        decreases schema.len() - at,
    {
        assert(schema.deep_view()[at as int] == schema@[at as int]@);
        let mark = referred(schema[at].as_str(), expression_texts);
        marks.push(mark);
        if mark.is_none() {
            return marks;
        }
        at = at + 1;
    }
    marks
}

/// Picks from a schema the names whose mark is a hit, in the order of the
/// schema. There is one mark for each name, in order: whether the texts
/// refer to the name, or `None` if the search for it was refused. A schema
/// with a name that cannot be searched for selects nothing, and neither
/// does one with a refusal among its marks.
pub fn select(schema: &Vec<String>, marks: &Vec<Option<bool>>) -> (r: Result<
    Vec<String>,
    ResolveError,
>)
    ensures
        match r {
            Ok(names) => selection(schema.deep_view(), marks@) == Ok::<
                Seq<Seq<char>>,
                ResolveError,
            >(names.deep_view()),
            Err(e) => selection(schema.deep_view(), marks@) == Err::<Seq<Seq<char>>, ResolveError>(
                e,
            ),
        },
{
    if !all_searchable(schema) {
        return Err(ResolveError::InvalidFieldName);
    }
    let mut names: Vec<String> = Vec::new();
    let mut at: usize = 0;
    while at < schema.len()
        invariant
            at <= schema.len(),
            all_words(schema.deep_view()),
            !refused_among(marks@, at as int),
            names.deep_view() == marked_among(schema.deep_view(), marks@, at as int),
        decreases schema.len() - at,
    {
        assert(schema.deep_view()[at as int] == schema@[at as int]@);
        if at < marks.len() {
            match marks[at] {
                Some(true) => {
                    let ghost before = names.deep_view();
                    names.push(schema[at].clone());
                    assert(names.deep_view() =~= before.push(schema@[at as int]@));
                },
                Some(false) => {},
                None => {
                    assert(marks@[at as int] is None);
                    return Err(ResolveError::PatternRejected);
                },
            }
        }
        at = at + 1;
    }
    Ok(names)
}

/// Picks from a schema the names that the expression texts refer to, in the
/// order of the schema.
///
/// A schema with a name that cannot be searched for is refused before any
/// search is made. With no text to search, or no name to search for, the
/// answer is owed; otherwise the search may be refused, and [`select`] says
/// what is returned for each answer of the search.
pub fn bindings_required(expression_texts: &Vec<String>, schema: &Vec<String>) -> (r: Result<
    Vec<String>,
    ResolveError,
>)
    ensures
        match r {
            Ok(names) => all_words(schema.deep_view()) && names.deep_view() == required(
                schema.deep_view(),
                expression_texts.deep_view(),
            ),
            Err(ResolveError::InvalidFieldName) => !all_words(schema.deep_view()),
            Err(ResolveError::PatternRejected) => all_words(schema.deep_view())
                && expression_texts.len() > 0 && schema.len() > 0,
        },
{
    let marks = ask(expression_texts, schema);
    proof {
        if all_words(schema.deep_view()) {
            lemma_asked_marks(schema.deep_view(), expression_texts.deep_view(), marks@);
        }
    }
    select(schema, &marks)
}

/// What the marks that a search gives select: the required names, unless
/// one of the marks is a refusal.
pub proof fn lemma_asked_marks(
    schema: Seq<Seq<char>>,
    texts: Seq<Seq<char>>,
    marks: Seq<Option<bool>>,
)
    requires
        all_words(schema),
        marks.len() <= schema.len(),
        forall|j: int|
            0 <= j < marks.len() ==> ((#[trigger] marks[j]) matches Some(b) ==> b == referred_to(
                schema[j],
                texts,
            )),
        marks.len() == schema.len() || (marks.len() > 0 && marks.last() is None),
    ensures
        selection(schema, marks) matches Ok(names) ==> names == required(schema, texts),
{
    if !refused_among(marks, schema.len() as int) {
        if marks.len() > 0 && marks.last() is None {
            assert(marks[marks.len() - 1] is None);
        }
        assert(marks_agree(schema, texts, marks, schema.len() as int));
        lemma_selection_is_required(schema, texts, marks);
    }
}

} // verus!
