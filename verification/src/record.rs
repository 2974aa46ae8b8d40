//! One line of a key file: a comment, a placeholder, some other record, or a key binding.

use vstd::prelude::*;
use crate::callback::{callback_for, lemma_callback_for_consistent, Callback, CallbackView};
use crate::error::{LineError, LineErrorView};
use crate::number::{convert_number, number_value};
use crate::text::{is_whitespace, lemma_run_len, run_len, slice_views, tokenize, tokens};

verus! {

/// The numeric field at place `k` among the tokens of a line.
pub open spec fn field_value(toks: Seq<Seq<char>>, k: int) -> Result<u16, LineErrorView> {
    if k >= toks.len() {
        Err(LineErrorView::TooFewTokens)
    } else {
        match number_value(toks[k]) {
            Some(v) => Ok(v),
            None => Err(LineErrorView::BadNumber(toks[k])),
        }
    }
}

/// The four numeric fields of a binding, which stand behind the kind of
/// record: key code, modifier mask, combo key code, combo modifier mask. They
/// are read from left to right, and the first that fails decides the error.
pub open spec fn binding_fields(toks: Seq<Seq<char>>) -> Result<
    (u16, u16, u16, u16),
    LineErrorView,
> {
    match (
        field_value(toks, 3),
        field_value(toks, 4),
        field_value(toks, 5),
        field_value(toks, 6),
    ) {
        (Err(e), _, _, _) => Err(e),
        (_, Err(e), _, _) => Err(e),
        (_, _, Err(e), _) => Err(e),
        (_, _, _, Err(e)) => Err(e),
        (Ok(key_code), Ok(modifier_mask), Ok(combo_key_code), Ok(combo_modifier_mask)) => Ok(
            (key_code, modifier_mask, combo_key_code, combo_modifier_mask),
        ),
    }
}

/// What the tokens of a line say, for a line that is neither a comment nor a
/// placeholder. The first token is the name and the third tells the kind of
/// record: 0 for a key binding, anything else for a record that is passed
/// over, whatever else the line holds.
pub open spec fn binding_record(toks: Seq<Seq<char>>) -> Result<
    Option<CallbackView>,
    LineErrorView,
> {
    match field_value(toks, 2) {
        Err(e) => Err(e),
        Ok(kind) => if kind != 0 {
            Ok(None)
        } else {
            match binding_fields(toks) {
                Err(e) => Err(e),
                Ok((key_code, modifier_mask, combo_key_code, combo_modifier_mask)) => Ok(
                    Some(
                        callback_for(
                            toks[0],
                            key_code,
                            modifier_mask,
                            combo_key_code,
                            combo_modifier_mask,
                        ),
                    ),
                ),
            }
        },
    }
}

/// Whether the first token marks the line as a comment.
pub open spec fn is_comment(first: Seq<char>) -> bool {
    first.len() > 0 && first[0] == '#'
}

/// Whether the first token marks the line as a placeholder that binds nothing.
pub open spec fn is_placeholder_name(first: Seq<char>) -> bool {
    first == "SimDoNothing"@
}

/// What a line contributes: nothing (`Ok(None)`) if it is empty, a comment, a
/// placeholder or a record of another kind; a callback if it is a key binding;
/// an error if it is malformed.
pub open spec fn line_record(line: Seq<char>) -> Result<Option<CallbackView>, LineErrorView> {
    let toks = tokens(line);
    if line.len() == 0 {
        Ok(None)
    } else if toks.len() == 0 {
        Err(LineErrorView::TooFewTokens)
    } else if is_comment(toks[0]) || is_placeholder_name(toks[0]) {
        Ok(None)
    } else {
        binding_record(toks)
    }
}

/// The outcome of reading a numeric field, as a mathematical value.
pub open spec fn field_view(field: Result<u16, LineError>) -> Result<u16, LineErrorView> {
    match field {
        Ok(v) => Ok(v),
        Err(e) => Err(e@),
    }
}

/// The outcome of reading a line, as a mathematical value.
pub open spec fn record_view(record: Result<Option<Callback>, LineError>) -> Result<
    Option<CallbackView>,
    LineErrorView,
> {
    match record {
        Ok(Some(callback)) => Ok(Some(callback@)),
        Ok(None) => Ok(None),
        Err(e) => Err(e@),
    }
}

/// Every token has at least one character, and none of its characters is whitespace.
pub proof fn lemma_tokens_solid(s: Seq<char>, k: int)
    requires
        0 <= k < tokens(s).len(),
    ensures
        tokens(s)[k].len() > 0,
        forall|i: int| 0 <= i < tokens(s)[k].len() ==> !is_whitespace(#[trigger] tokens(s)[k][i]),
    decreases s.len(),
{
    if s.len() == 0 {
    } else if is_whitespace(s[0]) {
        lemma_tokens_solid(s.drop_first(), k);
    } else {
        lemma_run_len(s);
        if k > 0 {
            lemma_tokens_solid(s.skip(run_len(s) as int), k - 1);
        }
    }
}

/// The first token of a line begins with the line's first character that is not whitespace.
pub proof fn lemma_first_token(line: Seq<char>, at: int)
    requires
        0 <= at < line.len(),
        !is_whitespace(line[at]),
        forall|j: int| 0 <= j < at ==> is_whitespace(#[trigger] line[j]),
    ensures
        tokens(line).len() > 0,
        tokens(line)[0].len() > 0,
        tokens(line)[0][0] == line[at],
    decreases at,
{
    if at == 0 {
        lemma_run_len(line);
    } else {
        assert(is_whitespace(line[0]));
        let rest = line.drop_first();
        assert forall|j: int| 0 <= j < at - 1 implies is_whitespace(#[trigger] rest[j]) by {
            assert(rest[j] == line[j + 1]);
        }
        lemma_first_token(rest, at - 1);
    }
}

/// A line whose first character that is not whitespace is `#` contributes nothing.
pub proof fn lemma_comment_contributes_nothing(line: Seq<char>, at: int)
    requires
        0 <= at < line.len(),
        line[at] == '#',
        forall|j: int| 0 <= j < at ==> is_whitespace(#[trigger] line[j]),
    ensures
        line_record(line) == Ok::<Option<CallbackView>, LineErrorView>(None),
{
    lemma_first_token(line, at);
}

/// A line whose first token is exactly `SimDoNothing` contributes nothing.
pub proof fn lemma_placeholder_contributes_nothing(line: Seq<char>)
    requires
        tokens(line).len() > 0,
        tokens(line)[0] == "SimDoNothing"@,
    ensures
        line_record(line) == Ok::<Option<CallbackView>, LineErrorView>(None),
{
}

/// The callback of a binding line has the line's first token as its name and is consistent.
pub proof fn lemma_binding_consistent(line: Seq<char>)
    ensures
        line_record(line) matches Ok(Some(callback)) ==> callback.name == tokens(line)[0]
            && callback.consistent(),
{
    if let Ok(Some(callback)) = line_record(line) {
        let toks = tokens(line);
        lemma_callback_for_consistent(
            toks[0],
            field_value(toks, 3)->Ok_0,
            field_value(toks, 4)->Ok_0,
            field_value(toks, 5)->Ok_0,
            field_value(toks, 6)->Ok_0,
        );
    }
}

/// Reads the numeric field at place `k`.
fn field(toks: &Vec<&str>, k: usize) -> (value: Result<u16, LineError>)
    ensures
        field_view(value) == field_value(slice_views(toks@), k as int),
{
    if k >= toks.len() {
        return Err(LineError::TooFewTokens);
    }
    match convert_number(toks[k]) {
        Some(v) => Ok(v),
        None => Err(LineError::BadNumber(toks[k].to_owned())),
    }
}

/// Reads the fields of a binding record and assembles its callback.
fn binding(toks: &Vec<&str>) -> (record: Result<Option<Callback>, LineError>)
    ensures
        record_view(record) == binding_record(slice_views(toks@)),
{
    let kind = field(toks, 2)?;
    if kind != 0 {
        return Ok(None);
    }
    let key_code = field(toks, 3)?;
    let modifier_mask = field(toks, 4)?;
    let combo_key_code = field(toks, 5)?;
    let combo_modifier_mask = field(toks, 6)?;
    Ok(
        Some(
            Callback::new(
                toks[0].to_owned(),
                key_code,
                modifier_mask,
                combo_key_code,
                combo_modifier_mask,
            ),
        ),
    )
}

/// Reads one line of a key file.
pub fn parse_line(line: &str) -> (record: Result<Option<Callback>, LineError>)
    ensures
        record_view(record) == line_record(line@),
{
    if line.is_empty() {
        return Ok(None);
    }
    let toks = tokenize(line);
    if toks.len() == 0 {
        return Err(LineError::TooFewTokens);
    }
    let first: &str = toks[0];
    proof {
        lemma_tokens_solid(line@, 0);
    }
    if first.get_char(0) == '#' {
        return Ok(None);
    }
    let name = first.to_owned();
    let placeholder = "SimDoNothing".to_owned();
    if name == placeholder {
        return Ok(None);
    }
    binding(&toks)
}

} // verus!
