//! A whole key file: the lines of a stream, read into a registry.

use vstd::prelude::*;
use crate::callback::{all_consistent, Callback, CallbackView};
use crate::error::{KeyFileError, KeyFileErrorView, LineErrorView};
use crate::keyfile::{callback_views, description, FalconKeyfile, KeyfileView};
use crate::registry::{
    distinct_names, lemma_registry_distinct, lemma_registry_members, lemma_registry_of_distinct,
    registry,
};
use crate::number::decimal_text;
use crate::record::{lemma_binding_consistent, line_record, parse_line};

verus! {

/// What the item at place `number` of a stream contributes, counting from 1:
/// the record of its line, or the failure to read it, or what is wrong with the line.
pub open spec fn item_record(item: Result<String, std::io::Error>, number: nat) -> Result<
    Option<CallbackView>,
    KeyFileErrorView,
> {
    match item {
        Err(e) => Err(KeyFileErrorView::ReadError(e)),
        Ok(line) => match line_record(line@) {
            Ok(record) => Ok(record),
            Err(cause) => Err(KeyFileErrorView::ParseError { line: number, cause }),
        },
    }
}

/// The error of the first item that has one.
pub open spec fn first_error(items: Seq<Result<String, std::io::Error>>) -> Option<
    KeyFileErrorView,
>
    decreases items.len(),
{
    if items.len() == 0 {
        None
    } else {
        match first_error(items.drop_last()) {
            Some(e) => Some(e),
            None => match item_record(items.last(), items.len()) {
                Err(e) => Some(e),
                Ok(_) => None,
            },
        }
    }
}

/// The callbacks of the binding lines among the items, in the order of the lines.
pub open spec fn bindings(items: Seq<Result<String, std::io::Error>>) -> Seq<CallbackView>
    decreases items.len(),
{
    if items.len() == 0 {
        Seq::empty()
    } else {
        match item_record(items.last(), items.len()) {
            Ok(Some(callback)) => bindings(items.drop_last()).push(callback),
            _ => bindings(items.drop_last()),
        }
    }
}

/// What parsing a stream gives. A stream without items is refused. Otherwise
/// the first item that cannot be read, or whose line is malformed, fails the
/// whole; if there is none, the callbacks of the binding lines are registered
/// in the order of the lines.
pub open spec fn parsed(name: Seq<char>, items: Seq<Result<String, std::io::Error>>) -> Result<
    KeyfileView,
    KeyFileErrorView,
> {
    if items.len() == 0 {
        Err(KeyFileErrorView::Empty)
    } else {
        match first_error(items) {
            Some(e) => Err(e),
            None => Ok(KeyfileView { name, entries: registry(bindings(items)) }),
        }
    }
}

/// The outcome of parsing, as a mathematical value.
pub open spec fn outcome_view(outcome: Result<FalconKeyfile, KeyFileError>) -> Result<
    KeyfileView,
    KeyFileErrorView,
> {
    match outcome {
        Ok(keyfile) => Ok(keyfile@),
        Err(e) => Err(e@),
    }
}

/// Parses the lines of a key file, each as the stream yielded it, into the
/// registry of its callbacks under the given name.
pub fn parse(name: String, lines: Vec<Result<String, std::io::Error>>) -> (outcome: Result<
    FalconKeyfile,
    KeyFileError,
>)
    ensures
        outcome_view(outcome) == parsed(name@, lines@),
        outcome matches Err(KeyFileError::Empty) <==> lines@.len() == 0,
        outcome matches Ok(keyfile) ==> distinct_names(keyfile@.entries) && all_consistent(
            keyfile@.entries,
        ),
{
    if lines.len() == 0 {
        return Err(KeyFileError::Empty);
    }
    let ghost items = lines@;
    proof {
        lemma_first_error_kind(items);
        lemma_parsed_entries(name@, items);
    }
    let mut callbacks: Vec<Callback> = Vec::new();
    let mut number: usize = 0;
    assert(items.take(0) =~= Seq::<Result<String, std::io::Error>>::empty());
    assert(callback_views(callbacks@) =~= bindings(items.take(0)));
    for item in it: lines
        invariant
            it.seq() == items,
            0 < items.len() <= usize::MAX,
            number == it.index(),
            first_error(items.take(it.index())) is None,
            callback_views(callbacks@) == bindings(items.take(it.index())),
    {
        let ghost before = callback_views(callbacks@);
        proof {
            assert(items.take(it.index() + 1).drop_last() =~= items.take(it.index()));
            assert(items.take(it.index() + 1).last() == item);
        }
        number += 1;
        match item {
            Err(e) => {
                proof {
                    lemma_first_error_stays(items, it.index() + 1);
                }
                return Err(KeyFileError::ReadError(e));
            },
            Ok(line) => match parse_line(line.as_str()) {
                Err(cause) => {
                    proof {
                        lemma_first_error_stays(items, it.index() + 1);
                    }
                    return Err(KeyFileError::ParseError { line: number, cause });
                },
                Ok(Some(callback)) => {
                    assert(callback_views(callbacks@.push(callback)) =~= before.push(callback@));
                    callbacks.push(callback);
                },
                Ok(None) => {},
            },
        }
    }
    assert(items.take(items.len() as int) =~= items);
    Ok(FalconKeyfile::new(name, callbacks))
}

/// A line that contributes nothing leaves the bindings of the stream as
/// they are, and adds no error.
pub proof fn lemma_nothing_contributed(items: Seq<Result<String, std::io::Error>>, line: String)
    requires
        line_record(line@) == Ok::<Option<CallbackView>, LineErrorView>(None),
    ensures
        bindings(items.push(Ok(line))) == bindings(items),
        first_error(items.push(Ok(line))) == first_error(items),
{
    assert(items.push(Ok(line)).drop_last() =~= items);
}

/// The first error of a stream is a failure to read or a malformed line,
/// never that the stream is empty.
pub proof fn lemma_first_error_kind(items: Seq<Result<String, std::io::Error>>)
    ensures
        first_error(items) != Some(KeyFileErrorView::Empty),
    decreases items.len(),
{
    if items.len() > 0 {
        lemma_first_error_kind(items.drop_last());
    }
}

/// Every binding of a stream is consistent.
pub proof fn lemma_bindings_consistent(items: Seq<Result<String, std::io::Error>>)
    ensures
        all_consistent(bindings(items)),
    decreases items.len(),
{
    if items.len() > 0 {
        let before = bindings(items.drop_last());
        lemma_bindings_consistent(items.drop_last());
        if let Ok(line) = items.last() {
            lemma_binding_consistent(line@);
        }
        assert forall|i: int| 0 <= i < bindings(items).len() implies (#[trigger] bindings(
            items,
        )[i]).consistent() by {
            if i < before.len() {
                assert(bindings(items)[i] == before[i]);
            }
        }
    }
}

/// In the registry of a parsed stream no two callbacks have the same name,
/// and every callback is consistent.
pub proof fn lemma_parsed_entries(name: Seq<char>, items: Seq<Result<String, std::io::Error>>)
    ensures
        parsed(name, items) matches Ok(keyfile) ==> distinct_names(keyfile.entries)
            && all_consistent(keyfile.entries),
{
    let entries = registry(bindings(items));
    lemma_registry_distinct(bindings(items));
    lemma_registry_members(bindings(items));
    lemma_bindings_consistent(items);
    assert forall|i: int| 0 <= i < entries.len() implies (#[trigger] entries[i]).consistent() by {
        assert(bindings(items).contains(entries[i]));
    }
}

/// The summary of a parsed stream counts its binding lines exactly, where
/// these have names of their own: lines that contribute nothing are not counted.
pub proof fn lemma_description_counts_bindings(
    name: Seq<char>,
    items: Seq<Result<String, std::io::Error>>,
)
    requires
        parsed(name, items) is Ok,
        distinct_names(bindings(items)),
    ensures
        parsed(name, items) matches Ok(keyfile) && keyfile.entries == bindings(items)
            && description(keyfile.name, keyfile.entries.len()) == name + " with "@ + decimal_text(
            bindings(items).len(),
        ) + " callbacks."@,
{
    lemma_registry_of_distinct(bindings(items));
}

/// An error among the first `k` items is the first error of the whole stream.
pub proof fn lemma_first_error_stays(items: Seq<Result<String, std::io::Error>>, k: int)
    requires
        0 <= k <= items.len(),
        first_error(items.take(k)) is Some,
    ensures
        first_error(items) == first_error(items.take(k)),
    decreases items.len() - k,
{
    if k < items.len() {
        assert(items.take(k + 1).drop_last() =~= items.take(k));
        lemma_first_error_stays(items, k + 1);
    } else {
        assert(items.take(k) =~= items);
    }
}

} // verus!
