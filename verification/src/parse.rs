//! From the lines of a log to its records.

use crate::classify::{classified, classify};
use crate::error::{ErrorView, OracleError};
use crate::json::{json_document, parse_document};
use crate::record::{input_views, InputView, SDKInput};
use crate::text::{blank, is_blank};
use vstd::prelude::*;

verus! {

/// The texts of a sequence of lines.
pub open spec fn line_views(lines: Seq<&str>) -> Seq<Seq<char>> {
    lines.map_values(|line: &str| line@)
}

/// The record that the line at index `line` spells, or why it spells none.
pub open spec fn parsed_line(text: Seq<char>, line: int) -> Result<InputView, ErrorView> {
    match json_document(text) {
        Some(document) => match classified(document) {
            Ok(input) => Ok(input),
            Err(fault) => Err(ErrorView::Shape { line, fault }),
        },
        None => Err(ErrorView::Syntax { line }),
    }
}

/// The records that `lines` spell, in the order of the lines, with blank
/// lines passed over; or the fault of the first line that is not blank and
/// spells none.
pub open spec fn parsed(lines: Seq<Seq<char>>) -> Result<Seq<InputView>, ErrorView>
    decreases lines.len(),
{
    if lines.len() == 0 {
        Ok(Seq::empty())
    } else {
        match parsed(lines.drop_last()) {
            Ok(records) => if blank(lines.last()) {
                Ok(records)
            } else {
                match parsed_line(lines.last(), lines.len() - 1) {
                    Ok(input) => Ok(records.push(input)),
                    Err(e) => Err(e),
                }
            },
            Err(e) => Err(e),
        }
    }
}

/// Reads one record from one line that is not blank.
pub fn parse_line(text: &str, line: usize) -> (r: Result<SDKInput, OracleError>)
    ensures
        match parsed_line(text@, line as int) {
            Ok(input) => r matches Ok(x) && x@ == input,
            Err(e) => r matches Err(x) && x@ == e,
        },
{
    match parse_document(text) {
        Ok(document) => match classify(document) {
            Ok(input) => Ok(input),
            Err(fault) => Err(OracleError::Shape { line, fault }),
        },
        Err(cause) => Err(OracleError::Syntax { line, cause }),
    }
}

/// Reads the records of a log from its lines.
///
/// Blank lines, which hold nothing but spaces, tabs, carriage returns and
/// line feeds, are passed over. The first other line that is not JSON, or
/// is JSON but no record, fails the whole log.
pub fn parse_lines(lines: Vec<&str>) -> (r: Result<Vec<SDKInput>, OracleError>)
    ensures
        match parsed(line_views(lines@)) {
            Ok(records) => r matches Ok(v) && input_views(v@) == records,
            Err(e) => r matches Err(x) && x@ == e,
        },
{
    let ghost texts = line_views(lines@);
    let mut result: Vec<SDKInput> = Vec::new();
    let mut i: usize = 0;
    proof {
        assert(input_views(result@) == Seq::<InputView>::empty());
    }
    while i < lines.len()
        invariant
            i <= lines.len(),
            texts == line_views(lines@),
            parsed(texts.take(i as int)) == Ok::<Seq<InputView>, ErrorView>(input_views(result@)),
        decreases lines.len() - i,
    {
        let text: &str = lines[i];
        proof {
            assert(texts.take(i + 1).drop_last() == texts.take(i as int));
            assert(texts.take(i + 1).last() == text@);
        }
        if !is_blank(text) {
            match parse_line(text, i) {
                Ok(input) => {
                    proof {
                        assert(input_views(result@.push(input)) == input_views(result@).push(input@));
                    }
                    result.push(input);
                },
                Err(e) => {
                    proof {
                        lemma_fault_stays(texts, i + 1);
                    }
                    return Err(e);
                },
            }
        }
        i += 1;
    }
    proof {
        assert(texts.take(i as int) == texts);
    }
    Ok(result)
}

/// A fault in the first `n` lines is the fault of the whole log.
pub proof fn lemma_fault_stays(lines: Seq<Seq<char>>, n: int)
    requires
        0 <= n <= lines.len(),
        parsed(lines.take(n)) is Err,
    ensures
        parsed(lines) == parsed(lines.take(n)),
    decreases lines.len() - n,
{
    if n < lines.len() {
        assert(lines.take(n + 1).drop_last() == lines.take(n));
        lemma_fault_stays(lines, n + 1);
    } else {
        assert(lines.take(n) == lines);
    }
}

/// Reading fails exactly if some line that is not blank spells no record,
/// and the fault is that of the first such line.
pub proof fn lemma_fails_only_on_bad_line(lines: Seq<Seq<char>>)
    ensures
        parsed(lines) is Err <==> exists|i: int|
            0 <= i < lines.len() && !blank(#[trigger] lines[i]) && parsed_line(lines[i], i) is Err,
        parsed(lines) matches Err(e) ==> exists|i: int|
            0 <= i < lines.len() && !blank(#[trigger] lines[i]) && parsed_line(lines[i], i) == Err::<
                InputView,
                ErrorView,
            >(e) && forall|j: int|
                0 <= j < i && !blank(#[trigger] lines[j]) ==> parsed_line(lines[j], j) is Ok,
    decreases lines.len(),
{
    if lines.len() > 0 {
        let before = lines.drop_last();
        let n = lines.len() - 1;
        lemma_fails_only_on_bad_line(before);
        assert forall|j: int| 0 <= j < n implies before[j] == lines[j] by {}
        assert(lines[n] == lines.last());
        if parsed(before) is Err {
            let e = parsed(before)->Err_0;
            let i = choose|i: int|
                0 <= i < before.len() && !blank(#[trigger] before[i]) && parsed_line(before[i], i)
                    == Err::<InputView, ErrorView>(e) && forall|j: int|
                    0 <= j < i && !blank(#[trigger] before[j]) ==> parsed_line(before[j], j) is Ok;
            assert(before[i] == lines[i]);
            assert forall|j: int| 0 <= j < i && !blank(#[trigger] lines[j]) implies parsed_line(
                lines[j],
                j,
            ) is Ok by {
                assert(before[j] == lines[j]);
            }
            assert(!blank(lines[i]) && parsed_line(lines[i], i) is Err);
        } else {
            assert forall|j: int| 0 <= j < n && !blank(#[trigger] lines[j]) implies parsed_line(
                lines[j],
                j,
            ) is Ok by {
                assert(before[j] == lines[j]);
                if parsed_line(before[j], j) is Err {
                    assert(!blank(before[j]));
                }
            }
            if !blank(lines[n]) && parsed_line(lines[n], n) is Err {
                assert(parsed(lines) is Err);
            } else {
                assert(parsed(lines) is Ok);
                assert forall|i: int|
                    0 <= i < lines.len() && !blank(#[trigger] lines[i]) implies parsed_line(
                    lines[i],
                    i,
                ) is Ok by {}
            }
        }
    }
}

/// Blank lines do not count: a blank line more at the end of a log changes
/// neither its records nor its fault.
pub proof fn lemma_blank_line_adds_nothing(lines: Seq<Seq<char>>, line: Seq<char>)
    requires
        blank(line),
    ensures
        parsed(lines.push(line)) == parsed(lines),
{
    assert(lines.push(line).drop_last() == lines);
}

} // verus!
