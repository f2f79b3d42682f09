//! The error-code table: a CSV text of `code,name` rows below one header line.
use vstd::prelude::*;
use std::collections::HashMap;
use crate::text::{
    chars_of, string_from_chars, trim, split_lines, split_once, parse_u32, trim_spec, lines_spec,
    split_once_spec, parse_u32_spec, char_lines_view,
};

verus! {

broadcast use vstd::std_specs::hash::group_hash_axioms;

/// Why an error-code table was refused.
#[derive(Clone, Debug, PartialEq, Eq, Structural)]
pub enum ErrorMapError {
    /// The code on this line (counted from 1, the header being line 1) is not
    /// a decimal number that fits in 32 bits.
    InvalidCode { line: usize },
}

/// The code text and the name of a row, both trimmed, when the trimmed line has a
/// comma; only the first comma separates them.
pub open spec fn row_spec(line: Seq<char>) -> Option<(Seq<char>, Seq<char>)> {
    match split_once_spec(trim_spec(line), ',') {
        Some((code, name)) => Some((trim_spec(code), trim_spec(name))),
        None => None,
    }
}

/// The table that the rows below the header give, read in order: a line
/// without a comma is skipped, a repeated code replaces the earlier name, and
/// the first code that does not parse refuses the whole table.
pub open spec fn error_rows_spec(rows: Seq<Seq<char>>) -> Result<Map<u32, Seq<char>>, ErrorMapError>
    decreases rows.len(),
{
    if rows.len() == 0 {
        Ok(Map::empty())
    } else {
        match error_rows_spec(rows.drop_last()) {
            Err(e) => Err(e),
            Ok(m) => match row_spec(rows.last()) {
                None => Ok(m),
                Some((code, name)) => match parse_u32_spec(code) {
                    Some(c) => Ok(m.insert(c, name)),
                    None => Err(ErrorMapError::InvalidCode { line: (rows.len() + 1) as usize }),
                },
            },
        }
    }
}

/// The table that a CSV text gives: its first line is a header and is skipped.
pub open spec fn error_map_spec(text: Seq<char>) -> Result<Map<u32, Seq<char>>, ErrorMapError> {
    let lines = lines_spec(text);
    if lines.len() == 0 {
        Ok(Map::empty())
    } else {
        error_rows_spec(lines.drop_first())
    }
}

/// Once a prefix of the rows is refused, the whole table is refused the same way.
proof fn lemma_error_rows_refused(rows: Seq<Seq<char>>, k: int)
    requires
        0 <= k <= rows.len(),
        error_rows_spec(rows.take(k)) is Err,
    ensures
        error_rows_spec(rows) == error_rows_spec(rows.take(k)),
    decreases rows.len() - k,
{
    if k == rows.len() {
        assert(rows.take(k) =~= rows);
    } else {
        assert(rows.take(k + 1).drop_last() =~= rows.take(k));
        lemma_error_rows_refused(rows, k + 1);
    }
}

/// The code that a row gives, when it has a comma and its code parses.
pub open spec fn row_code(line: Seq<char>) -> Option<u32> {
    match row_spec(line) {
        Some((code, _)) => parse_u32_spec(code),
        None => None,
    }
}

/// A row with a comma whose code does not parse refuses the whole table.
pub proof fn lemma_bad_code_refuses_table(rows: Seq<Seq<char>>, k: int)
    requires
        0 <= k < rows.len(),
        row_spec(rows[k]) is Some,
        parse_u32_spec(row_spec(rows[k])->Some_0.0) is None,
    ensures
        error_rows_spec(rows) is Err,
{
    let upto = rows.take(k + 1);
    assert(upto.drop_last() =~= rows.take(k));
    assert(upto.last() == rows[k]);
    assert(error_rows_spec(upto) is Err);
    lemma_error_rows_refused(rows, k + 1);
}

/// A table that reads maps exactly the codes of its rows, each to the name on
/// the last row with that code.
pub proof fn lemma_last_row_wins(rows: Seq<Seq<char>>, code: u32)
    requires
        error_rows_spec(rows) is Ok,
    ensures
        error_rows_spec(rows)->Ok_0.contains_key(code) <==> exists|i: int| 0 <= i < rows.len() && row_code(#[trigger] rows[i]) == Some(code),
        error_rows_spec(rows)->Ok_0.contains_key(code) ==> exists|i: int| 0 <= i < rows.len() && {
            &&& row_code(#[trigger] rows[i]) == Some(code)
            &&& row_spec(rows[i])->Some_0.1 == error_rows_spec(rows)->Ok_0[code]
            &&& forall|j: int| i < j < rows.len() ==> row_code(#[trigger] rows[j]) != Some(code)
        },
    decreases rows.len(),
{
    if rows.len() > 0 {
        let prefix = rows.drop_last();
        assert(error_rows_spec(prefix) is Ok);
        lemma_last_row_wins(prefix, code);
        let last = rows.last();
        assert(rows[rows.len() - 1] == last);
        assert forall|i: int| 0 <= i < prefix.len() implies #[trigger] prefix[i] == rows[i] by {}
        if row_code(last) == Some(code) {
            let i = rows.len() - 1;
            assert(row_code(rows[i]) == Some(code));
        } else {
            if error_rows_spec(prefix)->Ok_0.contains_key(code) {
                let i = choose|i: int| 0 <= i < prefix.len() && {
                    &&& row_code(#[trigger] prefix[i]) == Some(code)
                    &&& row_spec(prefix[i])->Some_0.1 == error_rows_spec(prefix)->Ok_0[code]
                    &&& forall|j: int| i < j < prefix.len() ==> row_code(#[trigger] prefix[j]) != Some(code)
                };
                assert(rows[i] == prefix[i]);
            }
            assert forall|i: int| 0 <= i < rows.len() && row_code(#[trigger] rows[i]) == Some(code) implies
                (0 <= i < prefix.len() && row_code(prefix[i]) == Some(code)) by {
                if i == rows.len() - 1 {
                    assert(rows[i] == last);
                }
            }
        }
    }
}

/// The names of a table, as character sequences.
pub open spec fn names_view(m: Map<u32, String>) -> Map<u32, Seq<char>> {
    m.map_values(|s: String| s@)
}

/// Parses an error-code table (`Error Code,Name` header, then `code,name` rows).
pub fn parse_error_map(text: &str) -> (r: Result<HashMap<u32, String>, ErrorMapError>)
    ensures
        match error_map_spec(text@) {
            Ok(m) => (r matches Ok(h) && names_view(h@) == m),
            Err(e) => r == Err::<HashMap<u32, String>, ErrorMapError>(e),
        },
{
    let chars = chars_of(text);
    let lines = split_lines(chars.as_slice());
    let ghost all = char_lines_view(lines@);
    assert(all == lines_spec(text@));
    let mut map: HashMap<u32, String> = HashMap::new();
    if lines.len() == 0 {
        assert(names_view(map@) =~= Map::empty());
        return Ok(map);
    }
    let ghost rows = all.drop_first();
    let mut i: usize = 1;
    assert(rows.take(0) =~= Seq::<Seq<char>>::empty());
    assert(names_view(map@) =~= Map::<u32, Seq<char>>::empty());
    while i < lines.len()
        invariant
            1 <= i <= lines.len(),
            all == char_lines_view(lines@),
            all == lines_spec(text@),
            rows == all.drop_first(),
            error_rows_spec(rows.take(i - 1)) == Ok::<Map<u32, Seq<char>>, ErrorMapError>(names_view(map@)),
        decreases lines.len() - i,
    {
        let ghost prefix = rows.take(i - 1);
        let ghost next = rows.take(i as int);
        assert(next.drop_last() =~= prefix);
        assert(next.last() == lines@[i as int]@);
        let line = trim(lines[i].as_slice());
        match split_once(line.as_slice(), ',') {
            None => {},
            Some((code, name)) => {
                let code = trim(code.as_slice());
                let name = trim(name.as_slice());
                match parse_u32(code.as_slice()) {
                    None => {
                        proof {
                            assert(row_spec(next.last()) == Some((code@, name@)));
                            assert(next.len() == i);
                            assert(error_rows_spec(next) == Err::<Map<u32, Seq<char>>, ErrorMapError>(
                                ErrorMapError::InvalidCode { line: (i + 1) as usize },
                            ));
                            lemma_error_rows_refused(rows, i as int);
                        }
                        return Err(ErrorMapError::InvalidCode { line: i + 1 });
                    },
                    Some(c) => {
                        let ghost before = map@;
                        map.insert(c, string_from_chars(name.as_slice()));
                        assert(names_view(map@) =~= names_view(before).insert(c, name@));
                    },
                }
            },
        }
        i = i + 1;
    }
    assert(rows.take(i - 1) =~= rows);
    Ok(map)
}

} // verus!
