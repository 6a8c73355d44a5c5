//! Validation of the five-line manifest preamble and parsing of the data
//! lines that follow it.

use vstd::prelude::*;
use vstd::string::StrSliceExecFns;
use crate::record::{line_record, line_well_formed, HashdeepLine, RecordView};
use crate::text::{split_all, split_commas_all, str_starts_with};

verus! {

/// Why a manifest was rejected.  The first five variants name the
/// preamble line whose required prefix was missing; the last names the
/// first data line that splits into fewer tokens than the header declares
/// columns (zero-based line index).
#[derive(Clone, Copy, Debug, PartialEq, Eq, Structural)]
pub enum FormatError {
    MissingHashdeepHeader,
    MissingFormatHeader,
    MissingInvocationPath,
    MissingCommand,
    MissingSpacer,
    MalformedDataLine(usize),
}

/// The prefix that preamble line `i` must carry.  Only the first five
/// lines of a manifest are preamble lines.
pub open spec fn preamble_line_ok(line: Seq<char>, i: int) -> bool {
    if i == 0 {
        "%%%% HASHDEEP-1.0"@.is_prefix_of(line)
    } else if i == 1 {
        "%%%% size,md5"@.is_prefix_of(line)
    } else if i == 2 {
        "## Invoked from: "@.is_prefix_of(line)
    } else if i == 3 {
        "## $ hashdeep "@.is_prefix_of(line)
    } else {
        "## "@.is_prefix_of(line)
    }
}

/// The column names that the format-declaration line carries: everything
/// after the five-character `%%%% ` marker, split on every comma.
pub open spec fn header_columns(header: Seq<char>) -> Seq<Seq<char>> {
    split_all(header.skip(5))
}

/// The column order of a manifest, or the empty declaration when the
/// manifest is too short to carry one.
pub open spec fn manifest_columns(lines: Seq<Seq<char>>) -> Seq<Seq<char>> {
    if lines.len() > 1 {
        header_columns(lines[1])
    } else {
        Seq::empty()
    }
}

/// Index of the first malformed data line at or after position `i`, if
/// any.
pub open spec fn first_malformed(lines: Seq<Seq<char>>, cols: Seq<Seq<char>>, i: int) -> Option<
    int,
>
    decreases lines.len() - i,
{
    if i < 0 || i >= lines.len() {
        None
    } else if !line_well_formed(lines[i], cols) {
        Some(i)
    } else {
        first_malformed(lines, cols, i + 1)
    }
}

/// What parsing a manifest, given as its sequence of lines, returns: the
/// first preamble failure in line order, else the first malformed data
/// line, else one record per data line, in file order.
pub open spec fn parse_spec(lines: Seq<Seq<char>>) -> Result<Seq<RecordView>, FormatError> {
    if lines.len() > 0 && !preamble_line_ok(lines[0], 0) {
        Err(FormatError::MissingHashdeepHeader)
    } else if lines.len() > 1 && !preamble_line_ok(lines[1], 1) {
        Err(FormatError::MissingFormatHeader)
    } else if lines.len() > 2 && !preamble_line_ok(lines[2], 2) {
        Err(FormatError::MissingInvocationPath)
    } else if lines.len() > 3 && !preamble_line_ok(lines[3], 3) {
        Err(FormatError::MissingCommand)
    } else if lines.len() > 4 && !preamble_line_ok(lines[4], 4) {
        Err(FormatError::MissingSpacer)
    } else {
        let cols = manifest_columns(lines);
        match first_malformed(lines, cols, 5) {
            Some(i) => Err(FormatError::MalformedDataLine(i as usize)),
            None => Ok(
                Seq::new(
                    if lines.len() >= 5 {
                        (lines.len() - 5) as nat
                    } else {
                        0
                    },
                    |k: int| line_record(lines[5 + k], cols),
                ),
            ),
        }
    }
}

/// Parses a manifest given as its lines, exactly as [`parse_spec`]
/// describes: the preamble is validated line by line, the column order is
/// read from the format-declaration line, and every later line becomes
/// one record.
pub fn parse_hashdeep_lines(lines: &Vec<String>) -> (r: Result<Vec<HashdeepLine>, FormatError>)
    ensures
        r is Ok <==> parse_spec(lines.deep_view()) is Ok,
        r matches Ok(recs) ==> recs.deep_view() == parse_spec(lines.deep_view())->Ok_0,
        r matches Err(e) ==> parse_spec(lines.deep_view()) == Err::<Seq<RecordView>, FormatError>(
            e,
        ),
{
    let ghost ld = lines.deep_view();
    if lines.len() > 0 && !str_starts_with(lines[0].as_str(), "%%%% HASHDEEP-1.0") {
        return Err(FormatError::MissingHashdeepHeader);
    }
    if lines.len() > 1 && !str_starts_with(lines[1].as_str(), "%%%% size,md5") {
        return Err(FormatError::MissingFormatHeader);
    }
    if lines.len() > 2 && !str_starts_with(lines[2].as_str(), "## Invoked from: ") {
        return Err(FormatError::MissingInvocationPath);
    }
    if lines.len() > 3 && !str_starts_with(lines[3].as_str(), "## $ hashdeep ") {
        return Err(FormatError::MissingCommand);
    }
    if lines.len() > 4 && !str_starts_with(lines[4].as_str(), "## ") {
        return Err(FormatError::MissingSpacer);
    }
    let mut cols: Vec<String> = Vec::new();
    if lines.len() > 1 {
        let header = lines[1].as_str();
        let n = header.unicode_len();
        proof {
            reveal_strlit("%%%% size,md5");
            assert(header@.subrange(5, header@.len() as int) =~= header@.skip(5));
        }
        let tail = header.substring_char(5, n);
        cols = split_commas_all(tail);
    }
    proof {
        assert(cols.deep_view() =~= manifest_columns(ld));
    }
    let ghost cd = cols.deep_view();
    let mut records: Vec<HashdeepLine> = Vec::new();
    let mut i: usize = 5;
    while i < lines.len()
        invariant
            5 <= i,
            i <= lines.len() || i == 5,
            first_malformed(ld, cd, 5) == first_malformed(ld, cd, i as int),
            records.deep_view() =~= Seq::new((i - 5) as nat, |k: int| line_record(ld[5 + k], cd)),
        decreases lines.len() - i,
    {
        match HashdeepLine::new(lines[i].as_str(), &cols) {
            None => {
                return Err(FormatError::MalformedDataLine(i));
            },
            Some(rec) => {
                let ghost before = records.deep_view();
                records.push(rec);
                proof {
                    assert(records.deep_view() =~= before.push(rec@));
                    assert(records.deep_view() =~= Seq::new(
                        (i + 1 - 5) as nat,
                        |k: int| line_record(ld[5 + k], cd),
                    ));
                }
            },
        }
        i = i + 1;
    }
    proof {
        assert(records.deep_view() =~= parse_spec(ld)->Ok_0);
    }
    Ok(records)
}

} // verus!
