//! One parsed manifest line, and how the header's column order maps the
//! comma-separated tokens of a data line onto its fields.

use vstd::prelude::*;
use crate::text::{split_commas_limited, split_n, str_eq};

verus! {

/// Mathematical image of a [`HashdeepLine`]: its four fields as character
/// sequences.
#[verifier::ext_equal]
pub ghost struct RecordView {
    pub size: Seq<char>,
    pub md5: Seq<char>,
    pub sha256: Seq<char>,
    pub filename: Seq<char>,
}

/// One record of a manifest.  A field is populated exactly when the
/// manifest's header declares the matching column; the rest stay empty.
#[derive(Debug, PartialEq, Eq)]
pub struct HashdeepLine {
    pub size: String,
    pub md5: String,
    pub sha256: String,
    pub filename: String,
}

impl View for HashdeepLine {
    type V = RecordView;

    open spec fn view(&self) -> RecordView {
        RecordView {
            size: self.size@,
            md5: self.md5@,
            sha256: self.sha256@,
            filename: self.filename@,
        }
    }
}

impl DeepView for HashdeepLine {
    type V = RecordView;

    open spec fn deep_view(&self) -> RecordView {
        self.view()
    }
}

impl Clone for HashdeepLine {
    fn clone(&self) -> (r: Self)
        ensures
            r@ == self@,
    {
        HashdeepLine {
            size: self.size.clone(),
            md5: self.md5.clone(),
            sha256: self.sha256.clone(),
            filename: self.filename.clone(),
        }
    }
}

/// The value that the field called `name` receives: the token standing at
/// the position of the last column declared under that name, or the empty
/// sequence when no column carries the name.  Every column, known or not,
/// occupies one token position.
pub open spec fn field_value(tokens: Seq<Seq<char>>, fields: Seq<Seq<char>>, name: Seq<char>) -> Seq<
    char,
>
    decreases fields.len(),
{
    if fields.len() == 0 {
        Seq::empty()
    } else if fields.last() == name {
        tokens[fields.len() - 1]
    } else {
        field_value(tokens, fields.drop_last(), name)
    }
}

/// A data line is well formed for a column declaration when splitting it
/// on the first `fields.len() - 1` commas yields one token per column.
pub open spec fn line_well_formed(line: Seq<char>, fields: Seq<Seq<char>>) -> bool {
    split_n(line, fields.len() as nat).len() == fields.len()
}

/// The record that a well-formed data line denotes under a column
/// declaration.
pub open spec fn line_record(line: Seq<char>, fields: Seq<Seq<char>>) -> RecordView {
    let tokens = split_n(line, fields.len() as nat);
    RecordView {
        size: field_value(tokens, fields, "size"@),
        md5: field_value(tokens, fields, "md5"@),
        sha256: field_value(tokens, fields, "sha256"@),
        filename: field_value(tokens, fields, "filename"@),
    }
}

impl HashdeepLine {
    /// Parses one data line under the column order `fields`.  Returns
    /// `None` exactly when the line splits into fewer tokens than the
    /// header declares columns.
    pub fn new(line: &str, fields: &Vec<String>) -> (r: Option<HashdeepLine>)
        ensures
            r is Some <==> line_well_formed(line@, fields.deep_view()),
            r matches Some(rec) ==> rec@ == line_record(line@, fields.deep_view()),
    {
        let tokens = split_commas_limited(line, fields.len());
        if tokens.len() != fields.len() {
            return None;
        }
        let ghost toks = tokens.deep_view();
        let ghost flds = fields.deep_view();
        let mut rec = HashdeepLine {
            size: String::new(),
            md5: String::new(),
            sha256: String::new(),
            filename: String::new(),
        };
        let mut i: usize = 0;
        while i < fields.len()
            invariant
                i <= fields.len(),
                rec.size@ == field_value(toks, flds.take(i as int), "size"@),
                rec.md5@ == field_value(toks, flds.take(i as int), "md5"@),
                rec.sha256@ == field_value(toks, flds.take(i as int), "sha256"@),
                rec.filename@ == field_value(toks, flds.take(i as int), "filename"@),
            decreases fields.len() - i,
        {
            proof {
                reveal_strlit("size");
                reveal_strlit("md5");
                reveal_strlit("sha256");
                reveal_strlit("filename");
                assert(flds.take(i + 1).drop_last() =~= flds.take(i as int));
                assert(flds.take(i + 1).last() == flds[i as int]);
                assert(toks[i as int] == tokens[i as int]@);
            }
            let f = &fields[i];
            if str_eq(f.as_str(), "size") {
                rec.size = tokens[i].clone();
            } else if str_eq(f.as_str(), "md5") {
                rec.md5 = tokens[i].clone();
            } else if str_eq(f.as_str(), "sha256") {
                rec.sha256 = tokens[i].clone();
            } else if str_eq(f.as_str(), "filename") {
                rec.filename = tokens[i].clone();
            }
            i = i + 1;
        }
        proof {
            assert(flds.take(fields.len() as int) =~= flds);
        }
        Some(rec)
    }
}

/// Round trip of the column mapping: when the declared column names are
/// pairwise distinct, the field named by the column at position `k`
/// receives exactly the token at position `k`, whatever order the columns
/// were declared in.
pub proof fn lemma_field_position(tokens: Seq<Seq<char>>, fields: Seq<Seq<char>>, k: int)
    requires
        0 <= k < fields.len(),
        forall|a: int, b: int| 0 <= a < b < fields.len() ==> fields[a] != fields[b],
    ensures
        field_value(tokens, fields, fields[k]) == tokens[k],
    decreases fields.len(),
{
    if k == fields.len() - 1 {
    } else {
        assert(fields.last() != fields[k]);
        lemma_field_position(tokens, fields.drop_last(), k);
        assert(fields.drop_last()[k] == fields[k]);
    }
}

/// Round trip of the column mapping, stated on a whole line: under
/// pairwise-distinct column names, each known column name sends the token
/// at its declared position to the field of the same name.
pub proof fn lemma_column_round_trip(line: Seq<char>, fields: Seq<Seq<char>>, k: int)
    requires
        0 <= k < fields.len(),
        forall|a: int, b: int| 0 <= a < b < fields.len() ==> fields[a] != fields[b],
    ensures
        fields[k] == "size"@ ==> line_record(line, fields).size == split_n(
            line,
            fields.len() as nat,
        )[k],
        fields[k] == "md5"@ ==> line_record(line, fields).md5 == split_n(
            line,
            fields.len() as nat,
        )[k],
        fields[k] == "sha256"@ ==> line_record(line, fields).sha256 == split_n(
            line,
            fields.len() as nat,
        )[k],
        fields[k] == "filename"@ ==> line_record(line, fields).filename == split_n(
            line,
            fields.len() as nat,
        )[k],
{
    lemma_field_position(split_n(line, fields.len() as nat), fields, k);
}

} // verus!
