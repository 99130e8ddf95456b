use crate::error::CsvError;
use crate::projection::fields_view;
use vstd::prelude::*;
use vstd::string::*;
use vstd::utf8::*;

verus! {

/// The fields joined by commas, with no quoting.
pub open spec fn join_fields(fields: Seq<Seq<char>>) -> Seq<char>
    decreases fields.len(),
{
    if fields.len() == 0 {
        Seq::empty()
    } else if fields.len() == 1 {
        fields[0]
    } else {
        join_fields(fields.drop_last()) + seq![','] + fields.last()
    }
}

/// One output line: the joined fields and a newline.
pub open spec fn line_of(fields: Seq<Seq<char>>) -> Seq<char> {
    join_fields(fields) + seq!['\n']
}

/// The pieces of `s` between commas (a text without commas is one piece).
pub open spec fn split_commas(s: Seq<char>) -> Seq<Seq<char>>
    decreases s.len(),
{
    if s.len() == 0 {
        seq![Seq::empty()]
    } else {
        let init = split_commas(s.drop_last());
        if s.last() == ',' {
            init.push(Seq::empty())
        } else {
            init.update(init.len() - 1, init.last().push(s.last()))
        }
    }
}

/// A line that the CSV dialect reads as the comma-separated pieces of its
/// text: valid UTF-8, at least one character and then a newline, with no
/// quote, no other line break and no byte-order mark in front.
pub open spec fn is_plain_line(data: Seq<u8>) -> bool {
    let text = decode_utf8(data);
    &&& valid_utf8(data)
    &&& text.len() >= 2
    &&& text.last() == '\n'
    &&& text[0] != '\u{feff}'
    &&& forall|i: int|
        0 <= i < text.len() - 1 ==> #[trigger] text[i] != '"' && text[i] != '\n' && text[i]
            != '\r'
}

/// What the CSV reader yields for each row of `data`, in order: the row's
/// fields, or `None` where the row could not be read.
pub uninterp spec fn csv_rows(data: Seq<u8>) -> Seq<Option<Seq<Seq<char>>>>;

/// The fields of each row, or `None` for a row that failed.
pub open spec fn rows_view(rows: Seq<Result<Vec<String>, CsvError>>) -> Seq<
    Option<Seq<Seq<char>>>,
> {
    rows.map_values(
        |r: Result<Vec<String>, CsvError>|
            match r {
                Ok(fields) => Some(fields_view(fields@)),
                Err(_) => None,
            },
    )
}

/// Relies on csv's `Reader` (no header handling, flexible row widths) over a
/// byte slice and its `into_records` iterator: one item per row in input
/// order, a failed row as a `csv::Error`; empty input has no rows; a plain
/// line is split at its commas.
#[verifier::external_body]
fn read_rows(data: &[u8]) -> (r: Vec<Result<Vec<String>, CsvError>>)
    ensures
        rows_view(r@) == csv_rows(data@),
        forall|i: int| 0 <= i < r@.len() ==> (#[trigger] r@[i] is Err ==> r@[i]->Err_0 is Csv),
        data@.len() == 0 ==> r@.len() == 0,
        is_plain_line(data@) ==> rows_view(r@) == seq![
            Some(split_commas(decode_utf8(data@).drop_last())),
        ],
{
    let mut reader = csv::ReaderBuilder::new().has_headers(false).flexible(true).from_reader(data);
    reader.records().map(|row| match row {
        Ok(rec) => Ok(rec.iter().map(String::from).collect()),
        Err(e) => Err(CsvError::Csv(e)),
    }).collect()
}

/// Parses every row of `data` with the CSV dialect: comma-delimited,
/// double-quoted, rows of any width. A row that cannot be read is an error
/// for that row alone and does not end the sequence.
pub fn parse_rows(data: &[u8]) -> (r: Vec<Result<Vec<String>, CsvError>>)
    ensures
        rows_view(r@) == csv_rows(data@),
        forall|i: int| 0 <= i < r@.len() ==> (#[trigger] r@[i] is Err ==> r@[i]->Err_0 is Csv),
        data@.len() == 0 ==> r@.len() == 0,
        is_plain_line(data@) ==> rows_view(r@) == seq![
            Some(split_commas(decode_utf8(data@).drop_last())),
        ],
{
    read_rows(data)
}

/// Joins the fields with commas and ends the line with a newline; no field is
/// quoted or escaped.
pub fn serialize(fields: &Vec<String>) -> (r: String)
    ensures
        r@ == line_of(fields_view(fields@)),
{
    let mut r = String::new();
    let mut i: usize = 0;
    while i < fields.len()
        invariant
            i <= fields@.len(),
            r@ == join_fields(fields_view(fields@.subrange(0, i as int))),
        decreases fields@.len() - i,
    {
        let ghost before = r@;
        if i > 0 {
            r.append(",");
        }
        let ghost mid = r@;
        r.append(fields[i].as_str());
        proof {
            let next = fields_view(fields@.subrange(0, i + 1));
            assert(next.drop_last() =~= fields_view(fields@.subrange(0, i as int)));
            assert(next.last() == fields@[i as int]@);
            assert(r@ == mid + fields@[i as int]@);
            if i == 0 {
                assert(r@ =~= next[0]);
            } else {
                reveal_strlit(",");
                assert(mid =~= before + seq![',']);
                assert(r@ =~= join_fields(next.drop_last()) + seq![','] + next.last());
            }
        }
        i += 1;
    }
    proof {
        reveal_strlit("\n");
    }
    r.append("\n");
    assert(fields@.subrange(0, fields@.len() as int) =~= fields@);
    r
}

/// A character that the CSV dialect reads as itself inside an unquoted
/// field.
pub open spec fn plain_char(c: char) -> bool {
    c != '"' && c != '\n' && c != '\r'
}

/// Fields that survive a trip through one output line: at least one field,
/// not a lone empty field, no comma, quote or line break in any of them, and
/// no byte-order mark at the very start of the line.
pub open spec fn well_formed_fields(fields: Seq<Seq<char>>) -> bool {
    &&& fields.len() >= 1
    &&& !(fields.len() == 1 && fields[0].len() == 0)
    &&& fields[0].len() > 0 ==> fields[0][0] != '\u{feff}'
    &&& forall|k: int, j: int|
        0 <= k < fields.len() && 0 <= j < fields[k].len() ==> plain_char(#[trigger] fields[k][j])
            && fields[k][j] != ','
}

proof fn lemma_split_nonempty(s: Seq<char>)
    ensures
        split_commas(s).len() >= 1,
    decreases s.len(),
{
    if s.len() > 0 {
        lemma_split_nonempty(s.drop_last());
    }
}

proof fn lemma_split_append_plain(x: Seq<char>, b: Seq<char>)
    requires
        forall|j: int| 0 <= j < b.len() ==> #[trigger] b[j] != ',',
    ensures
        split_commas(x + b) == split_commas(x).update(
            split_commas(x).len() - 1,
            split_commas(x).last() + b,
        ),
    decreases b.len(),
{
    lemma_split_nonempty(x);
    if b.len() == 0 {
        assert(x + b =~= x);
        assert(split_commas(x).last() + b =~= split_commas(x).last());
        assert(split_commas(x).update(split_commas(x).len() - 1, split_commas(x).last())
            =~= split_commas(x));
    } else {
        let b0 = b.drop_last();
        lemma_split_append_plain(x, b0);
        assert((x + b).drop_last() =~= x + b0);
        assert((x + b).last() == b.last());
        assert(split_commas(x).last() + b0 + seq![b.last()] =~= split_commas(x).last() + b);
        assert(b[b.len() - 1] != ',');
        let sx = split_commas(x);
        let init = split_commas((x + b).drop_last());
        assert(init == sx.update(sx.len() - 1, sx.last() + b0));
        assert(init.len() == sx.len());
        assert(init.last() == sx.last() + b0);
        assert(init.last().push(b.last()) =~= sx.last() + b);
        assert(split_commas(x + b) == init.update(init.len() - 1, init.last().push((x + b).last())));
        assert(split_commas(x + b) =~= split_commas(x).update(
            split_commas(x).len() - 1,
            split_commas(x).last() + b,
        ));
    }
}

proof fn lemma_join_chars(fields: Seq<Seq<char>>)
    requires
        forall|k: int, j: int|
            0 <= k < fields.len() && 0 <= j < fields[k].len() ==> plain_char(
                #[trigger] fields[k][j],
            ),
    ensures
        forall|i: int| 0 <= i < join_fields(fields).len() ==> plain_char(#[trigger] join_fields(fields)[i]),
        fields.len() >= 2 ==> join_fields(fields).len() >= 1,
        fields.len() == 1 ==> join_fields(fields) == fields[0],
    decreases fields.len(),
{
    if fields.len() >= 2 {
        let init = fields.drop_last();
        assert forall|k: int, j: int|
            0 <= k < init.len() && 0 <= j < init[k].len() implies plain_char(#[trigger] init[k][j]) by {
            assert(init[k] == fields[k]);
        }
        lemma_join_chars(init);
        let last = fields.last();
        assert forall|j: int| 0 <= j < last.len() implies plain_char(#[trigger] last[j]) by {
            assert(fields[fields.len() - 1][j] == last[j]);
        }
    }
}

proof fn lemma_join_prefix(fields: Seq<Seq<char>>)
    requires
        fields.len() >= 1,
    ensures
        join_fields(fields).len() >= fields[0].len(),
        join_fields(fields).subrange(0, fields[0].len() as int) == fields[0],
        fields.len() >= 2 ==> join_fields(fields).len() > fields[0].len() && join_fields(
            fields,
        )[fields[0].len() as int] == ',',
    decreases fields.len(),
{
    if fields.len() >= 2 {
        let init = fields.drop_last();
        lemma_join_prefix(init);
        let j = join_fields(init) + seq![','] + fields.last();
        assert(init[0] == fields[0]);
        assert(j.subrange(0, fields[0].len() as int) =~= join_fields(init).subrange(
            0,
            fields[0].len() as int,
        ));
        if init.len() == 1 {
            assert(j[fields[0].len() as int] == ',');
        } else {
            assert(j[fields[0].len() as int] == join_fields(init)[fields[0].len() as int]);
        }
    } else {
        assert(fields[0].subrange(0, fields[0].len() as int) =~= fields[0]);
    }
}

/// Splitting the joined text of comma-free fields at its commas gives the
/// fields back.
pub proof fn lemma_split_join(fields: Seq<Seq<char>>)
    requires
        fields.len() >= 1,
        forall|k: int, j: int|
            0 <= k < fields.len() && 0 <= j < fields[k].len() ==> #[trigger] fields[k][j] != ',',
    ensures
        split_commas(join_fields(fields)) == fields,
    decreases fields.len(),
{
    let last = fields.last();
    assert forall|j: int| 0 <= j < last.len() implies #[trigger] last[j] != ',' by {
        assert(fields[fields.len() - 1][j] == last[j]);
    }
    if fields.len() == 1 {
        lemma_split_append_plain(Seq::empty(), last);
        assert(Seq::<char>::empty() + last =~= last);
        assert(seq![Seq::<char>::empty()].update(0, Seq::<char>::empty() + last) =~= fields);
    } else {
        let init = fields.drop_last();
        assert forall|k: int, j: int|
            0 <= k < init.len() && 0 <= j < init[k].len() implies #[trigger] init[k][j] != ',' by {
            assert(init[k] == fields[k]);
        }
        lemma_split_join(init);
        let x = join_fields(init) + seq![','];
        assert(x.drop_last() =~= join_fields(init));
        assert(split_commas(x) == init.push(Seq::empty()));
        lemma_split_append_plain(x, last);
        assert(Seq::<char>::empty() + last =~= last);
        assert(init.push(Seq::empty()).update(init.len() as int, last) =~= fields);
    }
}

/// Round trip: the output line of well-formed fields is a plain line, which
/// the CSV reader splits at its commas, and splitting it gives back exactly
/// the fields that were written.
pub proof fn lemma_round_trip(fields: Seq<Seq<char>>)
    requires
        well_formed_fields(fields),
    ensures
        is_plain_line(encode_utf8(line_of(fields))),
        split_commas(decode_utf8(encode_utf8(line_of(fields))).drop_last()) == fields,
{
    broadcast use encode_utf8_decode_utf8, encode_utf8_valid_utf8;

    let text = line_of(fields);
    assert(decode_utf8(encode_utf8(text)) == text);
    lemma_join_chars(fields);
    assert(text.drop_last() =~= join_fields(fields));
    lemma_split_join(fields);
    assert forall|i: int| 0 <= i < text.len() - 1 implies #[trigger] text[i] != '"' && text[i]
        != '\n' && text[i] != '\r' by {
        assert(text[i] == join_fields(fields)[i]);
    }
    lemma_join_prefix(fields);
    assert(text[0] == join_fields(fields)[0]);
    if fields[0].len() > 0 {
        assert(join_fields(fields)[0] == join_fields(fields).subrange(0, fields[0].len() as int)[0]);
    }
}

/// Joining the comma-separated pieces of a text with commas gives the text
/// back.
pub proof fn lemma_join_split(s: Seq<char>)
    ensures
        join_fields(split_commas(s)) == s,
    decreases s.len(),
{
    if s.len() > 0 {
        let prefix = s.drop_last();
        let init = split_commas(prefix);
        lemma_join_split(prefix);
        lemma_split_nonempty(prefix);
        if s.last() == ',' {
            let pieces = init.push(Seq::empty());
            assert(pieces.drop_last() =~= init);
            assert(join_fields(pieces) =~= prefix + seq![','] + Seq::empty());
            assert(prefix + seq![','] + Seq::<char>::empty() =~= s);
        } else {
            let n = init.len() - 1;
            let pieces = init.update(n, init.last().push(s.last()));
            if init.len() == 1 {
                assert(join_fields(init) == init[0]);
                assert(join_fields(pieces) == pieces[0]);
                assert(pieces[0] =~= prefix.push(s.last()));
            } else {
                assert(pieces.drop_last() =~= init.drop_last());
                assert(join_fields(pieces) == join_fields(init.drop_last()) + seq![','] + init.last().push(s.last()));
                assert(join_fields(pieces) =~= join_fields(init).push(s.last()));
            }
            assert(prefix.push(s.last()) =~= s);
        }
    }
}

/// Round trip from the input side: serializing the fields read from a plain
/// line writes exactly the bytes of that line, so reading them again gives
/// the same fields.
pub proof fn lemma_plain_line_round_trip(data: Seq<u8>)
    requires
        is_plain_line(data),
    ensures
        encode_utf8(line_of(split_commas(decode_utf8(data).drop_last()))) == data,
{
    broadcast use decode_utf8_encode_utf8;

    let text = decode_utf8(data);
    lemma_join_split(text.drop_last());
    assert(text.drop_last() + seq!['\n'] =~= text);
}

} // verus!
