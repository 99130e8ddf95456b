use crate::codec::{
    csv_rows, is_plain_line, join_fields, lemma_round_trip, line_of, parse_rows, rows_view,
    serialize, split_commas, well_formed_fields,
};
use crate::config::{offsets_of, Config};
use crate::error::CsvError;
use crate::projection::{fields_view, project, select};
use crate::stats::ProcessingStats;
use std::sync::Arc;
use vstd::prelude::*;
use vstd::utf8::*;

verus! {

/// The fields written for a row: the selected columns when the configuration
/// selects some, else the row unchanged.
pub open spec fn output_fields(config: Config, row: Seq<Seq<char>>) -> Seq<Seq<char>> {
    match offsets_of(config) {
        Some(offsets) => select(row, offsets),
        None => row,
    }
}

/// The output lines of the records among `rows`, in order; a row that failed
/// to parse writes nothing.
pub open spec fn records_text(config: Config, rows: Seq<Option<Seq<Seq<char>>>>) -> Seq<char>
    decreases rows.len(),
{
    if rows.len() == 0 {
        Seq::empty()
    } else {
        records_text(config, rows.drop_last()) + match rows.last() {
            Some(row) => line_of(output_fields(config, row)),
            None => Seq::empty(),
        }
    }
}

/// The number of rows that parsed.
pub open spec fn parsed_count(rows: Seq<Option<Seq<Seq<char>>>>) -> nat
    decreases rows.len(),
{
    if rows.len() == 0 {
        0
    } else {
        parsed_count(rows.drop_last()) + if rows.last() is Some {
            1nat
        } else {
            0nat
        }
    }
}

/// The whole output of a run over `rows`: the header line, then one line for
/// each record that parsed.
pub open spec fn run_output(config: Config, rows: Seq<Option<Seq<Seq<char>>>>) -> Seq<char>
    recommends
        rows.len() > 0,
        rows[0] is Some,
{
    line_of(output_fields(config, rows[0]->0)) + records_text(config, rows.drop_first())
}

/// Drives a run: writes the (projected) header, then each record that parses,
/// skipping rows that do not.
pub struct CsvProcessor {
    config: Config,
    stats: Arc<ProcessingStats>,
}

impl View for CsvProcessor {
    type V = Config;

    closed spec fn view(&self) -> Config {
        self.config
    }
}

impl CsvProcessor {
    /// A processor for `config`, with fresh statistics.
    pub fn new(config: Config) -> (r: Result<Self, CsvError>)
        ensures
            r is Ok,
            r->Ok_0@ == config,
    {
        let stats = Arc::new(ProcessingStats::new());
        Ok(CsvProcessor { config, stats })
    }

    /// The settings of this processor.
    pub fn config(&self) -> (r: &Config)
        ensures
            *r == self@,
    {
        &self.config
    }

    /// The statistics of this processor's run.
    pub fn stats(&self) -> (r: &ProcessingStats) {
        &self.stats
    }

    /// The output line for a header or record: its selected columns (or all
    /// of them), joined by commas and ended by a newline.
    pub fn output_line(&self, row: &Vec<String>) -> (r: String)
        ensures
            r@ == line_of(output_fields(self@, fields_view(row@))),
    {
        match self.config.field_indices() {
            Some(offsets) => serialize(&project(row, &offsets)),
            None => serialize(row),
        }
    }

    /// The output line for the header row read from the input; a header with
    /// no field means the input held no row, which is fatal.
    pub fn header_line(&self, header: &Vec<String>) -> (r: Result<String, CsvError>)
        ensures
            header@.len() == 0 ==> r is Err && r->Err_0 is MissingHeader,
            header@.len() > 0 ==> r is Ok && r->Ok_0@ == line_of(
                output_fields(self@, fields_view(header@)),
            ),
    {
        if header.len() == 0 {
            Err(CsvError::MissingHeader)
        } else {
            Ok(self.output_line(header))
        }
    }

    /// One step of the record loop after `count` records: a parsed record
    /// gives its output line and the count goes up by one (and is stored in
    /// the statistics); a row that failed gives no line and leaves the count.
    pub fn handle_record(&self, record: &Result<Vec<String>, CsvError>, count: u64) -> (r: (
        Option<String>,
        u64,
    ))
        requires
            count < u64::MAX,
        ensures
            match record {
                Ok(row) => r.0 is Some && r.0->Some_0@ == line_of(
                    output_fields(self@, fields_view(row@)),
                ) && r.1 == count + 1,
                Err(_) => r.0 is None && r.1 == count,
            },
    {
        match record {
            Ok(row) => {
                let line = self.output_line(row);
                let next = count + 1;
                self.stats.update_records_processed(next);
                (Some(line), next)
            },
            Err(_) => (None, count),
        }
    }

    /// Runs over parsed rows, the first of which is the header. Gives the
    /// output text and the number of records written; fails when there is no
    /// row, or with the header's own error when the header did not parse.
    pub fn process_rows(&self, rows: Vec<Result<Vec<String>, CsvError>>) -> (r: Result<
        (String, u64),
        CsvError,
    >)
        ensures
            rows@.len() == 0 ==> r is Err && r->Err_0 is MissingHeader,
            rows@.len() > 0 && rows@[0] is Err ==> r == Err::<(String, u64), CsvError>(
                rows@[0]->Err_0,
            ),
            rows@.len() > 0 && rows@[0] is Ok ==> r is Ok && r->Ok_0.0@ == run_output(
                self@,
                rows_view(rows@),
            ) && r->Ok_0.1 == parsed_count(rows_view(rows@).drop_first()),
    {
        let ghost all = rows@;
        let mut rows = rows;
        if rows.len() == 0 {
            return Err(CsvError::MissingHeader);
        }
        let header = rows.remove(0);
        assert(rows@ =~= all.drop_first());
        let mut out = match header {
            Ok(names) => self.output_line(&names),
            Err(e) => {
                return Err(e);
            },
        };
        let ghost view = rows_view(all);
        let ghost tail = view.drop_first();
        assert(rows_view(rows@) =~= tail);
        let mut count: u64 = 0;
        let mut i: usize = 0;
        while i < rows.len()
            invariant
                i <= rows@.len(),
                rows@ == all.drop_first(),
                rows_view(rows@) == tail,
                view == rows_view(all),
                all.len() > 0 && all[0] is Ok,
                count == parsed_count(tail.subrange(0, i as int)),
                count <= i,
                out@ == line_of(output_fields(self@, view[0]->0)) + records_text(
                    self@,
                    tail.subrange(0, i as int),
                ),
            decreases rows@.len() - i,
        {
            let ghost sub = tail.subrange(0, i + 1);
            assert(sub.drop_last() =~= tail.subrange(0, i as int));
            assert(tail[i as int] == rows_view(rows@)[i as int]);
            let (line, next) = self.handle_record(&rows[i], count);
            match line {
                Some(text) => {
                    out.append(text.as_str());
                },
                None => {},
            }
            assert(out@ =~= line_of(output_fields(self@, view[0]->0)) + records_text(self@, sub));
            count = next;
            i += 1;
        }
        assert(tail.subrange(0, rows@.len() as int) =~= tail);
        Ok((out, count))
    }

    /// Runs over a whole input held in memory: parses it with the CSV
    /// dialect, then writes as `process_rows` does. Empty input has no header
    /// and fails.
    pub fn process_data(&self, data: &[u8]) -> (r: Result<(String, u64), CsvError>)
        ensures
            csv_rows(data@).len() == 0 ==> r is Err && r->Err_0 is MissingHeader,
            data@.len() == 0 ==> r is Err && r->Err_0 is MissingHeader,
            csv_rows(data@).len() > 0 && csv_rows(data@)[0] is None ==> r is Err && r->Err_0 is Csv,
            csv_rows(data@).len() > 0 && csv_rows(data@)[0] is Some ==> r is Ok && r->Ok_0.0@
                == run_output(self@, csv_rows(data@)) && r->Ok_0.1 == parsed_count(
                csv_rows(data@).drop_first(),
            ),
    {
        let rows = parse_rows(data);
        assert(rows_view(rows@).len() == rows@.len());
        proof {
            if rows@.len() > 0 {
                assert(rows_view(rows@)[0] is None <==> rows@[0] is Err);
            }
        }
        self.process_rows(rows)
    }
}

proof fn lemma_rows_concat(config: Config, a: Seq<Option<Seq<Seq<char>>>>, b: Seq<Option<Seq<Seq<char>>>>)
    ensures
        records_text(config, a + b) == records_text(config, a) + records_text(config, b),
        parsed_count(a + b) == parsed_count(a) + parsed_count(b),
    decreases b.len(),
{
    if b.len() == 0 {
        assert(a + b =~= a);
        assert(records_text(config, a) + Seq::<char>::empty() =~= records_text(config, a));
    } else {
        lemma_rows_concat(config, a, b.drop_last());
        assert((a + b).drop_last() =~= a + b.drop_last());
        assert((a + b).last() == b.last());
        let tail = match b.last() {
            Some(row) => line_of(output_fields(config, row)),
            None => Seq::empty(),
        };
        assert(records_text(config, a) + records_text(config, b.drop_last()) + tail
            =~= records_text(config, a) + (records_text(config, b.drop_last()) + tail));
    }
}

/// A row that fails to parse, anywhere among the records, writes nothing and
/// is not counted, and the records after it are written and counted as if it
/// were absent.
pub proof fn lemma_malformed_row_skipped(
    config: Config,
    before: Seq<Option<Seq<Seq<char>>>>,
    after: Seq<Option<Seq<Seq<char>>>>,
)
    ensures
        records_text(config, before + seq![None] + after) == records_text(config, before)
            + records_text(config, after),
        parsed_count(before + seq![None] + after) == parsed_count(before) + parsed_count(after),
{
    let bad: Seq<Option<Seq<Seq<char>>>> = seq![None];
    lemma_rows_concat(config, before, bad);
    lemma_rows_concat(config, before + bad, after);
    assert(bad.drop_last() =~= Seq::<Option<Seq<Seq<char>>>>::empty());
    assert(bad.last() is None);
    assert(records_text(config, bad.drop_last()) == Seq::<char>::empty());
    assert(records_text(config, bad) =~= Seq::<char>::empty());
    assert(parsed_count(bad.drop_last()) == 0);
    assert(parsed_count(bad) == 0);
    assert(records_text(config, before) + records_text(config, bad) =~= records_text(config, before));
}

/// The output of a run begins with the header line: the header's selected
/// columns in the order of the selection (or the whole header), and the
/// records follow it.
pub proof fn lemma_output_begins_with_header(config: Config, rows: Seq<Option<Seq<Seq<char>>>>)
    requires
        rows.len() > 0,
        rows[0] is Some,
    ensures
        run_output(config, rows).subrange(0, line_of(output_fields(config, rows[0]->0)).len() as int)
            == line_of(output_fields(config, rows[0]->0)),
        offsets_of(config) is Some ==> output_fields(config, rows[0]->0) == select(
            rows[0]->0,
            offsets_of(config)->0,
        ),
        offsets_of(config) is None ==> output_fields(config, rows[0]->0) == rows[0]->0,
{
    let head = line_of(output_fields(config, rows[0]->0));
    assert(run_output(config, rows).subrange(0, head.len() as int) =~= head);
}

/// Round trip through a run without column selection: a record of
/// well-formed fields is written as those fields joined by commas and ended
/// by a newline, and that line is a plain line that splits back into exactly
/// the same fields, in the same order.
pub proof fn lemma_record_round_trip(config: Config, fields: Seq<Seq<char>>)
    requires
        offsets_of(config) is None,
        well_formed_fields(fields),
    ensures
        line_of(output_fields(config, fields)) == join_fields(fields) + seq!['\n'],
        is_plain_line(encode_utf8(line_of(output_fields(config, fields)))),
        split_commas(decode_utf8(encode_utf8(line_of(output_fields(config, fields)))).drop_last())
            == fields,
{
    lemma_round_trip(fields);
}

} // verus!
