//! CSV loading: header discovery, sampling-based type inference and the
//! row-insert plan, over the records the CSV parser yields.

use vstd::prelude::*;

use crate::errors::AppError;
use crate::loader::{alpha_header, alpha_names, Config};
use crate::plan::{Ingestion, Insert};
use crate::sql::{create_table_chars, create_table_sql, drop_table_sql, insert_values,
    insert_values_chars};
use crate::text::{chars_string, is_int_text, is_real_text, str_chars, strip_commas, without_commas};
use crate::types::{lemma_promote_monotone, spec_promote, strength, Type};

verus! {

/// What the CSV parser yields on a text: its records, each a sequence of
/// cell texts, with quoting already resolved. A function of the text and the
/// delimiter alone.
pub uninterp spec fn csv_records_of(text: Seq<char>, delimiter: u8) -> Seq<Seq<Seq<char>>>;

/// Whether the CSV parser accepts the text under the delimiter: a function
/// of the two alone.
pub uninterp spec fn csv_parse_ok(text: Seq<char>, delimiter: u8) -> bool;

/// A text that ends (up to one trailing carriage return) in a field that is
/// nothing but an opening quote: the quote stands at the start of the text,
/// right after a line break, or right after the delimiter. The parser cannot
/// unquote such a field, so these texts are rejected before it sees them.
pub open spec fn lone_open_quote_tail(text: Seq<char>, delimiter: u8) -> bool {
    let t = if text.len() > 0 && text.last() == '\r' {
        text.drop_last()
    } else {
        text
    };
    t.len() > 0 && t.last() == '"' && (t.len() == 1 || t[t.len() - 2] == '\n' || t[t.len() - 2]
        == delimiter as char)
}

/// Decides `lone_open_quote_tail` on a text's characters.
pub fn has_lone_open_quote_tail(chars: &Vec<char>, delimiter: u8) -> (r: bool)
    ensures
        r == lone_open_quote_tail(chars@, delimiter),
{
    let n = chars.len();
    let end = if n > 0 && chars[n - 1] == '\r' {
        n - 1
    } else {
        n
    };
    proof {
        if n > 0 && chars@.last() == '\r' {
            assert(chars@.drop_last() =~= chars@.subrange(0, n - 1));
        }
    }
    if end == 0 {
        return false;
    }
    if chars[end - 1] != '"' {
        return false;
    }
    end == 1 || chars[end - 2] == '\n' || chars[end - 2] == (delimiter as char)
}

/// Relies on quick_csv: `Csv::from_string` with a delimiter parses the text
/// into records of cells, and fails on malformed or ragged input. The
/// delimiter must be ASCII (a wider byte could split a character), and a
/// lone opening quote at the end of the text would make the parser's
/// unquoting step slice an empty field, so both are excluded.
#[verifier::external_body]
fn parse_csv(text: &str, delimiter: u8) -> (r: Result<
    Vec<Vec<String>>,
    quick_csv::error::Error,
>)
    requires
        delimiter < 128,
        !lone_open_quote_tail(text@, delimiter),
    ensures
        r is Ok <==> csv_parse_ok(text@, delimiter),
        r matches Ok(rows) ==> rows.deep_view() == csv_records_of(text@, delimiter),
{
    let mut out: Vec<Vec<String>> = Vec::new();
    for row in quick_csv::Csv::from_string(text).delimiter(delimiter) {
        let row = row?;
        let mut cells: Vec<String> = Vec::new();
        for cell in row.bytes_columns() {
            match String::from_utf8(cell.to_vec()) {
                Ok(s) => cells.push(s),
                Err(e) => return Err(quick_csv::error::Error::Decode(e.to_string())),
            }
        }
        out.push(cells);
    }
    Ok(out)
}

/// One row's worth of promotion: each column's kind takes the row's cell
/// (with grouping separators stripped) as a sample; cells beyond the column
/// set are ignored, columns beyond the row keep their kind.
pub open spec fn row_promote(types: Seq<Type>, row: Seq<Seq<char>>) -> Seq<Type> {
    Seq::new(
        types.len(),
        |i: int|
            if i < row.len() {
                spec_promote(types[i], without_commas(row[i]))
            } else {
                types[i]
            },
    )
}

/// The column kinds after sampling every row of `rows`, in order.
pub open spec fn guessed_types(types: Seq<Type>, rows: Seq<Seq<Seq<char>>>) -> Seq<Type>
    decreases rows.len(),
{
    if rows.len() == 0 {
        types
    } else {
        guessed_types(row_promote(types, rows[0]), rows.drop_first())
    }
}

/// Applies `row_promote` for each sampled row, as `guessed_types` describes:
/// the sample is `rows[start ..]`, capped at `lines` rows.
pub fn guess_types(types: &mut Vec<Type>, lines: usize, rows: &Vec<Vec<String>>, start: usize)
    requires
        start <= rows@.len(),
    ensures
        final(types)@ == guessed_types(
            old(types)@,
            rows.deep_view().skip(start as int).take(
                if lines <= rows@.len() - start {
                    lines as int
                } else {
                    rows@.len() - start
                },
            ),
        ),
{
    let avail = rows.len() - start;
    let count = if lines <= avail {
        lines
    } else {
        avail
    };
    let ghost sample = rows.deep_view().skip(start as int).take(count as int);
    let mut j: usize = 0;
    proof {
        assert(sample.skip(0) =~= sample);
    }
    let end = start + count;
    while j < count
        invariant
            j <= count,
            end == start + count,
            start + count <= rows@.len(),
            rows.deep_view().len() == rows@.len(),
            sample == rows.deep_view().skip(start as int).take(count as int),
            guessed_types(types@, sample.skip(j as int)) == guessed_types(old(types)@, sample),
        decreases count - j,
    {
        let idx = start + j;
        let row = &rows[idx];
        let ghost pre = types@;
        let ghost rowv = sample.skip(j as int)[0];
        proof {
            assert(rowv == rows.deep_view()[start + j]);
            assert(rows.deep_view()[start + j] == rows@[start + j as int].deep_view());
        }
        let n = types.len();
        let mut lv: usize = 0;
        while lv < n
            invariant
                lv <= n,
                n == types@.len(),
                types@.len() == pre.len(),
                rowv == row.deep_view(),
                row.deep_view().len() == row@.len(),
                forall|k: int| lv <= k < n ==> types@[k] == pre[k],
                forall|k: int| 0 <= k < lv ==> types@[k] == row_promote(pre, rowv)[k],
            decreases n - lv,
        {
            if lv < row.len() {
                let cell = str_chars(row[lv].as_str());
                let cleaned = strip_commas(&cell);
                proof {
                    assert(row.deep_view()[lv as int] == row@[lv as int]@);
                }
                let t = types[lv];
                let promoted = t.promote(&cleaned);
                types.set(lv, promoted);
            }
            lv = lv + 1;
        }
        proof {
            assert(types@ =~= row_promote(pre, rowv));
            assert(sample.skip(j as int).drop_first() =~= sample.skip(j + 1));
            assert(guessed_types(pre, sample.skip(j as int)) == guessed_types(
                row_promote(pre, rowv),
                sample.skip(j + 1),
            ));
        }
        j = j + 1;
    }
    proof {
        assert(sample.skip(count as int) =~= Seq::<Seq<Seq<char>>>::empty());
    }
}

/// Inference never raises a column's strength: whatever rows are sampled,
/// each column ends at most as strong as it began.
pub proof fn lemma_guessed_types_monotone(types: Seq<Type>, rows: Seq<Seq<Seq<char>>>, i: int)
    requires
        0 <= i < types.len(),
    ensures
        guessed_types(types, rows).len() == types.len(),
        strength(guessed_types(types, rows)[i]) <= strength(types[i]),
    decreases rows.len(),
{
    if rows.len() > 0 {
        lemma_guessed_types_monotone(row_promote(types, rows[0]), rows.drop_first(), i);
        if i < rows[0].len() {
            lemma_promote_monotone(types[i], without_commas(rows[0][i]));
        }
    }
}

/// Inference and stored values agree: a column the sampling left numeric
/// (integer or real) saw only numeric-shaped samples, each one with its
/// grouping separators stripped, the same normalization its stored values
/// get.
pub proof fn lemma_numeric_inference_agrees(
    types: Seq<Type>,
    rows: Seq<Seq<Seq<char>>>,
    i: int,
    k: int,
)
    requires
        0 <= i < types.len(),
        0 <= k < rows.len(),
        i < rows[k].len(),
        strength(guessed_types(types, rows)[i]) >= 1,
    ensures
        is_int_text(without_commas(rows[k][i])) || is_real_text(without_commas(rows[k][i])),
    decreases rows.len(),
{
    let stepped = row_promote(types, rows[0]);
    lemma_guessed_types_monotone(stepped, rows.drop_first(), i);
    assert(strength(stepped[i]) >= 1);
    if k == 0 {
        assert(stepped[i] == spec_promote(types[i], without_commas(rows[0][i])));
    } else {
        assert(rows.drop_first()[k - 1] == rows[k]);
        lemma_numeric_inference_agrees(stepped, rows.drop_first(), i, k - 1);
    }
}

/// Sampling changes kinds, never the column count.
pub proof fn lemma_guessed_types_len(types: Seq<Type>, rows: Seq<Seq<Seq<char>>>)
    ensures
        guessed_types(types, rows).len() == types.len(),
    decreases rows.len(),
{
    if rows.len() > 0 {
        lemma_guessed_types_len(row_promote(types, rows[0]), rows.drop_first());
    }
}

/// One row's bound parameters: exactly one value per schema column, numeric
/// columns with grouping separators stripped, text columns verbatim, and
/// missing trailing cells bound as empty text.
pub open spec fn normalized_row(row: Seq<Seq<char>>, types: Seq<Type>, width: int) -> Seq<
    Seq<char>,
> {
    Seq::new(
        width as nat,
        |i: int|
            if 0 <= i < row.len() {
                if i < types.len() && (types[i] == Type::Int || types[i] == Type::Real) {
                    without_commas(row[i])
                } else {
                    row[i]
                }
            } else {
                Seq::empty()
            },
    )
}

/// Builds one row's bound parameters, as `normalized_row` describes.
pub fn normalize_row(row: &Vec<String>, types: &Vec<Type>, width: usize) -> (r: Vec<String>)
    ensures
        r.deep_view() == normalized_row(row.deep_view(), types@, width as int),
{
    let mut out: Vec<String> = Vec::new();
    let mut i: usize = 0;
    while i < width
        invariant
            i <= width,
            row.deep_view().len() == row@.len(),
            out@.len() == i,
            forall|k: int|
                0 <= k < i ==> #[trigger] out@[k]@ == normalized_row(
                    row.deep_view(),
                    types@,
                    width as int,
                )[k],
        decreases width - i,
    {
        if i < row.len() {
            let numeric = i < types.len() && (matches!(types[i], Type::Int) || matches!(
                types[i],
                Type::Real,
            ));
            if numeric {
                let cell = str_chars(row[i].as_str());
                let cleaned = strip_commas(&cell);
                out.push(chars_string(&cleaned));
            } else {
                out.push(row[i].clone());
            }
            proof {
                assert(row.deep_view()[i as int] == row@[i as int]@);
            }
        } else {
            out.push(String::new());
        }
        i = i + 1;
    }
    proof {
        assert forall|k: int| 0 <= k < width implies out.deep_view()[k] == normalized_row(
            row.deep_view(),
            types@,
            width as int,
        )[k] by {
            assert(out@[k]@ == normalized_row(row.deep_view(), types@, width as int)[k]);
        }
        assert(out.deep_view() =~~= normalized_row(row.deep_view(), types@, width as int));
    }
    out
}

/// The delimiter byte actually used: the configured one, or comma.
pub open spec fn delim_byte(d: Option<u8>) -> u8 {
    match d {
        Option::Some(b) => b,
        Option::None => 44u8,
    }
}

/// The CSV header: the first record's cells, or the synthetic names sized to
/// the first record when the input has no header line.
pub open spec fn csv_header(recs: Seq<Seq<Seq<char>>>, no_header: bool) -> Seq<Seq<char>>
    recommends
        recs.len() > 0,
{
    if no_header {
        alpha_names(recs[0].len() as int)
    } else {
        recs[0]
    }
}

/// The CSV data records: every record, or every record after the header.
pub open spec fn csv_data(recs: Seq<Seq<Seq<char>>>, no_header: bool) -> Seq<Seq<Seq<char>>>
    recommends
        recs.len() > 0,
{
    if no_header {
        recs
    } else {
        recs.drop_first()
    }
}

/// The inferred column kinds: every column starts `Int`, and, when sampling
/// is requested, takes the configured number of leading data rows as
/// samples. Without sampling every column stays `Int`.
pub open spec fn csv_types(recs: Seq<Seq<Seq<char>>>, config: Config) -> Seq<Type>
    recommends
        recs.len() > 0,
{
    let header = csv_header(recs, config.no_header);
    let data = csv_data(recs, config.no_header);
    let init = Seq::new(header.len(), |i: int| Type::Int);
    match config.guess_lines {
        Option::None => init,
        Option::Some(lines) => guessed_types(
            init,
            data.take(
                if lines <= data.len() {
                    lines as int
                } else {
                    data.len() as int
                },
            ),
        ),
    }
}

/// What a CSV ingestion plan holds for the records `recs`: the dropped and
/// recreated table over the discovered header and inferred kinds, and one
/// positional insert per data record with its normalized parameters.
pub open spec fn csv_plan_ok(g: Ingestion, recs: Seq<Seq<Seq<char>>>, config: Config) -> bool {
    let header = csv_header(recs, config.no_header);
    let types = csv_types(recs, config);
    let data = csv_data(recs, config.no_header);
    &&& g.clear@ == "DROP TABLE IF EXISTS n"@
    &&& g.create@ == create_table_chars(header, types)
    &&& g.inserts@.len() == data.len()
    &&& forall|i: int|
        0 <= i < data.len() ==> (#[trigger] g.inserts@[i]).sql@ == insert_values_chars(
            header.len() as int,
        )
    &&& forall|i: int|
        0 <= i < data.len() ==> (#[trigger] g.inserts@[i]).params.deep_view() == normalized_row(
            data[i],
            types,
            header.len() as int,
        )
}

/// Builds the CSV ingestion plan from parsed records, as `csv_plan_ok`
/// describes; an input without a single record has no header to discover.
pub fn csv_plan(records: &Vec<Vec<String>>, config: &Config) -> (r: Result<Ingestion, AppError>)
    ensures
        r is Ok <==> records@.len() > 0,
        r matches Err(e) ==> e matches AppError::Fixed(m) && m@ == "Header not found"@,
        r matches Ok(g) ==> csv_plan_ok(g, records.deep_view(), *config),
{
    if records.len() == 0 {
        return Err(AppError::Fixed("Header not found"));
    }
    let ghost recs = records.deep_view();
    proof {
        assert(recs.len() == records@.len());
    }
    // discover the header
    let width = records[0].len();
    let mut names: Vec<Vec<char>> = Vec::new();
    if config.no_header {
        let alpha = alpha_header(width);
        let m = alpha.len();
        let mut i: usize = 0;
        while i < m
            invariant
                i <= m,
                m == alpha@.len(),
                alpha.deep_view() == alpha_names(width as int),
                names@.len() == i,
                forall|k: int| 0 <= k < i ==> #[trigger] names@[k]@ == alpha_names(
                    width as int,
                )[k],
            decreases m - i,
        {
            proof {
                assert(alpha.deep_view()[i as int] == alpha@[i as int]@);
            }
            names.push(str_chars(alpha[i]));
            i = i + 1;
        }
        proof {
            assert(recs[0] == records@[0].deep_view());
            assert(recs[0].len() == records@[0]@.len());
            assert forall|k: int| 0 <= k < names.deep_view().len() implies names.deep_view()[k]
                == csv_header(recs, config.no_header)[k] by {
                assert(names@[k]@ == alpha_names(width as int)[k]);
            }
            assert(names.deep_view() =~~= csv_header(recs, config.no_header));
        }
    } else {
        let first = &records[0];
        let m = first.len();
        let mut i: usize = 0;
        while i < m
            invariant
                i <= m,
                m == first@.len(),
                names@.len() == i,
                forall|k: int| 0 <= k < i ==> #[trigger] names@[k]@ == first@[k]@,
            decreases m - i,
        {
            names.push(str_chars(first[i].as_str()));
            i = i + 1;
        }
        proof {
            assert(recs[0] == records@[0].deep_view());
            assert forall|k: int| 0 <= k < names.deep_view().len() implies names.deep_view()[k]
                == csv_header(recs, config.no_header)[k] by {
                assert(names@[k]@ == first@[k]@);
                assert(recs[0][k] == first@[k].deep_view());
            }
            assert(names.deep_view() =~~= csv_header(recs, config.no_header));
        }
    }
    let header_width = names.len();
    // infer the column kinds
    let mut types: Vec<Type> = Vec::new();
    let mut i: usize = 0;
    while i < header_width
        invariant
            i <= header_width,
            types@ == Seq::new(i as nat, |k: int| Type::Int),
        decreases header_width - i,
    {
        types.push(Type::Int);
        i = i + 1;
        proof {
            assert(types@ =~= Seq::new(i as nat, |k: int| Type::Int));
        }
    }
    let data_start: usize = if config.no_header {
        0
    } else {
        1
    };
    let ghost data = csv_data(recs, config.no_header);
    proof {
        assert(data =~= recs.skip(data_start as int));
        assert(types@ =~= Seq::new(csv_header(recs, config.no_header).len(), |k: int| Type::Int));
    }
    match config.guess_lines {
        Option::None => {},
        Option::Some(lines) => {
            guess_types(&mut types, lines, records, data_start);
            proof {
                assert(recs.skip(data_start as int).take(
                    if lines as int <= data.len() {
                        lines as int
                    } else {
                        data.len() as int
                    },
                ) =~= data.take(
                    if lines as int <= data.len() {
                        lines as int
                    } else {
                        data.len() as int
                    },
                ));
            }
        },
    }
    proof {
        assert(types@ == csv_types(recs, *config));
        if config.guess_lines is Some {
            let header = csv_header(recs, config.no_header);
            let lines = config.guess_lines->0;
            lemma_guessed_types_len(
                Seq::new(header.len(), |k: int| Type::Int),
                data.take(
                    if lines as int <= data.len() {
                        lines as int
                    } else {
                        data.len() as int
                    },
                ),
            );
        }
        assert(types@.len() == header_width as int);
    }
    // assemble the plan
    let create = create_table_sql(&names, &types);
    let insert_sql = insert_values(header_width);
    let mut inserts: Vec<Insert> = Vec::new();
    let n = records.len();
    let mut di = data_start;
    while di < n
        invariant
            data_start <= di <= n,
            n == records@.len(),
            recs == records.deep_view(),
            recs.len() == records@.len(),
            data == csv_data(recs, config.no_header),
            data =~= recs.skip(data_start as int),
            data_start <= 1,
            types@ == csv_types(recs, *config),
            header_width as int == csv_header(recs, config.no_header).len(),
            insert_sql@ == insert_values_chars(header_width as int),
            inserts@.len() == di - data_start,
            forall|k: int|
                0 <= k < di - data_start ==> (#[trigger] inserts@[k]).sql@ == insert_values_chars(
                    header_width as int,
                ),
            forall|k: int|
                0 <= k < di - data_start ==> (#[trigger] inserts@[k]).params.deep_view()
                    == normalized_row(data[k], types@, header_width as int),
        decreases n - di,
    {
        let params = normalize_row(&records[di], &types, header_width);
        proof {
            assert(records[di as int].deep_view() == recs[di as int]);
            assert(data[di - data_start] == recs[di as int]);
        }
        inserts.push(Insert { sql: insert_sql.clone(), params });
        di = di + 1;
    }
    Ok(Ingestion { clear: drop_table_sql(), create, inserts })
}

/// What `load_csv` returns on each input: a non-ASCII delimiter and a lone
/// opening quote at the text's end are rejected as configuration and format
/// errors; otherwise the parser decides, a parse failure carries its error,
/// an accepted input without a single record has no header to discover, and
/// anything else yields the plan of `csv_plan_ok`.
pub open spec fn csv_load_ok(r: Result<Ingestion, AppError>, text: Seq<char>, delimiter: Option<
    u8,
>, config: Config) -> bool {
    let d = delim_byte(delimiter);
    if d >= 128 {
        r matches Err(e) && e matches AppError::Fixed(m) && m@ == "Invalid delimiter"@
    } else if lone_open_quote_tail(text, d) {
        r matches Err(e) && e matches AppError::Fixed(m) && m@ == "Unterminated quoted field"@
    } else if !csv_parse_ok(text, d) {
        r matches Err(e) && e matches AppError::Csv(_)
    } else if csv_records_of(text, d).len() == 0 {
        r matches Err(e) && e matches AppError::Fixed(m) && m@ == "Header not found"@
    } else {
        r matches Ok(g) && csv_plan_ok(g, csv_records_of(text, d), config)
    }
}

/// Loads a CSV text: parses it with the configured delimiter and builds the
/// ingestion plan, exactly as `csv_load_ok` describes.
pub fn load_csv(text: &str, delimiter: Option<u8>, config: &Config) -> (r: Result<
    Ingestion,
    AppError,
>)
    ensures
        csv_load_ok(r, text@, delimiter, *config),
{
    let d = match delimiter {
        Option::Some(b) => b,
        Option::None => 44u8,
    };
    if d >= 128 {
        return Err(AppError::Fixed("Invalid delimiter"));
    }
    let chars = str_chars(text);
    if has_lone_open_quote_tail(&chars, d) {
        return Err(AppError::Fixed("Unterminated quoted field"));
    }
    match parse_csv(text, d) {
        Ok(records) => csv_plan(&records, config),
        Err(e) => Err(AppError::Csv(e)),
    }
}

} // verus!
