//! Whitespace-delimited ("simple") loading: the first line's tokens name the
//! columns, and data lines split on whitespace runs with a bound equal to
//! the header width, so that trailing text stays in the last column.

use vstd::prelude::*;

use crate::errors::AppError;
use crate::loader::{alpha_header, alpha_names, Config};
use crate::csv::normalized_row;
use crate::csv::normalize_row;
use crate::plan::{Ingestion, Insert};
use crate::sql::{create_table_chars, create_table_sql, drop_table_sql, insert_values,
    insert_values_chars};
use crate::text::{chars_string, find_ws_from, first_ws_index, lines_of, skip_ws_from, split_lines,
    split_ws, split_ws_n, str_chars};
use crate::types::Type;

verus! {

/// Splits lines into their whitespace-delimited tokens.
pub struct Reader {
}

impl Reader {
    /// A fresh reader.
    pub fn new() -> (r: Reader) {
        Reader {  }
    }

    /// Splits `s` on whitespace runs, as `split_ws` describes; with a bound,
    /// as `split_ws_n` describes.
    pub fn split(&self, s: &str, n: Option<usize>) -> (r: Vec<String>)
        ensures
            n is None ==> r.deep_view() == split_ws(s@),
            n matches Some(k) ==> r.deep_view() == split_ws_n(s@, k as int),
    {
        let chars = str_chars(s);
        match n {
            Option::None => split_all(&chars),
            Option::Some(k) => split_limit(&chars, k),
        }
    }

    /// The first line's tokens: the discovered header of a simple text.
    pub fn header(&self, rows: &str) -> (r: Result<Vec<String>, AppError>)
        ensures
            r is Ok <==> lines_of(rows@).len() > 0,
            r matches Ok(h) ==> h.deep_view() == split_ws(lines_of(rows@)[0]),
            r matches Err(e) ==> e matches AppError::Fixed(m) && m@ == "No lines"@,
    {
        let chars = str_chars(rows);
        let lines = split_lines(&chars);
        if lines.len() == 0 {
            proof {
                assert(lines.deep_view().len() == lines@.len());
            }
            return Err(AppError::Fixed("No lines"));
        }
        proof {
            assert(lines.deep_view().len() == lines@.len());
            assert(lines@[0].deep_view() =~= lines@[0]@);
        }
        Ok(split_all(&lines[0]))
    }
}

/// Splits a whole line on whitespace runs, as `split_ws` describes.
fn split_all(chars: &Vec<char>) -> (r: Vec<String>)
    ensures
        r.deep_view() == split_ws(chars@),
{
    let n = chars.len();
    let mut out: Vec<String> = Vec::new();
    let mut pos: usize = 0;
    proof {
        assert(chars@.skip(0) =~= chars@);
        assert(out.deep_view() + split_ws(chars@) =~~= split_ws(chars@));
    }
    loop
        invariant
            pos <= n,
            n == chars@.len(),
            out.deep_view() + split_ws(chars@.skip(pos as int)) =~~= split_ws(chars@),
        decreases n - pos + 1,
    {
        let j = find_ws_from(chars, pos);
        proof {
            crate::text::lemma_first_ws_index(chars@.skip(pos as int));
        }
        let mut piece: Vec<char> = Vec::new();
        let mut k = pos;
        while k < j
            invariant
                pos <= k <= j <= n,
                n == chars@.len(),
                piece@ == chars@.subrange(pos as int, k as int),
            decreases j - k,
        {
            piece.push(chars[k]);
            k = k + 1;
            proof {
                assert(piece@ =~= chars@.subrange(pos as int, k as int));
            }
        }
        let s = chars_string(&piece);
        proof {
            let rest = chars@.skip(pos as int);
            let f = first_ws_index(rest);
            if j < n {
                assert(piece@ =~= rest.take(f));
            } else {
                assert(piece@ =~= rest);
                assert(split_ws(rest) == seq![rest]);
            }
        }
        out.push(s);
        if j < n {
            let next = skip_ws_from(chars, j);
            proof {
                let rest = chars@.skip(pos as int);
                let f = first_ws_index(rest);
                assert(rest.skip(f) =~= chars@.skip(j as int));
                assert(rest.skip(f + ws_run(rest, f)) =~= chars@.skip(next as int)) by {
                    assert(next == j + crate::text::ws_run_len(chars@.skip(j as int)));
                }
                assert(out.deep_view() + split_ws(chars@.skip(next as int)) =~~= split_ws(chars@));
            }
            pos = next;
        } else {
            proof {
                assert(chars@.skip(n as int) =~= Seq::<char>::empty());
                assert(out.deep_view() =~~= split_ws(chars@));
            }
            return out;
        }
    }
}

/// The whitespace run length at offset `f` of `rest`.
pub open spec fn ws_run(rest: Seq<char>, f: int) -> int {
    crate::text::ws_run_len(rest.skip(f))
}

/// Splits a line on whitespace runs with a piece budget, as `split_ws_n`
/// describes.
fn split_limit(chars: &Vec<char>, limit: usize) -> (r: Vec<String>)
    ensures
        r.deep_view() == split_ws_n(chars@, limit as int),
{
    let n = chars.len();
    let mut out: Vec<String> = Vec::new();
    if limit == 0 {
        proof {
            assert(out.deep_view() =~~= split_ws_n(chars@, 0));
        }
        return out;
    }
    let mut pos: usize = 0;
    let mut left: usize = limit;
    proof {
        assert(chars@.skip(0) =~= chars@);
        assert(out.deep_view() + split_ws_n(chars@, limit as int) =~~= split_ws_n(
            chars@,
            limit as int,
        ));
    }
    loop
        invariant
            pos <= n,
            n == chars@.len(),
            1 <= left <= limit,
            out.deep_view() + split_ws_n(chars@.skip(pos as int), left as int) =~~= split_ws_n(
                chars@,
                limit as int,
            ),
        decreases left,
    {
        let j = if left == 1 {
            n
        } else {
            find_ws_from(chars, pos)
        };
        proof {
            crate::text::lemma_first_ws_index(chars@.skip(pos as int));
        }
        let mut piece: Vec<char> = Vec::new();
        let mut k = pos;
        while k < j
            invariant
                pos <= k <= j <= n,
                n == chars@.len(),
                piece@ == chars@.subrange(pos as int, k as int),
            decreases j - k,
        {
            piece.push(chars[k]);
            k = k + 1;
            proof {
                assert(piece@ =~= chars@.subrange(pos as int, k as int));
            }
        }
        let s = chars_string(&piece);
        let ghost rest = chars@.skip(pos as int);
        let ghost f = first_ws_index(rest);
        proof {
            if left == 1 || j >= n {
                assert(piece@ =~= rest);
            } else {
                assert(piece@ =~= rest.take(f));
            }
        }
        out.push(s);
        if left > 1 && j < n {
            let next = skip_ws_from(chars, j);
            proof {
                assert(rest.skip(f) =~= chars@.skip(j as int));
                assert(rest.skip(f + ws_run(rest, f)) =~= chars@.skip(next as int)) by {
                    assert(next == j + crate::text::ws_run_len(chars@.skip(j as int)));
                }
                assert(out.deep_view() + split_ws_n(chars@.skip(next as int), left - 1)
                    =~~= split_ws_n(chars@, limit as int));
            }
            pos = next;
            left = left - 1;
        } else {
            proof {
                if left == 1 {
                    assert(split_ws_n(rest, 1) == seq![rest]);
                } else {
                    assert(j >= n);
                    assert(f < 0);
                    assert(split_ws_n(rest, left as int) == seq![rest]);
                }
                assert(out.deep_view() =~~= split_ws_n(chars@, limit as int));
            }
            return out;
        }
    }
}

/// The simple-format header: the first line's tokens, or the synthetic names
/// sized to them when the input has no header line.
pub open spec fn simple_header(lines: Seq<Seq<char>>, no_header: bool) -> Seq<Seq<char>>
    recommends
        lines.len() > 0,
{
    if no_header {
        alpha_names(split_ws(lines[0]).len() as int)
    } else {
        split_ws(lines[0])
    }
}

/// The simple-format data lines: every line, or every line after the header.
pub open spec fn simple_data(lines: Seq<Seq<char>>, no_header: bool) -> Seq<Seq<char>>
    recommends
        lines.len() > 0,
{
    if no_header {
        lines
    } else {
        lines.drop_first()
    }
}

/// What a simple-format ingestion plan holds for a text: the dropped and
/// recreated table over the first line's tokens, every column typed `Text`,
/// and one positional insert per data line, its values the line's tokens
/// under the header-width split bound, padded with empty text.
pub open spec fn simple_plan_ok(g: Ingestion, text: Seq<char>, no_header: bool) -> bool {
    let lines = lines_of(text);
    let header = simple_header(lines, no_header);
    let data = simple_data(lines, no_header);
    let types = Seq::new(header.len(), |i: int| Type::Text);
    &&& g.clear@ == "DROP TABLE IF EXISTS n"@
    &&& g.create@ == create_table_chars(header, types)
    &&& g.inserts@.len() == data.len()
    &&& forall|i: int|
        0 <= i < data.len() ==> (#[trigger] g.inserts@[i]).sql@ == insert_values_chars(
            header.len() as int,
        )
    &&& forall|i: int|
        0 <= i < data.len() ==> (#[trigger] g.inserts@[i]).params.deep_view() == normalized_row(
            split_ws_n(data[i], header.len() as int),
            types,
            header.len() as int,
        )
}

/// Loads a simple text, as `simple_plan_ok` describes; an input without a
/// single line has no header to discover.
pub fn load_simple(text: &str, config: &Config) -> (r: Result<Ingestion, AppError>)
    ensures
        r is Ok <==> lines_of(text@).len() > 0,
        r matches Err(e) ==> e matches AppError::Fixed(m) && m@ == "No lines"@,
        r matches Ok(g) ==> simple_plan_ok(g, text@, config.no_header),
{
    let chars = str_chars(text);
    let lines = split_lines(&chars);
    let ghost ls = lines.deep_view();
    proof {
        assert(ls.len() == lines@.len());
    }
    if lines.len() == 0 {
        return Err(AppError::Fixed("No lines"));
    }
    proof {
        assert(lines@[0].deep_view() =~= lines@[0]@);
        assert(ls[0] == lines@[0]@);
    }
    let first_tokens = split_all(&lines[0]);
    let mut names: Vec<Vec<char>> = Vec::new();
    let ghost header = simple_header(ls, config.no_header);
    if config.no_header {
        let alpha = alpha_header(first_tokens.len());
        let m = alpha.len();
        let mut i: usize = 0;
        proof {
            assert(first_tokens.deep_view().len() == first_tokens@.len());
        }
        while i < m
            invariant
                i <= m,
                m == alpha@.len(),
                alpha.deep_view() == alpha_names(first_tokens@.len() as int),
                names@.len() == i,
                forall|k: int| 0 <= k < i ==> #[trigger] names@[k]@ == alpha.deep_view()[k],
            decreases m - i,
        {
            proof {
                assert(alpha.deep_view()[i as int] == alpha@[i as int]@);
            }
            names.push(str_chars(alpha[i]));
            i = i + 1;
        }
        proof {
            assert forall|k: int| 0 <= k < names.deep_view().len() implies names.deep_view()[k]
                == header[k] by {
                assert(names@[k]@ == alpha.deep_view()[k]);
            }
            assert(names.deep_view() =~~= header);
        }
    } else {
        let m = first_tokens.len();
        let mut i: usize = 0;
        while i < m
            invariant
                i <= m,
                m == first_tokens@.len(),
                first_tokens.deep_view() == split_ws(ls[0]),
                names@.len() == i,
                forall|k: int| 0 <= k < i ==> #[trigger] names@[k]@ == first_tokens@[k]@,
            decreases m - i,
        {
            names.push(str_chars(first_tokens[i].as_str()));
            i = i + 1;
        }
        proof {
            assert forall|k: int| 0 <= k < names.deep_view().len() implies names.deep_view()[k]
                == header[k] by {
                assert(names@[k]@ == first_tokens@[k]@);
                assert(first_tokens.deep_view()[k] == first_tokens@[k]@);
            }
            assert(names.deep_view().len() == header.len());
            assert(names.deep_view() =~~= header);
        }
    }
    let width = names.len();
    let mut types: Vec<Type> = Vec::new();
    let mut i: usize = 0;
    while i < width
        invariant
            i <= width,
            types@ == Seq::new(i as nat, |k: int| Type::Text),
        decreases width - i,
    {
        types.push(Type::Text);
        i = i + 1;
        proof {
            assert(types@ =~= Seq::new(i as nat, |k: int| Type::Text));
        }
    }
    proof {
        assert(types@ =~= Seq::new(header.len(), |k: int| Type::Text));
    }
    let create = create_table_sql(&names, &types);
    let insert_sql = insert_values(width);
    let ghost data = simple_data(ls, config.no_header);
    let data_start: usize = if config.no_header {
        0
    } else {
        1
    };
    proof {
        assert(data =~= ls.skip(data_start as int));
    }
    let n = lines.len();
    let mut inserts: Vec<Insert> = Vec::new();
    let mut li = data_start;
    while li < n
        invariant
            data_start <= li <= n,
            data_start <= 1,
            n == lines@.len(),
            ls == lines.deep_view(),
            ls.len() == lines@.len(),
            data =~= ls.skip(data_start as int),
            types@ == Seq::new(simple_header(ls, config.no_header).len(), |k: int| Type::Text),
            width as int == simple_header(ls, config.no_header).len(),
            insert_sql@ == insert_values_chars(width as int),
            inserts@.len() == li - data_start,
            forall|k: int|
                0 <= k < li - data_start ==> (#[trigger] inserts@[k]).sql@ == insert_values_chars(
                    width as int,
                ),
            forall|k: int|
                0 <= k < li - data_start ==> (#[trigger] inserts@[k]).params.deep_view()
                    == normalized_row(split_ws_n(data[k], width as int), types@, width as int),
        decreases n - li,
    {
        proof {
            assert(lines@[li as int].deep_view() =~= lines@[li as int]@);
            assert(ls[li as int] == lines@[li as int]@);
            assert(data[li - data_start] == ls[li as int]);
        }
        let tokens = split_limit(&lines[li], width);
        let params = normalize_row(&tokens, &types, width);
        inserts.push(Insert { sql: insert_sql.clone(), params });
        li = li + 1;
    }
    Ok(Ingestion { clear: drop_table_sql(), create, inserts })
}

} // verus!
