//! Regex loading: a user-supplied pattern with capture groups is matched
//! against each line; the first matching line locks in a synthetic header
//! sized to the group count, and every matching line yields one row.

use vstd::prelude::*;

use crate::errors::AppError;
use crate::loader::{alpha_header, alpha_names};
use crate::plan::{Ingestion, Insert};
use crate::sql::{create_table_chars, create_table_sql, drop_table_sql, insert_values,
    insert_values_chars};
use crate::text::{chars_string, lines_of, split_lines, str_chars};
use crate::types::Type;

verus! {

#[verifier::external_type_specification]
#[verifier::external_body]
pub struct ExRegex(regex::Regex);

/// A compiled row pattern, kept beside its source text so that contracts can
/// speak of the pattern itself. Only `compile_pattern` builds one, so the
/// two fields always belong together.
pub struct RowPattern {
    re: regex::Regex,
    pattern: String,
}

impl RowPattern {
    /// The pattern text this value was compiled from.
    pub closed spec fn pattern_text(&self) -> Seq<char> {
        self.pattern@
    }
}

/// How the pattern's groups match a line: nothing when the line does not
/// match; otherwise one entry per group of the pattern, the whole match
/// first, with absent entries for groups that took no part. A function of
/// the pattern and the line alone.
pub uninterp spec fn captures_of(pattern: Seq<char>, line: Seq<char>) -> Option<
    Seq<Option<Seq<char>>>,
>;

/// Whether the pattern text compiles as a regular expression: a function of
/// the text alone.
pub uninterp spec fn regex_compiles(pattern: Seq<char>) -> bool;

/// Relies on regex::Regex::new: compiles the pattern text or reports its
/// error.
#[verifier::external_body]
pub fn compile_pattern(pattern: &str) -> (r: Result<RowPattern, regex::Error>)
    ensures
        r is Ok <==> regex_compiles(pattern@),
        r matches Ok(p) ==> p.pattern_text() == pattern@,
{
    match regex::Regex::new(pattern) {
        Ok(re) => Ok(RowPattern { re, pattern: pattern.to_owned() }),
        Err(e) => Err(e),
    }
}

/// Relies on regex::Regex::captures: whether and how the groups match is a
/// function of the pattern and the line; a match always includes the
/// implicit whole-match group, so at least one entry comes back.
#[verifier::external_body]
fn captures(p: &RowPattern, line: &str) -> (r: Option<Vec<Option<String>>>)
    ensures
        r.deep_view() == captures_of(p.pattern@, line@),
        r matches Some(cs) ==> cs@.len() >= 1,
{
    p.re.captures(line).map(
        |c| c.iter().map(|m| m.map(|mm| mm.as_str().to_owned())).collect(),
    )
}

/// The index of the first line the pattern matches, or `-1` if none.
pub open spec fn first_match_index(pattern: Seq<char>, lines: Seq<Seq<char>>) -> int
    decreases lines.len(),
{
    if lines.len() == 0 {
        -1
    } else if captures_of(pattern, lines[0]) is Some {
        0
    } else {
        let r = first_match_index(pattern, lines.drop_first());
        if r < 0 {
            -1
        } else {
            r + 1
        }
    }
}

/// What `first_match_index` returns: the first matching line, and `-1`
/// exactly when no line matches.
pub proof fn lemma_first_match_index(pattern: Seq<char>, lines: Seq<Seq<char>>)
    ensures
        first_match_index(pattern, lines) < 0 ==> forall|k: int|
            0 <= k < lines.len() ==> !(captures_of(pattern, #[trigger] lines[k]) is Some),
        first_match_index(pattern, lines) >= 0 ==> {
            &&& 0 <= first_match_index(pattern, lines) < lines.len()
            &&& captures_of(pattern, lines[first_match_index(pattern, lines)]) is Some
            &&& forall|k: int|
                0 <= k < first_match_index(pattern, lines) ==> !(captures_of(
                    pattern,
                    #[trigger] lines[k],
                ) is Some)
        },
    decreases lines.len(),
{
    if lines.len() == 0 {
    } else if captures_of(pattern, lines[0]) is Some {
    } else {
        lemma_first_match_index(pattern, lines.drop_first());
        let r = first_match_index(pattern, lines.drop_first());
        if r >= 0 {
            assert forall|k: int| 0 <= k < r + 1 implies !(captures_of(
                pattern,
                #[trigger] lines[k],
            ) is Some) by {
                if k > 0 {
                    assert(!(captures_of(pattern, lines.drop_first()[k - 1]) is Some));
                }
            }
        } else {
            assert forall|k: int| 0 <= k < lines.len() implies !(captures_of(
                pattern,
                #[trigger] lines[k],
            ) is Some) by {
                if k > 0 {
                    assert(!(captures_of(pattern, lines.drop_first()[k - 1]) is Some));
                }
            }
        }
    }
}

/// The locked-in column count: one column per explicit group of the first
/// matching line's captures.
pub open spec fn rex_width(pattern: Seq<char>, lines: Seq<Seq<char>>) -> int
    recommends
        first_match_index(pattern, lines) >= 0,
{
    captures_of(pattern, lines[first_match_index(pattern, lines)])->Some_0.len() - 1
}

/// One row's values from a line's captures: one value per column, or nothing
/// when some column's group is absent.
pub open spec fn rex_row(caps: Seq<Option<Seq<char>>>, w: int) -> Option<Seq<Seq<char>>> {
    if forall|g: int| 1 <= g <= w ==> g < caps.len() && (#[trigger] caps[g]) is Some {
        Option::Some(Seq::new(w as nat, |g: int| caps[g + 1]->Some_0))
    } else {
        Option::None
    }
}

/// The rows of the first `k` lines: matching lines' rows in order, skipping
/// lines that do not match; nothing as soon as a matching line is missing a
/// column's group.
pub open spec fn rex_rows_upto(pattern: Seq<char>, lines: Seq<Seq<char>>, w: int, k: int) -> Option<
    Seq<Seq<Seq<char>>>,
>
    decreases k,
{
    if k <= 0 {
        Option::Some(Seq::empty())
    } else {
        match rex_rows_upto(pattern, lines, w, k - 1) {
            Option::None => Option::None,
            Option::Some(rs) => match captures_of(pattern, lines[k - 1]) {
                Option::None => Option::Some(rs),
                Option::Some(caps) => match rex_row(caps, w) {
                    Option::None => Option::None,
                    Option::Some(row) => Option::Some(rs.push(row)),
                },
            },
        }
    }
}

/// What a regex ingestion plan holds for a text: the dropped and recreated
/// table over the synthetic header sized to the first matching line's group
/// count, every column typed `Text`, and one positional insert per matching
/// line with the groups' values in order.
pub open spec fn rex_plan_ok(g: Ingestion, pattern: Seq<char>, text: Seq<char>) -> bool {
    let lines = lines_of(text);
    let aw = alpha_names(rex_width(pattern, lines)).len() as int;
    let rows = rex_rows_upto(pattern, lines, aw, lines.len() as int)->Some_0;
    &&& first_match_index(pattern, lines) >= 0
    &&& rex_rows_upto(pattern, lines, aw, lines.len() as int) is Some
    &&& g.clear@ == "DROP TABLE IF EXISTS n"@
    &&& g.create@ == create_table_chars(
        alpha_names(rex_width(pattern, lines)),
        Seq::new(aw as nat, |i: int| Type::Text),
    )
    &&& g.inserts@.len() == rows.len()
    &&& forall|i: int|
        0 <= i < rows.len() ==> (#[trigger] g.inserts@[i]).sql@ == insert_values_chars(aw)
    &&& forall|i: int|
        0 <= i < rows.len() ==> (#[trigger] g.inserts@[i]).params.deep_view() == rows[i]
}

/// The first matching line's index and captures, if any line matches.
fn find_first_match(p: &RowPattern, lines: &Vec<Vec<char>>) -> (r: Option<
    (usize, Vec<Option<String>>),
>)
    ensures
        r matches Some(fc) ==> {
            &&& fc.0 as int == first_match_index(p.pattern@, lines.deep_view())
            &&& (fc.0 as int) < lines@.len()
            &&& captures_of(p.pattern@, lines.deep_view()[fc.0 as int]) == Option::Some(
                fc.1.deep_view(),
            )
            &&& fc.1@.len() >= 1
        },
        r is None ==> first_match_index(p.pattern@, lines.deep_view()) < 0,
{
    let ghost ls = lines.deep_view();
    let n = lines.len();
    let mut i: usize = 0;
    proof {
        assert(ls.len() == lines@.len());
    }
    while i < n
        invariant
            i <= n,
            n == lines@.len(),
            ls == lines.deep_view(),
            ls.len() == lines@.len(),
            forall|k: int| 0 <= k < i ==> !(captures_of(p.pattern@, #[trigger] ls[k]) is Some),
        decreases n - i,
    {
        let line_s = chars_string(&lines[i]);
        proof {
            assert(lines@[i as int].deep_view() =~= lines@[i as int]@);
            assert(ls[i as int] == lines@[i as int]@);
        }
        match captures(p, line_s.as_str()) {
            Option::Some(caps) => {
                proof {
                    lemma_first_match_index(p.pattern@, ls);
                    let f = first_match_index(p.pattern@, ls);
                    assert(captures_of(p.pattern@, ls[i as int]) is Some);
                    assert(f == i as int) by {
                        if 0 <= f < i as int {
                            assert(!(captures_of(p.pattern@, ls[f]) is Some));
                        }
                        if f > i as int || f < 0 {
                            assert(!(captures_of(p.pattern@, ls[i as int]) is Some));
                        }
                    }
                }
                return Option::Some((i, caps));
            },
            Option::None => {},
        }
        i = i + 1;
    }
    proof {
        lemma_first_match_index(p.pattern@, ls);
        let f = first_match_index(p.pattern@, ls);
        if f >= 0 {
            assert(captures_of(p.pattern@, ls[f]) is Some);
        }
    }
    Option::None
}

/// One row's values from a line's captures, as `rex_row` describes: nothing
/// when some column's group is absent from the match.
fn build_row(caps: &Vec<Option<String>>, w: usize) -> (r: Option<Vec<String>>)
    ensures
        r matches Some(ps) ==> rex_row(caps.deep_view(), w as int) matches Some(row)
            && ps.deep_view() == row,
        r is None ==> rex_row(caps.deep_view(), w as int) is None,
{
    let ghost capsv = caps.deep_view();
    let mut params: Vec<String> = Vec::new();
    let mut g: usize = 1;
    proof {
        assert(capsv.len() == caps@.len());
    }
    while g <= w
        invariant
            1 <= g <= w + 1,
            capsv == caps.deep_view(),
            capsv.len() == caps@.len(),
            params@.len() == g - 1,
            forall|j: int| 1 <= j < g ==> j < capsv.len() && (#[trigger] capsv[j]) is Some,
            forall|j: int| 0 <= j < g - 1 ==> #[trigger] params@[j]@ == capsv[j + 1]->Some_0,
        decreases w + 1 - g,
    {
        if g >= caps.len() {
            proof {
                assert(!(g < capsv.len() && capsv[g as int] is Some));
                assert(rex_row(capsv, w as int) is None);
            }
            return Option::None;
        }
        match &caps[g] {
            Option::Some(v) => {
                params.push(v.clone());
                proof {
                    assert(caps.deep_view()[g as int] == caps@[g as int].deep_view());
                    assert(capsv[g as int]->Some_0 == caps@[g as int]->Some_0@);
                }
            },
            Option::None => {
                proof {
                    assert(caps.deep_view()[g as int] == caps@[g as int].deep_view());
                    assert(!(capsv[g as int] is Some));
                    assert(rex_row(capsv, w as int) is None);
                }
                return Option::None;
            },
        }
        g = g + 1;
    }
    proof {
        assert(rex_row(capsv, w as int) is Some);
        let row = rex_row(capsv, w as int)->Some_0;
        assert forall|j: int| 0 <= j < w implies params.deep_view()[j] == row[j] by {
            assert(params@[j]@ == capsv[j + 1]->Some_0);
        }
        assert(params.deep_view() =~~= row);
    }
    Option::Some(params)
}

/// What `load_regex` returns on each input: a pattern that does not compile
/// carries its own error; with a compiled pattern, no matching line yields
/// no plan (and so no schema change), a matching line missing a column's
/// group fails the whole ingestion, and anything else yields the plan of
/// `rex_plan_ok`.
pub open spec fn rex_load_ok(
    r: Result<Option<Ingestion>, AppError>,
    pattern: Seq<char>,
    text: Seq<char>,
) -> bool {
    let lines = lines_of(text);
    let aw = alpha_names(rex_width(pattern, lines)).len() as int;
    if !regex_compiles(pattern) {
        r matches Err(e) && e matches AppError::Regex(_)
    } else if first_match_index(pattern, lines) < 0 {
        r matches Ok(p) && p is None
    } else if rex_rows_upto(pattern, lines, aw, lines.len() as int) is None {
        r matches Err(e) && e is FewColumns
    } else {
        r matches Ok(p) && p matches Some(g) && rex_plan_ok(g, pattern, text)
    }
}

/// Loads a regex-delimited text: compiles the pattern, locks the header on
/// the first matching line, and collects one row per matching line, exactly
/// as `rex_load_ok` describes.
pub fn load_regex(text: &str, pattern: &str) -> (r: Result<Option<Ingestion>, AppError>)
    ensures
        rex_load_ok(r, pattern@, text@),
{
    let p = match compile_pattern(pattern) {
        Ok(p) => p,
        Err(e) => {
            return Err(AppError::Regex(e));
        },
    };
    let chars = str_chars(text);
    let lines = split_lines(&chars);
    let ghost ls = lines.deep_view();
    let n = lines.len();
    proof {
        assert(ls.len() == lines@.len());
    }
    let (fm, caps0) = match find_first_match(&p, &lines) {
        Option::Some(fc) => fc,
        Option::None => {
            return Ok(Option::None);
        },
    };
    let w = caps0.len() - 1;
    let ghost wg = rex_width(pattern@, ls);
    proof {
        assert(caps0.deep_view().len() == caps0@.len());
        assert(w as int == wg);
    }
    // the schema: synthetic names, all text
    let alpha = alpha_header(w);
    let hn = alpha.len();
    let ghost aw = alpha_names(wg).len() as int;
    let mut names: Vec<Vec<char>> = Vec::new();
    let mut i: usize = 0;
    while i < hn
        invariant
            i <= hn,
            hn == alpha@.len(),
            alpha.deep_view() == alpha_names(w as int),
            names@.len() == i,
            forall|k: int| 0 <= k < i ==> #[trigger] names@[k]@ == alpha.deep_view()[k],
        decreases hn - i,
    {
        proof {
            assert(alpha.deep_view()[i as int] == alpha@[i as int]@);
        }
        names.push(str_chars(alpha[i]));
        i = i + 1;
    }
    proof {
        assert forall|k: int| 0 <= k < names.deep_view().len() implies names.deep_view()[k]
            == alpha_names(w as int)[k] by {
            assert(names@[k]@ == alpha.deep_view()[k]);
        }
        assert(names.deep_view() =~~= alpha_names(w as int));
        assert(hn as int == aw);
    }
    let mut types: Vec<Type> = Vec::new();
    let mut i: usize = 0;
    while i < hn
        invariant
            i <= hn,
            types@ == Seq::new(i as nat, |k: int| Type::Text),
        decreases hn - i,
    {
        types.push(Type::Text);
        i = i + 1;
        proof {
            assert(types@ =~= Seq::new(i as nat, |k: int| Type::Text));
        }
    }
    proof {
        assert(types@ =~= Seq::new(aw as nat, |k: int| Type::Text));
    }
    let create = create_table_sql(&names, &types);
    let insert_sql = insert_values(hn);
    // collect one row per matching line
    let mut inserts: Vec<Insert> = Vec::new();
    let mut li: usize = 0;
    proof {
        assert(rex_rows_upto(pattern@, ls, aw, 0) == Option::<Seq<Seq<Seq<char>>>>::Some(
            Seq::empty(),
        ));
    }
    while li < n
        invariant
            li <= n,
            n == lines@.len(),
            ls == lines.deep_view(),
            ls.len() == lines@.len(),
            p.pattern@ == pattern@,
            regex_compiles(pattern@),
            ls == lines_of(text@),
            first_match_index(pattern@, ls) >= 0,
            wg == rex_width(pattern@, ls),
            aw == alpha_names(wg).len() as int,
            hn as int == aw,
            insert_sql@ == insert_values_chars(aw),
            rex_rows_upto(pattern@, ls, aw, li as int) matches Some(rs) && inserts@.len()
                == rs.len(),
            forall|k: int|
                0 <= k < inserts@.len() ==> (#[trigger] inserts@[k]).sql@ == insert_values_chars(
                    aw,
                ),
            forall|k: int|
                0 <= k < inserts@.len() ==> (#[trigger] inserts@[k]).params.deep_view()
                    == rex_rows_upto(pattern@, ls, aw, li as int)->Some_0[k],
        decreases n - li,
    {
        let line_s = chars_string(&lines[li]);
        proof {
            assert(lines@[li as int].deep_view() =~= lines@[li as int]@);
            assert(ls[li as int] == lines@[li as int]@);
        }
        match captures(&p, line_s.as_str()) {
            Option::None => {
                proof {
                    assert(rex_rows_upto(pattern@, ls, aw, li + 1) == rex_rows_upto(
                        pattern@,
                        ls,
                        aw,
                        li as int,
                    ));
                }
            },
            Option::Some(caps) => {
                let ghost capsv = caps.deep_view();
                proof {
                    assert(captures_of(pattern@, ls[li as int]) == Option::Some(capsv));
                }
                match build_row(&caps, hn) {
                    Option::Some(params) => {
                        proof {
                            assert(rex_rows_upto(pattern@, ls, aw, li + 1) matches Some(rs2) && rs2
                                == rex_rows_upto(pattern@, ls, aw, li as int)->Some_0.push(
                                rex_row(capsv, aw)->Some_0,
                            ));
                        }
                        inserts.push(Insert { sql: insert_sql.clone(), params });
                    },
                    Option::None => {
                        proof {
                            assert(rex_rows_upto(pattern@, ls, aw, li + 1) is None);
                            lemma_rex_rows_none(pattern@, ls, aw, li + 1, n as int);
                        }
                        return Err(AppError::FewColumns);
                    },
                }
            },
        }
        li = li + 1;
    }
    Ok(Option::Some(Ingestion { clear: drop_table_sql(), create, inserts }))
}

/// The lines among the first `k` that the pattern does not match, in order:
/// what the per-line skip diagnostic reports.
pub open spec fn unmatched_upto(pattern: Seq<char>, lines: Seq<Seq<char>>, k: int) -> Seq<
    Seq<char>,
>
    decreases k,
{
    if k <= 0 {
        Seq::empty()
    } else {
        unmatched_upto(pattern, lines, k - 1) + (if captures_of(pattern, lines[k - 1]) is None {
            seq![lines[k - 1]]
        } else {
            Seq::empty()
        })
    }
}

/// The lines the pattern skips, in order, so the caller can report each one;
/// fails exactly when the pattern does not compile.
pub fn unmatched_lines(text: &str, pattern: &str) -> (r: Result<Vec<String>, AppError>)
    ensures
        r is Ok <==> regex_compiles(pattern@),
        r matches Ok(v) ==> v.deep_view() == unmatched_upto(
            pattern@,
            lines_of(text@),
            lines_of(text@).len() as int,
        ),
        r matches Err(e) ==> e matches AppError::Regex(_),
{
    let p = match compile_pattern(pattern) {
        Ok(p) => p,
        Err(e) => {
            return Err(AppError::Regex(e));
        },
    };
    let chars = str_chars(text);
    let lines = split_lines(&chars);
    let ghost ls = lines.deep_view();
    let n = lines.len();
    let mut out: Vec<String> = Vec::new();
    let mut li: usize = 0;
    proof {
        assert(ls.len() == lines@.len());
        assert(out.deep_view() =~~= unmatched_upto(pattern@, ls, 0));
    }
    while li < n
        invariant
            li <= n,
            n == lines@.len(),
            ls == lines.deep_view(),
            ls.len() == lines@.len(),
            ls == lines_of(text@),
            p.pattern@ == pattern@,
            out.deep_view() =~~= unmatched_upto(pattern@, ls, li as int),
        decreases n - li,
    {
        let line_s = chars_string(&lines[li]);
        proof {
            assert(lines@[li as int].deep_view() =~= lines@[li as int]@);
            assert(ls[li as int] == lines@[li as int]@);
        }
        let ghost pre = out.deep_view();
        if captures(&p, line_s.as_str()).is_none() {
            out.push(line_s);
            proof {
                assert(out.deep_view() =~~= pre.push(ls[li as int]));
            }
        }
        li = li + 1;
    }
    Ok(out)
}

/// A missing group is final: once some prefix of the lines has no row set,
/// no longer prefix has one.
proof fn lemma_rex_rows_none(pattern: Seq<char>, lines: Seq<Seq<char>>, w: int, k: int, m: int)
    requires
        k <= m,
        rex_rows_upto(pattern, lines, w, k) is None,
    ensures
        rex_rows_upto(pattern, lines, w, m) is None,
    decreases m - k,
{
    if k < m {
        lemma_rex_rows_none(pattern, lines, w, k + 1, m);
    }
}

} // verus!
