//! LTSV loading: tab-separated `key:value` pairs per line, a header unioned
//! over every line, and one keyed insert per line binding only the keys the
//! line holds.

use vstd::prelude::*;

use crate::loader::{contains_name, dedup_insert};
use crate::plan::{Ingestion, Insert};
use crate::sql::{create_table_chars, create_table_sql, drop_table_sql, insert_named_chars,
    insert_named_sql};
use crate::text::{chars_string, first_index_of, lemma_first_index_of, lines_of, split_char,
    split_lines, split_on, str_chars};
use crate::types::Type;

verus! {

/// The `key:value` pairs among the first `k` tab-separated columns of a
/// line: a column without a colon, or with an empty key, contributes none.
pub open spec fn ltsv_pairs_upto(cols: Seq<Seq<char>>, k: int) -> Seq<(Seq<char>, Seq<char>)>
    decreases k,
{
    if k <= 0 {
        Seq::empty()
    } else {
        ltsv_pairs_upto(cols, k - 1) + ({
            let c = cols[k - 1];
            let i = first_index_of(c, ':');
            if i >= 1 {
                seq![(c.take(i), c.skip(i + 1))]
            } else {
                Seq::empty()
            }
        })
    }
}

/// The `key:value` pairs of one line.
pub open spec fn ltsv_line_pairs(line: Seq<char>) -> Seq<(Seq<char>, Seq<char>)> {
    ltsv_pairs_upto(split_on(line, '\t'), split_on(line, '\t').len() as int)
}

/// The keys of one line, in column order.
pub open spec fn ltsv_line_keys(line: Seq<char>) -> Seq<Seq<char>> {
    ltsv_line_pairs(line).map(|i: int, p: (Seq<char>, Seq<char>)| p.0)
}

/// The header accumulated over a sequence of lines, first appearance first.
pub open spec fn ltsv_header_fold(acc: Seq<Seq<char>>, lines: Seq<Seq<char>>) -> Seq<Seq<char>>
    decreases lines.len(),
{
    if lines.len() == 0 {
        acc
    } else {
        ltsv_header_fold(dedup_insert(acc, ltsv_line_keys(lines[0])), lines.drop_first())
    }
}

/// The discovered LTSV header: the union of the keys of every line of the
/// text (no sampling limit), first appearance first.
pub open spec fn ltsv_header(text: Seq<char>) -> Seq<Seq<char>> {
    ltsv_header_fold(Seq::empty(), lines_of(text))
}

/// The pairs of one line, as `ltsv_line_pairs` describes: keys paired with
/// the text after their first colon.
pub fn line_pairs(line: &Vec<char>) -> (r: Vec<(String, String)>)
    ensures
        r.deep_view() == ltsv_line_pairs(line@),
{
    let cols = split_char(line, '\t');
    let ghost cs = cols.deep_view();
    let n = cols.len();
    let mut out: Vec<(String, String)> = Vec::new();
    let mut k: usize = 0;
    proof {
        assert(out.deep_view() =~= ltsv_pairs_upto(cs, 0));
    }
    while k < n
        invariant
            k <= n,
            n == cols@.len(),
            cs == cols.deep_view(),
            cs.len() == cols@.len(),
            out.deep_view() =~~= ltsv_pairs_upto(cs, k as int),
        decreases n - k,
    {
        let col = &cols[k];
        let ghost pre = out.deep_view();
        proof {
            assert(cs[k as int] == cols@[k as int].deep_view());
            assert(cols@[k as int].deep_view() =~= col@);
            lemma_first_index_of(col@, ':');
        }
        let i = crate::text::find_from(col, ':', 0);
        proof {
            assert(col@.skip(0) =~= col@);
        }
        if i >= 1 && i < col.len() {
            let mut key: Vec<char> = Vec::new();
            let mut kk: usize = 0;
            while kk < i
                invariant
                    kk <= i <= col@.len(),
                    key@ == col@.subrange(0, kk as int),
                decreases i - kk,
            {
                key.push(col[kk]);
                kk = kk + 1;
                proof {
                    assert(key@ =~= col@.subrange(0, kk as int));
                }
            }
            let mut value: Vec<char> = Vec::new();
            let mut vv: usize = i + 1;
            let m = col.len();
            while vv < m
                invariant
                    i + 1 <= vv <= m,
                    m == col@.len(),
                    value@ == col@.subrange(i + 1, vv as int),
                decreases m - vv,
            {
                value.push(col[vv]);
                vv = vv + 1;
                proof {
                    assert(value@ =~= col@.subrange(i + 1, vv as int));
                }
            }
            proof {
                assert(key@ =~= col@.take(first_index_of(col@, ':')));
                assert(value@ =~= col@.skip(first_index_of(col@, ':') + 1));
            }
            out.push((chars_string(&key), chars_string(&value)));
        }
        proof {
            assert(out.deep_view() =~~= ltsv_pairs_upto(cs, k + 1));
        }
        k = k + 1;
    }
    out
}

/// Discovers the LTSV header, as `ltsv_header` describes.
pub fn header(content: &str) -> (r: Vec<String>)
    ensures
        r.deep_view() == ltsv_header(content@),
{
    let chars = str_chars(content);
    let lines = split_lines(&chars);
    let ghost ls = lines.deep_view();
    let n = lines.len();
    let mut acc: Vec<String> = Vec::new();
    let mut li: usize = 0;
    proof {
        assert(ls.skip(0) =~= ls);
        assert(acc.deep_view() =~= Seq::<Seq<char>>::empty());
    }
    while li < n
        invariant
            li <= n,
            n == lines@.len(),
            ls == lines.deep_view(),
            ls.len() == lines@.len(),
            ltsv_header_fold(acc.deep_view(), ls.skip(li as int)) == ltsv_header_fold(
                Seq::empty(),
                ls,
            ),
        decreases n - li,
    {
        let pairs = line_pairs(&lines[li]);
        proof {
            assert(lines@[li as int].deep_view() =~= lines@[li as int]@);
            assert(ls[li as int] == lines@[li as int]@);
        }
        let ghost keys = ltsv_line_keys(ls[li as int]);
        let ghost nm = pairs.deep_view().map(|i: int, p: (Seq<char>, Seq<char>)| p.0);
        proof {
            assert(nm =~= keys);
        }
        let ghost mid = acc.deep_view();
        let m = pairs.len();
        let mut k: usize = 0;
        proof {
            assert(nm.skip(0) =~= nm);
        }
        while k < m
            invariant
                k <= m,
                m == pairs@.len(),
                nm == pairs.deep_view().map(|i: int, p: (Seq<char>, Seq<char>)| p.0),
                pairs.deep_view().len() == pairs@.len(),
                nm.len() == pairs@.len(),
                dedup_insert(acc.deep_view(), nm.skip(k as int)) == dedup_insert(mid, nm),
            decreases m - k,
        {
            let ghost pre = acc.deep_view();
            let present = contains_name(&acc, &pairs[k].0);
            proof {
                assert(nm.skip(k as int)[0] == nm[k as int]);
                assert(nm[k as int] == pairs.deep_view()[k as int].0);
                assert(pairs.deep_view()[k as int] == pairs@[k as int].deep_view());
                assert(nm[k as int] == pairs@[k as int].0@);
                assert(nm.skip(k as int).drop_first() =~= nm.skip(k + 1));
            }
            if !present {
                acc.push(pairs[k].0.clone());
                proof {
                    assert(acc.deep_view() =~= pre.push(nm[k as int]));
                }
            }
            k = k + 1;
        }
        proof {
            assert(nm.skip(m as int) =~= Seq::<Seq<char>>::empty());
            assert(ls.skip(li as int)[0] == ls[li as int]);
            assert(ls.skip(li as int).drop_first() =~= ls.skip(li + 1));
        }
        li = li + 1;
    }
    proof {
        assert(ls.skip(n as int) =~= Seq::<Seq<char>>::empty());
    }
    acc
}

/// What an LTSV ingestion plan holds for a text: the dropped and recreated
/// table over the all-lines header, every column typed `Text`, and one keyed
/// insert per line binding exactly the line's own keys.
pub open spec fn ltsv_plan_ok(g: Ingestion, text: Seq<char>) -> bool {
    let header = ltsv_header(text);
    let lines = lines_of(text);
    &&& g.clear@ == "DROP TABLE IF EXISTS n"@
    &&& g.create@ == create_table_chars(header, Seq::new(header.len(), |i: int| Type::Text))
    &&& g.inserts@.len() == lines.len()
    &&& forall|i: int|
        0 <= i < lines.len() ==> (#[trigger] g.inserts@[i]).sql@ == insert_named_chars(
            ltsv_line_keys(lines[i]),
        )
    &&& forall|i: int|
        0 <= i < lines.len() ==> (#[trigger] g.inserts@[i]).params.deep_view()
            == ltsv_line_pairs(lines[i]).map(|j: int, p: (Seq<char>, Seq<char>)| p.1)
}

/// Loads an LTSV text, as `ltsv_plan_ok` describes. Never fails: a line
/// without pairs still yields its (empty) insert.
pub fn load_ltsv(text: &str) -> (r: Ingestion)
    ensures
        ltsv_plan_ok(r, text@),
{
    let names = header(text);
    let hn = names.len();
    let mut name_chars: Vec<Vec<char>> = Vec::new();
    let mut i: usize = 0;
    while i < hn
        invariant
            i <= hn,
            hn == names@.len(),
            name_chars@.len() == i,
            forall|k: int| 0 <= k < i ==> #[trigger] name_chars@[k]@ == names@[k]@,
        decreases hn - i,
    {
        name_chars.push(str_chars(names[i].as_str()));
        i = i + 1;
    }
    let mut types: Vec<Type> = Vec::new();
    let mut i: usize = 0;
    while i < hn
        invariant
            i <= hn,
            types@ == Seq::new(i as nat, |k: int| Type::Text),
        decreases hn - i,
    {
        types.push(Type::Text);
        i = i + 1;
        proof {
            assert(types@ =~= Seq::new(i as nat, |k: int| Type::Text));
        }
    }
    let ghost hdr = ltsv_header(text@);
    proof {
        assert forall|k: int| 0 <= k < hn implies name_chars.deep_view()[k] == hdr[k] by {
            assert(name_chars@[k]@ == names@[k]@);
            assert(names.deep_view()[k] == names@[k]@);
        }
        assert(names.deep_view().len() == hdr.len());
        assert(name_chars.deep_view() =~~= hdr);
        assert(types@ =~= Seq::new(hdr.len(), |k: int| Type::Text));
    }
    let create = create_table_sql(&name_chars, &types);
    let chars = str_chars(text);
    let lines = split_lines(&chars);
    let ghost ls = lines.deep_view();
    let n = lines.len();
    let mut inserts: Vec<Insert> = Vec::new();
    let mut li: usize = 0;
    while li < n
        invariant
            li <= n,
            n == lines@.len(),
            ls == lines.deep_view(),
            ls.len() == lines@.len(),
            ls == lines_of(text@),
            inserts@.len() == li,
            forall|k: int|
                0 <= k < li ==> (#[trigger] inserts@[k]).sql@ == insert_named_chars(
                    ltsv_line_keys(ls[k]),
                ),
            forall|k: int|
                0 <= k < li ==> (#[trigger] inserts@[k]).params.deep_view() == ltsv_line_pairs(
                    ls[k],
                ).map(|j: int, p: (Seq<char>, Seq<char>)| p.1),
        decreases n - li,
    {
        let pairs = line_pairs(&lines[li]);
        proof {
            assert(lines@[li as int].deep_view() =~= lines@[li as int]@);
            assert(ls[li as int] == lines@[li as int]@);
        }
        let ghost row = ltsv_line_pairs(ls[li as int]);
        proof {
            assert(pairs.deep_view() == row);
        }
        let np = pairs.len();
        let mut row_names: Vec<Vec<char>> = Vec::new();
        let mut params: Vec<String> = Vec::new();
        let mut k: usize = 0;
        while k < np
            invariant
                k <= np,
                np == pairs@.len(),
                row == pairs.deep_view(),
                row.len() == pairs@.len(),
                row_names@.len() == k,
                params@.len() == k,
                forall|j: int| 0 <= j < k ==> #[trigger] row_names@[j]@ == row[j].0,
                forall|j: int| 0 <= j < k ==> #[trigger] params@[j]@ == row[j].1,
            decreases np - k,
        {
            proof {
                assert(pairs.deep_view()[k as int] == pairs@[k as int].deep_view());
            }
            row_names.push(str_chars(pairs[k].0.as_str()));
            params.push(pairs[k].1.clone());
            k = k + 1;
        }
        let sql = insert_named_sql(&row_names);
        proof {
            assert forall|j: int| 0 <= j < np implies row_names.deep_view()[j] == ltsv_line_keys(
                ls[li as int],
            )[j] by {
                assert(row_names@[j]@ == row[j].0);
            }
            assert(ltsv_line_keys(ls[li as int]).len() == np as int);
            assert(row_names.deep_view() =~~= ltsv_line_keys(ls[li as int]));
            assert forall|j: int| 0 <= j < np implies params.deep_view()[j] == row.map(
                |j2: int, p: (Seq<char>, Seq<char>)| p.1,
            )[j] by {
                assert(params@[j]@ == row[j].1);
            }
            assert(params.deep_view() =~~= row.map(|j2: int, p: (Seq<char>, Seq<char>)| p.1));
        }
        inserts.push(Insert { sql, params });
        li = li + 1;
    }
    Ingestion { clear: drop_table_sql(), create, inserts }
}

} // verus!
