//! Generation of the SQL statement texts: quoted identifiers, placeholder
//! lists, the table DDL and the two insert-statement shapes.
//!
//! Values are always bound as parameters; the only interpolated surface is
//! identifier text, which is single-quoted with embedded quotes doubled.

use vstd::prelude::*;

use crate::text::chars_string;
use crate::types::Type;

verus! {

/// `s` with every single quote doubled, built left to right over the first
/// `k` characters.
pub open spec fn escaped_prefix(s: Seq<char>, k: int) -> Seq<char>
    decreases k,
{
    if k <= 0 {
        Seq::empty()
    } else {
        escaped_prefix(s, k - 1) + (if s[k - 1] == '\'' {
            seq!['\'', '\'']
        } else {
            seq![s[k - 1]]
        })
    }
}

/// `s` with every single quote doubled.
pub open spec fn escaped(s: Seq<char>) -> Seq<char> {
    escaped_prefix(s, s.len() as int)
}

/// The identifier `s` as it is emitted into statement text: single-quoted,
/// with embedded quotes doubled.
pub open spec fn quoted_ident(s: Seq<char>) -> Seq<char> {
    seq!['\''] + escaped(s) + seq!['\'']
}

/// Doubling quotes commutes with peeling the first character.
pub proof fn lemma_escaped_head(s: Seq<char>)
    requires
        s.len() > 0,
    ensures
        escaped(s) == (if s[0] == '\'' {
            seq!['\'', '\'']
        } else {
            seq![s[0]]
        }) + escaped(s.drop_first()),
{
    lemma_escaped_prefix_head(s, s.len() as int);
    assert(s.drop_first().len() as int == s.len() as int - 1);
}

proof fn lemma_escaped_prefix_head(s: Seq<char>, k: int)
    requires
        1 <= k <= s.len(),
    ensures
        escaped_prefix(s, k) == (if s[0] == '\'' {
            seq!['\'', '\'']
        } else {
            seq![s[0]]
        }) + escaped_prefix(s.drop_first(), k - 1),
    decreases k,
{
    let head: Seq<char> = if s[0] == '\'' {
        seq!['\'', '\'']
    } else {
        seq![s[0]]
    };
    if k == 1 {
        assert(escaped_prefix(s, 1) == escaped_prefix(s, 0) + head);
        assert(escaped_prefix(s, 1) =~= head + escaped_prefix(s.drop_first(), 0));
    } else {
        lemma_escaped_prefix_head(s, k - 1);
        assert(s.drop_first()[k - 2] == s[k - 1]);
        assert(escaped_prefix(s, k) =~= head + escaped_prefix(s.drop_first(), k - 1));
    }
}

/// Appends the quoted form of `name` to `out`, as `quoted_ident` describes.
pub fn push_quoted_ident(name: &Vec<char>, out: &mut Vec<char>)
    ensures
        final(out)@ == old(out)@ + quoted_ident(name@),
{
    out.push('\'');
    let n = name.len();
    let mut i: usize = 0;
    while i < n
        invariant
            i <= n,
            n == name@.len(),
            out@ == old(out)@ + seq!['\''] + escaped_prefix(name@, i as int),
        decreases n - i,
    {
        let c = name[i];
        out.push(c);
        if c == '\'' {
            out.push('\'');
        }
        i = i + 1;
        proof {
            assert(out@ =~= old(out)@ + seq!['\''] + escaped_prefix(name@, i as int));
        }
    }
    out.push('\'');
    proof {
        assert(out@ =~= old(out)@ + quoted_ident(name@));
    }
}

/// Reads one single-quoted identifier from the head of `t` (the text after
/// the opening quote): a doubled quote stands for one quote character, a
/// lone quote closes the identifier. Yields the identifier's characters and
/// the text that follows, or nothing for an unterminated identifier.
pub open spec fn scan_quoted(t: Seq<char>) -> Option<(Seq<char>, Seq<char>)>
    decreases t.len(),
{
    if t.len() == 0 {
        Option::None
    } else if t[0] == '\'' {
        if t.len() >= 2 && t[1] == '\'' {
            match scan_quoted(t.skip(2)) {
                Option::Some(p) => Option::Some((seq!['\''] + p.0, p.1)),
                Option::None => Option::None,
            }
        } else {
            Option::Some((Seq::empty(), t.skip(1)))
        }
    } else {
        match scan_quoted(t.drop_first()) {
            Option::Some(p) => Option::Some((seq![t[0]] + p.0, p.1)),
            Option::None => Option::None,
        }
    }
}

/// Reads one quoted identifier from the head of a statement text.
pub open spec fn parse_quoted(t: Seq<char>) -> Option<(Seq<char>, Seq<char>)> {
    if t.len() > 0 && t[0] == '\'' {
        scan_quoted(t.drop_first())
    } else {
        Option::None
    }
}

/// Quoting never breaks the statement: whatever the identifier holds, a
/// reader of the emitted text finds exactly the original name and stops
/// exactly where the quoted form ends, provided the following text does not
/// itself begin with a quote (the generated statements always continue with
/// a space, comma or parenthesis).
pub proof fn lemma_quoted_ident_round_trip(name: Seq<char>, rest: Seq<char>)
    requires
        rest.len() == 0 || rest[0] != '\'',
    ensures
        parse_quoted(quoted_ident(name) + rest) == Option::Some((name, rest)),
{
    let t = quoted_ident(name) + rest;
    assert(t[0] == '\'');
    assert(t.drop_first() =~= escaped(name) + seq!['\''] + rest);
    lemma_scan_quoted_escaped(name, rest);
}

proof fn lemma_scan_quoted_escaped(name: Seq<char>, rest: Seq<char>)
    requires
        rest.len() == 0 || rest[0] != '\'',
    ensures
        scan_quoted(escaped(name) + seq!['\''] + rest) == Option::Some((name, rest)),
    decreases name.len(),
{
    let t = escaped(name) + seq!['\''] + rest;
    if name.len() == 0 {
        assert(escaped(name) =~= Seq::<char>::empty());
        assert(t =~= seq!['\''] + rest);
        assert(t[0] == '\'');
        if t.len() >= 2 && t[1] == '\'' {
            assert(rest[0] == '\'');
            assert(false);
        }
        assert(t.skip(1) =~= rest);
    } else {
        lemma_escaped_head(name);
        lemma_scan_quoted_escaped(name.drop_first(), rest);
        let t2 = escaped(name.drop_first()) + seq!['\''] + rest;
        if name[0] == '\'' {
            assert(t =~= seq!['\'', '\''] + t2);
            assert(t[0] == '\'' && t[1] == '\'');
            assert(t.skip(2) =~= t2);
            assert(seq!['\''] + name.drop_first() =~= name);
        } else {
            assert(t =~= seq![name[0]] + t2);
            assert(t[0] == name[0]);
            assert(t.drop_first() =~= t2);
            assert(seq![name[0]] + name.drop_first() =~= name);
        }
    }
}

/// The placeholder list for `k` bound values: `?`, comma-separated.
pub open spec fn qs_chars(k: int) -> Seq<char>
    decreases k,
{
    if k <= 0 {
        Seq::empty()
    } else if k == 1 {
        seq!['?']
    } else {
        qs_chars(k - 1) + seq![',', '?']
    }
}

/// Builds the placeholder list for `n` bound values, as `qs_chars` describes.
pub fn qs(n: usize) -> (r: String)
    ensures
        r@ == qs_chars(n as int),
{
    let mut out: Vec<char> = Vec::new();
    let mut i: usize = 0;
    while i < n
        invariant
            i <= n,
            out@ == qs_chars(i as int),
        decreases n - i,
    {
        if i == 0 {
            out.push('?');
        } else {
            out.push(',');
            out.push('?');
        }
        i = i + 1;
        proof {
            assert(out@ =~= qs_chars(i as int));
        }
    }
    chars_string(&out)
}

/// The positional insert statement for a table of `k` columns.
pub open spec fn insert_values_chars(k: int) -> Seq<char> {
    "INSERT INTO n VALUES("@ + qs_chars(k) + ")"@
}

/// Builds the positional insert statement, as `insert_values_chars`
/// describes.
pub fn insert_values(n: usize) -> (r: String)
    ensures
        r@ == insert_values_chars(n as int),
{
    let mut out = String::from_str("INSERT INTO n VALUES(");
    let ph = qs(n);
    out.append(ph.as_str());
    out.append(")");
    out
}

/// The SQL name of a column type.
pub open spec fn type_sql(t: Type) -> Seq<char> {
    match t {
        Type::Int => "integer"@,
        Type::Real => "real"@,
        Type::Text => "text"@,
    }
}

/// The column definition list of the first `k` columns: quoted name, space,
/// type name, comma-separated.
pub open spec fn column_defs_chars(names: Seq<Seq<char>>, types: Seq<Type>, k: int) -> Seq<char>
    decreases k,
{
    if k <= 0 {
        Seq::empty()
    } else {
        column_defs_chars(names, types, k - 1) + (if k > 1 {
            seq![',']
        } else {
            Seq::empty()
        }) + quoted_ident(names[k - 1]) + seq![' '] + type_sql(types[k - 1])
    }
}

/// The table DDL: the fixed-name table with one definition per column.
pub open spec fn create_table_chars(names: Seq<Seq<char>>, types: Seq<Type>) -> Seq<char> {
    "CREATE TABLE n ("@ + column_defs_chars(names, types, names.len() as int) + ")"@
}

/// Builds the table DDL, as `create_table_chars` describes.
pub fn create_table_sql(names: &Vec<Vec<char>>, types: &Vec<Type>) -> (r: String)
    requires
        names@.len() == types@.len(),
    ensures
        r@ == create_table_chars(names.deep_view(), types@),
{
    let n = names.len();
    let mut out: Vec<char> = Vec::new();
    let mut i: usize = 0;
    while i < n
        invariant
            i <= n,
            n == names@.len(),
            names@.len() == types@.len(),
            out@ == column_defs_chars(names.deep_view(), types@, i as int),
        decreases n - i,
    {
        if i > 0 {
            out.push(',');
        }
        push_quoted_ident(&names[i], &mut out);
        out.push(' ');
        let t = match types[i] {
            Type::Int => "integer",
            Type::Real => "real",
            Type::Text => "text",
        };
        let tc = crate::text::str_chars(t);
        let mut j: usize = 0;
        let m = tc.len();
        let ghost mid = out@;
        while j < m
            invariant
                j <= m,
                m == tc@.len(),
                out@ == mid + tc@.take(j as int),
            decreases m - j,
        {
            out.push(tc[j]);
            j = j + 1;
            proof {
                assert(out@ =~= mid + tc@.take(j as int));
            }
        }
        i = i + 1;
        proof {
            assert(tc@.take(m as int) =~= tc@);
            assert(names.deep_view()[i - 1] == names@[i - 1].deep_view());
            assert(names@[i - 1].deep_view() =~= names@[i - 1]@);
            assert(out@ =~= column_defs_chars(names.deep_view(), types@, i as int));
        }
    }
    let mut stmt = String::from_str("CREATE TABLE n (");
    let cols = chars_string(&out);
    stmt.append(cols.as_str());
    stmt.append(")");
    stmt
}

/// The keyed insert statement: the named columns of one row, quoted, then
/// one placeholder per named column.
pub open spec fn insert_named_chars(names: Seq<Seq<char>>) -> Seq<char> {
    "INSERT INTO n ("@ + name_list_chars(names, names.len() as int) + ") VALUES ("@ + qs_chars(
        names.len() as int,
    ) + ")"@
}

/// The comma-separated quoted names of the first `k` columns.
pub open spec fn name_list_chars(names: Seq<Seq<char>>, k: int) -> Seq<char>
    decreases k,
{
    if k <= 0 {
        Seq::empty()
    } else {
        name_list_chars(names, k - 1) + (if k > 1 {
            seq![',']
        } else {
            Seq::empty()
        }) + quoted_ident(names[k - 1])
    }
}

/// Builds the keyed insert statement, as `insert_named_chars` describes.
pub fn insert_named_sql(names: &Vec<Vec<char>>) -> (r: String)
    ensures
        r@ == insert_named_chars(names.deep_view()),
{
    let n = names.len();
    let mut out: Vec<char> = Vec::new();
    let mut i: usize = 0;
    while i < n
        invariant
            i <= n,
            n == names@.len(),
            out@ == name_list_chars(names.deep_view(), i as int),
        decreases n - i,
    {
        if i > 0 {
            out.push(',');
        }
        push_quoted_ident(&names[i], &mut out);
        i = i + 1;
        proof {
            assert(names.deep_view()[i - 1] == names@[i - 1].deep_view());
            assert(names@[i - 1].deep_view() =~= names@[i - 1]@);
            assert(out@ =~= name_list_chars(names.deep_view(), i as int));
        }
    }
    let mut stmt = String::from_str("INSERT INTO n (");
    let cols = chars_string(&out);
    stmt.append(cols.as_str());
    stmt.append(") VALUES (");
    let ph = qs(n);
    stmt.append(ph.as_str());
    stmt.append(")");
    proof {
        assert(names.deep_view().len() == names@.len());
    }
    stmt
}

/// The insert for a row that binds no column at all: every column of the new
/// row stays NULL.
pub fn insert_default_sql() -> (r: String)
    ensures
        r@ == "INSERT INTO n DEFAULT VALUES"@,
{
    String::from_str("INSERT INTO n DEFAULT VALUES")
}

/// The statement that clears the previous materialization: ingestion always
/// drops and recreates the fixed-name table.
pub fn drop_table_sql() -> (r: String)
    ensures
        r@ == "DROP TABLE IF EXISTS n"@,
{
    String::from_str("DROP TABLE IF EXISTS n")
}

} // verus!
