//! Character-level text utilities: line splitting, numeric-literal
//! classification, grouping-separator removal and decimal rendering.

use vstd::prelude::*;

verus! {

/// A decimal digit.
pub open spec fn is_digit(c: char) -> bool {
    '0' <= c && c <= '9'
}

/// Every character of `s` is a decimal digit.
pub open spec fn all_digits(s: Seq<char>) -> bool {
    forall|i: int| 0 <= i < s.len() ==> is_digit(#[trigger] s[i])
}

/// `s` without one leading sign character, if any.
pub open spec fn unsigned_part(s: Seq<char>) -> Seq<char> {
    if s.len() > 0 && (s[0] == '+' || s[0] == '-') {
        s.drop_first()
    } else {
        s
    }
}

/// An integer literal: an optional sign followed by one to eighteen digits.
pub open spec fn is_int_text(s: Seq<char>) -> bool {
    let d = unsigned_part(s);
    1 <= d.len() <= 18 && all_digits(d)
}

/// A real literal: an optional sign, then digits, one dot, and digits, both
/// digit runs non-empty.
pub open spec fn is_real_text(s: Seq<char>) -> bool {
    let d = unsigned_part(s);
    exists|k: int|
        1 <= k <= d.len() - 2 && #[trigger] d[k] == '.' && all_digits(d.take(k)) && all_digits(
            d.skip(k + 1),
        )
}

/// The index of the first occurrence of `c` in `s`, or `-1` if none.
pub open spec fn first_index_of(s: Seq<char>, c: char) -> int
    decreases s.len(),
{
    if s.len() == 0 {
        -1
    } else if s[0] == c {
        0
    } else {
        let r = first_index_of(s.drop_first(), c);
        if r < 0 {
            -1
        } else {
            r + 1
        }
    }
}

/// What `first_index_of` returns: the first position that holds `c`, and `-1`
/// exactly when `c` does not occur.
pub proof fn lemma_first_index_of(s: Seq<char>, c: char)
    ensures
        first_index_of(s, c) < 0 ==> forall|k: int| 0 <= k < s.len() ==> s[k] != c,
        first_index_of(s, c) >= 0 ==> {
            &&& 0 <= first_index_of(s, c) < s.len()
            &&& s[first_index_of(s, c)] == c
            &&& forall|k: int| 0 <= k < first_index_of(s, c) ==> s[k] != c
        },
    decreases s.len(),
{
    if s.len() == 0 {
    } else if s[0] == c {
    } else {
        lemma_first_index_of(s.drop_first(), c);
        let r = first_index_of(s.drop_first(), c);
        if r >= 0 {
            assert forall|k: int| 0 <= k < r + 1 implies s[k] != c by {
                if k > 0 {
                    assert(s.drop_first()[k - 1] != c);
                }
            }
        } else {
            assert forall|k: int| 0 <= k < s.len() implies s[k] != c by {
                if k > 0 {
                    assert(s.drop_first()[k - 1] != c);
                }
            }
        }
    }
}

/// The index of the first occurrence of `c` in `chars` at or after `from`,
/// or the length of `chars` if there is none.
pub fn find_from(chars: &Vec<char>, c: char, from: usize) -> (r: usize)
    requires
        from <= chars@.len(),
    ensures
        first_index_of(chars@.skip(from as int), c) >= 0 ==> r == from + first_index_of(
            chars@.skip(from as int),
            c,
        ) && r < chars@.len() && chars@[r as int] == c,
        first_index_of(chars@.skip(from as int), c) < 0 ==> r == chars@.len(),
{
    let n = chars.len();
    let mut i = from;
    while i < n
        invariant
            from <= i <= n,
            n == chars@.len(),
            forall|k: int| from <= k < i ==> chars@[k] != c,
        decreases n - i,
    {
        if chars[i] == c {
            proof {
                lemma_first_index_of(chars@.skip(from as int), c);
                let f = first_index_of(chars@.skip(from as int), c);
                assert(chars@.skip(from as int)[i - from] == c);
                if f >= 0 {
                    assert(chars@.skip(from as int)[f] == c);
                    assert(chars@[f + from] == c);
                }
                assert(f == i - from) by {
                    if f < i - from {
                        assert(chars@[f + from] != c);
                    }
                    if f > i - from || f < 0 {
                        assert(chars@.skip(from as int)[i - from] != c);
                    }
                }
            }
            return i;
        }
        i = i + 1;
    }
    proof {
        lemma_first_index_of(chars@.skip(from as int), c);
        let f = first_index_of(chars@.skip(from as int), c);
        if f >= 0 {
            assert(chars@.skip(from as int)[f] == c);
            assert(chars@[f + from] == c);
        }
    }
    n
}

/// A line with a trailing carriage return removed.
pub open spec fn strip_cr(l: Seq<char>) -> Seq<char> {
    if l.len() > 0 && l.last() == '\r' {
        l.drop_last()
    } else {
        l
    }
}

/// The lines of a text: pieces split at `\n`, each piece before a `\n` with a
/// trailing `\r` removed, and no empty final piece for a trailing newline.
pub open spec fn lines_of(s: Seq<char>) -> Seq<Seq<char>>
    decreases s.len(),
    via lines_of_decreases
{
    if s.len() == 0 {
        Seq::empty()
    } else {
        let i = first_index_of(s, '\n');
        if i < 0 {
            seq![s]
        } else {
            seq![strip_cr(s.take(i))] + lines_of(s.skip(i + 1))
        }
    }
}

#[via_fn]
proof fn lines_of_decreases(s: Seq<char>) {
    lemma_first_index_of(s, '\n');
}

/// Splits a text into its lines, as `lines_of` describes.
pub fn split_lines(chars: &Vec<char>) -> (r: Vec<Vec<char>>)
    ensures
        r.deep_view() == lines_of(chars@),
{
    let n = chars.len();
    let mut out: Vec<Vec<char>> = Vec::new();
    let mut pos: usize = 0;
    proof {
        assert(chars@.skip(0) =~= chars@);
        assert(out.deep_view() + lines_of(chars@) =~~= lines_of(chars@));
    }
    while pos < n
        invariant
            pos <= n,
            n == chars@.len(),
            out.deep_view() + lines_of(chars@.skip(pos as int)) =~~= lines_of(chars@),
        decreases n - pos,
    {
        let j = find_from(chars, '\n', pos);
        proof {
            lemma_first_index_of(chars@.skip(pos as int), '\n');
        }
        let mut line: Vec<char> = Vec::new();
        let end = if j < n && j > pos && chars[j - 1] == '\r' {
            j - 1
        } else {
            j
        };
        let mut k = pos;
        while k < end
            invariant
                pos <= k <= end <= n,
                n == chars@.len(),
                line@ == chars@.subrange(pos as int, k as int),
            decreases end - k,
        {
            line.push(chars[k]);
            k = k + 1;
            proof {
                assert(line@ =~= chars@.subrange(pos as int, k as int));
            }
        }
        proof {
            let rest = chars@.skip(pos as int);
            let f = first_index_of(rest, '\n');
            assert(rest.len() > 0);
            if j < n {
                // a newline was found at j == pos + f
                assert(f == j - pos && rest[0] == '\n' ==> f == 0);
                assert(lines_of(rest) == seq![strip_cr(rest.take(f))] + lines_of(
                    rest.skip(f + 1),
                ));
                assert(rest.take(f) =~= chars@.subrange(pos as int, j as int));
                if end < j {
                    assert(rest.take(f).last() == '\r');
                    assert(line@ =~= rest.take(f).drop_last());
                    assert(line@ == strip_cr(rest.take(f)));
                } else {
                    assert(line@ == strip_cr(rest.take(f)));
                }
                assert(rest.skip(f + 1) =~= chars@.skip(j + 1));
                assert(out.deep_view().push(line@) + lines_of(chars@.skip(j + 1)) =~~= out.deep_view()
                    + lines_of(rest));
            } else {
                // no newline remains: the rest is the final line, unstripped
                assert(line@ =~= rest);
                assert(lines_of(rest) == seq![rest]);
                assert(chars@.skip(n as int) =~= Seq::<char>::empty());
                assert(out.deep_view().push(line@) + lines_of(chars@.skip(n as int)) =~~= out.deep_view()
                    + lines_of(rest));
            }
            assert(line.deep_view() =~= line@);
        }
        out.push(line);
        pos = if j < n {
            j + 1
        } else {
            n
        };
    }
    proof {
        assert(chars@.skip(n as int) =~= Seq::<char>::empty());
        assert(out.deep_view() =~= lines_of(chars@));
    }
    out
}

/// The pieces of `s` split at every occurrence of `sep`: one piece more
/// than there are separators, in order, separators dropped.
pub open spec fn split_on(s: Seq<char>, sep: char) -> Seq<Seq<char>>
    decreases s.len(),
    via split_on_decreases
{
    let i = first_index_of(s, sep);
    if i < 0 {
        seq![s]
    } else {
        seq![s.take(i)] + split_on(s.skip(i + 1), sep)
    }
}

#[via_fn]
proof fn split_on_decreases(s: Seq<char>, sep: char) {
    lemma_first_index_of(s, sep);
}

/// Splits `chars` at every `sep`, as `split_on` describes.
pub fn split_char(chars: &Vec<char>, sep: char) -> (r: Vec<Vec<char>>)
    ensures
        r.deep_view() == split_on(chars@, sep),
{
    let n = chars.len();
    let mut out: Vec<Vec<char>> = Vec::new();
    let mut pos: usize = 0;
    proof {
        assert(chars@.skip(0) =~= chars@);
        assert(out.deep_view() + split_on(chars@, sep) =~~= split_on(chars@, sep));
    }
    loop
        invariant
            pos <= n,
            n == chars@.len(),
            out.deep_view() + split_on(chars@.skip(pos as int), sep) =~~= split_on(chars@, sep),
        decreases n - pos + 1,
    {
        let j = find_from(chars, sep, pos);
        proof {
            lemma_first_index_of(chars@.skip(pos as int), sep);
        }
        let mut piece: Vec<char> = Vec::new();
        let mut k = pos;
        while k < j
            invariant
                pos <= k <= j <= n,
                n == chars@.len(),
                piece@ == chars@.subrange(pos as int, k as int),
            decreases j - k,
        {
            piece.push(chars[k]);
            k = k + 1;
            proof {
                assert(piece@ =~= chars@.subrange(pos as int, k as int));
            }
        }
        proof {
            let rest = chars@.skip(pos as int);
            let f = first_index_of(rest, sep);
            if j < n {
                assert(piece@ =~= rest.take(f));
                assert(rest.skip(f + 1) =~= chars@.skip(j + 1));
                assert(out.deep_view().push(piece@) + split_on(chars@.skip(j + 1), sep)
                    =~~= out.deep_view() + split_on(rest, sep));
            } else {
                assert(piece@ =~= rest);
                assert(split_on(rest, sep) == seq![rest]);
                assert(out.deep_view().push(piece@) =~~= out.deep_view() + split_on(rest, sep));
            }
            assert(piece.deep_view() =~= piece@);
        }
        out.push(piece);
        if j < n {
            pos = j + 1;
        } else {
            proof {
                assert(out.deep_view() =~~= split_on(chars@, sep));
            }
            return out;
        }
    }
}

/// A space or a tab: what the whitespace-delimited format splits on.
pub open spec fn is_ws(c: char) -> bool {
    c == ' ' || c == '\t'
}

/// The index of the first whitespace character of `s`, or `-1` if none.
pub open spec fn first_ws_index(s: Seq<char>) -> int
    decreases s.len(),
{
    if s.len() == 0 {
        -1
    } else if is_ws(s[0]) {
        0
    } else {
        let r = first_ws_index(s.drop_first());
        if r < 0 {
            -1
        } else {
            r + 1
        }
    }
}

/// What `first_ws_index` returns: the first whitespace position, `-1`
/// exactly when there is none.
pub proof fn lemma_first_ws_index(s: Seq<char>)
    ensures
        first_ws_index(s) < 0 ==> forall|k: int| 0 <= k < s.len() ==> !is_ws(#[trigger] s[k]),
        first_ws_index(s) >= 0 ==> {
            &&& 0 <= first_ws_index(s) < s.len()
            &&& is_ws(s[first_ws_index(s)])
            &&& forall|k: int| 0 <= k < first_ws_index(s) ==> !is_ws(#[trigger] s[k])
        },
    decreases s.len(),
{
    if s.len() == 0 {
    } else if is_ws(s[0]) {
    } else {
        lemma_first_ws_index(s.drop_first());
        let r = first_ws_index(s.drop_first());
        if r >= 0 {
            assert forall|k: int| 0 <= k < r + 1 implies !is_ws(#[trigger] s[k]) by {
                if k > 0 {
                    assert(!is_ws(s.drop_first()[k - 1]));
                }
            }
        } else {
            assert forall|k: int| 0 <= k < s.len() implies !is_ws(#[trigger] s[k]) by {
                if k > 0 {
                    assert(!is_ws(s.drop_first()[k - 1]));
                }
            }
        }
    }
}

/// The length of the whitespace run at the head of `s`.
pub open spec fn ws_run_len(s: Seq<char>) -> int
    decreases s.len(),
{
    if s.len() == 0 || !is_ws(s[0]) {
        0
    } else {
        1 + ws_run_len(s.drop_first())
    }
}

/// What `ws_run_len` returns: the run's characters are whitespace, and the
/// character after it (if any) is not.
pub proof fn lemma_ws_run_len(s: Seq<char>)
    ensures
        0 <= ws_run_len(s) <= s.len(),
        forall|k: int| 0 <= k < ws_run_len(s) ==> is_ws(#[trigger] s[k]),
        ws_run_len(s) < s.len() ==> !is_ws(s[ws_run_len(s)]),
    decreases s.len(),
{
    if s.len() > 0 && is_ws(s[0]) {
        lemma_ws_run_len(s.drop_first());
        assert forall|k: int| 0 <= k < ws_run_len(s) implies is_ws(#[trigger] s[k]) by {
            if k > 0 {
                assert(is_ws(s.drop_first()[k - 1]));
            }
        }
        if ws_run_len(s) < s.len() {
            assert(s[ws_run_len(s)] == s.drop_first()[ws_run_len(s.drop_first())]);
        }
    }
}

/// The pieces of `s` split at every maximal whitespace run.
pub open spec fn split_ws(s: Seq<char>) -> Seq<Seq<char>>
    decreases s.len(),
    via split_ws_decreases
{
    let i = first_ws_index(s);
    if i < 0 {
        seq![s]
    } else {
        seq![s.take(i)] + split_ws(s.skip(i + ws_run_len(s.skip(i))))
    }
}

#[via_fn]
proof fn split_ws_decreases(s: Seq<char>) {
    lemma_first_ws_index(s);
    let i = first_ws_index(s);
    if i >= 0 {
        lemma_ws_run_len(s.skip(i));
        assert(s.skip(i)[0] == s[i]);
    }
}

/// The pieces of `s` split at whitespace runs, at most `n` of them: the last
/// allowed piece takes the whole remainder, whitespace included.
pub open spec fn split_ws_n(s: Seq<char>, n: int) -> Seq<Seq<char>>
    decreases n,
    via split_ws_n_decreases
{
    if n <= 0 {
        Seq::empty()
    } else if n == 1 {
        seq![s]
    } else {
        let i = first_ws_index(s);
        if i < 0 {
            seq![s]
        } else {
            seq![s.take(i)] + split_ws_n(s.skip(i + ws_run_len(s.skip(i))), n - 1)
        }
    }
}

#[via_fn]
proof fn split_ws_n_decreases(s: Seq<char>, n: int) {
}

/// The index of the first whitespace character of `chars` at or after
/// `from`, or the length of `chars` if there is none.
pub fn find_ws_from(chars: &Vec<char>, from: usize) -> (r: usize)
    requires
        from <= chars@.len(),
    ensures
        first_ws_index(chars@.skip(from as int)) >= 0 ==> r == from + first_ws_index(
            chars@.skip(from as int),
        ) && r < chars@.len() && is_ws(chars@[r as int]),
        first_ws_index(chars@.skip(from as int)) < 0 ==> r == chars@.len(),
{
    let n = chars.len();
    let mut i = from;
    while i < n
        invariant
            from <= i <= n,
            n == chars@.len(),
            forall|k: int| from <= k < i ==> !is_ws(#[trigger] chars@[k]),
        decreases n - i,
    {
        let c = chars[i];
        if c == ' ' || c == '\t' {
            proof {
                lemma_first_ws_index(chars@.skip(from as int));
                let f = first_ws_index(chars@.skip(from as int));
                assert(is_ws(chars@.skip(from as int)[i - from]));
                if f >= 0 {
                    assert(is_ws(chars@.skip(from as int)[f]));
                    assert(is_ws(chars@[f + from]));
                }
                assert(f == i - from) by {
                    if f < i - from {
                        assert(!is_ws(chars@[f + from]));
                    }
                    if f > i - from || f < 0 {
                        assert(!is_ws(chars@.skip(from as int)[i - from]));
                    }
                }
            }
            return i;
        }
        i = i + 1;
    }
    proof {
        lemma_first_ws_index(chars@.skip(from as int));
        let f = first_ws_index(chars@.skip(from as int));
        if f >= 0 {
            assert(is_ws(chars@.skip(from as int)[f]));
            assert(is_ws(chars@[f + from]));
        }
    }
    n
}

/// The index just past the whitespace run starting at `from`.
pub fn skip_ws_from(chars: &Vec<char>, from: usize) -> (r: usize)
    requires
        from <= chars@.len(),
    ensures
        from <= r <= chars@.len(),
        r == from + ws_run_len(chars@.skip(from as int)),
{
    let n = chars.len();
    let mut i = from;
    while i < n
        invariant
            from <= i <= n,
            n == chars@.len(),
            forall|k: int| from <= k < i ==> is_ws(#[trigger] chars@[k]),
        decreases n - i,
    {
        let c = chars[i];
        if !(c == ' ' || c == '\t') {
            proof {
                lemma_ws_run_len(chars@.skip(from as int));
                let w = ws_run_len(chars@.skip(from as int));
                assert(w == i - from) by {
                    if w < i - from {
                        assert(is_ws(chars@[from + w]));
                        assert(is_ws(chars@.skip(from as int)[w]));
                    }
                    if w > i - from {
                        assert(is_ws(chars@.skip(from as int)[i - from]));
                        assert(is_ws(chars@[i as int]));
                    }
                }
            }
            return i;
        }
        i = i + 1;
    }
    proof {
        lemma_ws_run_len(chars@.skip(from as int));
        let w = ws_run_len(chars@.skip(from as int));
        assert(w == n - from) by {
            if w < n - from {
                assert(!is_ws(chars@.skip(from as int)[w]));
                assert(is_ws(chars@[from + w]));
            }
        }
    }
    n
}

/// Decides whether `s` is an integer literal, as `is_int_text` describes.
pub fn matches_int(s: &Vec<char>) -> (r: bool)
    ensures
        r == is_int_text(s@),
{
    let start: usize = if s.len() > 0 && (s[0] == '+' || s[0] == '-') {
        1
    } else {
        0
    };
    let n = s.len();
    proof {
        assert(unsigned_part(s@) =~= s@.skip(start as int));
    }
    if n - start < 1 || n - start > 18 {
        return false;
    }
    let mut i = start;
    while i < n
        invariant
            start <= i <= n,
            n == s@.len(),
            unsigned_part(s@) == s@.skip(start as int),
            1 <= n - start <= 18,
            forall|k: int| start <= k < i ==> is_digit(#[trigger] s@[k]),
        decreases n - i,
    {
        if !(s[i] >= '0' && s[i] <= '9') {
            proof {
                assert(!is_digit(s@.skip(start as int)[i - start]));
            }
            return false;
        }
        i = i + 1;
    }
    proof {
        assert forall|k: int| 0 <= k < s@.skip(start as int).len() implies is_digit(
            #[trigger] s@.skip(start as int)[k],
        ) by {
            assert(s@[k + start] == s@.skip(start as int)[k]);
        }
    }
    true
}

/// Decides whether `s` is a real literal, as `is_real_text` describes.
pub fn matches_real(s: &Vec<char>) -> (r: bool)
    ensures
        r == is_real_text(s@),
{
    let start: usize = if s.len() > 0 && (s[0] == '+' || s[0] == '-') {
        1
    } else {
        0
    };
    let n = s.len();
    proof {
        assert(unsigned_part(s@) =~= s@.skip(start as int));
    }
    let ghost d = s@.skip(start as int);
    let dot = find_from(s, '.', start);
    proof {
        lemma_first_index_of(d, '.');
    }
    if dot >= n || dot == start || dot + 1 >= n {
        proof {
            if is_real_text(s@) {
                let k = choose|k: int|
                    1 <= k <= d.len() - 2 && #[trigger] d[k] == '.' && all_digits(d.take(k))
                        && all_digits(d.skip(k + 1));
                assert(d[k] == '.');
                assert(first_index_of(d, '.') >= 0);
                let f = first_index_of(d, '.');
                if f < k {
                    assert(all_digits(d.take(k)));
                    assert(is_digit(d.take(k)[f]));
                }
                assert(f == k);
            }
        }
        return false;
    }
    // dot is the first '.', strictly inside the digit region
    let mut i = start;
    let mut ok = true;
    while i < n
        invariant
            start <= i <= n,
            n == s@.len(),
            start < dot < n,
            ok <==> (forall|k: int|
                start <= k < i && k != dot ==> is_digit(#[trigger] s@[k])),
        decreases n - i,
    {
        if i != dot && !(s[i] >= '0' && s[i] <= '9') {
            ok = false;
        }
        i = i + 1;
    }
    proof {
        let k = dot - start;
        if ok {
            assert forall|j: int| 0 <= j < k implies is_digit(#[trigger] d.take(k)[j]) by {
                assert(d.take(k)[j] == s@[j + start]);
            }
            assert forall|j: int| 0 <= j < d.skip(k + 1).len() implies is_digit(
                #[trigger] d.skip(k + 1)[j],
            ) by {
                assert(d.skip(k + 1)[j] == s@[j + start + k + 1]);
            }
            assert(d[k] == '.');
            assert(1 <= k <= d.len() - 2);
            assert(is_real_text(s@));
        } else {
            let bad = choose|b: int| start <= b < n && b != dot && !is_digit(#[trigger] s@[b]);
            if is_real_text(s@) {
                let k = choose|k: int|
                    1 <= k <= d.len() - 2 && #[trigger] d[k] == '.' && all_digits(d.take(k))
                        && all_digits(d.skip(k + 1));
                let f = first_index_of(d, '.');
                if f < k {
                    assert(is_digit(d.take(k)[f]));
                }
                assert(k == dot - start);
                if bad < dot {
                    assert(is_digit(d.take(k)[bad - start]));
                } else {
                    assert(is_digit(d.skip(k + 1)[bad - start - k - 1]));
                }
            }
        }
    }
    ok
}

/// `s` with every comma removed: how a numeric value's grouping separators
/// are normalized away.
pub open spec fn without_commas(s: Seq<char>) -> Seq<char> {
    s.filter(|c: char| c != ',')
}

/// Removes every comma of `s`, as `without_commas` describes.
pub fn strip_commas(s: &Vec<char>) -> (r: Vec<char>)
    ensures
        r@ == without_commas(s@),
{
    let n = s.len();
    let mut out: Vec<char> = Vec::new();
    proof {
        reveal(Seq::filter);
        assert(s@.take(0) =~= Seq::<char>::empty());
    }
    let mut i: usize = 0;
    while i < n
        invariant
            i <= n,
            n == s@.len(),
            out@ == s@.take(i as int).filter(|c: char| c != ','),
        decreases n - i,
    {
        let c = s[i];
        if c != ',' {
            out.push(c);
        }
        i = i + 1;
        proof {
            reveal(Seq::filter);
            let t = s@.take(i as int);
            assert(t.drop_last() =~= s@.take(i - 1));
            assert(t.last() == s@[i - 1]);
        }
    }
    proof {
        assert(s@.take(n as int) =~= s@);
    }
    out
}

/// The characters of a string, one by one.
pub fn str_chars(s: &str) -> (r: Vec<char>)
    ensures
        r@ == s@,
{
    let n = s.unicode_len();
    let mut out: Vec<char> = Vec::new();
    let mut i: usize = 0;
    while i < n
        invariant
            i <= n,
            n == s@.len(),
            out@ == s@.take(i as int),
        decreases n - i,
    {
        out.push(s.get_char(i));
        i = i + 1;
        proof {
            assert(out@ =~= s@.take(i as int));
        }
    }
    proof {
        assert(s@.take(n as int) =~= s@);
    }
    out
}

/// The character for one decimal digit.
pub open spec fn digit_char(d: int) -> char {
    if d == 0 {
        '0'
    } else if d == 1 {
        '1'
    } else if d == 2 {
        '2'
    } else if d == 3 {
        '3'
    } else if d == 4 {
        '4'
    } else if d == 5 {
        '5'
    } else if d == 6 {
        '6'
    } else if d == 7 {
        '7'
    } else if d == 8 {
        '8'
    } else {
        '9'
    }
}

/// The decimal rendering of `n`, most significant digit first, no sign and
/// no leading zero (except for `n == 0` itself).
pub open spec fn dec_digits(n: nat) -> Seq<char>
    decreases n,
{
    if n < 10 {
        seq![digit_char(n as int)]
    } else {
        dec_digits(n / 10).push(digit_char((n % 10) as int))
    }
}

proof fn lemma_dec_digits_len(n: nat)
    ensures
        dec_digits(n).len() >= 1,
        n >= 10 ==> dec_digits(n).len() >= 2,
    decreases n,
{
    if n >= 10 {
        lemma_dec_digits_len(n / 10);
    }
}

/// Two numbers with the same decimal rendering are the same number.
pub proof fn lemma_dec_digits_injective(a: nat, b: nat)
    requires
        dec_digits(a) == dec_digits(b),
    ensures
        a == b,
    decreases a,
{
    lemma_dec_digits_len(a);
    lemma_dec_digits_len(b);
    if a < 10 && b < 10 {
        assert(dec_digits(a) == seq![digit_char(a as int)]);
        assert(dec_digits(b) == seq![digit_char(b as int)]);
        assert(dec_digits(a)[0] == digit_char(a as int));
        assert(dec_digits(b)[0] == digit_char(b as int));
        assert(digit_char(a as int) == digit_char(b as int));
        assert(a == b);
    } else if a < 10 {
        assert(dec_digits(a).len() == 1);
        assert(false);
    } else if b < 10 {
        assert(dec_digits(b).len() == 1);
        assert(false);
    } else {
        assert(dec_digits(a) == dec_digits(a / 10).push(digit_char((a % 10) as int)));
        assert(dec_digits(b) == dec_digits(b / 10).push(digit_char((b % 10) as int)));
        assert(dec_digits(a).last() == digit_char((a % 10) as int));
        assert(dec_digits(b).last() == digit_char((b % 10) as int));
        assert(0 <= a % 10 < 10 && 0 <= b % 10 < 10);
        assert(a % 10 == b % 10);
        assert(dec_digits(a).drop_last() =~= dec_digits(a / 10));
        assert(dec_digits(b).drop_last() =~= dec_digits(b / 10));
        lemma_dec_digits_injective(a / 10, b / 10);
        assert(a == 10 * (a / 10) + a % 10) by (nonlinear_arith);
        assert(b == 10 * (b / 10) + b % 10) by (nonlinear_arith);
        assert(a == b);
    }
}

fn digit_to_char(d: u8) -> (r: char)
    requires
        d < 10,
    ensures
        r == digit_char(d as int),
{
    match d {
        0 => '0',
        1 => '1',
        2 => '2',
        3 => '3',
        4 => '4',
        5 => '5',
        6 => '6',
        7 => '7',
        8 => '8',
        _ => '9',
    }
}

/// Renders `n` in decimal, as `dec_digits` describes.
pub fn u8_decimal(n: u8) -> (r: Vec<char>)
    ensures
        r@ == dec_digits(n as nat),
    decreases n,
{
    if n < 10 {
        let mut out: Vec<char> = Vec::new();
        out.push(digit_to_char(n));
        proof {
            assert(out@ =~= dec_digits(n as nat));
        }
        out
    } else {
        let mut out = u8_decimal(n / 10);
        out.push(digit_to_char(n % 10));
        out
    }
}

/// Relies on `String`'s `FromIterator` to collect characters into a string.
#[verifier::external_body]
pub fn chars_string(v: &Vec<char>) -> (r: String)
    ensures
        r@ == v@,
{
    v.iter().collect()
}

} // verus!
