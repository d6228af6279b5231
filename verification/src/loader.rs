//! What all format loaders share: the loader options and the synthetic
//! header names.

use vstd::prelude::*;

verus! {

/// Loader options: how many leading records the sampling passes may read,
/// and whether the input's first record is data rather than a header.
pub struct Config {
    pub guess_lines: Option<usize>,
    pub no_header: bool,
}

/// The synthetic header alphabet: single letters, lower case first.
pub open spec fn alphabet() -> Seq<char> {
    "abcdefghijklmnopqrstuvwxyzABCDEFGHIJKLMNOPQRSTUVWXYZ"@
}

/// The synthetic header for `n` columns: one single-letter name per column,
/// capped at the alphabet's length.
pub open spec fn alpha_names(n: int) -> Seq<Seq<char>> {
    let m = if n > 52 {
        52
    } else {
        n
    };
    Seq::new(m as nat, |i: int| seq![alphabet()[i]])
}

/// Builds the synthetic header, as `alpha_names` describes.
pub fn alpha_header(n: usize) -> (r: Vec<&'static str>)
    ensures
        r.deep_view() == alpha_names(n as int),
{
    let alphas: &'static str = "abcdefghijklmnopqrstuvwxyzABCDEFGHIJKLMNOPQRSTUVWXYZ";
    proof {
        reveal_strlit("abcdefghijklmnopqrstuvwxyzABCDEFGHIJKLMNOPQRSTUVWXYZ");
        assert(alphas@.len() == 52);
        assert forall|k: int| 0 <= k < alphas@.len() implies (alphas@[k] as nat) < 128 by {
            assert(alphabet()[k] == alphas@[k]);
        }
        assert(alphas.is_ascii());
    }
    let m: usize = if n > 52 {
        52
    } else {
        n
    };
    let mut out: Vec<&'static str> = Vec::new();
    let mut i: usize = 0;
    while i < m
        invariant
            i <= m,
            m == alpha_names(n as int).len(),
            m <= 52,
            alphas@ == alphabet(),
            alphas@.len() == 52,
            alphas.is_ascii(),
            out@.len() == i,
            forall|k: int| 0 <= k < i ==> #[trigger] out@[k]@ == seq![alphabet()[k]],
        decreases m - i,
    {
        let name = alphas.substring_ascii(i, i + 1);
        proof {
            assert(name@ =~= seq![alphabet()[i as int]]);
        }
        out.push(name);
        i = i + 1;
    }
    proof {
        assert forall|k: int| 0 <= k < m implies out.deep_view()[k] == alpha_names(n as int)[k] by {
            assert(out@[k]@ == seq![alphabet()[k]]);
        }
        assert(out.deep_view() =~~= alpha_names(n as int));
    }
    out
}


/// The header accumulator after one value's names: each name not yet present
/// joins at the end, in first-appearance order.
pub open spec fn dedup_insert(acc: Seq<Seq<char>>, names: Seq<Seq<char>>) -> Seq<Seq<char>>
    decreases names.len(),
{
    if names.len() == 0 {
        acc
    } else {
        dedup_insert(
            if acc.contains(names[0]) {
                acc
            } else {
                acc.push(names[0])
            },
            names.drop_first(),
        )
    }
}

/// Whether `acc` already holds `name`.
pub fn contains_name(acc: &Vec<String>, name: &String) -> (r: bool)
    ensures
        r == acc.deep_view().contains(name@),
{
    let n = acc.len();
    let mut i: usize = 0;
    while i < n
        invariant
            i <= n,
            n == acc@.len(),
            forall|k: int| 0 <= k < i ==> acc@[k]@ != name@,
        decreases n - i,
    {
        if acc[i].eq(name) {
            proof {
                assert(acc.deep_view()[i as int] == name@);
            }
            return true;
        }
        i = i + 1;
    }
    proof {
        if acc.deep_view().contains(name@) {
            let k = choose|k: int| 0 <= k < acc.deep_view().len() && acc.deep_view()[k] == name@;
            assert(acc@[k]@ == name@);
        }
    }
    false
}

} // verus!
