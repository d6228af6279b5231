//! The column type lattice and the format descriptor.

use vstd::prelude::*;

use crate::text::{
    chars_string, dec_digits, is_int_text, is_real_text, lemma_dec_digits_injective, matches_int,
    matches_real, str_chars, u8_decimal,
};

verus! {

/// A column type. `Int` is the strongest kind, `Text` the weakest
/// (absorbing) one; a column only ever moves down the lattice.
#[derive(Eq, PartialEq, Clone, Copy, Debug, Structural)]
pub enum Type {
    Int,
    Real,
    Text,
}

/// Strength of a column type in the lattice: demotion strictly lowers it.
pub open spec fn strength(t: Type) -> int {
    match t {
        Type::Int => 2,
        Type::Real => 1,
        Type::Text => 0,
    }
}

impl Type {
    /// A fresh column set of `size` columns, all typed `Text` (the default
    /// for every format that does not run type inference).
    pub fn new(size: usize) -> (r: Vec<Type>)
        ensures
            r@ == Seq::new(size as nat, |i: int| Type::Text),
    {
        let mut types: Vec<Type> = Vec::new();
        let mut i: usize = 0;
        while i < size
            invariant
                i <= size,
                types@ == Seq::new(i as nat, |j: int| Type::Text),
            decreases size - i,
        {
            types.push(Type::Text);
            i = i + 1;
            proof {
                assert(types@ =~= Seq::new(i as nat, |j: int| Type::Text));
            }
        }
        proof {
            assert(types@ =~= Seq::new(size as nat, |j: int| Type::Text));
        }
        types
    }
}

/// One demotion step of the type lattice: where the (comma-stripped) sample
/// fails the pattern of the current kind, the column falls to the strongest
/// kind whose pattern it still passes, and `Text` absorbs everything. A
/// `Real` column keeps any numeric sample: an integer literal is a real
/// number too.
pub open spec fn spec_promote(t: Type, sample: Seq<char>) -> Type {
    match t {
        Type::Int => if is_int_text(sample) {
            Type::Int
        } else if is_real_text(sample) {
            Type::Real
        } else {
            Type::Text
        },
        Type::Real => if is_real_text(sample) || is_int_text(sample) {
            Type::Real
        } else {
            Type::Text
        },
        Type::Text => Type::Text,
    }
}

impl Type {
    /// Applies one sample to the column's current kind, as `spec_promote`
    /// describes.
    pub fn promote(self, sample: &Vec<char>) -> (r: Type)
        ensures
            r == spec_promote(self, sample@),
    {
        match self {
            Type::Int => {
                if matches_int(sample) {
                    Type::Int
                } else if matches_real(sample) {
                    Type::Real
                } else {
                    Type::Text
                }
            },
            Type::Real => {
                if matches_real(sample) || matches_int(sample) {
                    Type::Real
                } else {
                    Type::Text
                }
            },
            Type::Text => Type::Text,
        }
    }
}

/// Promotion never raises a column's strength: across any sequence of
/// samples a kind only ever moves down the lattice.
pub proof fn lemma_promote_monotone(t: Type, sample: Seq<char>)
    ensures
        strength(spec_promote(t, sample)) <= strength(t),
{
}

/// `Text` is absorbing: no sample recovers a demoted column.
pub proof fn lemma_text_absorbing(sample: Seq<char>)
    ensures
        spec_promote(Type::Text, sample) == Type::Text,
{
}

/// The requested ingestion format together with its format-specific
/// parameters (CSV delimiter byte, regex pattern).
#[derive(Clone, Debug)]
pub enum Format {
    Csv(Option<u8>),
    Json,
    Ltsv,
    Regex(String),
    Simple,
}

/// The fingerprint text of a format descriptor, stored beside the
/// materialized table and compared on the next run: formats that differ in
/// any parameter have different fingerprints.
pub open spec fn format_literal(f: Format) -> Seq<char> {
    match f {
        Format::Csv(Option::None) => "Csv(None)"@,
        Format::Csv(Option::Some(d)) => "Csv(Some("@ + dec_digits(d as nat) + "))"@,
        Format::Json => "Json"@,
        Format::Ltsv => "Ltsv"@,
        Format::Regex(p) => "Regex("@ + p@ + ")"@,
        Format::Simple => "Simple"@,
    }
}

impl Format {
    /// Renders the fingerprint text, as `format_literal` describes.
    pub fn to_sql_literal(&self) -> (r: String)
        ensures
            r@ == format_literal(*self),
    {
        match self {
            Format::Csv(d) => {
                match d {
                    Option::None => {
                        let r = String::from_str("Csv(None)");
                        r
                    },
                    Option::Some(d) => {
                        let mut r = String::from_str("Csv(Some(");
                        let digits = u8_decimal(*d);
                        let ds = chars_string(&digits);
                        r.append(ds.as_str());
                        r.append("))");
                        r
                    },
                }
            },
            Format::Json => String::from_str("Json"),
            Format::Ltsv => String::from_str("Ltsv"),
            Format::Regex(p) => {
                let mut r = String::from_str("Regex(");
                r.append(p.as_str());
                r.append(")");
                r
            },
            Format::Simple => String::from_str("Simple"),
        }
    }
}

/// Two CSV descriptors with different delimiters never share a fingerprint:
/// a cache built under one delimiter is never taken for the other's.
pub proof fn lemma_csv_literal_injective(a: Option<u8>, b: Option<u8>)
    requires
        format_literal(Format::Csv(a)) == format_literal(Format::Csv(b)),
    ensures
        a == b,
{
    reveal_strlit("Csv(None)");
    reveal_strlit("Csv(Some(");
    reveal_strlit("))");
    match (a, b) {
        (Option::None, Option::None) => {},
        (Option::None, Option::Some(y)) => {
            let lit = format_literal(Format::Csv(b));
            assert(lit["Csv(Some("@.len() as int - 1] == '(');
            assert(format_literal(Format::Csv(a))[8] == ')');
            assert(false);
        },
        (Option::Some(x), Option::None) => {
            let lit = format_literal(Format::Csv(a));
            assert(lit["Csv(Some("@.len() as int - 1] == '(');
            assert(format_literal(Format::Csv(b))[8] == ')');
            assert(false);
        },
        (Option::Some(x), Option::Some(y)) => {
            let la = format_literal(Format::Csv(a));
            let lb = format_literal(Format::Csv(b));
            let da = dec_digits(x as nat);
            let db = dec_digits(y as nat);
            assert(la.len() == lb.len());
            assert(da.len() == db.len());
            assert(da =~= la.subrange(9, 9 + da.len() as int)) by {
                assert(forall|i: int|
                    0 <= i < da.len() ==> la[9 + i] == #[trigger] da[i]);
            }
            assert(db =~= lb.subrange(9, 9 + db.len() as int)) by {
                assert(forall|i: int|
                    0 <= i < db.len() ==> lb[9 + i] == #[trigger] db[i]);
            }
            assert(da == db);
            lemma_dec_digits_injective(x as nat, y as nat);
        },
    }
}

/// The input source: a named file or standard input.
pub enum Input<'a> {
    File(&'a str),
    Stdin,
}

/// Classifies the input path: the conventional `-` names standard input,
/// anything else a file.
pub fn parse_input(filepath: &str) -> (r: Input<'_>)
    ensures
        filepath@ == "-"@ ==> r is Stdin,
        filepath@ != "-"@ ==> (r matches Input::File(p) && p@ == filepath@),
{
    proof {
        reveal_strlit("-");
    }
    if filepath.unicode_len() == 1 && filepath.get_char(0) == '-' {
        proof {
            assert(filepath@ =~= "-"@);
        }
        Input::Stdin
    } else {
        Input::File(filepath)
    }
}

} // verus!
