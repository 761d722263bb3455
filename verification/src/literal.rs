//! Numeric literals and their types: the narrowest type that holds a number,
//! and whether a declared type holds it.

use crate::ast::{Literal, LiteralView};
use crate::decimal::{int_to_text, Decimal, Scaled};
use crate::number::{lemma_canonical_wf, lemma_of_number, DecimalView, Number};
use crate::numeral::{
    decimal_text, frac_part, int_part, int_text, is_numeral, lemma_decimal_text_round_trip,
    lemma_digits_of, lemma_int_text_round_trip, numeral_decimal, numeral_value,
};
use crate::types::{Type, TypeView};
use vstd::prelude::*;
use vstd::string::*;

verus! {

/// The literal of the narrowest numeric type that holds the numeral exactly:
/// `Short`, then `Int`, then `Large` for whole numbers in their ranges, and
/// `Float`, which keeps every digit, for all the rest.
pub open spec fn narrowest(d: DecimalView) -> LiteralView {
    let n = d.value();
    if n.scale == 0 && i16::MIN <= n.mantissa <= i16::MAX {
        LiteralView::Short(n.mantissa as i16)
    } else if n.scale == 0 && i32::MIN <= n.mantissa <= i32::MAX {
        LiteralView::Int(n.mantissa as i32)
    } else if n.scale == 0 && i64::MIN <= n.mantissa <= i64::MAX {
        LiteralView::Large(n.mantissa as i64)
    } else {
        LiteralView::Float(d)
    }
}

/// Whether a value of type `t` can hold the number `n` exactly.
pub open spec fn representable(n: Number, t: TypeView) -> bool {
    match t {
        TypeView::Short => n.scale == 0 && i16::MIN <= n.mantissa <= i16::MAX,
        TypeView::Int => n.scale == 0 && i32::MIN <= n.mantissa <= i32::MAX,
        TypeView::Large => n.scale == 0 && i64::MIN <= n.mantissa <= i64::MAX,
        TypeView::Float => true,
        _ => false,
    }
}

/// The numeric literal `lit` as a literal of type `t`, where `t` holds its
/// value exactly; nothing where it does not, or where `lit` is no number.
pub open spec fn conform(lit: LiteralView, t: TypeView) -> Option<LiteralView> {
    match lit.number() {
        None => None,
        Some(n) => if !representable(n, t) {
            None
        } else {
            Some(
                match t {
                    TypeView::Short => LiteralView::Short(n.mantissa as i16),
                    TypeView::Int => LiteralView::Int(n.mantissa as i32),
                    TypeView::Large => LiteralView::Large(n.mantissa as i64),
                    _ => match lit {
                        LiteralView::Float(_) => lit,
                        _ => LiteralView::Float(DecimalView::of_number(n)),
                    },
                },
            )
        },
    }
}

/// The text of a literal.
pub open spec fn literal_text(lit: LiteralView) -> Seq<char> {
    match lit {
        LiteralView::Bool(b) => if b {
            "true"@
        } else {
            "false"@
        },
        LiteralView::Short(v) => int_text(v as int),
        LiteralView::Int(v) => int_text(v as int),
        LiteralView::Large(v) => int_text(v as int),
        LiteralView::Float(d) => decimal_text(d),
        LiteralView::StringLiteral(s) => s,
        LiteralView::Null => "null"@,
    }
}

impl LiteralView {
    /// A float literal holds a canonical numeral.
    pub open spec fn wf(self) -> bool {
        self matches LiteralView::Float(d) ==> d.wf()
    }
}

/// The numeral of a numeric literal is canonical.
pub proof fn lemma_numeral_decimal_wf(s: Seq<char>)
    requires
        is_numeral(s),
    ensures
        numeral_decimal(s).wf(),
{
    lemma_digits_of(int_part(s));
    lemma_digits_of(frac_part(s));
    lemma_canonical_wf(
        s.len() > 0 && s[0] == '-',
        crate::numeral::digits_of(int_part(s)),
        crate::numeral::digits_of(frac_part(s)),
    );
}

/// The inferred literal holds the value of the numeral, in the narrowest
/// type that can.
pub proof fn lemma_narrowest(d: DecimalView)
    requires
        d.wf(),
    ensures
        narrowest(d).number() == Some(d.value()),
        narrowest(d).wf(),
        representable(d.value(), narrowest(d).type_of()),
        narrowest(d) is Int ==> !representable(d.value(), TypeView::Short),
        narrowest(d) is Large ==> !representable(d.value(), TypeView::Int),
        narrowest(d) is Float ==> !representable(d.value(), TypeView::Large),
{
}

/// Inferring the type of a numeric literal and writing the typed value back
/// as text gives a numeric literal of the same value.
pub proof fn lemma_inferred_literal_round_trips(s: Seq<char>)
    requires
        is_numeral(s),
    ensures
        is_numeral(literal_text(narrowest(numeral_decimal(s)))),
        numeral_value(literal_text(narrowest(numeral_decimal(s)))) == numeral_value(s),
{
    let d = numeral_decimal(s);
    lemma_numeral_decimal_wf(s);
    match narrowest(d) {
        LiteralView::Short(v) => {
            lemma_int_text_round_trip(v as int);
        },
        LiteralView::Int(v) => {
            lemma_int_text_round_trip(v as int);
        },
        LiteralView::Large(v) => {
            lemma_int_text_round_trip(v as int);
        },
        _ => {
            lemma_decimal_text_round_trip(d);
        },
    }
}

/// A literal conforms to a type exactly when the type holds its value, and
/// then the conformed literal has that type and the same value.
pub proof fn lemma_conform_exact(lit: LiteralView, t: TypeView)
    requires
        lit.wf(),
    ensures
        conform(lit, t) is Some <==> lit.number() is Some && representable(lit.number()->0, t),
        conform(lit, t) matches Some(c) ==> c.type_of() == t && c.number() == lit.number()
            && c.wf(),
{
    if conform(lit, t) is Some {
        let n = lit.number()->0;
        if t is Float && !(lit is Float) {
            lemma_of_number(n);
        }
    }
}

impl Literal {
    /// The literal of the narrowest numeric type that holds `d` exactly.
    pub fn narrowest(d: Decimal) -> (r: Literal)
        ensures
            r@ == narrowest(d@),
    {
        proof {
            use_type_invariant(&d);
        }
        match d.to_scaled() {
            Some(s) => {
                if s.scale == 0 {
                    Literal::of_integer(s.mantissa)
                } else {
                    Literal::Float(d)
                }
            },
            None => Literal::Float(d),
        }
    }

    /// The literal of the narrowest integer type that holds `v`.
    pub fn of_integer(v: i64) -> (r: Literal)
        ensures
            r@ == (if i16::MIN <= v <= i16::MAX {
                LiteralView::Short(v as i16)
            } else if i32::MIN <= v <= i32::MAX {
                LiteralView::Int(v as i32)
            } else {
                LiteralView::Large(v)
            }),
    {
        if -32768 <= v && v <= 32767 {
            Literal::Short(v as i16)
        } else if -2147483648 <= v && v <= 2147483647 {
            Literal::Int(v as i32)
        } else {
            Literal::Large(v)
        }
    }

    /// The literal of the narrowest numeric type that holds a number with a
    /// 64-bit mantissa.
    pub fn of_scaled(number: Scaled) -> (r: Literal)
        ensures
            r@ == narrowest(DecimalView::of_number(number@.normalized())),
    {
        let s = number.shortest();
        proof {
            crate::number::lemma_normalized_is_normal(number@);
            lemma_of_number(s@);
            assert(s@.normalized() == s@);
        }
        if s.scale == 0 {
            Literal::of_integer(s.mantissa)
        } else {
            Literal::Float(Decimal::from_scaled(s))
        }
    }

    /// The number of a numeric literal as a mantissa and a scale, if it is small.
    pub fn to_scaled(&self) -> (r: Option<Scaled>)
        ensures
            r is Some <==> self@.number() is Some && self@.number()->0.is_small(),
            r matches Some(s) ==> Some(s@) == self@.number(),
    {
        match self {
            Literal::Short(v) => Some(Scaled { mantissa: *v as i64, scale: 0 }),
            Literal::Int(v) => Some(Scaled { mantissa: *v as i64, scale: 0 }),
            Literal::Large(v) => Some(Scaled { mantissa: *v, scale: 0 }),
            Literal::Float(d) => d.to_scaled(),
            _ => None,
        }
    }

    /// The type of the literal.
    pub fn type_of(&self) -> (r: Type)
        ensures
            r@ == self@.type_of(),
    {
        match self {
            Literal::Bool(_) => Type::Bool,
            Literal::Short(_) => Type::Short,
            Literal::Int(_) => Type::Int,
            Literal::Large(_) => Type::Large,
            Literal::Float(_) => Type::Float,
            Literal::StringLiteral(_) => Type::String,
            Literal::Null => Type::Void,
        }
    }

    /// The literal as one of type `t`, where `t` holds its value exactly.
    pub fn conform(&self, t: &Type) -> (r: Option<Literal>)
        ensures
            r is Some <==> conform(self@, t@) is Some,
            r matches Some(c) ==> Some(c@) == conform(self@, t@),
    {
        let whole: Option<i64> = match self {
            Literal::Short(v) => Some(*v as i64),
            Literal::Int(v) => Some(*v as i64),
            Literal::Large(v) => Some(*v),
            Literal::Float(d) => {
                proof {
                    use_type_invariant(d);
                }
                match d.to_scaled() {
                    Some(s) => if s.scale == 0 {
                        Some(s.mantissa)
                    } else {
                        None
                    },
                    None => None,
                }
            },
            _ => {
                return None;
            },
        };
        match t {
            Type::Short => match whole {
                Some(v) => if -32768 <= v && v <= 32767 {
                    Some(Literal::Short(v as i16))
                } else {
                    None
                },
                None => None,
            },
            Type::Int => match whole {
                Some(v) => if -2147483648 <= v && v <= 2147483647 {
                    Some(Literal::Int(v as i32))
                } else {
                    None
                },
                None => None,
            },
            Type::Large => match whole {
                Some(v) => Some(Literal::Large(v)),
                None => None,
            },
            Type::Float => match self {
                Literal::Float(d) => Some(Literal::Float(d.clone())),
                _ => match whole {
                    Some(v) => {
                        let whole = Scaled { mantissa: v, scale: 0 };
                        assert(whole@.normalized() == whole@);
                        Some(Literal::Float(Decimal::from_scaled(whole)))
                    },
                    None => None,
                },
            },
            _ => None,
        }
    }

    /// The text of the literal.
    pub fn to_string(&self) -> (r: String)
        ensures
            r@ == literal_text(self@),
    {
        match self {
            Literal::Bool(b) => if *b {
                String::from_str("true")
            } else {
                String::from_str("false")
            },
            Literal::Short(v) => int_to_text(*v as i64),
            Literal::Int(v) => int_to_text(*v as i64),
            Literal::Large(v) => int_to_text(*v),
            Literal::Float(d) => d.to_text(),
            Literal::StringLiteral(s) => s.clone(),
            Literal::Null => String::from_str("null"),
        }
    }
}

} // verus!
