//! Rendering one ingredient as a receipt line: fraction approximation of the
//! amount, singular/plural selection for unit and food, and the note suffix.

use vstd::prelude::*;
use crate::model::{TandoorIngredient, opt_str_view};
use crate::numfmt::{dec_str, dec_digit, u64_dec_string, digit_string};

verus! {

/// The fraction glyph for an amount's residue of hundredths, where the table
/// has an exact match.
pub open spec fn frac_glyph(res: nat) -> Option<Seq<char>> {
    if res == 13 {
        Option::Some("1/8"@)
    } else if res == 25 {
        Option::Some("1/4"@)
    } else if res == 33 {
        Option::Some("1/3"@)
    } else if res == 50 {
        Option::Some("1/2"@)
    } else if res == 67 {
        Option::Some("2/3"@)
    } else if res == 75 {
        Option::Some("3/4"@)
    } else {
        Option::None
    }
}

/// The plain decimal text of an amount held in hundredths: the integer part,
/// then up to two fractional digits, with trailing zeros trimmed.
pub open spec fn centi_decimal(c: nat) -> Seq<char> {
    dec_str(c / 100) + if c % 100 == 0 {
        Seq::<char>::empty()
    } else if c % 10 == 0 {
        "."@ + seq![dec_digit((c % 100) / 10)]
    } else {
        "."@ + seq![dec_digit((c % 100) / 10), dec_digit(c % 10)]
    }
}

/// The whole-number prefix of the amount segment: present exactly when the
/// amount is at least one.
pub open spec fn whole_prefix(c: nat) -> Seq<char> {
    if c >= 100 {
        dec_str(c / 100) + " "@
    } else {
        Seq::<char>::empty()
    }
}

/// The amount segment of an ingredient line, with its trailing space: empty
/// for a zero amount; the whole part and a fraction glyph where the residue
/// of hundredths matches the table exactly; else the raw decimal amount.
pub open spec fn amount_text(c: nat) -> Seq<char> {
    if c == 0 {
        Seq::<char>::empty()
    } else {
        match frac_glyph(c % 100) {
            Option::Some(g) => whole_prefix(c) + g + " "@,
            Option::None => centi_decimal(c) + " "@,
        }
    }
}

/// Singular/plural selection: the plural name is chosen exactly when one
/// exists and the amount differs from exactly one (the comparison is
/// symmetric: amounts below one select the plural just as amounts above do);
/// otherwise the singular name.
pub open spec fn plural_pick(name: Seq<char>, plural: Option<Seq<char>>, c: nat) -> Seq<char> {
    match plural {
        Option::Some(p) => if c != 100 {
            p
        } else {
            name
        },
        Option::None => name,
    }
}

/// The unit segment, with its trailing space: present exactly when the
/// ingredient has a unit and a nonzero amount.
pub open spec fn unit_text(i: TandoorIngredient) -> Seq<char> {
    match i.unit {
        Option::Some(u) => if i.amount_centi > 0 {
            plural_pick(u.name@, opt_str_view(u.plural_name), i.amount_centi as nat) + " "@
        } else {
            Seq::<char>::empty()
        },
        Option::None => Seq::<char>::empty(),
    }
}

/// The food segment: the food's name under the same plural rule, driven by
/// the amount even when the amount is zero; empty without a food.
pub open spec fn food_text(i: TandoorIngredient) -> Seq<char> {
    match i.food {
        Option::Some(f) => plural_pick(f.name@, opt_str_view(f.plural_name), i.amount_centi as nat),
        Option::None => Seq::<char>::empty(),
    }
}

/// The note suffix: the note in parentheses, when nonempty.
pub open spec fn note_text(i: TandoorIngredient) -> Seq<char> {
    if i.note@.len() > 0 {
        " ("@ + i.note@ + ")"@
    } else {
        Seq::<char>::empty()
    }
}

/// The whole ingredient line.
pub open spec fn pretty_print_spec(i: TandoorIngredient) -> Seq<char> {
    "- "@ + amount_text(i.amount_centi as nat) + unit_text(i) + food_text(i) + note_text(i)
}

/// For every amount whose residue of hundredths stands in the fraction table,
/// the amount segment is exactly the table's glyph with its trailing space,
/// prefixed by the whole number exactly when the amount is one or more.
pub proof fn lemma_fraction_table(c: nat)
    requires
        frac_glyph(c % 100) is Some,
    ensures
        amount_text(c) == whole_prefix(c) + frac_glyph(c % 100)->Some_0 + " "@,
        c >= 100 ==> whole_prefix(c) == dec_str(c / 100) + " "@,
        c < 100 ==> whole_prefix(c) == Seq::<char>::empty(),
{
    assert(c % 100 != 0);
}

/// A zero amount contributes no amount text at all; a nonzero amount whose
/// residue of hundredths is not in the fraction table is printed as the raw
/// decimal amount, unsplit, with the same trailing space as the table path.
pub proof fn lemma_amount_fallback(c: nat)
    ensures
        c == 0 ==> amount_text(c) == Seq::<char>::empty(),
        c > 0 && frac_glyph(c % 100) is None ==> amount_text(c) == centi_decimal(c) + " "@,
{
}

fn amount_string(c: u64) -> (s: String)
    ensures
        s@ == amount_text(c as nat),
{
    let mut out = String::new();
    if c == 0 {
        proof {
            assert(out@ =~= amount_text(c as nat));
        }
        return out;
    }
    let res = c % 100;
    let glyph: Option<&str> = match res {
        13 => Option::Some("1/8"),
        25 => Option::Some("1/4"),
        33 => Option::Some("1/3"),
        50 => Option::Some("1/2"),
        67 => Option::Some("2/3"),
        75 => Option::Some("3/4"),
        _ => Option::None,
    };
    match glyph {
        Option::Some(g) => {
            if c >= 100 {
                let num = u64_dec_string(c / 100);
                out.append(num.as_str());
                out.append(" ");
            }
            out.append(g);
            out.append(" ");
            proof {
                assert(out@ =~= amount_text(c as nat));
            }
        },
        Option::None => {
            let num = u64_dec_string(c / 100);
            out.append(num.as_str());
            if res != 0 {
                out.append(".");
                let d1 = digit_string(res / 10);
                out.append(d1.as_str());
                if c % 10 != 0 {
                    let d2 = digit_string(c % 10);
                    out.append(d2.as_str());
                }
            }
            out.append(" ");
            proof {
                reveal_strlit(".");
                assert(out@ =~= amount_text(c as nat));
            }
        },
    }
    out
}

fn plural_string(name: &String, plural: &Option<String>, c: u64) -> (s: String)
    ensures
        s@ == plural_pick(name@, opt_str_view(*plural), c as nat),
{
    match plural {
        Option::Some(p) => {
            if c != 100 {
                p.clone()
            } else {
                name.clone()
            }
        },
        Option::None => name.clone(),
    }
}

impl TandoorIngredient {
    /// The full receipt line for this ingredient: a "- " prefix, the amount
    /// segment, the unit and food names under the plural rule, and the note
    /// in parentheses.
    pub fn pretty_print(&self) -> (r: String)
        ensures
            r@ == pretty_print_spec(*self),
    {
        let mut out = String::new();
        out.append("- ");
        let amt = amount_string(self.amount_centi);
        out.append(amt.as_str());
        if self.amount_centi > 0 {
            match &self.unit {
                Option::Some(u) => {
                    let t = plural_string(&u.name, &u.plural_name, self.amount_centi);
                    out.append(t.as_str());
                    out.append(" ");
                },
                Option::None => {},
            }
        }
        match &self.food {
            Option::Some(f) => {
                let t = plural_string(&f.name, &f.plural_name, self.amount_centi);
                out.append(t.as_str());
            },
            Option::None => {},
        }
        if !self.note.as_str().is_empty() {
            out.append(" (");
            out.append(self.note.as_str());
            out.append(")");
        }
        proof {
            assert(out@ =~= pretty_print_spec(*self));
        }
        out
    }
}

} // verus!
