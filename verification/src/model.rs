//! The recipe model: a typed representation of a fetched recipe and the
//! derived servings, duration and instruction texts.
//!
//! Quantities are held in hundredths of a unit (`amount_centi`), so that the
//! fraction table, the whole-number prefix and the pluralization rule are
//! exact integer conditions; zero means "no amount given".

use vstd::prelude::*;
use crate::numfmt::dec_str;
use crate::numfmt::u64_dec_string;

verus! {

/// A measuring unit, with a singular name and an optional plural name.
pub struct TandoorUnit {
    pub id: u32,
    pub name: String,
    pub plural_name: Option<String>,
}

/// A food, with a singular name and an optional plural name.
pub struct TandoorFood {
    pub id: u32,
    pub name: String,
    pub plural_name: Option<String>,
}

/// One ingredient of a step. `amount_centi` is the amount in hundredths of a
/// unit; zero means the amount is unspecified and is omitted from output.
/// An ingredient without a food is excluded from all rendered output.
pub struct TandoorIngredient {
    pub id: u32,
    pub amount_centi: u64,
    pub unit: Option<TandoorUnit>,
    pub food: Option<TandoorFood>,
    pub note: String,
}

/// One instruction block of a recipe, with its own ingredients, an optional
/// display name, an optional time in minutes (zero means unspecified) and
/// optionally the recipe it invokes as a component.
pub struct TandoorStep {
    pub instruction: String,
    pub ingredients: Vec<TandoorIngredient>,
    pub name: String,
    pub time: u32,
    pub step_recipe_data: Option<TandoorRecipe>,
}

/// A recipe: identifier, display name, optional working/waiting times and
/// servings metadata, and its steps in source order.
pub struct TandoorRecipe {
    pub id: u32,
    pub name: String,
    pub working_time: Option<u32>,
    pub waiting_time: Option<u32>,
    pub servings: Option<u32>,
    pub servings_text: Option<String>,
    pub steps: Vec<TandoorStep>,
}

/// The view of an optional string.
pub open spec fn opt_str_view(o: Option<String>) -> Option<Seq<char>> {
    match o {
        Option::None => Option::<Seq<char>>::None,
        Option::Some(s) => Option::Some(s@),
    }
}

impl Clone for TandoorUnit {
    fn clone(&self) -> (r: Self)
        ensures
            r == *self,
    {
        TandoorUnit {
            id: self.id,
            name: self.name.clone(),
            plural_name: clone_opt_string(&self.plural_name),
        }
    }
}

impl Clone for TandoorFood {
    fn clone(&self) -> (r: Self)
        ensures
            r == *self,
    {
        TandoorFood {
            id: self.id,
            name: self.name.clone(),
            plural_name: clone_opt_string(&self.plural_name),
        }
    }
}

impl Clone for TandoorIngredient {
    fn clone(&self) -> (r: Self)
        ensures
            r == *self,
    {
        TandoorIngredient {
            id: self.id,
            amount_centi: self.amount_centi,
            unit: match &self.unit {
                Option::None => Option::None,
                Option::Some(u) => Option::Some(u.clone()),
            },
            food: match &self.food {
                Option::None => Option::None,
                Option::Some(f) => Option::Some(f.clone()),
            },
            note: self.note.clone(),
        }
    }
}

fn clone_opt_string(o: &Option<String>) -> (r: Option<String>)
    ensures
        r == *o,
{
    match o {
        Option::None => Option::None,
        Option::Some(s) => Option::Some(s.clone()),
    }
}

/// An ingredient is included in rendered output exactly when it names a food.
pub open spec fn included_spec(i: TandoorIngredient) -> bool {
    i.food is Some
}

/// The servings summary: the count followed by its label, or the empty text
/// when no servings count is present. The label is `servings_text` when
/// present and nonempty, else the word "servings".
pub open spec fn servings_spec(r: TandoorRecipe) -> Seq<char> {
    match r.servings {
        Option::None => Seq::<char>::empty(),
        Option::Some(n) => dec_str(n as nat) + " "@ + servings_label(r.servings_text),
    }
}

/// The label of the servings summary.
pub open spec fn servings_label(t: Option<String>) -> Seq<char> {
    match t {
        Option::None => "servings"@,
        Option::Some(s) => if s@.len() == 0 {
            "servings"@
        } else {
            s@
        },
    }
}

/// The duration summary: one line for each of the working and waiting times
/// that is present and positive.
pub open spec fn duration_spec(r: TandoorRecipe) -> Seq<char> {
    duration_part(r.working_time, " min working time\n"@) + duration_part(
        r.waiting_time,
        " min waiting time\n"@,
    )
}

/// One line of the duration summary.
pub open spec fn duration_part(t: Option<u32>, label: Seq<char>) -> Seq<char> {
    match t {
        Option::None => Seq::<char>::empty(),
        Option::Some(n) => if n > 0 {
            dec_str(n as nat) + label
        } else {
            Seq::<char>::empty()
        },
    }
}

/// The instruction of a step, prefixed with a directive to create the nested
/// sub-recipe when the step invokes one.
pub open spec fn instruction_spec(s: TandoorStep) -> Seq<char> {
    match s.step_recipe_data {
        Option::None => s.instruction@,
        Option::Some(sub) => "Create recipe \""@ + sub.name@ + "\". "@ + s.instruction@,
    }
}

/// The informational note a step surfaces when it invokes a sub-recipe.
pub open spec fn note_spec(s: TandoorStep) -> Option<Seq<char>> {
    match s.step_recipe_data {
        Option::None => Option::<Seq<char>>::None,
        Option::Some(sub) => Option::Some(
            "Note: Recipe depends on other recipe ("@ + sub.name@ + " - ID: "@ + dec_str(
                sub.id as nat,
            ) + ")"@,
        ),
    }
}

impl TandoorRecipe {
    /// The servings summary, e.g. "4 servings": empty when no count is
    /// present; the label defaults to "servings" when `servings_text` is
    /// absent or empty.
    pub fn get_servings(&self) -> (r: String)
        ensures
            r@ == servings_spec(*self),
    {
        match &self.servings {
            Option::None => String::new(),
            Option::Some(n) => {
                let mut out = u64_dec_string(*n as u64);
                out.append(" ");
                match &self.servings_text {
                    Option::None => out.append("servings"),
                    Option::Some(t) => {
                        if t.as_str().is_empty() {
                            out.append("servings");
                        } else {
                            out.append(t.as_str());
                        }
                    },
                }
                out
            },
        }
    }

    /// The duration summary: a "min working time" line and a "min waiting
    /// time" line, each present exactly when its time is present and positive.
    pub fn get_duration(&self) -> (r: String)
        ensures
            r@ == duration_spec(*self),
    {
        let mut out = String::new();
        match &self.working_time {
            Option::None => {},
            Option::Some(n) => {
                if *n > 0 {
                    let num = u64_dec_string(*n as u64);
                    out.append(num.as_str());
                    out.append(" min working time\n");
                }
            },
        }
        match &self.waiting_time {
            Option::None => {},
            Option::Some(n) => {
                if *n > 0 {
                    let num = u64_dec_string(*n as u64);
                    out.append(num.as_str());
                    out.append(" min waiting time\n");
                }
            },
        }
        out
    }
}

impl TandoorStep {
    /// The resolved instruction text, and the informational note that
    /// identifies the nested sub-recipe when the step invokes one.
    pub fn instruction(&self) -> (r: (String, Option<String>))
        ensures
            r.0@ == instruction_spec(*self),
            opt_str_view(r.1) == note_spec(*self),
    {
        match &self.step_recipe_data {
            Option::None => {
                let text = self.instruction.clone();
                (text, Option::None)
            },
            Option::Some(sub) => {
                let mut text = String::new();
                text.append("Create recipe \"");
                text.append(sub.name.as_str());
                text.append("\". ");
                text.append(self.instruction.as_str());
                let mut note = String::new();
                note.append("Note: Recipe depends on other recipe (");
                note.append(sub.name.as_str());
                note.append(" - ID: ");
                let num = u64_dec_string(sub.id as u64);
                note.append(num.as_str());
                note.append(")");
                (text, Option::Some(note))
            },
        }
    }
}

impl TandoorIngredient {
    /// Whether the ingredient appears in rendered output: it does exactly
    /// when it names a food.
    pub fn included(&self) -> (r: bool)
        ensures
            r == included_spec(*self),
    {
        self.food.is_some()
    }
}

} // verus!
