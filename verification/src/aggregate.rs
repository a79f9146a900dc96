//! Aggregation of ingredients across steps: every step's included
//! ingredients, flattened in step order and stably sorted by food id.

use vstd::prelude::*;
use crate::model::{TandoorIngredient, TandoorRecipe, TandoorStep, included_spec};

verus! {

/// The id of the food an included ingredient sorts by.
pub open spec fn food_key(i: TandoorIngredient) -> int {
    i.food->Some_0.id as int
}

/// Every step's ingredients, flattened in step order.
pub open spec fn all_ingredients(steps: Seq<TandoorStep>) -> Seq<TandoorIngredient>
    decreases steps.len(),
{
    if steps.len() == 0 {
        Seq::empty()
    } else {
        steps[0].ingredients@ + all_ingredients(steps.drop_first())
    }
}

/// The ingredients that name a food, in unchanged order.
pub open spec fn filter_included(s: Seq<TandoorIngredient>) -> Seq<TandoorIngredient>
    decreases s.len(),
{
    if s.len() == 0 {
        Seq::empty()
    } else if included_spec(s[0]) {
        seq![s[0]] + filter_included(s.drop_first())
    } else {
        filter_included(s.drop_first())
    }
}

/// The elements whose food key equals `m`, in unchanged order.
pub open spec fn filter_key_eq(s: Seq<TandoorIngredient>, m: int) -> Seq<TandoorIngredient>
    decreases s.len(),
{
    if s.len() == 0 {
        Seq::empty()
    } else if food_key(s[0]) == m {
        seq![s[0]] + filter_key_eq(s.drop_first(), m)
    } else {
        filter_key_eq(s.drop_first(), m)
    }
}

/// The elements whose food key differs from `m`, in unchanged order.
pub open spec fn filter_key_ne(s: Seq<TandoorIngredient>, m: int) -> Seq<TandoorIngredient>
    decreases s.len(),
{
    if s.len() == 0 {
        Seq::empty()
    } else if food_key(s[0]) != m {
        seq![s[0]] + filter_key_ne(s.drop_first(), m)
    } else {
        filter_key_ne(s.drop_first(), m)
    }
}

/// The least food key of a nonempty sequence.
pub open spec fn min_food_key(s: Seq<TandoorIngredient>) -> int
    decreases s.len(),
{
    if s.len() <= 1 {
        food_key(s[0])
    } else {
        let m = min_food_key(s.drop_first());
        if food_key(s[0]) <= m {
            food_key(s[0])
        } else {
            m
        }
    }
}

/// Splitting a sequence by one key value loses and gains nothing.
proof fn lemma_key_filters_split(s: Seq<TandoorIngredient>, m: int)
    ensures
        filter_key_eq(s, m).len() + filter_key_ne(s, m).len() == s.len(),
    decreases s.len(),
{
    if s.len() > 0 {
        lemma_key_filters_split(s.drop_first(), m);
    }
}

/// The least key is a lower bound on every key.
proof fn lemma_min_key_le(s: Seq<TandoorIngredient>)
    ensures
        forall|i: int| 0 <= i < s.len() ==> min_food_key(s) <= food_key(#[trigger] s[i]),
    decreases s.len(),
{
    if s.len() > 1 {
        lemma_min_key_le(s.drop_first());
        assert forall|i: int| 0 <= i < s.len() implies min_food_key(s) <= food_key(
            #[trigger] s[i],
        ) by {
            if i > 0 {
                assert(s[i] == s.drop_first()[i - 1]);
            }
        }
    }
}

/// The least key is the key of some element.
proof fn lemma_min_key_attained(s: Seq<TandoorIngredient>)
    requires
        s.len() > 0,
    ensures
        exists|i: int| 0 <= i < s.len() && food_key(#[trigger] s[i]) == min_food_key(s),
    decreases s.len(),
{
    if s.len() == 1 {
        assert(food_key(s[0]) == min_food_key(s));
    } else {
        lemma_min_key_attained(s.drop_first());
        if food_key(s[0]) <= min_food_key(s.drop_first()) {
            assert(food_key(s[0]) == min_food_key(s));
        } else {
            let j = choose|j: int|
                0 <= j < s.drop_first().len() && food_key(#[trigger] s.drop_first()[j])
                    == min_food_key(s.drop_first());
            assert(s[j + 1] == s.drop_first()[j]);
            assert(food_key(s[j + 1]) == min_food_key(s));
        }
    }
}

/// A key that some element carries leaves its equality filter nonempty.
proof fn lemma_filter_eq_attained(s: Seq<TandoorIngredient>, idx: int, m: int)
    requires
        0 <= idx < s.len(),
        food_key(s[idx]) == m,
    ensures
        filter_key_eq(s, m).len() > 0,
    decreases s.len(),
{
    if food_key(s[0]) == m {
    } else {
        assert(s.drop_first()[idx - 1] == s[idx]);
        lemma_filter_eq_attained(s.drop_first(), idx - 1, m);
    }
}

/// Removing the least key's carriers strictly shrinks a nonempty sequence.
proof fn lemma_sort_shrinks(s: Seq<TandoorIngredient>)
    requires
        s.len() > 0,
    ensures
        filter_key_ne(s, min_food_key(s)).len() < s.len(),
{
    let m = min_food_key(s);
    lemma_min_key_attained(s);
    let i = choose|i: int| 0 <= i < s.len() && food_key(#[trigger] s[i]) == m;
    lemma_filter_eq_attained(s, i, m);
    lemma_key_filters_split(s, m);
}

#[via_fn]
proof fn sort_by_food_decreases(s: Seq<TandoorIngredient>) {
    if s.len() > 0 {
        let m = min_food_key(s);
        lemma_min_key_attained(s);
        let i = choose|i: int| 0 <= i < s.len() && food_key(#[trigger] s[i]) == m;
        lemma_filter_eq_attained(s, i, m);
        lemma_key_filters_split(s, m);
    }
}

/// Stable sorting by food key: all elements carrying the least key, in their
/// original order, then the rest sorted the same way.
pub open spec fn sort_by_food(s: Seq<TandoorIngredient>) -> Seq<TandoorIngredient>
    decreases s.len(),
    via sort_by_food_decreases
{
    if s.len() == 0 {
        Seq::empty()
    } else {
        filter_key_eq(s, min_food_key(s)) + sort_by_food(filter_key_ne(s, min_food_key(s)))
    }
}

/// What ingredient aggregation returns: every step's ingredients flattened in
/// step order, those without a food left out, stably sorted by food id.
pub open spec fn aggregate_spec(r: TandoorRecipe) -> Seq<TandoorIngredient> {
    sort_by_food(filter_included(all_ingredients(r.steps@)))
}

/// The included-only filter splits over concatenation.
proof fn lemma_filter_included_add(a: Seq<TandoorIngredient>, b: Seq<TandoorIngredient>)
    ensures
        filter_included(a + b) == filter_included(a) + filter_included(b),
    decreases a.len(),
{
    if a.len() == 0 {
        assert(a + b =~= b);
        assert(filter_included(a) + filter_included(b) =~= filter_included(b));
    } else {
        assert((a + b)[0] == a[0]);
        assert((a + b).drop_first() =~= a.drop_first() + b);
        lemma_filter_included_add(a.drop_first(), b);
        if included_spec(a[0]) {
            assert(seq![a[0]] + (filter_included(a.drop_first()) + filter_included(b)) =~= (
            seq![a[0]] + filter_included(a.drop_first())) + filter_included(b));
        }
    }
}

/// Every element kept by the included-only filter names a food.
proof fn lemma_filter_included_members(s: Seq<TandoorIngredient>)
    ensures
        forall|j: int|
            0 <= j < filter_included(s).len() ==> included_spec(#[trigger] filter_included(s)[j]),
    decreases s.len(),
{
    if s.len() > 0 {
        lemma_filter_included_members(s.drop_first());
        let rest = filter_included(s.drop_first());
        if included_spec(s[0]) {
            assert forall|j: int| 0 <= j < filter_included(s).len() implies included_spec(
                #[trigger] filter_included(s)[j],
            ) by {
                if j > 0 {
                    assert(filter_included(s)[j] == rest[j - 1]);
                }
            }
        }
    }
}

/// The key-equality filter keeps only elements with that key, and keeps any
/// property that all elements of `s` share.
proof fn lemma_filter_eq_members(s: Seq<TandoorIngredient>, m: int)
    ensures
        forall|j: int|
            0 <= j < filter_key_eq(s, m).len() ==> food_key(#[trigger] filter_key_eq(s, m)[j])
                == m,
        forall|j: int|
            0 <= j < filter_key_eq(s, m).len() ==> exists|i: int|
                0 <= i < s.len() && s[i] == #[trigger] filter_key_eq(s, m)[j],
    decreases s.len(),
{
    if s.len() > 0 {
        lemma_filter_eq_members(s.drop_first(), m);
        let rest = filter_key_eq(s.drop_first(), m);
        assert forall|j: int| 0 <= j < filter_key_eq(s, m).len() implies food_key(
            #[trigger] filter_key_eq(s, m)[j],
        ) == m && exists|i: int| 0 <= i < s.len() && s[i] == filter_key_eq(s, m)[j] by {
            if food_key(s[0]) == m && j == 0 {
                assert(filter_key_eq(s, m)[0] == s[0]);
            } else {
                let jr: int = if food_key(s[0]) == m {
                    j - 1
                } else {
                    j
                };
                assert(filter_key_eq(s, m)[j] == rest[jr]);
                let i = choose|i: int|
                    0 <= i < s.drop_first().len() && s.drop_first()[i] == rest[jr];
                assert(s[i + 1] == filter_key_eq(s, m)[j]);
            }
        }
    }
}

/// The key-difference filter keeps only elements with another key, and keeps
/// membership in `s`.
proof fn lemma_filter_ne_members(s: Seq<TandoorIngredient>, m: int)
    ensures
        forall|j: int|
            0 <= j < filter_key_ne(s, m).len() ==> food_key(#[trigger] filter_key_ne(s, m)[j])
                != m,
        forall|j: int|
            0 <= j < filter_key_ne(s, m).len() ==> exists|i: int|
                0 <= i < s.len() && s[i] == #[trigger] filter_key_ne(s, m)[j],
    decreases s.len(),
{
    if s.len() > 0 {
        lemma_filter_ne_members(s.drop_first(), m);
        let rest = filter_key_ne(s.drop_first(), m);
        assert forall|j: int| 0 <= j < filter_key_ne(s, m).len() implies food_key(
            #[trigger] filter_key_ne(s, m)[j],
        ) != m && exists|i: int| 0 <= i < s.len() && s[i] == filter_key_ne(s, m)[j] by {
            if food_key(s[0]) != m && j == 0 {
                assert(filter_key_ne(s, m)[0] == s[0]);
            } else {
                let jr: int = if food_key(s[0]) != m {
                    j - 1
                } else {
                    j
                };
                assert(filter_key_ne(s, m)[j] == rest[jr]);
                let i = choose|i: int|
                    0 <= i < s.drop_first().len() && s.drop_first()[i] == rest[jr];
                assert(s[i + 1] == filter_key_ne(s, m)[j]);
            }
        }
    }
}

/// Every element of the sorted sequence is an element of the input.
proof fn lemma_sort_members(s: Seq<TandoorIngredient>)
    ensures
        forall|j: int|
            0 <= j < sort_by_food(s).len() ==> exists|i: int|
                0 <= i < s.len() && s[i] == #[trigger] sort_by_food(s)[j],
    decreases s.len(),
{
    if s.len() > 0 {
        let m = min_food_key(s);
        let eq = filter_key_eq(s, m);
        let ne = filter_key_ne(s, m);
        lemma_filter_eq_members(s, m);
        lemma_filter_ne_members(s, m);
        lemma_sort_shrinks(s);
        lemma_sort_members(ne);
        assert forall|j: int| 0 <= j < sort_by_food(s).len() implies exists|i: int|
            0 <= i < s.len() && s[i] == #[trigger] sort_by_food(s)[j] by {
            if j < eq.len() {
                assert(sort_by_food(s)[j] == eq[j]);
            } else {
                assert(sort_by_food(s)[j] == sort_by_food(ne)[j - eq.len()]);
                let k = choose|k: int|
                    0 <= k < ne.len() && ne[k] == sort_by_food(ne)[j - eq.len()];
                let i = choose|i: int| 0 <= i < s.len() && s[i] == ne[k];
                assert(s[i] == sort_by_food(s)[j]);
            }
        }
    }
}

/// A lower bound on every key survives sorting.
proof fn lemma_sort_keys_ge(s: Seq<TandoorIngredient>, b: int)
    requires
        forall|i: int| 0 <= i < s.len() ==> b <= food_key(#[trigger] s[i]),
    ensures
        forall|j: int|
            0 <= j < sort_by_food(s).len() ==> b <= food_key(#[trigger] sort_by_food(s)[j]),
{
    lemma_sort_members(s);
    assert forall|j: int| 0 <= j < sort_by_food(s).len() implies b <= food_key(
        #[trigger] sort_by_food(s)[j],
    ) by {
        let i = choose|i: int| 0 <= i < s.len() && s[i] == sort_by_food(s)[j];
    }
}

/// Sorting by food key sorts: keys ascend along the result.
pub proof fn lemma_sort_sorted(s: Seq<TandoorIngredient>)
    ensures
        forall|i: int, j: int|
            0 <= i < j < sort_by_food(s).len() ==> food_key(#[trigger] sort_by_food(s)[i])
                <= food_key(#[trigger] sort_by_food(s)[j]),
    decreases s.len(),
{
    if s.len() > 0 {
        let m = min_food_key(s);
        let eq = filter_key_eq(s, m);
        let ne = filter_key_ne(s, m);
        lemma_min_key_le(s);
        lemma_filter_eq_members(s, m);
        lemma_filter_ne_members(s, m);
        assert forall|k: int| 0 <= k < ne.len() implies m + 1 <= food_key(#[trigger] ne[k]) by {
            let i = choose|i: int| 0 <= i < s.len() && s[i] == ne[k];
        }
        lemma_sort_shrinks(s);
        lemma_sort_sorted(ne);
        lemma_sort_keys_ge(ne, m + 1);
        assert forall|i: int, j: int| 0 <= i < j < sort_by_food(s).len() implies food_key(
            #[trigger] sort_by_food(s)[i],
        ) <= food_key(#[trigger] sort_by_food(s)[j]) by {
            if i < eq.len() {
                assert(sort_by_food(s)[i] == eq[i]);
            } else {
                assert(sort_by_food(s)[i] == sort_by_food(ne)[i - eq.len()]);
            }
            if j < eq.len() {
                assert(sort_by_food(s)[j] == eq[j]);
            } else {
                assert(sort_by_food(s)[j] == sort_by_food(ne)[j - eq.len()]);
            }
        }
    }
}

/// The key-equality filter splits over concatenation.
proof fn lemma_filter_eq_add(a: Seq<TandoorIngredient>, b: Seq<TandoorIngredient>, k: int)
    ensures
        filter_key_eq(a + b, k) == filter_key_eq(a, k) + filter_key_eq(b, k),
    decreases a.len(),
{
    if a.len() == 0 {
        assert(a + b =~= b);
        assert(filter_key_eq(a, k) + filter_key_eq(b, k) =~= filter_key_eq(b, k));
    } else {
        assert((a + b)[0] == a[0]);
        assert((a + b).drop_first() =~= a.drop_first() + b);
        lemma_filter_eq_add(a.drop_first(), b, k);
        if food_key(a[0]) == k {
            assert(seq![a[0]] + (filter_key_eq(a.drop_first(), k) + filter_key_eq(b, k)) =~= (
            seq![a[0]] + filter_key_eq(a.drop_first(), k)) + filter_key_eq(b, k));
        }
    }
}

/// A sequence none of whose keys is `k` filters to nothing at `k`.
proof fn lemma_filter_eq_empty(s: Seq<TandoorIngredient>, k: int)
    requires
        forall|i: int| 0 <= i < s.len() ==> food_key(#[trigger] s[i]) != k,
    ensures
        filter_key_eq(s, k) == Seq::<TandoorIngredient>::empty(),
    decreases s.len(),
{
    if s.len() > 0 {
        assert(food_key(s[0]) != k);
        lemma_filter_eq_empty(s.drop_first(), k);
    }
}

/// A sequence all of whose keys are `k` filters to itself at `k`.
proof fn lemma_filter_eq_all(s: Seq<TandoorIngredient>, k: int)
    requires
        forall|i: int| 0 <= i < s.len() ==> food_key(#[trigger] s[i]) == k,
    ensures
        filter_key_eq(s, k) == s,
    decreases s.len(),
{
    if s.len() == 0 {
        assert(filter_key_eq(s, k) =~= s);
    } else {
        lemma_filter_eq_all(s.drop_first(), k);
        assert(seq![s[0]] + s.drop_first() =~= s);
    }
}

/// Filtering at `k` ignores the removal of another key's elements.
proof fn lemma_filter_eq_of_ne(s: Seq<TandoorIngredient>, m: int, k: int)
    requires
        k != m,
    ensures
        filter_key_eq(filter_key_ne(s, m), k) == filter_key_eq(s, k),
    decreases s.len(),
{
    if s.len() > 0 {
        lemma_filter_eq_of_ne(s.drop_first(), m, k);
        if food_key(s[0]) != m {
            assert(filter_key_ne(s, m) == seq![s[0]] + filter_key_ne(s.drop_first(), m));
            lemma_filter_eq_add(seq![s[0]], filter_key_ne(s.drop_first(), m), k);
            assert(seq![s[0]].drop_first() =~= Seq::<TandoorIngredient>::empty());
            assert(filter_key_eq(Seq::<TandoorIngredient>::empty(), k) =~= Seq::<
                TandoorIngredient,
            >::empty());
            if food_key(s[0]) == k {
                assert(filter_key_eq(seq![s[0]], k) =~= seq![s[0]] + Seq::<
                    TandoorIngredient,
                >::empty());
                assert(filter_key_eq(seq![s[0]], k) =~= seq![s[0]]);
            } else {
                assert(filter_key_eq(seq![s[0]], k) =~= Seq::<TandoorIngredient>::empty());
                assert(Seq::<TandoorIngredient>::empty() + filter_key_eq(
                    filter_key_ne(s.drop_first(), m),
                    k,
                ) =~= filter_key_eq(filter_key_ne(s.drop_first(), m), k));
            }
        }
    }
}

/// Stability: sorting keeps each key's elements in their original order.
pub proof fn lemma_sort_stable(s: Seq<TandoorIngredient>, k: int)
    ensures
        filter_key_eq(sort_by_food(s), k) == filter_key_eq(s, k),
    decreases s.len(),
{
    if s.len() == 0 {
        assert(filter_key_eq(sort_by_food(s), k) =~= filter_key_eq(s, k));
    } else {
        let m = min_food_key(s);
        let eq = filter_key_eq(s, m);
        let ne = filter_key_ne(s, m);
        lemma_filter_eq_members(s, m);
        lemma_filter_ne_members(s, m);
        lemma_sort_shrinks(s);
        lemma_sort_stable(ne, k);
        lemma_filter_eq_add(eq, sort_by_food(ne), k);
        if k == m {
            lemma_filter_eq_all(eq, k);
            lemma_sort_members(ne);
            assert forall|j: int| 0 <= j < sort_by_food(ne).len() implies food_key(
                #[trigger] sort_by_food(ne)[j],
            ) != k by {
                let i = choose|i: int| 0 <= i < ne.len() && ne[i] == sort_by_food(ne)[j];
            }
            lemma_filter_eq_empty(sort_by_food(ne), k);
            assert(eq + Seq::<TandoorIngredient>::empty() =~= eq);
            lemma_filter_eq_empty(ne, k);
            assert(filter_key_eq(s, k) == filter_key_eq(sort_by_food(s), k));
        } else {
            assert forall|j: int| 0 <= j < eq.len() implies food_key(#[trigger] eq[j]) != k by {}
            lemma_filter_eq_empty(eq, k);
            lemma_filter_eq_of_ne(s, m, k);
            assert(Seq::<TandoorIngredient>::empty() + filter_key_eq(sort_by_food(ne), k)
                =~= filter_key_eq(sort_by_food(ne), k));
        }
    }
}

/// An ingredient without a food is excluded from rendering: it stands in no
/// aggregated list and survives no included-only filter, whatever its other
/// fields hold.
pub proof fn lemma_no_food_excluded(
    r: TandoorRecipe,
    s: Seq<TandoorIngredient>,
    x: TandoorIngredient,
)
    requires
        !included_spec(x),
    ensures
        !aggregate_spec(r).contains(x),
        !filter_included(s).contains(x),
{
    lemma_filter_included_members(s);
    if filter_included(s).contains(x) {
        let j = choose|j: int| 0 <= j < filter_included(s).len() && filter_included(s)[j] == x;
        assert(included_spec(filter_included(s)[j]));
    }
    let pool = filter_included(all_ingredients(r.steps@));
    lemma_filter_included_members(all_ingredients(r.steps@));
    lemma_sort_members(pool);
    if aggregate_spec(r).contains(x) {
        let j = choose|j: int| 0 <= j < sort_by_food(pool).len() && sort_by_food(pool)[j] == x;
        let i = choose|i: int| 0 <= i < pool.len() && pool[i] == sort_by_food(pool)[j];
        assert(included_spec(pool[i]));
    }
}

fn food_id_of(i: &TandoorIngredient) -> (k: u32)
    requires
        included_spec(*i),
    ensures
        k as int == food_key(*i),
{
    match &i.food {
        Option::Some(f) => f.id,
        Option::None => 0,
    }
}

impl TandoorRecipe {
    /// Every step's included ingredients, flattened in step order and stably
    /// sorted by food id ascending; ingredients without a food are filtered
    /// out before sorting.
    pub fn get_all_ingredients(&self) -> (r: Vec<TandoorIngredient>)
        ensures
            r@ == aggregate_spec(*self),
            forall|i: int| 0 <= i < r@.len() ==> included_spec(#[trigger] r@[i]),
    {
        let ghost steps = self.steps@;
        let mut pool: Vec<TandoorIngredient> = Vec::new();
        proof {
            assert(steps.skip(0) =~= steps);
            assert(pool@ + filter_included(all_ingredients(steps)) =~= filter_included(
                all_ingredients(steps),
            ));
        }
        let mut i: usize = 0;
        while i < self.steps.len()
            invariant
                0 <= i <= steps.len(),
                steps == self.steps@,
                filter_included(all_ingredients(steps)) == pool@ + filter_included(
                    all_ingredients(steps.skip(i as int)),
                ),
                forall|k: int| 0 <= k < pool@.len() ==> included_spec(#[trigger] pool@[k]),
            decreases steps.len() - i,
        {
            let ghost iv = steps[i as int].ingredients@;
            let ghost pool0 = pool@;
            proof {
                assert(steps.skip(i as int)[0] == steps[i as int]);
                assert(steps.skip(i as int).drop_first() =~= steps.skip(i + 1));
                assert(all_ingredients(steps.skip(i as int)) == iv + all_ingredients(
                    steps.skip(i + 1),
                ));
                lemma_filter_included_add(iv, all_ingredients(steps.skip(i + 1)));
                assert(iv.skip(0) =~= iv);
                assert(pool0 + Seq::<TandoorIngredient>::empty() =~= pool0);
            }
            let ing = &self.steps[i].ingredients;
            let mut j: usize = 0;
            while j < ing.len()
                invariant
                    0 <= j <= iv.len(),
                    iv == ing@,
                    pool0 + filter_included(iv) == pool@ + filter_included(iv.skip(j as int)),
                    forall|k: int| 0 <= k < pool@.len() ==> included_spec(#[trigger] pool@[k]),
                decreases iv.len() - j,
            {
                proof {
                    assert(iv.skip(j as int)[0] == iv[j as int]);
                    assert(iv.skip(j as int).drop_first() =~= iv.skip(j + 1));
                }
                let item = &ing[j];
                if item.included() {
                    proof {
                        assert(pool@ + (seq![iv[j as int]] + filter_included(iv.skip(j + 1))) =~= (
                        pool@ + seq![iv[j as int]]) + filter_included(iv.skip(j + 1)));
                        assert(pool@.push(iv[j as int]) =~= pool@ + seq![iv[j as int]]);
                    }
                    pool.push(item.clone());
                }
                j = j + 1;
            }
            proof {
                assert(iv.skip(j as int).len() == 0);
                assert(filter_included(iv.skip(j as int)) =~= Seq::<TandoorIngredient>::empty());
                assert(pool@ + Seq::<TandoorIngredient>::empty() =~= pool@);
            }
            i = i + 1;
        }
        proof {
            assert(steps.skip(i as int).len() == 0);
            assert(filter_included(all_ingredients(steps.skip(i as int))) =~= Seq::<
                TandoorIngredient,
            >::empty());
            assert(pool@ + Seq::<TandoorIngredient>::empty() =~= pool@);
        }
        // Selection of the least key, all its carriers in order, repeatedly.
        let mut rest: Vec<TandoorIngredient> = pool;
        let mut out: Vec<TandoorIngredient> = Vec::new();
        proof {
            assert(out@ + sort_by_food(rest@) =~= sort_by_food(rest@));
        }
        while rest.len() > 0
            invariant
                aggregate_spec(*self) == out@ + sort_by_food(rest@),
                forall|k: int| 0 <= k < rest@.len() ==> included_spec(#[trigger] rest@[k]),
                forall|k: int| 0 <= k < out@.len() ==> included_spec(#[trigger] out@[k]),
            decreases rest@.len(),
        {
            let ghost rv = rest@;
            let mut m: u32 = food_id_of(&rest[0]);
            let mut j: usize = 1;
            while j < rest.len()
                invariant
                    1 <= j <= rv.len(),
                    rv == rest@,
                    forall|k: int| 0 <= k < rv.len() ==> included_spec(#[trigger] rv[k]),
                    forall|k: int| 0 <= k < j ==> m as int <= food_key(#[trigger] rv[k]),
                    exists|k: int| 0 <= k < j && m as int == food_key(#[trigger] rv[k]),
                decreases rv.len() - j,
            {
                let kj = food_id_of(&rest[j]);
                if kj < m {
                    m = kj;
                }
                j = j + 1;
            }
            proof {
                lemma_min_key_le(rv);
                lemma_min_key_attained(rv);
                let a = choose|k: int| 0 <= k < rv.len() && food_key(#[trigger] rv[k]) == min_food_key(rv);
                let b = choose|k: int| 0 <= k < rv.len() && m as int == food_key(#[trigger] rv[k]);
                assert(m as int <= food_key(rv[a]));
                assert(min_food_key(rv) <= food_key(rv[b]));
                assert(m as int == min_food_key(rv));
            }
            let mut eqv: Vec<TandoorIngredient> = Vec::new();
            let mut nev: Vec<TandoorIngredient> = Vec::new();
            proof {
                assert(rv.skip(0) =~= rv);
                assert(eqv@ + filter_key_eq(rv, m as int) =~= filter_key_eq(rv, m as int));
                assert(nev@ + filter_key_ne(rv, m as int) =~= filter_key_ne(rv, m as int));
            }
            let mut p: usize = 0;
            while p < rest.len()
                invariant
                    0 <= p <= rv.len(),
                    rv == rest@,
                    forall|k: int| 0 <= k < rv.len() ==> included_spec(#[trigger] rv[k]),
                    filter_key_eq(rv, m as int) == eqv@ + filter_key_eq(
                        rv.skip(p as int),
                        m as int,
                    ),
                    filter_key_ne(rv, m as int) == nev@ + filter_key_ne(
                        rv.skip(p as int),
                        m as int,
                    ),
                    forall|k: int| 0 <= k < eqv@.len() ==> included_spec(#[trigger] eqv@[k]),
                    forall|k: int| 0 <= k < nev@.len() ==> included_spec(#[trigger] nev@[k]),
                decreases rv.len() - p,
            {
                proof {
                    assert(rv.skip(p as int)[0] == rv[p as int]);
                    assert(rv.skip(p as int).drop_first() =~= rv.skip(p + 1));
                }
                let kp = food_id_of(&rest[p]);
                if kp == m {
                    proof {
                        assert(eqv@ + (seq![rv[p as int]] + filter_key_eq(rv.skip(p + 1), m as int))
                            =~= (eqv@ + seq![rv[p as int]]) + filter_key_eq(
                            rv.skip(p + 1),
                            m as int,
                        ));
                        assert(eqv@.push(rv[p as int]) =~= eqv@ + seq![rv[p as int]]);
                    }
                    eqv.push(rest[p].clone());
                } else {
                    proof {
                        assert(nev@ + (seq![rv[p as int]] + filter_key_ne(rv.skip(p + 1), m as int))
                            =~= (nev@ + seq![rv[p as int]]) + filter_key_ne(
                            rv.skip(p + 1),
                            m as int,
                        ));
                        assert(nev@.push(rv[p as int]) =~= nev@ + seq![rv[p as int]]);
                    }
                    nev.push(rest[p].clone());
                }
                p = p + 1;
            }
            proof {
                assert(rv.skip(p as int).len() == 0);
                assert(filter_key_eq(rv.skip(p as int), m as int) =~= Seq::<
                    TandoorIngredient,
                >::empty());
                assert(filter_key_ne(rv.skip(p as int), m as int) =~= Seq::<
                    TandoorIngredient,
                >::empty());
                assert(eqv@ + Seq::<TandoorIngredient>::empty() =~= eqv@);
                assert(nev@ + Seq::<TandoorIngredient>::empty() =~= nev@);
                assert(eqv@ == filter_key_eq(rv, m as int));
                assert(nev@ == filter_key_ne(rv, m as int));
                let a = choose|k: int|
                    0 <= k < rv.len() && food_key(#[trigger] rv[k]) == min_food_key(rv);
                lemma_filter_eq_attained(rv, a, m as int);
                lemma_key_filters_split(rv, m as int);
                assert(sort_by_food(rv) == eqv@ + sort_by_food(nev@));
                assert(out@ + (eqv@ + sort_by_food(nev@)) =~= (out@ + eqv@) + sort_by_food(nev@));
            }
            let ghost out0 = out@;
            let mut q: usize = 0;
            while q < eqv.len()
                invariant
                    0 <= q <= eqv@.len(),
                    out@ == out0 + eqv@.take(q as int),
                    forall|k: int| 0 <= k < eqv@.len() ==> included_spec(#[trigger] eqv@[k]),
                    forall|k: int| 0 <= k < out@.len() ==> included_spec(#[trigger] out@[k]),
                decreases eqv@.len() - q,
            {
                proof {
                    assert(eqv@.take(q as int).push(eqv@[q as int]) =~= eqv@.take(q + 1));
                }
                out.push(eqv[q].clone());
                q = q + 1;
            }
            proof {
                assert(eqv@.take(q as int) =~= eqv@);
            }
            rest = nev;
        }
        proof {
            assert(sort_by_food(rest@) =~= Seq::<TandoorIngredient>::empty());
            assert(out@ + Seq::<TandoorIngredient>::empty() =~= out@);
        }
        out
    }
}

} // verus!
