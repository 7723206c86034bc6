//! What a least-squares fit of samples against selected components is given:
//! the canonical selection, the solver's model formula, and the conditions
//! under which no meaningful fit exists.
use crate::component::canonical;
use crate::component::lemma_duplicates_irrelevant;
use crate::component::lemma_selection_order_irrelevant;
use crate::component::key_text;
use crate::component::normalize;
use crate::component::Component;
use vstd::prelude::*;
use vstd::string::StringExecFns;

verus! {

/// Why samples cannot be fitted against a selection.
#[derive(PartialEq, Eq, Structural, Clone, Copy, Debug)]
pub enum AnalyzeError {
    /// The selection is empty: only an intercept would be fitted, and the
    /// coefficient of determination would have no meaning.
    DegenerateFit,
    /// A sample has size 0, whose logarithm is undefined.
    ZeroSize,
    /// Fewer samples than the selected components plus two: too few for the
    /// fitted parameters and a residual degree of freedom.
    InsufficientSamples,
}

/// The canonical selection and the formula that fits the cost `Y` against it.
pub struct RegressionPlan {
    pub components: Vec<Component>,
    pub formula: String,
}

/// The selected column names joined by `" + "`.
pub open spec fn joined_keys(s: Seq<Component>) -> Seq<char>
    decreases s.len(),
{
    if s.len() == 0 {
        Seq::empty()
    } else if s.len() == 1 {
        key_text(s[0])
    } else {
        joined_keys(s.drop_last()) + " + "@ + key_text(s.last())
    }
}

/// The model formula: the cost `Y` against the selected columns, with an
/// implicit intercept.
pub open spec fn formula_text(s: Seq<Component>) -> Seq<char> {
    "Y ~ "@ + joined_keys(s)
}

/// Whether some sample has size 0.
pub open spec fn has_zero_size(data: Seq<(u64, u64)>) -> bool {
    exists|i: int| 0 <= i < data.len() && data[i].0 == 0
}

/// The outcome of preparing a fit of `data` against the selection `s`.
pub open spec fn plan_outcome(s: Seq<Component>, data: Seq<(u64, u64)>) -> Result<
    Seq<Component>,
    AnalyzeError,
> {
    if canonical(s).len() == 0 {
        Err(AnalyzeError::DegenerateFit)
    } else if has_zero_size(data) {
        Err(AnalyzeError::ZeroSize)
    } else if data.len() < canonical(s).len() + 2 {
        Err(AnalyzeError::InsufficientSamples)
    } else {
        Ok(canonical(s))
    }
}

/// The model formula for a selection.
pub fn regression_formula(components: &Vec<Component>) -> (r: String)
    ensures
        r@ == formula_text(components@),
{
    let mut r = String::new();
    r.append("Y ~ ");
    let mut i: usize = 0;
    while i < components.len()
        invariant
            0 <= i <= components.len(),
            r@ == "Y ~ "@ + joined_keys(components@.subrange(0, i as int)),
        decreases components.len() - i,
    {
        if i != 0 {
            r.append(" + ");
        }
        r.append(components[i].key());
        proof {
            let t = components@.subrange(0, i as int + 1);
            assert(t.drop_last() =~= components@.subrange(0, i as int));
            assert(t.last() == components@[i as int]);
            if i == 0 {
                assert(joined_keys(components@.subrange(0, 0)) =~= Seq::empty());
            }
        }
        i += 1;
    }
    assert(components@.subrange(0, components.len() as int) =~= components@);
    r
}

/// Whether some sample has size 0.
fn any_zero_size(data: &Vec<(u64, u64)>) -> (r: bool)
    ensures
        r == has_zero_size(data@),
{
    let mut i: usize = 0;
    while i < data.len()
        invariant
            0 <= i <= data.len(),
            forall|j: int| 0 <= j < i ==> data@[j].0 != 0,
        decreases data.len() - i,
    {
        if data[i].0 == 0 {
            return true;
        }
        i += 1;
    }
    false
}

/// Prepares a fit of `data` against `components`: normalises the selection
/// and builds its formula, or reports why no meaningful fit exists.
pub fn prepare(components: &Vec<Component>, data: &Vec<(u64, u64)>) -> (r: Result<
    RegressionPlan,
    AnalyzeError,
>)
    ensures
        match (r, plan_outcome(components@, data@)) {
            (Ok(p), Ok(s)) => p.components@ == s && p.formula@ == formula_text(s),
            (Err(e), Err(f)) => e == f,
            _ => false,
        },
{
    let selected = normalize(components);
    if selected.len() == 0 {
        return Err(AnalyzeError::DegenerateFit);
    }
    if any_zero_size(data) {
        return Err(AnalyzeError::ZeroSize);
    }
    if data.len() < selected.len() + 2 {
        return Err(AnalyzeError::InsufficientSamples);
    }
    let formula = regression_formula(&selected);
    Ok(RegressionPlan { components: selected, formula })
}

/// The order in which components are selected does not change the fit:
/// two selections of the same components give the same outcome on any samples.
pub proof fn lemma_plan_ignores_selection_order(
    a: Seq<Component>,
    b: Seq<Component>,
    data: Seq<(u64, u64)>,
)
    requires
        forall|c: Component| a.contains(c) <==> b.contains(c),
    ensures
        plan_outcome(a, data) == plan_outcome(b, data),
{
    lemma_selection_order_irrelevant(a, b);
}

/// Selecting a component again does not change the fit.
pub proof fn lemma_plan_ignores_duplicates(s: Seq<Component>, i: int, data: Seq<(u64, u64)>)
    requires
        0 <= i < s.len(),
    ensures
        plan_outcome(s.push(s[i]), data) == plan_outcome(s, data),
{
    lemma_duplicates_irrelevant(s, i);
}

} // verus!
