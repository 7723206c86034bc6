//! The candidate growth terms of a cost model, and the canonical form of a
//! caller's selection of them.
use vstd::prelude::*;

verus! {

/// A candidate growth term: `n`, `n²`, `log₂ n` or `n·log₂ n`.
#[derive(PartialEq, Eq, Structural, PartialOrd, Ord, Clone, Copy, Debug, Hash)]
pub enum Component {
    N,
    N2,
    LogN,
    NLogN,
}

/// The position of a component in the canonical order.
pub open spec fn rank(c: Component) -> int {
    match c {
        Component::N => 0,
        Component::N2 => 1,
        Component::LogN => 2,
        Component::NLogN => 3,
    }
}

/// The column name under which a component's covariate is handed to the solver.
pub open spec fn key_text(c: Component) -> Seq<char> {
    match c {
        Component::N => "X_N"@,
        Component::N2 => "X_N2"@,
        Component::LogN => "X_LOGN"@,
        Component::NLogN => "X_NLOGN"@,
    }
}

/// The human-readable name of a component.
pub open spec fn label_text(c: Component) -> Seq<char> {
    match c {
        Component::N => "n"@,
        Component::N2 => "n²"@,
        Component::LogN => "logn"@,
        Component::NLogN => "nlogn"@,
    }
}

/// `seq![c]` when `s` selects `c`, else the empty sequence.
pub open spec fn kept(s: Seq<Component>, c: Component) -> Seq<Component> {
    if s.contains(c) {
        seq![c]
    } else {
        Seq::empty()
    }
}

/// The canonical form of a selection: each selected component once, in
/// canonical order.
pub open spec fn canonical(s: Seq<Component>) -> Seq<Component> {
    kept(s, Component::N) + kept(s, Component::N2) + kept(s, Component::LogN) + kept(
        s,
        Component::NLogN,
    )
}

impl Component {
    /// The column name of this component's covariate.
    pub fn key(&self) -> (r: &'static str)
        ensures
            r@ == key_text(*self),
    {
        match self {
            Component::N => "X_N",
            Component::N2 => "X_N2",
            Component::LogN => "X_LOGN",
            Component::NLogN => "X_NLOGN",
        }
    }

    /// The display name of this component.
    pub fn label(&self) -> (r: &'static str)
        ensures
            r@ == label_text(*self),
    {
        match self {
            Component::N => "n",
            Component::N2 => "n²",
            Component::LogN => "logn",
            Component::NLogN => "nlogn",
        }
    }
}

/// Whether `v` holds `c`.
fn selects(v: &Vec<Component>, c: Component) -> (r: bool)
    ensures
        r == v@.contains(c),
{
    let mut i: usize = 0;
    while i < v.len()
        invariant
            0 <= i <= v.len(),
            forall|j: int| 0 <= j < i ==> v@[j] != c,
        decreases v.len() - i,
    {
        if v[i] == c {
            assert(v@[i as int] == c);
            return true;
        }
        i += 1;
    }
    false
}

/// Sorts a selection into canonical order and removes duplicates.
pub fn normalize(components: &Vec<Component>) -> (r: Vec<Component>)
    ensures
        r@ == canonical(components@),
{
    let mut r: Vec<Component> = Vec::new();
    if selects(components, Component::N) {
        r.push(Component::N);
    }
    assert(r@ =~= kept(components@, Component::N));
    if selects(components, Component::N2) {
        r.push(Component::N2);
    }
    assert(r@ =~= kept(components@, Component::N) + kept(components@, Component::N2));
    if selects(components, Component::LogN) {
        r.push(Component::LogN);
    }
    assert(r@ =~= kept(components@, Component::N) + kept(components@, Component::N2) + kept(
        components@,
        Component::LogN,
    ));
    if selects(components, Component::NLogN) {
        r.push(Component::NLogN);
    }
    assert(r@ =~= canonical(components@));
    r
}

/// The canonical form holds exactly the selected components, each once, in
/// strictly increasing canonical order.
pub proof fn lemma_canonical_is_sorted_set(s: Seq<Component>)
    ensures
        forall|c: Component| canonical(s).contains(c) <==> s.contains(c),
        forall|i: int, j: int|
            0 <= i < j < canonical(s).len() ==> rank(canonical(s)[i]) < rank(canonical(s)[j]),
{
    let r = canonical(s);
    assert forall|c: Component| r.contains(c) <==> s.contains(c) by {
        if s.contains(c) {
            let k = kept(s, c);
            assert(k.len() == 1 && k[0] == c);
            match c {
                Component::N => assert(r[0] == c),
                Component::N2 => assert(r[kept(s, Component::N).len() as int] == c),
                Component::LogN => assert(r[(kept(s, Component::N).len() + kept(
                    s,
                    Component::N2,
                ).len()) as int] == c),
                Component::NLogN => assert(r[r.len() - 1] == c),
            }
        }
        if r.contains(c) {
            let i = choose|i: int| 0 <= i < r.len() && r[i] == c;
            assert(r[i] == c);
        }
    }
}

/// The order in which components are selected does not matter: two
/// selections of the same components have the same canonical form.
pub proof fn lemma_selection_order_irrelevant(a: Seq<Component>, b: Seq<Component>)
    requires
        forall|c: Component| a.contains(c) <==> b.contains(c),
    ensures
        canonical(a) == canonical(b),
{
    assert(kept(a, Component::N) == kept(b, Component::N));
    assert(kept(a, Component::N2) == kept(b, Component::N2));
    assert(kept(a, Component::LogN) == kept(b, Component::LogN));
    assert(kept(a, Component::NLogN) == kept(b, Component::NLogN));
}

/// Repeating a component in a selection changes nothing: the selection with
/// one entry added again has the same canonical form, and the canonical form
/// of a canonical form is itself.
pub proof fn lemma_duplicates_irrelevant(s: Seq<Component>, i: int)
    requires
        0 <= i < s.len(),
    ensures
        canonical(s.push(s[i])) == canonical(s),
        canonical(canonical(s)) == canonical(s),
{
    assert forall|c: Component| s.push(s[i]).contains(c) <==> s.contains(c) by {
        if s.push(s[i]).contains(c) {
            let j = choose|j: int| 0 <= j < s.len() + 1 && s.push(s[i])[j] == c;
            if j == s.len() {
                assert(s[i] == c);
            } else {
                assert(s[j] == c);
            }
        }
        if s.contains(c) {
            let j = choose|j: int| 0 <= j < s.len() && s[j] == c;
            assert(s.push(s[i])[j] == c);
        }
    }
    lemma_selection_order_irrelevant(s.push(s[i]), s);
    lemma_canonical_is_sorted_set(s);
    lemma_selection_order_irrelevant(canonical(s), s);
}

} // verus!
