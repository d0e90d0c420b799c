//! Properties that hold across several operations on matrices.

use vstd::prelude::*;

use crate::matrix::{is_dot, is_dot_trace, is_elementwise, is_product, MatrixView};

verus! {

/// A 3-argument step gives at most one result for each accumulator and pair.
pub open spec fn step_deterministic<T, F: Fn(T, T, T) -> T>(step: F) -> bool {
    forall|acc: T, x: T, y: T, r1: T, r2: T|
        #[trigger] step.ensures((acc, x, y), r1) && #[trigger] step.ensures((acc, x, y), r2) ==> r1
            == r2
}

/// Two matrix values have one shape and are well formed.
pub open spec fn same_shape<T>(a: MatrixView<T>, b: MatrixView<T>) -> bool {
    a.wf() && b.wf() && a.rows == b.rows && a.columns == b.columns
}

/// With a deterministic step, a dot product has exactly one value.
pub proof fn lemma_dot_unique<T, F: Fn(T, T, T) -> T>(
    step: F,
    zero: T,
    lhs: Seq<T>,
    rhs: Seq<T>,
    r1: T,
    r2: T,
)
    requires
        step_deterministic(step),
        is_dot(step, zero, lhs, rhs, r1),
        is_dot(step, zero, lhs, rhs, r2),
    ensures
        r1 == r2,
{
    let t1 = choose|t: Seq<T>| is_dot_trace(step, zero, lhs, rhs, t) && t.last() == r1;
    let t2 = choose|t: Seq<T>| is_dot_trace(step, zero, lhs, rhs, t) && t.last() == r2;
    lemma_traces_agree(step, zero, lhs, rhs, t1, t2, lhs.len() as int);
}

/// Two traces of one dot product agree on their first `k + 1` sums.
proof fn lemma_traces_agree<T, F: Fn(T, T, T) -> T>(
    step: F,
    zero: T,
    lhs: Seq<T>,
    rhs: Seq<T>,
    t1: Seq<T>,
    t2: Seq<T>,
    k: int,
)
    requires
        step_deterministic(step),
        is_dot_trace(step, zero, lhs, rhs, t1),
        is_dot_trace(step, zero, lhs, rhs, t2),
        0 <= k <= lhs.len(),
    ensures
        t1[k] == t2[k],
    decreases k,
{
    if k > 0 {
        lemma_traces_agree(step, zero, lhs, rhs, t1, t2, k - 1);
        let m = k - 1;
        assert(step.ensures((t1[m], lhs[m], rhs[m]), t1[m + 1]));
        assert(step.ensures((t2[m], lhs[m], rhs[m]), t2[m + 1]));
    }
}

/// Element `(i, j)` of a product of `a` and `b` is the dot product of row `i`
/// of `a` and column `j` of `b`: whatever value `d` that dot product has, the
/// product holds exactly `d` at `(i, j)` (0-based), provided the step gives
/// one result per input.
pub proof fn lemma_product_entry_is_dot<T, F: Fn(T, T, T) -> T>(
    a: MatrixView<T>,
    b: MatrixView<T>,
    zero: T,
    step: F,
    p: MatrixView<T>,
    i: int,
    j: int,
    d: T,
)
    requires
        step_deterministic(step),
        is_product(a, b, zero, step, p),
        0 <= i < p.rows,
        0 <= j < p.columns,
        is_dot(step, zero, a.row(i), b.column(j), d),
    ensures
        p.entry(i, j) == d,
{
    lemma_dot_unique(step, zero, a.row(i), b.column(j), p.entry(i, j), d);
}

/// Adding `b` and then subtracting it again gives back `a`, whenever the
/// element operations cancel: `minus(plus(x, y), y) == x`.
pub proof fn lemma_add_then_sub<T, P: Fn(T, T) -> T, M: Fn(T, T) -> T>(
    a: MatrixView<T>,
    b: MatrixView<T>,
    plus: P,
    minus: M,
    sum: MatrixView<T>,
    diff: MatrixView<T>,
)
    requires
        same_shape(a, b),
        forall|x: T, y: T, u: T, v: T|
            #[trigger] plus.ensures((x, y), u) && #[trigger] minus.ensures((u, y), v) ==> v == x,
        is_elementwise(a, b, plus, sum),
        is_elementwise(sum, b, minus, diff),
    ensures
        diff == a,
{
    assert forall|k: int| 0 <= k < a.data.len() implies diff.data[k] == a.data[k] by {
        assert(plus.ensures((a.data[k], b.data[k]), sum.data[k]));
        assert(minus.ensures((sum.data[k], b.data[k]), diff.data[k]));
    }
    assert(diff.data =~= a.data);
}

/// Subtracting `b` and then adding it again gives back `a`, whenever the
/// element operations cancel: `plus(minus(x, y), y) == x`.
pub proof fn lemma_sub_then_add<T, P: Fn(T, T) -> T, M: Fn(T, T) -> T>(
    a: MatrixView<T>,
    b: MatrixView<T>,
    plus: P,
    minus: M,
    diff: MatrixView<T>,
    sum: MatrixView<T>,
)
    requires
        same_shape(a, b),
        forall|x: T, y: T, u: T, v: T|
            #[trigger] minus.ensures((x, y), u) && #[trigger] plus.ensures((u, y), v) ==> v == x,
        is_elementwise(a, b, minus, diff),
        is_elementwise(diff, b, plus, sum),
    ensures
        sum == a,
{
    assert forall|k: int| 0 <= k < a.data.len() implies sum.data[k] == a.data[k] by {
        assert(minus.ensures((a.data[k], b.data[k]), diff.data[k]));
        assert(plus.ensures((diff.data[k], b.data[k]), sum.data[k]));
    }
    assert(sum.data =~= a.data);
}

/// Matrix addition is commutative whenever the element addition is:
/// `plus(x, y) == plus(y, x)`.
pub proof fn lemma_add_commutes<T, P: Fn(T, T) -> T>(
    a: MatrixView<T>,
    b: MatrixView<T>,
    plus: P,
    ab: MatrixView<T>,
    ba: MatrixView<T>,
)
    requires
        same_shape(a, b),
        forall|x: T, y: T, u: T, v: T|
            #[trigger] plus.ensures((x, y), u) && #[trigger] plus.ensures((y, x), v) ==> u == v,
        is_elementwise(a, b, plus, ab),
        is_elementwise(b, a, plus, ba),
    ensures
        ab == ba,
{
    assert forall|k: int| 0 <= k < a.data.len() implies ab.data[k] == ba.data[k] by {
        assert(plus.ensures((a.data[k], b.data[k]), ab.data[k]));
        assert(plus.ensures((b.data[k], a.data[k]), ba.data[k]));
    }
    assert(ab.data =~= ba.data);
}

} // verus!
