//! Dense polynomials over the scalar field, stored high-degree-first: index 0
//! holds the leading coefficient and the last index the constant term.
use crate::curve::{g1_add_of, g1_mul_of, FastCurve, G1};
use crate::field::{field_modulus, Scalar};
use vstd::arithmetic::div_mod::{
    lemma_add_mod_noop, lemma_mod_twice, lemma_mul_mod_noop_left, lemma_small_mod, lemma_sub_mod_noop,
};
use vstd::prelude::*;

verus! {

/// The values of a coefficient sequence.
pub open spec fn values(p: Seq<Scalar>) -> Seq<int> {
    p.map_values(|s: Scalar| s@)
}

/// `P(x)` over the integers, for the high-degree-first coefficients `p`.
pub open spec fn poly_value(p: Seq<int>, x: int) -> int
    decreases p.len(),
{
    if p.len() == 0 {
        0
    } else {
        poly_value(p.drop_last(), x) * x + p.last()
    }
}

/// The sum of `f[i']·g[k - i']` over the first `i` indices `i'` of `f`, leaving out
/// the terms where `k - i'` is not an index of `g`.
pub open spec fn conv_partial(f: Seq<int>, g: Seq<int>, k: int, i: int) -> int
    decreases i,
{
    if i <= 0 {
        0
    } else {
        conv_partial(f, g, k, i - 1) + if 0 <= k - (i - 1) < g.len() {
            f[i - 1] * g[k - (i - 1)]
        } else {
            0
        }
    }
}

/// Coefficient `k` of the product `f·g` (high-degree-first on both sides).
pub open spec fn product_coeff(f: Seq<int>, g: Seq<int>, k: int) -> int {
    conv_partial(f, g, k, f.len() as int)
}

/// The product `f·g` with coefficients reduced modulo r.
pub open spec fn product_mod(f: Seq<int>, g: Seq<int>) -> Seq<int> {
    Seq::new((f.len() + g.len() - 1) as nat, |k: int| product_coeff(f, g, k) % field_modulus())
}

/// Coefficient `i` of the quotient of `f` by `(x - x0)`, by synthetic division in
/// the field.
pub open spec fn quotient_coeff(f: Seq<int>, x0: int, i: int) -> int
    decreases i,
{
    if i <= 0 {
        f[0] % field_modulus()
    } else {
        (quotient_coeff(f, x0, i - 1) * x0 + f[i]) % field_modulus()
    }
}

/// The quotient of `f` by `(x - x0)`; the remainder is dropped.
pub open spec fn quotient(f: Seq<int>, x0: int) -> Seq<int> {
    Seq::new((f.len() - 1) as nat, |i: int| quotient_coeff(f, x0, i))
}

/// `Σ p[j]·basis[d + j]` for `j < i`, with `d = |basis| - |p|`, added up from the
/// identity `0·gen`.
pub open spec fn commit_acc(p: Seq<int>, basis: Seq<G1>, gen: G1, i: int) -> G1
    decreases i,
{
    if i <= 0 {
        g1_mul_of(0, gen)
    } else {
        g1_add_of(
            commit_acc(p, basis, gen, i - 1),
            g1_mul_of(p[i - 1], basis[basis.len() - p.len() + i - 1]),
        )
    }
}

/// The commitment to `p` under `basis`.
pub open spec fn commitment(p: Seq<int>, basis: Seq<G1>, gen: G1) -> G1 {
    commit_acc(p, basis, gen, p.len() as int)
}

/// `a ≡ b (mod r)`.
pub open spec fn congruent(a: int, b: int) -> bool {
    a % field_modulus() == b % field_modulus()
}

/// Congruence is kept by addition.
pub proof fn lemma_congruent_add(a: int, b: int, c: int, d: int)
    requires
        congruent(a, b),
        congruent(c, d),
    ensures
        congruent(a + c, b + d),
{
    lemma_add_mod_noop(a, c, field_modulus());
    lemma_add_mod_noop(b, d, field_modulus());
}

/// Congruence is kept by subtraction.
pub proof fn lemma_congruent_sub(a: int, b: int, c: int, d: int)
    requires
        congruent(a, b),
        congruent(c, d),
    ensures
        congruent(a - c, b - d),
{
    lemma_sub_mod_noop(a, c, field_modulus());
    lemma_sub_mod_noop(b, d, field_modulus());
}

/// Congruence is kept by multiplication with any integer.
pub proof fn lemma_congruent_mul(a: int, b: int, c: int)
    requires
        congruent(a, b),
    ensures
        congruent(a * c, b * c),
        congruent(c * a, c * b),
{
    lemma_mul_mod_noop_left(a, c, field_modulus());
    lemma_mul_mod_noop_left(b, c, field_modulus());
    assert(a * c == c * a && b * c == c * b) by (nonlinear_arith);
}

/// Reducing modulo r keeps the class and lands in `[0, r)`.
pub proof fn lemma_congruent_reduce(a: int)
    ensures
        congruent(a % field_modulus(), a),
        0 <= a % field_modulus() < field_modulus(),
{
    lemma_mod_twice(a, field_modulus());
}

/// Each quotient coefficient is the value at `x0` of the matching prefix of `f`.
proof fn lemma_quotient_coeff(f: Seq<int>, x0: int, i: int)
    requires
        0 <= i < f.len(),
    ensures
        congruent(quotient_coeff(f, x0, i), poly_value(f.take(i + 1), x0)),
    decreases i,
{
    assert(f.take(i + 1).drop_last() =~= f.take(i));
    if i == 0 {
        assert(poly_value(f.take(0), x0) == 0);
        lemma_congruent_reduce(f[0]);
    } else {
        let prev = quotient_coeff(f, x0, i - 1);
        lemma_quotient_coeff(f, x0, i - 1);
        lemma_congruent_mul(prev, poly_value(f.take(i), x0), x0);
        lemma_congruent_add(prev * x0, poly_value(f.take(i), x0) * x0, f[i], f[i]);
        lemma_congruent_reduce(prev * x0 + f[i]);
    }
}

/// The prefixes of the quotient satisfy the division identity on the prefixes of `f`.
proof fn lemma_quotient_prefix(f: Seq<int>, x0: int, x: int, i: int)
    requires
        0 <= i < f.len(),
    ensures
        congruent(
            poly_value(quotient(f, x0).take(i), x) * (x - x0),
            poly_value(f.take(i + 1), x) - poly_value(f.take(i + 1), x0),
        ),
    decreases i,
{
    let q = quotient(f, x0);
    assert(f.take(i + 1).drop_last() =~= f.take(i));
    if i == 0 {
        assert(poly_value(q.take(0), x) == 0);
        assert(poly_value(f.take(0), x) == 0);
        assert(poly_value(f.take(0), x0) == 0);
        assert(0 * x == 0 && 0 * x0 == 0 && 0 * (x - x0) == 0) by (nonlinear_arith);
        assert(poly_value(f.take(1), x) == f[0]);
        assert(poly_value(f.take(1), x0) == f[0]);
    } else {
        lemma_quotient_prefix(f, x0, x, i - 1);
        lemma_quotient_coeff(f, x0, i - 1);
        assert(q.take(i).drop_last() =~= q.take(i - 1));
        let a = poly_value(q.take(i - 1), x);
        let b = q[i - 1];
        let fi = poly_value(f.take(i), x);
        let gi = poly_value(f.take(i), x0);
        assert(poly_value(q.take(i), x) == a * x + b);
        lemma_congruent_mul(a * (x - x0), fi - gi, x);
        lemma_congruent_mul(b, gi, x - x0);
        lemma_congruent_add(a * (x - x0) * x, (fi - gi) * x, b * (x - x0), gi * (x - x0));
        assert((a * x + b) * (x - x0) == a * (x - x0) * x + b * (x - x0)) by (nonlinear_arith);
        assert((fi - gi) * x + gi * (x - x0) == (fi * x + f[i]) - (gi * x0 + f[i]))
            by (nonlinear_arith);
        assert(poly_value(f.take(i + 1), x) == fi * x + f[i]);
        assert(poly_value(f.take(i + 1), x0) == gi * x0 + f[i]);
    }
}

/// The division identity: `ψ(x)·(x - x0) ≡ f(x) - f(x0)` for `ψ = quotient(f, x0)`.
pub proof fn lemma_quotient_value(f: Seq<int>, x0: int, x: int)
    requires
        f.len() >= 1,
    ensures
        congruent(poly_value(quotient(f, x0), x) * (x - x0), poly_value(f, x) - poly_value(f, x0)),
{
    lemma_quotient_prefix(f, x0, x, f.len() - 1);
    assert(quotient(f, x0).take(f.len() - 1) =~= quotient(f, x0));
    assert(f.take(f.len() as int) =~= f);
}

/// The coefficients of `f·(x + c)`.
proof fn lemma_linear_conv(f: Seq<int>, c: int, k: int, i: int)
    requires
        0 <= i <= f.len(),
    ensures
        conv_partial(f, seq![1, c], k, i) == (if 0 <= k < i {
            f[k]
        } else {
            0
        }) + (if 1 <= k <= i {
            f[k - 1] * c
        } else {
            0
        }),
    decreases i,
{
    let g = seq![1, c];
    assert(g.len() == 2 && g[0] == 1 && g[1] == c);
    if i > 0 {
        lemma_linear_conv(f, c, k, i - 1);
        if k == i - 1 {
            assert(f[i - 1] * g[0] == f[k]);
        } else if k == i {
            assert(f[i - 1] * g[1] == f[k - 1] * c);
        }
    }
}

/// The prefixes of `f·(x + c)`: the first `i` coefficients evaluate to
/// `f_i(x) + c·f_{i-1}(x)`, writing `f_j` for the prefix of length `j`.
proof fn lemma_linear_product_prefix(f: Seq<int>, c: int, x: int, i: int)
    requires
        1 <= i <= f.len(),
    ensures
        congruent(
            poly_value(product_mod(f, seq![1, c]).take(i), x),
            poly_value(f.take(i), x) + c * poly_value(f.take(i - 1), x),
        ),
    decreases i,
{
    let h = product_mod(f, seq![1, c]);
    let n = f.len() as int;
    assert(f.take(i).drop_last() =~= f.take(i - 1));
    assert(h.take(i).drop_last() =~= h.take(i - 1));
    lemma_linear_conv(f, c, i - 1, n);
    lemma_congruent_reduce(product_coeff(f, seq![1, c], i - 1));
    if i == 1 {
        assert(poly_value(h.take(0), x) == 0);
        assert(poly_value(f.take(0), x) == 0);
    } else {
        lemma_linear_product_prefix(f, c, x, i - 1);
        assert(f.take(i - 1).drop_last() =~= f.take(i - 2));
        let hp = poly_value(h.take(i - 1), x);
        let a = poly_value(f.take(i - 1), x);
        let b = poly_value(f.take(i - 2), x);
        lemma_congruent_mul(hp, a + c * b, x);
        lemma_congruent_add(hp * x, (a + c * b) * x, h[i - 1], f[i - 1] + f[i - 2] * c);
        assert((a + c * b) * x + (f[i - 1] + f[i - 2] * c) == (a * x + f[i - 1]) + c * (b * x
            + f[i - 2])) by (nonlinear_arith);
    }
}

/// Multiplying by `[1, c]` multiplies the value by `(x + c)`.
pub proof fn lemma_linear_product_value(f: Seq<int>, c: int, x: int)
    requires
        f.len() >= 1,
    ensures
        product_mod(f, seq![1, c]).len() == f.len() + 1,
        congruent(poly_value(product_mod(f, seq![1, c]), x), poly_value(f, x) * (x + c)),
{
    let h = product_mod(f, seq![1, c]);
    let n = f.len() as int;
    lemma_linear_product_prefix(f, c, x, n);
    assert(h.take(n + 1) =~= h);
    assert(h.take(n + 1).drop_last() =~= h.take(n));
    assert(f.take(n) =~= f);
    assert(f.take(n).drop_last() =~= f.take(n - 1));
    lemma_linear_conv(f, c, n, n);
    lemma_congruent_reduce(product_coeff(f, seq![1, c], n));
    let hp = poly_value(h.take(n), x);
    let a = poly_value(f, x);
    let b = poly_value(f.take(n - 1), x);
    lemma_congruent_mul(hp, a + c * b, x);
    lemma_congruent_add(hp * x, (a + c * b) * x, h[n], f[n - 1] * c);
    assert((a + c * b) * x + f[n - 1] * c == a * x + c * (b * x + f[n - 1])) by (nonlinear_arith);
    assert(a == b * x + f[n - 1]);
    assert(a * x + c * a == a * (x + c)) by (nonlinear_arith);
}

/// Evaluates the polynomial at `x` (Horner's rule).
pub fn apply(polynomial: &Vec<Scalar>, x: &Scalar) -> (r: Scalar)
    ensures
        r@ == poly_value(values(polynomial@), x@) % field_modulus(),
{
    let ghost p = values(polynomial@);
    let mut result = Scalar::zero();
    let mut i: usize = 0;
    proof {
        lemma_small_mod(0, field_modulus() as nat);
    }
    while i < polynomial.len()
        invariant
            i <= polynomial.len(),
            p == values(polynomial@),
            result@ == poly_value(p.take(i as int), x@) % field_modulus(),
        decreases polynomial.len() - i,
    {
        let shifted = result.mul(x);
        result = shifted.add(&polynomial[i]);
        proof {
            let m = field_modulus();
            let prev = poly_value(p.take(i as int), x@);
            assert(p.take(i + 1).drop_last() =~= p.take(i as int));
            assert(poly_value(p.take(i + 1), x@) == prev * x@ + p[i as int]);
            polynomial[i as int].lemma_range();
            lemma_mul_mod_noop_left(prev, x@, m);
            lemma_small_mod(p[i as int] as nat, m as nat);
            lemma_add_mod_noop(prev * x@, p[i as int], m);
        }
        i = i + 1;
    }
    assert(p.take(polynomial.len() as int) =~= p);
    result
}

/// Multiplies two polynomials (schoolbook convolution).
pub fn multiply(f: &Vec<Scalar>, g: &Vec<Scalar>) -> (r: Vec<Scalar>)
    requires
        f.len() >= 1,
        g.len() >= 1,
        f.len() + g.len() - 1 <= usize::MAX,
    ensures
        values(r@) == product_mod(values(f@), values(g@)),
{
    let ghost fv = values(f@);
    let ghost gv = values(g@);
    let n = f.len() - 1 + g.len();
    let mut result: Vec<Scalar> = Vec::new();
    let zero = Scalar::zero();
    proof {
        lemma_small_mod(0, field_modulus() as nat);
    }
    while result.len() < n
        invariant
            result.len() <= n,
            zero@ == 0,
            forall|k: int| 0 <= k < result.len() ==> #[trigger] result@[k]@ == 0,
        decreases n - result.len(),
    {
        result.push(zero);
    }
    let mut i: usize = 0;
    while i < f.len()
        invariant
            i <= f.len(),
            n == f.len() + g.len() - 1,
            result.len() == n,
            fv == values(f@),
            gv == values(g@),
            forall|k: int|
                0 <= k < n ==> #[trigger] result@[k]@ == conv_partial(fv, gv, k, i as int)
                    % field_modulus(),
        decreases f.len() - i,
    {
        let mut j: usize = 0;
        while j < g.len()
            invariant
                i < f.len(),
                j <= g.len(),
                n == f.len() + g.len() - 1,
                result.len() == n,
                fv == values(f@),
                gv == values(g@),
                forall|k: int|
                    0 <= k < n ==> #[trigger] result@[k]@ == (if i <= k < i + j {
                        conv_partial(fv, gv, k, i + 1)
                    } else {
                        conv_partial(fv, gv, k, i as int)
                    }) % field_modulus(),
            decreases g.len() - j,
        {
            let term = f[i].mul(&g[j]);
            let current = result[i + j];
            let next = current.add(&term);
            proof {
                let m = field_modulus();
                let k = i + j;
                assert(conv_partial(fv, gv, k, i + 1) == conv_partial(fv, gv, k, i as int) + fv[i as int] * gv[j as int]);
                lemma_add_mod_noop(conv_partial(fv, gv, k, i as int), fv[i as int] * gv[j as int], m);
            }
            result.set(i + j, next);
            j = j + 1;
        }
        proof {
            assert forall|k: int| 0 <= k < n implies #[trigger] result@[k]@ == conv_partial(fv, gv, k, i + 1) % field_modulus() by {
                if !(i <= k < i + g.len()) {
                    assert(conv_partial(fv, gv, k, i + 1) == conv_partial(fv, gv, k, i as int));
                }
            }
        }
        i = i + 1;
    }
    assert(values(result@) =~= product_mod(fv, gv));
    result
}

/// The quotient of `f` by `(x - x0)`, where `f_x0` is meant to be `f(x0)`: the
/// constant term is lowered by `f_x0`, synthetic division runs over all
/// coefficients, and the last entry (the remainder) is dropped unconditionally.
pub fn create_psi(f: &Vec<Scalar>, f_x0: Scalar, x0: Scalar) -> (q: Vec<Scalar>)
    requires
        f.len() >= 1,
    ensures
        values(q@) == quotient(values(f@), x0@),
{
    let ghost fv = values(f@);
    let last_index = f.len() - 1;
    let lowered = f[last_index].sub(&f_x0);
    let mut q: Vec<Scalar> = Vec::new();
    let first = if last_index == 0 { lowered } else { f[0] };
    q.push(first);
    proof {
        f[0].lemma_range();
        lemma_small_mod(fv[0] as nat, field_modulus() as nat);
    }
    let mut i: usize = 0;
    while i < last_index
        invariant
            last_index == f.len() - 1,
            i <= last_index,
            q.len() == i + 1,
            fv == values(f@),
            forall|j: int| 0 <= j < i ==> #[trigger] q@[j]@ == quotient_coeff(fv, x0@, j),
            i < last_index ==> q@[i as int]@ == quotient_coeff(fv, x0@, i as int),
        decreases last_index - i,
    {
        let next_coeff = if i + 1 == last_index { lowered } else { f[i + 1] };
        let next_term = q[i].mul(&x0).add(&next_coeff);
        proof {
            if i + 1 < last_index {
                let m = field_modulus();
                f[i + 1].lemma_range();
                lemma_mul_mod_noop_left(quotient_coeff(fv, x0@, i as int), x0@, m);
                lemma_small_mod(fv[i + 1] as nat, m as nat);
                lemma_add_mod_noop(quotient_coeff(fv, x0@, i as int) * x0@, fv[i + 1], m);
            }
        }
        q.push(next_term);
        i = i + 1;
    }
    q.pop();
    assert(values(q@) =~= quotient(fv, x0@));
    q
}

/// Commits to `polynomial` under `basis`: `Σ polynomial[i]·basis[d + i]` with
/// `d = |basis| - |polynomial|`, starting from the identity `0·generator`.
pub fn commit_poly(polynomial: &Vec<Scalar>, basis: &Vec<G1>, generator: G1) -> (r: G1)
    requires
        basis.len() >= polynomial.len(),
    ensures
        r == commitment(values(polynomial@), basis@, generator),
{
    let ghost p = values(polynomial@);
    let mut commitment = FastCurve::g1mul(&Scalar::zero(), &generator);
    let difference = basis.len() - polynomial.len();
    let mut i: usize = 0;
    while i < polynomial.len()
        invariant
            i <= polynomial.len(),
            difference == basis.len() - polynomial.len(),
            p == values(polynomial@),
            commitment == commit_acc(p, basis@, generator, i as int),
        decreases polynomial.len() - i,
    {
        let power_index = difference + i;
        let current = FastCurve::g1mul(&polynomial[i], &basis[power_index]);
        commitment = FastCurve::g1add(&commitment, &current);
        i = i + 1;
    }
    commitment
}

} // verus!
