use vstd::prelude::*;
use vstd::arithmetic::div_mod::lemma_fundamental_div_mod_converse;
use vstd::set_lib::{lemma_int_range, lemma_len_subset, lemma_map_size, lemma_set_disjoint_lens, set_int_range};
use crate::coeff_order::{
    spec_natural_order, spec_wide_order, spec_zigzag_8x8,
    spec_block_dim, spec_first_diag, spec_first_half, spec_first_half_pos, spec_order_start,
    spec_second_diag, spec_second_half, spec_second_half_pos, spec_visit,
};

verus! {

// The scan order of a `cx` x `cy`-block transform (`cx >= cy`) fills its
// `cx * cy * 64` slots while walking the `cx*8` x `cx*8` square by
// anti-diagonals. A coefficient index `v` stands for the point
// (`v % (cx*8)`, `(v / (cx*8)) * (cx/cy)`) of that square; the walk keeps the
// set of indices seen so far, and the state invariant below ties the slots
// to that set.

/// Column of the point that coefficient index `v` stands for.
pub open spec fn spec_pt_x(cx: nat, v: int) -> int {
    v % (cx * 8) as int
}

/// Row of the point that coefficient index `v` stands for.
pub open spec fn spec_pt_y(cx: nat, cy: nat, v: int) -> int {
    (v / (cx * 8) as int) * (cx / cy) as int
}

/// Index `v` is one of the `cx` x `cy` lowest-frequency coefficients.
pub open spec fn spec_is_llf(cx: nat, cy: nat, v: int) -> bool {
    (v % (cx * 8) as int) < cx && (v / (cx * 8) as int) < cy
}

/// The lowest-frequency coefficient that owns fixed slot `t`.
pub open spec fn spec_llf_value(cx: nat, t: int) -> int {
    (t / cx as int) * (cx * 8) as int + t % cx as int
}

/// The walk's state is consistent with having seen the indices of `w`:
/// the fixed slots of seen lowest-frequency coefficients hold them, and the
/// filled free slots hold the other seen indices, each once.
pub open spec fn spec_scan_inv(s: (Seq<usize>, nat), w: Set<int>, cx: nat, cy: nat) -> bool {
    let len = (cx * cy * 64) as int;
    let base = (cx * cy) as int;
    &&& s.0.len() == len
    &&& base <= s.1 <= len
    &&& w.finite()
    &&& forall|v: int| #[trigger] w.contains(v) ==> 0 <= v < len
    &&& s.1 - base == w.filter(|v: int| !spec_is_llf(cx, cy, v)).len()
    &&& forall|t: int|
        base <= t < s.1 ==> w.contains(#[trigger] s.0[t] as int) && !spec_is_llf(cx, cy, s.0[t] as int)
    &&& forall|t1: int, t2: int|
        base <= t1 < s.1 && base <= t2 < s.1 && t1 != t2 ==> #[trigger] s.0[t1] != #[trigger] s.0[t2]
    &&& forall|t: int|
        0 <= t < base && w.contains(spec_llf_value(cx, t)) ==> #[trigger] s.0[t] as int == spec_llf_value(
            cx,
            t,
        )
}

pub open spec fn spec_dims(cx: nat, cy: nat) -> bool {
    spec_block_dim(cx) && spec_block_dim(cy) && cy <= cx
}

proof fn lemma_dims(cx: nat, cy: nat)
    requires
        spec_dims(cx, cy),
    ensures
        (cx / cy) * cy == cx,
        cx / cy >= 1,
        1 <= cy <= cx <= 32,
        (cx * 8) * (cy * 8) == cx * cy * 64,
        cx * cy >= 1,
        cx * cy <= cx * cy * 64,
{
    if cy == 1 {
    } else if cy == 2 {
        assert(cx / 2 * 2 == cx);
    } else if cy == 4 {
        assert(cx / 4 * 4 == cx);
    } else if cy == 8 {
        assert(cx / 8 * 8 == cx);
    } else if cy == 16 {
        assert(cx / 16 * 16 == cx);
    } else {
        assert(cx / 32 * 32 == cx);
    }
    assert((cx * 8) * (cy * 8) == cx * cy * 64) by (nonlinear_arith);
    assert(cx * cy >= 1) by (nonlinear_arith)
        requires
            cx >= 1,
            cy >= 1,
    ;
    assert(cx * cy <= cx * cy * 64) by (nonlinear_arith);
}

/// The index of the point (`x`, `y2 * xs`) and back.
proof fn lemma_point_index(cx: nat, cy: nat, x: int, y2: int)
    requires
        spec_dims(cx, cy),
        0 <= x < cx * 8,
        0 <= y2 < cy * 8,
    ensures
        ({
            let v = y2 * (cx * 8) + x;
            &&& 0 <= v < cx * cy * 64
            &&& spec_pt_x(cx, v) == x
            &&& v / (cx * 8) as int == y2
            &&& spec_pt_y(cx, cy, v) == y2 * (cx / cy) as int
            &&& spec_is_llf(cx, cy, v) == (x < cx && y2 < cy)
        }),
{
    lemma_dims(cx, cy);
    let v = y2 * (cx * 8) + x;
    lemma_fundamental_div_mod_converse(v, (cx * 8) as int, y2, x);
    assert(0 <= v < cx * cy * 64) by (nonlinear_arith)
        requires
            v == y2 * (cx * 8) + x,
            0 <= x < cx * 8,
            0 <= y2 < cy * 8,
            (cx * 8) * (cy * 8) == cx * cy * 64,
    ;
}

/// Fixed slot `y2 * cx + x` belongs to the index of (`x`, `y2`).
proof fn lemma_llf_slot(cx: nat, cy: nat, x: int, y2: int)
    requires
        spec_dims(cx, cy),
        0 <= x < cx,
        0 <= y2 < cy,
    ensures
        0 <= y2 * cx + x < cx * cy,
        spec_llf_value(cx, y2 * cx + x) == y2 * (cx * 8) + x,
{
    lemma_dims(cx, cy);
    lemma_fundamental_div_mod_converse(y2 * cx + x, cx as int, y2, x);
    assert(y2 * cx + x < cx * cy) by (nonlinear_arith)
        requires
            0 <= x < cx,
            0 <= y2 < cy,
    ;
}

/// Fixed slots belong to distinct lowest-frequency indices.
proof fn lemma_llf_value_facts(cx: nat, cy: nat, t: int)
    requires
        spec_dims(cx, cy),
        0 <= t < cx * cy,
    ensures
        spec_is_llf(cx, cy, spec_llf_value(cx, t)),
        0 <= spec_llf_value(cx, t) < cx * cy * 64,
        t == (spec_llf_value(cx, t) / (cx * 8) as int) * cx + spec_llf_value(cx, t) % (cx * 8) as int,
{
    lemma_dims(cx, cy);
    let q = t / cx as int;
    let r = t % cx as int;
    vstd::arithmetic::div_mod::lemma_fundamental_div_mod(t, cx as int);
    assert(0 <= q < cy) by (nonlinear_arith)
        requires
            t == cx * q + r,
            0 <= r < cx,
            0 <= t < cx * cy,
            cx >= 1,
    ;
    lemma_point_index(cx, cy, r, q);
    assert(t == q * cx + r) by (nonlinear_arith)
        requires
            t == cx * q + r,
    ;
}

/// The lowest-frequency indices are exactly `cx * cy` many, so
/// `cx * cy * 64 - cx * cy` indices are not.
proof fn lemma_other_count(cx: nat, cy: nat)
    requires
        spec_dims(cx, cy),
    ensures
        set_int_range(0, (cx * cy * 64) as int).filter(|v: int| !spec_is_llf(cx, cy, v)).len() == cx * cy * 64
            - cx * cy,
        set_int_range(0, (cx * cy * 64) as int).filter(|v: int| !spec_is_llf(cx, cy, v)).finite(),
{
    lemma_dims(cx, cy);
    let len = (cx * cy * 64) as int;
    let base = (cx * cy) as int;
    let all = set_int_range(0, len);
    let other = all.filter(|v: int| !spec_is_llf(cx, cy, v));
    let llf = all.filter(|v: int| spec_is_llf(cx, cy, v));
    lemma_int_range(0, len);
    lemma_int_range(0, base);
    all.lemma_len_filter(|v: int| !spec_is_llf(cx, cy, v));
    all.lemma_len_filter(|v: int| spec_is_llf(cx, cy, v));
    let f = |t: int| spec_llf_value(cx, t);
    assert(vstd::relations::injective_on(f, set_int_range(0, base))) by {
        assert forall|a: int, b: int|
            set_int_range(0, base).contains(a) && set_int_range(0, base).contains(b) && #[trigger] f(a)
                == #[trigger] f(b) implies a == b by {
            lemma_llf_value_facts(cx, cy, a);
            lemma_llf_value_facts(cx, cy, b);
        }
    }
    assert(set_int_range(0, base).map(f) =~= llf) by {
        assert forall|v: int| llf.contains(v) implies set_int_range(0, base).map(f).contains(v) by {
            let x = v % (cx * 8) as int;
            let y2 = v / (cx * 8) as int;
            vstd::arithmetic::div_mod::lemma_fundamental_div_mod(v, (cx * 8) as int);
            assert(y2 >= 0) by (nonlinear_arith)
                requires
                    v == (cx * 8) * y2 + x,
                    0 <= v,
                    x < cx * 8,
            ;
            lemma_llf_slot(cx, cy, x, y2);
            assert(v == y2 * (cx * 8) + x) by (nonlinear_arith)
                requires
                    v == (cx * 8) * y2 + x,
            ;
            let t = y2 * cx + x;
            assert(set_int_range(0, base).contains(t));
            assert(f(t) == v);
        }
        assert forall|v: int| set_int_range(0, base).map(f).contains(v) implies llf.contains(v) by {
            let t = choose|t: int| set_int_range(0, base).contains(t) && f(t) == v;
            lemma_llf_value_facts(cx, cy, t);
        }
    }
    lemma_map_size(set_int_range(0, base), llf, f);
    assert(llf.disjoint(other));
    assert(llf + other =~= all);
    lemma_set_disjoint_lens(llf, other);
}

/// The empty walk: all slots zero, no index seen.
proof fn lemma_start_inv(cx: nat, cy: nat)
    requires
        spec_dims(cx, cy),
    ensures
        spec_scan_inv(
            (Seq::new(cx * cy * 64, |i: int| 0usize), cx * cy),
            Set::<int>::empty(),
            cx,
            cy,
        ),
{
    lemma_dims(cx, cy);
    assert(Set::<int>::empty().filter(|v: int| !spec_is_llf(cx, cy, v)) =~= Set::<int>::empty());
}


/// Index of the point (`x`, `y`) of the square, when its row is on the grid.
pub open spec fn spec_point_value(cx: nat, cy: nat, x: int, y: int) -> int {
    (y / (cx / cy) as int) * (cx * 8) as int + x
}

/// Visiting an unseen point keeps the invariant, with its index now seen
/// (points off the row grid change nothing).
proof fn lemma_visit_inv(s: (Seq<usize>, nat), w: Set<int>, cx: nat, cy: nat, x: nat, y: nat, llf_first: bool)
    requires
        spec_dims(cx, cy),
        x < cx * 8,
        y < cx * 8,
        spec_scan_inv(s, w, cx, cy),
        y % (cx / cy) == 0 ==> !w.contains(spec_point_value(cx, cy, x as int, y as int)),
        y % (cx / cy) == 0 && !llf_first ==> !spec_is_llf(cx, cy, spec_point_value(cx, cy, x as int, y as int)),
    ensures
        spec_scan_inv(
            spec_visit(s, cx, cy, x, y, llf_first),
            if y % (cx / cy) == 0 {
                w.insert(spec_point_value(cx, cy, x as int, y as int))
            } else {
                w
            },
            cx,
            cy,
        ),
{
    lemma_dims(cx, cy);
    let xs = cx / cy;
    if y % xs == 0 {
        let y2 = (y / xs) as int;
        assert(y2 < cy * 8) by (nonlinear_arith)
            requires
                xs >= 1,
                y2 == y / xs,
                y < cx * 8,
                xs * cy == cx,
        ;
        let v = spec_point_value(cx, cy, x as int, y as int);
        lemma_point_index(cx, cy, x as int, y2);
        let len = (cx * cy * 64) as int;
        let base = (cx * cy) as int;
        let w2 = w.insert(v);
        let s2 = spec_visit(s, cx, cy, x, y, llf_first);
        let pred = |u: int| !spec_is_llf(cx, cy, u);
        if llf_first && x < cx && y2 < cy {
            let t0 = y2 * cx + x;
            lemma_llf_slot(cx, cy, x as int, y2);
            assert(s2.0 == s.0.update(t0, v as usize));
            assert(w2.filter(pred) =~= w.filter(pred));
            assert forall|t: int| 0 <= t < base && w2.contains(spec_llf_value(cx, t)) implies #[trigger] s2.0[t] as int
                == spec_llf_value(cx, t) by {
                if t != t0 && !w.contains(spec_llf_value(cx, t)) {
                    lemma_llf_value_facts(cx, cy, t);
                    lemma_llf_value_facts(cx, cy, t0);
                }
            }
        } else {
            let wf = w.filter(pred);
            lemma_other_count(cx, cy);
            let other = set_int_range(0, len).filter(pred);
            w.lemma_len_filter(pred);
            assert(wf.insert(v).subset_of(other));
            lemma_len_subset(wf.insert(v), other);
            assert(s.1 < len);
            assert(s2.0 == s.0.update(s.1 as int, v as usize));
            assert(s2.1 == s.1 + 1);
            assert(w2.filter(pred) =~= wf.insert(v));
            assert forall|t: int| base <= t < s2.1 implies w2.contains(#[trigger] s2.0[t] as int) && !spec_is_llf(
                cx,
                cy,
                s2.0[t] as int,
            ) by {
                if t != s.1 {
                    assert(s2.0[t] == s.0[t]);
                }
            }
            assert forall|t1: int, t2: int|
                base <= t1 < s2.1 && base <= t2 < s2.1 && t1 != t2 implies #[trigger] s2.0[t1] != #[trigger] s2.0[t2] by {
                if t1 == s.1 {
                    assert(w.contains(s.0[t2] as int));
                } else if t2 == s.1 {
                    assert(w.contains(s.0[t1] as int));
                } else {
                    assert(s2.0[t1] == s.0[t1]);
                    assert(s2.0[t2] == s.0[t2]);
                }
            }
            assert forall|t: int| 0 <= t < base && w2.contains(spec_llf_value(cx, t)) implies #[trigger] s2.0[t] as int
                == spec_llf_value(cx, t) by {
                lemma_llf_value_facts(cx, cy, t);
                assert(s2.0[t] == s.0[t]);
            }
        }
    }
}


/// Coefficient index `u` stands for a point on the row grid of the square,
/// and that point's index is `u` again.
proof fn lemma_value_point(cx: nat, cy: nat, u: int)
    requires
        spec_dims(cx, cy),
        0 <= u < cx * cy * 64,
    ensures
        0 <= spec_pt_x(cx, u) < cx * 8,
        0 <= spec_pt_y(cx, cy, u) < cx * 8,
        spec_pt_y(cx, cy, u) % (cx / cy) as int == 0,
        spec_point_value(cx, cy, spec_pt_x(cx, u), spec_pt_y(cx, cy, u)) == u,
        spec_is_llf(cx, cy, u) ==> spec_pt_x(cx, u) + spec_pt_y(cx, cy, u) < 2 * cx,
{
    lemma_dims(cx, cy);
    let xsize = (cx * 8) as int;
    let xs = (cx / cy) as int;
    let q = u / xsize;
    let r = u % xsize;
    vstd::arithmetic::div_mod::lemma_fundamental_div_mod(u, xsize);
    assert(0 <= q < cy * 8) by (nonlinear_arith)
        requires
            u == xsize * q + r,
            0 <= r < xsize,
            0 <= u < cx * cy * 64,
            xsize * (cy * 8) == cx * cy * 64,
            xsize >= 8,
    ;
    assert(q * xs < cx * 8) by (nonlinear_arith)
        requires
            0 <= q < cy * 8,
            xs * cy == cx,
            xs >= 1,
    ;
    assert(q * xs >= 0) by (nonlinear_arith)
        requires
            0 <= q,
            xs >= 1,
    ;
    lemma_fundamental_div_mod_converse(q * xs, xs, q, 0);
    assert(u == q * xsize + r) by (nonlinear_arith)
        requires
            u == xsize * q + r,
    ;
    if spec_is_llf(cx, cy, u) {
        assert(q * xs < cx) by (nonlinear_arith)
            requires
                0 <= q < cy,
                xs * cy == cx,
                xs >= 1,
        ;
    }
}

/// The index of a grid point stands for that point.
proof fn lemma_point_value_pt(cx: nat, cy: nat, x: int, y: int)
    requires
        spec_dims(cx, cy),
        0 <= x < cx * 8,
        0 <= y < cx * 8,
        y % (cx / cy) as int == 0,
    ensures
        0 <= spec_point_value(cx, cy, x, y) < cx * cy * 64,
        spec_pt_x(cx, spec_point_value(cx, cy, x, y)) == x,
        spec_pt_y(cx, cy, spec_point_value(cx, cy, x, y)) == y,
        spec_is_llf(cx, cy, spec_point_value(cx, cy, x, y)) ==> x + y < 2 * cx,
{
    lemma_dims(cx, cy);
    let xs = (cx / cy) as int;
    let y2 = y / xs;
    vstd::arithmetic::div_mod::lemma_fundamental_div_mod(y, xs);
    assert(0 <= y2 < cy * 8) by (nonlinear_arith)
        requires
            y == xs * y2,
            0 <= y < cx * 8,
            xs * cy == cx,
            xs >= 1,
    ;
    lemma_point_index(cx, cy, x, y2);
    assert(y2 * xs == y) by (nonlinear_arith)
        requires
            y == xs * y2,
    ;
    lemma_value_point(cx, cy, spec_point_value(cx, cy, x, y));
}

/// Indices seen after diagonals `0..i` of the upper half and the first `j`
/// points of diagonal `i`.
pub open spec fn spec_seen_first(cx: nat, cy: nat, i: int, j: int) -> Set<int> {
    Set::new(
        |v: int|
            0 <= v < cx * cy * 64 && {
                let x = spec_pt_x(cx, v);
                let y = spec_pt_y(cx, cy, v);
                x + y < i || (x + y == i && (if i % 2 != 0 {
                    y
                } else {
                    x
                }) < j)
            },
    )
}

proof fn lemma_first_diag_inv(s: (Seq<usize>, nat), cx: nat, cy: nat, i: nat, n: nat)
    requires
        spec_dims(cx, cy),
        i < cx * 8,
        n <= i + 1,
        spec_scan_inv(s, spec_seen_first(cx, cy, i as int, 0), cx, cy),
    ensures
        spec_scan_inv(spec_first_diag(s, cx, cy, i, n), spec_seen_first(cx, cy, i as int, n as int), cx, cy),
    decreases n,
{
    if n > 0 {
        lemma_first_diag_inv(s, cx, cy, i, (n - 1) as nat);
        let prev = spec_first_diag(s, cx, cy, i, (n - 1) as nat);
        let p = spec_first_half_pos(i, (n - 1) as nat);
        let (x, y) = (p.0, p.1);
        let w = spec_seen_first(cx, cy, i as int, n - 1);
        let w2 = spec_seen_first(cx, cy, i as int, n as int);
        let xs = (cx / cy) as int;
        lemma_dims(cx, cy);
        if y % (cx / cy) == 0 {
            lemma_point_value_pt(cx, cy, x as int, y as int);
        }
        lemma_visit_inv(prev, w, cx, cy, x, y, true);
        let v = spec_point_value(cx, cy, x as int, y as int);
        assert forall|u: int| w2.contains(u) <==> (if y % (cx / cy) == 0 {
            w.insert(v)
        } else {
            w
        }).contains(u) by {
            if 0 <= u < cx * cy * 64 {
                lemma_value_point(cx, cy, u);
            }
        }
        assert(w2 =~= if y % (cx / cy) == 0 {
            w.insert(v)
        } else {
            w
        });
    }
}

proof fn lemma_first_half_inv(cx: nat, cy: nat, n: nat)
    requires
        spec_dims(cx, cy),
        n <= cx * 8,
    ensures
        spec_scan_inv(
            spec_first_half(spec_order_start(cx, cy), cx, cy, n),
            spec_seen_first(cx, cy, n as int, 0),
            cx,
            cy,
        ),
    decreases n,
{
    lemma_dims(cx, cy);
    if n == 0 {
        lemma_start_inv(cx, cy);
        assert forall|u: int| !spec_seen_first(cx, cy, 0, 0).contains(u) by {
            if 0 <= u < cx * cy * 64 {
                lemma_value_point(cx, cy, u);
            }
        }
        assert(spec_seen_first(cx, cy, 0, 0) =~= Set::<int>::empty());
    } else {
        let i = (n - 1) as nat;
        lemma_first_half_inv(cx, cy, i);
        lemma_first_diag_inv(spec_first_half(spec_order_start(cx, cy), cx, cy, i), cx, cy, i, n);
        assert forall|u: int|
            spec_seen_first(cx, cy, i as int, n as int).contains(u) <==> spec_seen_first(
                cx,
                cy,
                n as int,
                0,
            ).contains(u) by {
            if 0 <= u < cx * cy * 64 {
                lemma_value_point(cx, cy, u);
            }
        }
        assert(spec_seen_first(cx, cy, i as int, n as int) =~= spec_seen_first(cx, cy, n as int, 0));
    }
}


/// Indices seen after the upper half, diagonals `1..ir` of the lower half
/// and the first `j` points of lower diagonal `ir`.
pub open spec fn spec_seen_second(cx: nat, cy: nat, ir: int, j: int) -> Set<int> {
    let xsize = (cx * 8) as int;
    Set::new(
        |v: int|
            0 <= v < cx * cy * 64 && {
                let x = spec_pt_x(cx, v);
                let y = spec_pt_y(cx, cy, v);
                let d = xsize - 1 + ir;
                x + y < d || (x + y == d && (if (xsize - ir - 1) % 2 != 0 {
                    xsize - 1 - x
                } else {
                    xsize - 1 - y
                }) < j)
            },
    )
}

proof fn lemma_second_diag_inv(s: (Seq<usize>, nat), cx: nat, cy: nat, ir: nat, n: nat)
    requires
        spec_dims(cx, cy),
        1 <= ir < cx * 8,
        n <= cx * 8 - ir,
        spec_scan_inv(s, spec_seen_second(cx, cy, ir as int, 0), cx, cy),
    ensures
        spec_scan_inv(spec_second_diag(s, cx, cy, ir, n), spec_seen_second(cx, cy, ir as int, n as int), cx, cy),
    decreases n,
{
    if n > 0 {
        lemma_second_diag_inv(s, cx, cy, ir, (n - 1) as nat);
        let prev = spec_second_diag(s, cx, cy, ir, (n - 1) as nat);
        let p = spec_second_half_pos(cx * 8, ir, (n - 1) as nat);
        let (x, y) = (p.0, p.1);
        let w = spec_seen_second(cx, cy, ir as int, n - 1);
        let w2 = spec_seen_second(cx, cy, ir as int, n as int);
        lemma_dims(cx, cy);
        if y % (cx / cy) == 0 {
            lemma_point_value_pt(cx, cy, x as int, y as int);
        }
        lemma_visit_inv(prev, w, cx, cy, x, y, false);
        let v = spec_point_value(cx, cy, x as int, y as int);
        assert forall|u: int| w2.contains(u) <==> (if y % (cx / cy) == 0 {
            w.insert(v)
        } else {
            w
        }).contains(u) by {
            if 0 <= u < cx * cy * 64 {
                lemma_value_point(cx, cy, u);
            }
        }
        assert(w2 =~= if y % (cx / cy) == 0 {
            w.insert(v)
        } else {
            w
        });
    }
}

proof fn lemma_second_half_inv(cx: nat, cy: nat, n: nat)
    requires
        spec_dims(cx, cy),
        1 <= n <= cx * 8,
    ensures
        spec_scan_inv(
            spec_second_half(spec_first_half(spec_order_start(cx, cy), cx, cy, cx * 8), cx, cy, n),
            spec_seen_second(cx, cy, n as int, 0),
            cx,
            cy,
        ),
    decreases n,
{
    lemma_dims(cx, cy);
    let upper = spec_first_half(spec_order_start(cx, cy), cx, cy, cx * 8);
    if n == 1 {
        lemma_first_half_inv(cx, cy, cx * 8);
        assert forall|u: int|
            spec_seen_first(cx, cy, (cx * 8) as int, 0).contains(u) <==> spec_seen_second(
                cx,
                cy,
                1,
                0,
            ).contains(u) by {
            if 0 <= u < cx * cy * 64 {
                lemma_value_point(cx, cy, u);
            }
        }
        assert(spec_seen_first(cx, cy, (cx * 8) as int, 0) =~= spec_seen_second(cx, cy, 1, 0));
    } else {
        let ir = (n - 1) as nat;
        lemma_second_half_inv(cx, cy, ir);
        lemma_second_diag_inv(spec_second_half(upper, cx, cy, ir), cx, cy, ir, (cx * 8 - ir) as nat);
        assert forall|u: int|
            spec_seen_second(cx, cy, ir as int, cx * 8 - ir).contains(u) <==> spec_seen_second(
                cx,
                cy,
                n as int,
                0,
            ).contains(u) by {
            if 0 <= u < cx * cy * 64 {
                lemma_value_point(cx, cy, u);
            }
        }
        assert(spec_seen_second(cx, cy, ir as int, cx * 8 - ir) =~= spec_seen_second(cx, cy, n as int, 0));
    }
}

/// The scan order of a `cx` x `cy`-block transform with `cx >= cy` holds
/// every coefficient index exactly once.
proof fn lemma_wide_order_permutation(cx: nat, cy: nat)
    requires
        spec_dims(cx, cy),
    ensures
        spec_wide_order(cx, cy).len() == cx * cy * 64,
        spec_wide_order(cx, cy).no_duplicates(),
        forall|k: int| 0 <= k < spec_wide_order(cx, cy).len() ==> #[trigger] spec_wide_order(cx, cy)[k] < cx * cy * 64,
{
    lemma_dims(cx, cy);
    let len = (cx * cy * 64) as int;
    let base = (cx * cy) as int;
    lemma_second_half_inv(cx, cy, cx * 8);
    let st = spec_second_half(spec_first_half(spec_order_start(cx, cy), cx, cy, cx * 8), cx, cy, cx * 8);
    let w = spec_seen_second(cx, cy, (cx * 8) as int, 0);
    assert forall|u: int| w.contains(u) <==> set_int_range(0, len).contains(u) by {
        if 0 <= u < len {
            lemma_value_point(cx, cy, u);
        }
    }
    assert(w =~= set_int_range(0, len));
    lemma_other_count(cx, cy);
    assert(st.1 == len);
    let o = st.0;
    assert(o == spec_wide_order(cx, cy));
    assert forall|t: int| 0 <= t < len implies #[trigger] o[t] < len && (t < base ==> o[t] as int
        == spec_llf_value(cx, t) && spec_is_llf(cx, cy, o[t] as int)) && (t >= base ==> !spec_is_llf(
        cx,
        cy,
        o[t] as int,
    )) by {
        if t < base {
            lemma_llf_value_facts(cx, cy, t);
        } else {
            assert(w.contains(o[t] as int));
        }
    }
    assert forall|t1: int, t2: int| 0 <= t1 < len && 0 <= t2 < len && t1 != t2 implies o[t1] != o[t2] by {
        if t1 < base && t2 < base {
            lemma_llf_value_facts(cx, cy, t1);
            lemma_llf_value_facts(cx, cy, t2);
        }
    }
}


/// Moving index `idx` of a `w8`-wide transform to the transposed position
/// in a `h8`-wide one is one-to-one and stays in range.
proof fn lemma_transpose_index(w8: int, h8: int, a: int, b: int)
    requires
        w8 >= 1,
        h8 >= 1,
        0 <= a < w8 * h8,
        0 <= b < w8 * h8,
    ensures
        0 <= (a % w8) * h8 + a / w8 < w8 * h8,
        (a % w8) * h8 + a / w8 == (b % w8) * h8 + b / w8 ==> a == b,
{
    vstd::arithmetic::div_mod::lemma_fundamental_div_mod(a, w8);
    vstd::arithmetic::div_mod::lemma_fundamental_div_mod(b, w8);
    let (qa, ra, qb, rb) = (a / w8, a % w8, b / w8, b % w8);
    assert(0 <= qa < h8 && 0 <= qb < h8) by (nonlinear_arith)
        requires
            a == w8 * qa + ra,
            b == w8 * qb + rb,
            0 <= ra < w8,
            0 <= rb < w8,
            0 <= a < w8 * h8,
            0 <= b < w8 * h8,
    ;
    assert(0 <= ra * h8 + qa < w8 * h8) by (nonlinear_arith)
        requires
            0 <= ra < w8,
            0 <= qa < h8,
    ;
    if ra * h8 + qa == rb * h8 + qb {
        lemma_fundamental_div_mod_converse(ra * h8 + qa, h8, ra, qa);
        lemma_fundamental_div_mod_converse(rb * h8 + qb, h8, rb, qb);
    }
}

/// The natural scan order of every transform shape holds every coefficient
/// index of the transform exactly once.
pub proof fn lemma_natural_order_permutation(cx: nat, cy: nat)
    requires
        spec_block_dim(cx),
        spec_block_dim(cy),
    ensures
        spec_natural_order(cx, cy).len() == cx * cy * 64,
        spec_natural_order(cx, cy).no_duplicates(),
        forall|k: int|
            0 <= k < spec_natural_order(cx, cy).len() ==> #[trigger] spec_natural_order(cx, cy)[k] < cx * cy * 64,
{
    if cx < cy {
        lemma_wide_order_permutation(cy, cx);
        let wo = spec_wide_order(cy, cx);
        let o = spec_natural_order(cx, cy);
        let w8 = (cy * 8) as int;
        let h8 = (cx * 8) as int;
        assert(cy * cx * 64 == w8 * h8 && cx * cy * 64 == w8 * h8) by (nonlinear_arith)
            requires
                w8 == cy * 8,
                h8 == cx * 8,
        ;
        assert forall|k: int| 0 <= k < o.len() implies #[trigger] o[k] < cx * cy * 64 && o[k] as int == (wo[k]
            as int % w8) * h8 + wo[k] as int / w8 by {
            lemma_transpose_index(w8, h8, wo[k] as int, wo[k] as int);
        }
        assert forall|i: int, j: int| 0 <= i < o.len() && 0 <= j < o.len() && i != j implies o[i] != o[j] by {
            lemma_transpose_index(w8, h8, wo[i] as int, wo[j] as int);
        }
    } else {
        lemma_wide_order_permutation(cx, cy);
    }
}


/// The walk of the 8x8 square after `k` zigzag positions: the first `k`
/// slots hold the zigzag's first `k` indices, the rest are zero.
pub open spec fn spec_zigzag_state(k: nat) -> (Seq<usize>, nat) {
    (Seq::new(64, |t: int| if t < k { spec_zigzag_8x8()[t] } else { 0usize }), k)
}

proof fn lemma_zigzag_visit(k: nat, x: nat, y: nat, llf_first: bool)
    requires
        1 <= k < 64,
        x < 8,
        y < 8,
        x + y >= 1,
        y * 8 + x == spec_zigzag_8x8()[k as int],
    ensures
        spec_visit(spec_zigzag_state(k), 1, 1, x, y, llf_first) == spec_zigzag_state(k + 1),
{
    assert(spec_visit(spec_zigzag_state(k), 1, 1, x, y, llf_first).0 =~= spec_zigzag_state(k + 1).0);
}

proof fn lemma_zigzag_first_diag(i: nat, k: nat, n: nat)
    requires
        1 <= i < 8,
        n <= i + 1,
        1 <= k,
        k + n <= 64,
        forall|j: nat|
            j < n ==> {
                let p = #[trigger] crate::coeff_order::spec_first_half_pos(i, j);
                p.1 * 8 + p.0 == spec_zigzag_8x8()[(k + j) as int]
            },
    ensures
        spec_first_diag(spec_zigzag_state(k), 1, 1, i, n) == spec_zigzag_state(k + n),
    decreases n,
{
    if n > 0 {
        lemma_zigzag_first_diag(i, k, (n - 1) as nat);
        let p = crate::coeff_order::spec_first_half_pos(i, (n - 1) as nat);
        lemma_zigzag_visit((k + n - 1) as nat, p.0, p.1, true);
    }
}

proof fn lemma_zigzag_second_diag(ir: nat, k: nat, n: nat)
    requires
        1 <= ir < 8,
        n <= 8 - ir,
        1 <= k,
        k + n <= 64,
        forall|j: nat|
            j < n ==> {
                let p = #[trigger] crate::coeff_order::spec_second_half_pos(8, ir, j);
                p.1 * 8 + p.0 == spec_zigzag_8x8()[(k + j) as int]
            },
    ensures
        spec_second_diag(spec_zigzag_state(k), 1, 1, ir, n) == spec_zigzag_state(k + n),
    decreases n,
{
    if n > 0 {
        lemma_zigzag_second_diag(ir, k, (n - 1) as nat);
        let p = crate::coeff_order::spec_second_half_pos(8, ir, (n - 1) as nat);
        lemma_zigzag_visit((k + n - 1) as nat, p.0, p.1, false);
    }
}

proof fn lemma_below8(j: nat)
    requires
        j < 8,
    ensures
        j == 0 || j == 1 || j == 2 || j == 3 || j == 4 || j == 5 || j == 6 || j == 7,
{
}


/// The natural scan order of a single-block transform is the zigzag of the
/// 8x8 DCT.
pub proof fn lemma_natural_order_8x8_is_zigzag()
    ensures
        spec_natural_order(1, 1) == spec_zigzag_8x8(),
{
    let start = spec_order_start(1, 1);
    assert(start.0 =~= spec_zigzag_state(1).0);
    assert(spec_first_half(start, 1, 1, 0) == start);
    assert(spec_first_diag(start, 1, 1, 0, 0) == start);
    assert(crate::coeff_order::spec_first_half_pos(0, 0) == (0nat, 0nat));
    assert(spec_first_diag(start, 1, 1, 0, 1) == spec_visit(start, 1, 1, 0, 0, true));
    assert(spec_zigzag_8x8()[0] == 0);
    assert(spec_visit(start, 1, 1, 0, 0, true) == (start.0.update(0, 0usize), start.1)) by {
        assert(1nat / 1nat == 1);
        assert(0nat % 1nat == 0);
        assert(0nat / 1nat == 0);
    }
    assert(spec_visit(start, 1, 1, 0, 0, true).0 =~= spec_zigzag_state(1).0);
    assert(spec_first_half(start, 1, 1, 1) == spec_zigzag_state(1));
    assert forall|j: nat| j < 2 implies ({
        let p = #[trigger] crate::coeff_order::spec_first_half_pos(1, j);
        p.1 * 8 + p.0 == spec_zigzag_8x8()[(1 + j) as int]
    }) by {
        lemma_below8(j);
    }
    lemma_zigzag_first_diag(1, 1, 2);
    assert(spec_first_half(start, 1, 1, 2) == spec_zigzag_state(3));
    assert forall|j: nat| j < 3 implies ({
        let p = #[trigger] crate::coeff_order::spec_first_half_pos(2, j);
        p.1 * 8 + p.0 == spec_zigzag_8x8()[(3 + j) as int]
    }) by {
        lemma_below8(j);
    }
    lemma_zigzag_first_diag(2, 3, 3);
    assert(spec_first_half(start, 1, 1, 3) == spec_zigzag_state(6));
    assert forall|j: nat| j < 4 implies ({
        let p = #[trigger] crate::coeff_order::spec_first_half_pos(3, j);
        p.1 * 8 + p.0 == spec_zigzag_8x8()[(6 + j) as int]
    }) by {
        lemma_below8(j);
    }
    lemma_zigzag_first_diag(3, 6, 4);
    assert(spec_first_half(start, 1, 1, 4) == spec_zigzag_state(10));
    assert forall|j: nat| j < 5 implies ({
        let p = #[trigger] crate::coeff_order::spec_first_half_pos(4, j);
        p.1 * 8 + p.0 == spec_zigzag_8x8()[(10 + j) as int]
    }) by {
        lemma_below8(j);
    }
    lemma_zigzag_first_diag(4, 10, 5);
    assert(spec_first_half(start, 1, 1, 5) == spec_zigzag_state(15));
    assert forall|j: nat| j < 6 implies ({
        let p = #[trigger] crate::coeff_order::spec_first_half_pos(5, j);
        p.1 * 8 + p.0 == spec_zigzag_8x8()[(15 + j) as int]
    }) by {
        lemma_below8(j);
    }
    lemma_zigzag_first_diag(5, 15, 6);
    assert(spec_first_half(start, 1, 1, 6) == spec_zigzag_state(21));
    assert forall|j: nat| j < 7 implies ({
        let p = #[trigger] crate::coeff_order::spec_first_half_pos(6, j);
        p.1 * 8 + p.0 == spec_zigzag_8x8()[(21 + j) as int]
    }) by {
        lemma_below8(j);
    }
    lemma_zigzag_first_diag(6, 21, 7);
    assert(spec_first_half(start, 1, 1, 7) == spec_zigzag_state(28));
    assert forall|j: nat| j < 8 implies ({
        let p = #[trigger] crate::coeff_order::spec_first_half_pos(7, j);
        p.1 * 8 + p.0 == spec_zigzag_8x8()[(28 + j) as int]
    }) by {
        lemma_below8(j);
    }
    lemma_zigzag_first_diag(7, 28, 8);
    assert(spec_first_half(start, 1, 1, 8) == spec_zigzag_state(36));
    let upper = spec_first_half(start, 1, 1, 8);
    assert(spec_second_half(upper, 1, 1, 1) == spec_zigzag_state(36));
    assert forall|j: nat| j < 7 implies ({
        let p = #[trigger] crate::coeff_order::spec_second_half_pos(8, 1, j);
        p.1 * 8 + p.0 == spec_zigzag_8x8()[(36 + j) as int]
    }) by {
        lemma_below8(j);
    }
    lemma_zigzag_second_diag(1, 36, 7);
    assert(spec_second_half(upper, 1, 1, 2) == spec_zigzag_state(43));
    assert forall|j: nat| j < 6 implies ({
        let p = #[trigger] crate::coeff_order::spec_second_half_pos(8, 2, j);
        p.1 * 8 + p.0 == spec_zigzag_8x8()[(43 + j) as int]
    }) by {
        lemma_below8(j);
    }
    lemma_zigzag_second_diag(2, 43, 6);
    assert(spec_second_half(upper, 1, 1, 3) == spec_zigzag_state(49));
    assert forall|j: nat| j < 5 implies ({
        let p = #[trigger] crate::coeff_order::spec_second_half_pos(8, 3, j);
        p.1 * 8 + p.0 == spec_zigzag_8x8()[(49 + j) as int]
    }) by {
        lemma_below8(j);
    }
    lemma_zigzag_second_diag(3, 49, 5);
    assert(spec_second_half(upper, 1, 1, 4) == spec_zigzag_state(54));
    assert forall|j: nat| j < 4 implies ({
        let p = #[trigger] crate::coeff_order::spec_second_half_pos(8, 4, j);
        p.1 * 8 + p.0 == spec_zigzag_8x8()[(54 + j) as int]
    }) by {
        lemma_below8(j);
    }
    lemma_zigzag_second_diag(4, 54, 4);
    assert(spec_second_half(upper, 1, 1, 5) == spec_zigzag_state(58));
    assert forall|j: nat| j < 3 implies ({
        let p = #[trigger] crate::coeff_order::spec_second_half_pos(8, 5, j);
        p.1 * 8 + p.0 == spec_zigzag_8x8()[(58 + j) as int]
    }) by {
        lemma_below8(j);
    }
    lemma_zigzag_second_diag(5, 58, 3);
    assert(spec_second_half(upper, 1, 1, 6) == spec_zigzag_state(61));
    assert forall|j: nat| j < 2 implies ({
        let p = #[trigger] crate::coeff_order::spec_second_half_pos(8, 6, j);
        p.1 * 8 + p.0 == spec_zigzag_8x8()[(61 + j) as int]
    }) by {
        lemma_below8(j);
    }
    lemma_zigzag_second_diag(6, 61, 2);
    assert(spec_second_half(upper, 1, 1, 7) == spec_zigzag_state(63));
    assert forall|j: nat| j < 1 implies ({
        let p = #[trigger] crate::coeff_order::spec_second_half_pos(8, 7, j);
        p.1 * 8 + p.0 == spec_zigzag_8x8()[(63 + j) as int]
    }) by {
        lemma_below8(j);
    }
    lemma_zigzag_second_diag(7, 63, 1);
    assert(spec_second_half(upper, 1, 1, 8) == spec_zigzag_state(64));
    assert(spec_wide_order(1, 1) =~= spec_zigzag_8x8());
}

} // verus!
