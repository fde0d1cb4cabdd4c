use vstd::prelude::*;
use crate::buffer::Buffer;
use crate::cor::Cor;
use crate::vetores::Vec2;

verus! {

/// The two endpoints of a segment, the lexicographically smaller first, so
/// that a segment and its reverse are traced from the same end.
pub open spec fn ordenar(a: Vec2<i32>, b: Vec2<i32>) -> (Vec2<i32>, Vec2<i32>) {
    if a.x < b.x || (a.x == b.x && a.y <= b.y) {
        (a, b)
    } else {
        (b, a)
    }
}

pub open spec fn abs(v: int) -> int {
    if v < 0 {
        -v
    } else {
        v
    }
}

/// Integer Bresenham from `(x, y)` with error `err` towards `(x1, y1)`, where
/// `dx = |x1 - x0|`, `dy = -|y1 - y0|` and `sx`, `sy` step towards the end; at
/// most `n` steps.
pub open spec fn bresenham(
    x: int,
    y: int,
    err: int,
    x1: int,
    y1: int,
    dx: int,
    dy: int,
    sx: int,
    sy: int,
    n: nat,
) -> Seq<(int, int)>
    decreases n,
{
    if n == 0 || (x == x1 && y == y1) {
        seq![(x, y)]
    } else {
        let e2 = 2 * err;
        let err1 = if e2 >= dy {
            err + dy
        } else {
            err
        };
        let x2 = if e2 >= dy {
            x + sx
        } else {
            x
        };
        let err2 = if e2 <= dx {
            err1 + dx
        } else {
            err1
        };
        let y2 = if e2 <= dx {
            y + sy
        } else {
            y
        };
        seq![(x, y)] + bresenham(x2, y2, err2, x1, y1, dx, dy, sx, sy, (n - 1) as nat)
    }
}

/// The pixels of the segment `a`-`b` in the order Bresenham visits them.
pub open spec fn tracado(a: Vec2<i32>, b: Vec2<i32>) -> Seq<(int, int)> {
    let (p, q) = ordenar(a, b);
    let dx = abs(q.x - p.x);
    let dy = -abs(q.y - p.y);
    let sx: int = if p.x < q.x {
        1
    } else {
        -1
    };
    let sy: int = if p.y < q.y {
        1
    } else {
        -1
    };
    bresenham(p.x as int, p.y as int, dx + dy, q.x as int, q.y as int, dx, dy, sx, sy, (dx - dy) as nat)
}

/// The set of pixels of the segment `a`-`b`.
pub open spec fn pixels_linha(a: Vec2<i32>, b: Vec2<i32>) -> Set<(int, int)> {
    Set::new(|p: (int, int)| tracado(a, b).contains(p))
}

/// Drawing a segment from either end gives the same pixels in the same order.
pub proof fn lema_linha_simetrica(a: Vec2<i32>, b: Vec2<i32>)
    ensures
        tracado(a, b) == tracado(b, a),
        pixels_linha(a, b) == pixels_linha(b, a),
{
    assert(ordenar(a, b) == ordenar(b, a));
}

/// Two pixels are equal or touch by a side or a corner.
pub open spec fn vizinhos(p: (int, int), q: (int, int)) -> bool {
    -1 <= q.0 - p.0 <= 1 && -1 <= q.1 - p.1 <= 1
}

/// Bresenham from the state reached after `i` steps in `x` and `j` in `y`
/// from `(x0, y0)` ends at `(x1, y1)`, moving to a neighbouring pixel each time.
proof fn lema_bresenham_caminho(
    x: int,
    y: int,
    err: int,
    x1: int,
    y1: int,
    gx: int,
    gy: int,
    sx: int,
    sy: int,
    n: nat,
    x0: int,
    y0: int,
    i: int,
    j: int,
)
    requires
        sx == 1 || sx == -1,
        sy == 1 || sy == -1,
        sx == 1 ==> x == x0 + i && x1 == x0 + gx,
        sx == -1 ==> x == x0 - i && x1 == x0 - gx,
        sy == 1 ==> y == y0 + j && y1 == y0 + gy,
        sy == -1 ==> y == y0 - j && y1 == y0 - gy,
        0 <= i <= gx,
        0 <= j <= gy,
        err == gx * (1 + j) - gy * (1 + i),
        n >= (gx - i) + (gy - j),
    ensures
        bresenham(x, y, err, x1, y1, gx, -gy, sx, sy, n).len() >= 1,
        bresenham(x, y, err, x1, y1, gx, -gy, sx, sy, n)[0] == (x, y),
        bresenham(x, y, err, x1, y1, gx, -gy, sx, sy, n).last() == (x1, y1),
        forall|k: int| 0 <= k < bresenham(x, y, err, x1, y1, gx, -gy, sx, sy, n).len() - 1
            ==> vizinhos(
                #[trigger] bresenham(x, y, err, x1, y1, gx, -gy, sx, sy, n)[k],
                bresenham(x, y, err, x1, y1, gx, -gy, sx, sy, n)[k + 1],
            ),
    decreases n,
{
    let dy = -gy;
    if n == 0 || (x == x1 && y == y1) {
    } else {
        let e2 = 2 * err;
        assert(i < gx || j < gy);
        if i == gx {
            assert(gx * (1 + j) <= gx * gy) by (nonlinear_arith)
                requires
                    1 + j <= gy,
                    0 <= gx,
            ;
            assert(gy * (1 + i) == gy + gy * gx) by (nonlinear_arith)
                requires
                    i == gx,
            ;
            assert(gx * gy == gy * gx) by (nonlinear_arith);
            assert(!(e2 >= dy));
        }
        if j == gy {
            assert(gy * (1 + i) <= gy * gx) by (nonlinear_arith)
                requires
                    1 + i <= gx,
                    0 <= gy,
            ;
            assert(gx * (1 + j) == gx + gx * gy) by (nonlinear_arith)
                requires
                    j == gy,
            ;
            assert(gx * gy == gy * gx) by (nonlinear_arith);
            assert(!(e2 <= gx));
        }
        let err1 = if e2 >= dy {
            err + dy
        } else {
            err
        };
        let x2 = if e2 >= dy {
            x + sx
        } else {
            x
        };
        let i2 = if e2 >= dy {
            i + 1
        } else {
            i
        };
        let err2 = if e2 <= gx {
            err1 + gx
        } else {
            err1
        };
        let y2 = if e2 <= gx {
            y + sy
        } else {
            y
        };
        let j2 = if e2 <= gx {
            j + 1
        } else {
            j
        };
        assert(gy * (1 + (i + 1)) == gy * (1 + i) + gy) by (nonlinear_arith);
        assert(gx * (1 + (j + 1)) == gx * (1 + j) + gx) by (nonlinear_arith);
        assert(err2 == gx * (1 + j2) - gy * (1 + i2));
        let m: nat = (n - 1) as nat;
        lema_bresenham_caminho(x2, y2, err2, x1, y1, gx, gy, sx, sy, m, x0, y0, i2, j2);
        let resto = bresenham(x2, y2, err2, x1, y1, gx, -gy, sx, sy, m);
        let s = bresenham(x, y, err, x1, y1, gx, -gy, sx, sy, n);
        assert(s == seq![(x, y)] + resto);
        assert forall|k: int| 0 <= k < s.len() - 1 implies vizinhos(#[trigger] s[k], s[k + 1]) by {
            if k > 0 {
                assert(s[k] == resto[k - 1]);
                assert(s[k + 1] == resto[k]);
            }
        }
    }
}

/// A traced segment runs from its lexicographically smaller end to the other
/// through neighbouring pixels, so both ends are drawn and the path has no gap.
pub proof fn lema_linha_conexa(a: Vec2<i32>, b: Vec2<i32>)
    ensures
        tracado(a, b).len() >= 1,
        tracado(a, b)[0] == (ordenar(a, b).0.x as int, ordenar(a, b).0.y as int),
        tracado(a, b).last() == (ordenar(a, b).1.x as int, ordenar(a, b).1.y as int),
        forall|k: int| 0 <= k < tracado(a, b).len() - 1 ==> vizinhos(#[trigger] tracado(a, b)[k], tracado(a, b)[k + 1]),
        pixels_linha(a, b).contains((a.x as int, a.y as int)),
        pixels_linha(a, b).contains((b.x as int, b.y as int)),
{
    let (p, q) = ordenar(a, b);
    let gx = abs(q.x - p.x);
    let gy = abs(q.y - p.y);
    let sx: int = if p.x < q.x {
        1
    } else {
        -1
    };
    let sy: int = if p.y < q.y {
        1
    } else {
        -1
    };
    assert(gx * (1 + 0) - gy * (1 + 0) == gx - gy) by (nonlinear_arith);
    lema_bresenham_caminho(p.x as int, p.y as int, gx - gy, q.x as int, q.y as int, gx, gy, sx, sy, (gx + gy) as nat, p.x as int, p.y as int, 0, 0);
    let s = tracado(a, b);
    assert(s[0] == (p.x as int, p.y as int));
    assert(s[s.len() - 1] == (q.x as int, q.y as int));
}

proof fn lema_contem_cons(a: (int, int), s: Seq<(int, int)>, t: Seq<(int, int)>)
    requires
        t == seq![a] + s,
    ensures
        forall|p: (int, int)| t.contains(p) <==> (p == a || s.contains(p)),
{
    assert forall|p: (int, int)| t.contains(p) <==> (p == a || s.contains(p)) by {
        if t.contains(p) {
            let k = choose|k: int| 0 <= k < t.len() && t[k] == p;
            if k > 0 {
                assert(s[k - 1] == p);
            }
        }
        if p == a {
            assert(t[0] == p);
        }
        if s.contains(p) {
            let k = choose|k: int| 0 <= k < s.len() && s[k] == p;
            assert(t[k + 1] == p);
        }
    }
}

impl Buffer {
    /// Draws the segment `a`-`b` with integer Bresenham; the pixels do not
    /// depend on which end comes first.
    pub fn desenhar_linha_simples(&mut self, a: Vec2<i32>, b: Vec2<i32>, cor: Cor, z: i64)
        requires
            old(self).bem_formado(),
        ensures
            final(self).bem_formado(),
            final(self)@ == old(self)@.pintar(pixels_linha(a, b), cor, z),
    {
        let (p, q) = if a.x < b.x || (a.x == b.x && a.y <= b.y) {
            (a, b)
        } else {
            (b, a)
        };
        let x1: i64 = q.x as i64;
        let y1: i64 = q.y as i64;
        let mut x: i64 = p.x as i64;
        let mut y: i64 = p.y as i64;
        let dx: i64 = if x1 >= x {
            x1 - x
        } else {
            x - x1
        };
        let dy: i64 = if y1 >= y {
            y - y1
        } else {
            y1 - y
        };
        let sx: i64 = if x < x1 {
            1
        } else {
            -1
        };
        let sy: i64 = if y < y1 {
            1
        } else {
            -1
        };
        let mut err: i64 = dx + dy;
        let ghost grande_x: int = dx as int;
        let ghost grande_y: int = -dy;
        let ghost mut i: int = 0;
        let ghost mut j: int = 0;
        let ghost mut n: nat = (dx - dy) as nat;
        let ghost t0 = self@;
        let ghost total = pixels_linha(a, b);
        let ghost mut feito: Set<(int, int)> = Set::empty();
        proof {
            assert(t0.pintar(Set::empty(), cor, z).z =~= t0.z);
            assert(t0.pintar(Set::empty(), cor, z).celulas =~= t0.celulas);
            assert(total =~= feito.union(
                Set::new(|r: (int, int)| bresenham(x as int, y as int, err as int, x1 as int, y1 as int, dx as int, dy as int, sx as int, sy as int, n).contains(r)),
            ));
        }
        loop
            invariant
                self.bem_formado(),
                t0.bem_formada(),
                self@ == t0.pintar(feito, cor, z),
                total == feito.union(
                    Set::new(|r: (int, int)| bresenham(x as int, y as int, err as int, x1 as int, y1 as int, dx as int, dy as int, sx as int, sy as int, n).contains(r)),
                ),
                grande_x == dx,
                grande_y == -dy,
                0 <= grande_x <= 0x1_0000_0000,
                0 <= grande_y <= 0x1_0000_0000,
                sx == 1 ==> x == p.x + i && x1 == p.x + grande_x,
                sx == -1 ==> x == p.x - i && x1 == p.x - grande_x,
                sx == 1 || sx == -1,
                sx == 1 || grande_x == 0 || x1 < p.x,
                sy == 1 ==> y == p.y + j && y1 == p.y + grande_y,
                sy == -1 ==> y == p.y - j && y1 == p.y - grande_y,
                sy == 1 || sy == -1,
                x1 == q.x,
                y1 == q.y,
                0 <= i <= grande_x,
                0 <= j <= grande_y,
                err == grande_x * (1 + j) - grande_y * (1 + i),
                -2 * grande_y <= err <= 2 * grande_x,
                n >= (grande_x - i) + (grande_y - j),
            ensures
                self.bem_formado(),
                self@ == t0.pintar(total, cor, z),
            decreases (grande_x - i) + (grande_y - j),
        {
            let ghost resto = bresenham(x as int, y as int, err as int, x1 as int, y1 as int, dx as int, dy as int, sx as int, sy as int, n);
            let ghost feito0 = feito;
            assert(total == feito0.union(Set::new(|r: (int, int)| resto.contains(r))));
            proof {
                assert(i32::MIN <= x <= i32::MAX && i32::MIN <= y <= i32::MAX);
            }
            let ponto = Vec2 { x: x as i32, y: y as i32 };
            assert(ponto.x == x && ponto.y == y);
            self.set_pixel(ponto, cor, z);
            proof {
                crate::buffer::lema_pintar_uniao(t0, feito, Buffer::ponto(ponto), cor, z);
                feito = feito.union(Buffer::ponto(ponto));
            }
            if x == x1 && y == y1 {
                proof {
                    assert(resto == seq![(x as int, y as int)]);
                    assert forall|r: (int, int)| resto.contains(r) <==> r == (x as int, y as int) by {
                        if r == (x as int, y as int) {
                            assert(resto[0] == r);
                        }
                    }
                    assert(total =~= feito);
                    assert(self@ == t0.pintar(total, cor, z));
                }
                break;
            }
            let e2: i64 = 2 * err;
            proof {
                assert(i < grande_x || j < grande_y);
                if i == grande_x {
                    assert(grande_x * (1 + j) <= grande_x * grande_y) by (nonlinear_arith)
                        requires
                            1 + j <= grande_y,
                            0 <= grande_x,
                    ;
                    assert(grande_y * (1 + i) == grande_y + grande_y * grande_x) by (nonlinear_arith)
                        requires
                            i == grande_x,
                    ;
                    assert(grande_x * grande_y == grande_y * grande_x) by (nonlinear_arith);
                    assert(!(e2 >= dy));
                }
                if j == grande_y {
                    assert(grande_y * (1 + i) <= grande_y * grande_x) by (nonlinear_arith)
                        requires
                            1 + i <= grande_x,
                            0 <= grande_y,
                    ;
                    assert(grande_x * (1 + j) == grande_x + grande_x * grande_y) by (nonlinear_arith)
                        requires
                            j == grande_y,
                    ;
                    assert(grande_x * grande_y == grande_y * grande_x) by (nonlinear_arith);
                    assert(!(e2 <= dx));
                }
                assert(n > 0);
            }
            let ghost err_antes = err as int;
            if e2 >= dy {
                err = err + dy;
                x = x + sx;
                proof {
                    assert(grande_y * (1 + (i + 1)) == grande_y * (1 + i) + grande_y) by (nonlinear_arith);
                    i = i + 1;
                }
            }
            if e2 <= dx {
                err = err + dx;
                y = y + sy;
                proof {
                    assert(grande_x * (1 + (j + 1)) == grande_x * (1 + j) + grande_x) by (nonlinear_arith);
                    j = j + 1;
                }
            }
            proof {
                let n2: nat = (n - 1) as nat;
                let resto2 = bresenham(x as int, y as int, err as int, x1 as int, y1 as int, dx as int, dy as int, sx as int, sy as int, n2);
                assert(resto == seq![(ponto.x as int, ponto.y as int)] + resto2);
                lema_contem_cons((ponto.x as int, ponto.y as int), resto2, resto);
                n = n2;
                assert forall|r: (int, int)| total.contains(r) <==> (feito.contains(r) || resto2.contains(r)) by {
                    assert(total.contains(r) <==> (feito0.contains(r) || resto.contains(r)));
                    assert(resto.contains(r) <==> (r == (ponto.x as int, ponto.y as int) || resto2.contains(r)));
                    assert(feito.contains(r) <==> (feito0.contains(r) || r == (ponto.x as int, ponto.y as int)));
                }
                assert(total =~= feito.union(Set::new(|r: (int, int)| resto2.contains(r))));
            }
        }
    }
}

} // verus!
