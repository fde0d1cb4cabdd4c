use vstd::prelude::*;
use crate::buffer::{Buffer, lema_pintar_uniao, lema_pintar_visiveis};
use crate::cor::Cor;
use crate::linha::pixels_linha;
use crate::vetores::Vec2;

verus! {

/// Pixels of the open polyline through the first `n` vertices of `v`.
pub open spec fn pixels_poligonal(v: Seq<Vec2<i32>>, n: int) -> Set<(int, int)>
    decreases n,
{
    if n <= 1 || n > v.len() {
        Set::empty()
    } else {
        pixels_poligonal(v, n - 1).union(pixels_linha(v[n - 2], v[n - 1]))
    }
}

/// Edge function: twice the signed area of the triangle `p1 p2 p3`.
pub open spec fn lado(p1: (int, int), p2: (int, int), p3: (int, int)) -> int {
    (p1.0 - p3.0) * (p2.1 - p3.1) - (p2.0 - p3.0) * (p1.1 - p3.1)
}

pub open spec fn par(v: Vec2<i32>) -> (int, int) {
    (v.x as int, v.y as int)
}

/// `p` is inside the triangle `a b c` or on its border: the three edge
/// functions are never of both strict signs.
pub open spec fn em_triangulo(p: (int, int), a: (int, int), b: (int, int), c: (int, int)) -> bool {
    let d1 = lado(p, a, b);
    let d2 = lado(p, b, c);
    let d3 = lado(p, c, a);
    !((d1 < 0 || d2 < 0 || d3 < 0) && (d1 > 0 || d2 > 0 || d3 > 0))
}

pub open spec fn min3(a: int, b: int, c: int) -> int {
    if a <= b && a <= c {
        a
    } else if b <= c {
        b
    } else {
        c
    }
}

pub open spec fn max3(a: int, b: int, c: int) -> int {
    if a >= b && a >= c {
        a
    } else if b >= c {
        b
    } else {
        c
    }
}

/// Pixels of the bounding box of `a b c` that pass the edge-function test.
pub open spec fn pixels_triangulo(a: Vec2<i32>, b: Vec2<i32>, c: Vec2<i32>) -> Set<(int, int)> {
    Set::new(
        |p: (int, int)|
            min3(a.x as int, b.x as int, c.x as int) <= p.0 <= max3(a.x as int, b.x as int, c.x as int)
                && min3(a.y as int, b.y as int, c.y as int) <= p.1 <= max3(a.y as int, b.y as int, c.y as int)
                && em_triangulo(p, par(a), par(b), par(c)),
    )
}

/// Pixels of the fan of triangles `v[0] v[i] v[i+1]` for `1 <= i < k`.
pub open spec fn leque(v: Seq<Vec2<i32>>, k: int) -> Set<(int, int)>
    decreases k,
{
    if k <= 1 || k >= v.len() {
        Set::empty()
    } else {
        leque(v, k - 1).union(pixels_triangulo(v[0], v[k - 1], v[k]))
    }
}

/// Pixels of a polygon filled as a fan around its first vertex; nothing for
/// fewer than three vertices. Exact for convex polygons only.
pub open spec fn pixels_poligono(v: Seq<Vec2<i32>>) -> Set<(int, int)> {
    leque(v, v.len() - 1)
}

fn lado_exec(p1: Vec2<i32>, p2: Vec2<i32>, p3: Vec2<i32>) -> (r: i128)
    ensures
        r == lado(par(p1), par(p2), par(p3)),
{
    let a = p1.x as i128 - p3.x as i128;
    let b = p2.y as i128 - p3.y as i128;
    let c = p2.x as i128 - p3.x as i128;
    let d = p1.y as i128 - p3.y as i128;
    assert(-0x1_0000_0000_0000_0000 <= a * b <= 0x1_0000_0000_0000_0000) by (nonlinear_arith)
        requires
            -0x1_0000_0000 <= a <= 0x1_0000_0000,
            -0x1_0000_0000 <= b <= 0x1_0000_0000,
    ;
    assert(-0x1_0000_0000_0000_0000 <= c * d <= 0x1_0000_0000_0000_0000) by (nonlinear_arith)
        requires
            -0x1_0000_0000 <= c <= 0x1_0000_0000,
            -0x1_0000_0000 <= d <= 0x1_0000_0000,
    ;
    a * b - c * d
}

/// Edge-function test of `p` against the triangle `a b c`, border included.
pub fn ponto_em_triangulo(p: Vec2<i32>, a: Vec2<i32>, b: Vec2<i32>, c: Vec2<i32>) -> (r: bool)
    ensures
        r == em_triangulo(par(p), par(a), par(b), par(c)),
{
    let d1 = lado_exec(p, a, b);
    let d2 = lado_exec(p, b, c);
    let d3 = lado_exec(p, c, a);
    let tem_negativo = d1 < 0 || d2 < 0 || d3 < 0;
    let tem_positivo = d1 > 0 || d2 > 0 || d3 > 0;
    !(tem_negativo && tem_positivo)
}

/// Pixels of `t` in the rectangle `[lo_x, hi_x] x [lo_y, ..]` scanned row by
/// row before `(x, y)`.
pub open spec fn varrido(t: Set<(int, int)>, lo_x: int, hi_x: int, lo_y: int, x: int, y: int) -> Set<(int, int)> {
    Set::new(
        |p: (int, int)|
            t.contains(p) && lo_x <= p.0 <= hi_x && lo_y <= p.1 && (p.1 < y || (p.1 == y && p.0 < x)),
    )
}

fn min_i32(a: i32, b: i32) -> (r: i32)
    ensures
        r == if a <= b { a } else { b },
{
    if a <= b {
        a
    } else {
        b
    }
}

fn max_i32(a: i32, b: i32) -> (r: i32)
    ensures
        r == if a >= b { a } else { b },
{
    if a >= b {
        a
    } else {
        b
    }
}

impl Buffer {
    /// Fills the triangle `a b c`: every pixel of its bounding box, within the
    /// screen, that passes the edge-function test.
    pub fn rasterizar_triangulo_simples(&mut self, a: Vec2<i32>, b: Vec2<i32>, c: Vec2<i32>, cor: Cor, z: i64)
        requires
            old(self).bem_formado(),
        ensures
            final(self).bem_formado(),
            final(self)@ == old(self)@.pintar(pixels_triangulo(a, b, c), cor, z),
    {
        let min_x = min_i32(min_i32(a.x, b.x), c.x);
        let max_x = max_i32(max_i32(a.x, b.x), c.x);
        let min_y = min_i32(min_i32(a.y, b.y), c.y);
        let max_y = max_i32(max_i32(a.y, b.y), c.y);
        let ghost t0 = self@;
        let ghost alvo = pixels_triangulo(a, b, c);
        assert(min_x == min3(a.x as int, b.x as int, c.x as int));
        assert(max_x == max3(a.x as int, b.x as int, c.x as int));
        assert(min_y == min3(a.y as int, b.y as int, c.y as int));
        assert(max_y == max3(a.y as int, b.y as int, c.y as int));
        let w = self.largura() as i128;
        let h = self.altura() as i128;
        let lo_x: i64 = if min_x < 0 { 0 } else { min_x as i64 };
        let lo_y: i64 = if min_y < 0 { 0 } else { min_y as i64 };
        let hi_x: i64 = if (max_x as i128) < w - 1 { max_x as i64 } else { (w - 1) as i64 };
        let limite_y: i128 = 2 * (h / 2) - 1;
        let hi_y: i64 = if (max_y as i128) < limite_y { max_y as i64 } else { limite_y as i64 };
        proof {
            assert(t0.pintar(Set::empty(), cor, z).z =~= t0.z);
            assert(t0.pintar(Set::empty(), cor, z).celulas =~= t0.celulas);
            assert(varrido(alvo, lo_x as int, hi_x as int, lo_y as int, lo_x as int, lo_y as int) =~= Set::empty());
        }
        let mut y: i64 = lo_y;
        while y <= hi_y
            invariant
                self.bem_formado(),
                t0.bem_formada(),
                self@.largura == t0.largura,
                self@.altura == t0.altura,
                lo_y <= y <= if hi_y + 1 > lo_y { hi_y + 1 } else { lo_y as int },
                hi_y <= max_y,
                hi_x <= max_x,
                alvo == pixels_triangulo(a, b, c),
                min_x == min3(a.x as int, b.x as int, c.x as int),
                max_x == max3(a.x as int, b.x as int, c.x as int),
                min_y == min3(a.y as int, b.y as int, c.y as int),
                max_y == max3(a.y as int, b.y as int, c.y as int),
                0 <= lo_x,
                min_x <= lo_x,
                0 <= lo_y,
                min_y <= lo_y,
                self@ == t0.pintar(varrido(alvo, lo_x as int, hi_x as int, lo_y as int, lo_x as int, y as int), cor, z),
            decreases hi_y + 1 - y,
        {
            let mut x: i64 = lo_x;
            while x <= hi_x
                invariant
                    self.bem_formado(),
                    t0.bem_formada(),
                    lo_y <= y <= hi_y,
                    hi_y <= max_y,
                    hi_x <= max_x,
                    alvo == pixels_triangulo(a, b, c),
                    min_x == min3(a.x as int, b.x as int, c.x as int),
                    max_x == max3(a.x as int, b.x as int, c.x as int),
                    min_y == min3(a.y as int, b.y as int, c.y as int),
                    max_y == max3(a.y as int, b.y as int, c.y as int),
                    0 <= lo_x,
                    min_x <= lo_x,
                    0 <= lo_y,
                    min_y <= lo_y,
                    lo_x <= x <= if hi_x + 1 > lo_x { hi_x + 1 } else { lo_x as int },
                    self@ == t0.pintar(varrido(alvo, lo_x as int, hi_x as int, lo_y as int, x as int, y as int), cor, z),
                decreases hi_x + 1 - x,
            {
                let p = Vec2 { x: x as i32, y: y as i32 };
                assert(p.x == x && p.y == y);
                let ghost antes = varrido(alvo, lo_x as int, hi_x as int, lo_y as int, x as int, y as int);
                let ghost depois = varrido(alvo, lo_x as int, hi_x as int, lo_y as int, x + 1, y as int);
                if ponto_em_triangulo(p, a, b, c) {
                    self.set_pixel(p, cor, z);
                    proof {
                        lema_pintar_uniao(t0, antes, Buffer::ponto(p), cor, z);
                        assert(depois =~= antes.union(Buffer::ponto(p)));
                    }
                } else {
                    assert(depois =~= antes);
                }
                x = x + 1;
            }
            proof {
                assert(varrido(alvo, lo_x as int, hi_x as int, lo_y as int, x as int, y as int)
                    =~= varrido(alvo, lo_x as int, hi_x as int, lo_y as int, lo_x as int, y + 1));
            }
            y = y + 1;
        }
        proof {
            let feito = varrido(alvo, lo_x as int, hi_x as int, lo_y as int, lo_x as int, y as int);
            assert forall|px: int, py: int| t0.visivel(px, py) implies (feito.contains((px, py))
                <==> alvo.contains((px, py))) by {
                assert(py < 2 * (t0.altura / 2));
            }
            lema_pintar_visiveis(t0, feito, alvo, cor, z);
        }
    }

    /// Draws the segments between consecutive vertices of `vertices`.
    pub fn desenhar_linha(&mut self, vertices: &[Vec2<i32>], cor: Cor, z: i64)
        requires
            old(self).bem_formado(),
        ensures
            final(self).bem_formado(),
            final(self)@ == old(self)@.pintar(pixels_poligonal(vertices@, vertices@.len() as int), cor, z),
    {
        let ghost t0 = self@;
        proof {
            assert(t0.pintar(Set::empty(), cor, z).z =~= t0.z);
            assert(t0.pintar(Set::empty(), cor, z).celulas =~= t0.celulas);
        }
        if vertices.len() < 2 {
            return;
        }
        let mut i: usize = 1;
        while i < vertices.len()
            invariant
                self.bem_formado(),
                t0.bem_formada(),
                1 <= i <= vertices@.len(),
                self@ == t0.pintar(pixels_poligonal(vertices@, i as int), cor, z),
            decreases vertices@.len() - i,
        {
            self.desenhar_linha_simples(vertices[i - 1], vertices[i], cor, z);
            proof {
                lema_pintar_uniao(t0, pixels_poligonal(vertices@, i as int), pixels_linha(vertices@[i - 1], vertices@[i as int]), cor, z);
            }
            i = i + 1;
        }
    }

    /// Fills a polygon as the fan of triangles around its first vertex;
    /// fewer than three vertices draw nothing.
    pub fn desenhar_poligono(&mut self, vertices: &[Vec2<i32>], cor: Cor, z: i64)
        requires
            old(self).bem_formado(),
        ensures
            final(self).bem_formado(),
            final(self)@ == old(self)@.pintar(pixels_poligono(vertices@), cor, z),
    {
        let ghost t0 = self@;
        proof {
            assert(t0.pintar(Set::empty(), cor, z).z =~= t0.z);
            assert(t0.pintar(Set::empty(), cor, z).celulas =~= t0.celulas);
        }
        if vertices.len() < 3 {
            return;
        }
        let n = vertices.len();
        let mut i: usize = 1;
        while i < n - 1
            invariant
                self.bem_formado(),
                t0.bem_formada(),
                n == vertices@.len(),
                n >= 3,
                1 <= i <= n - 1,
                self@ == t0.pintar(leque(vertices@, i as int), cor, z),
            decreases n - i,
        {
            self.rasterizar_triangulo_simples(vertices[0], vertices[i], vertices[i + 1], cor, z);
            proof {
                lema_pintar_uniao(t0, leque(vertices@, i as int), pixels_triangulo(vertices@[0], vertices@[i as int], vertices@[i + 1]), cor, z);
            }
            i = i + 1;
        }
    }
}

} // verus!
