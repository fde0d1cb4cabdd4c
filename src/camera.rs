use vstd::prelude::*;
use vstd::arithmetic::div_mod::{lemma_fundamental_div_mod, lemma_fundamental_div_mod_converse};
use crate::vetores::{Vec2, Vec3};

verus! {

/// Far plane of a camera built with [`Camera::new`].
pub const ALCANCE_PADRAO: i32 = 1000;

/// What a camera holds: its world position, its focal distance (the scale
/// from camera space to pixels), the viewport in pixels, and the range of
/// depths that it sees.
pub struct Lente {
    pub pos: Vec3<i32>,
    pub foco: i32,
    pub resolucao: Vec2<usize>,
    pub perto: i32,
    pub longe: i32,
}

/// A pinhole camera looking down `+z`. World and camera-space coordinates are
/// integers in one unit of the caller's choosing.
pub struct Camera {
    pos: Vec3<i32>,
    dist_foco: i32,
    resolucao: Vec2<usize>,
    perto: i32,
    alcance: i32,
}

impl View for Camera {
    type V = Lente;

    closed spec fn view(&self) -> Lente {
        Lente {
            pos: self.pos,
            foco: self.dist_foco,
            resolucao: self.resolucao,
            perto: self.perto,
            longe: self.alcance,
        }
    }
}

/// `floor(n / d)` for any `d != 0`.
pub open spec fn piso(n: int, d: int) -> int {
    if d > 0 {
        n / d
    } else {
        (-n) / (-d)
    }
}

/// `v` clamped to the range of `i32`.
pub open spec fn saturar(v: int) -> int {
    if v < i32::MIN {
        i32::MIN as int
    } else if v > i32::MAX {
        i32::MAX as int
    } else {
        v
    }
}

pub open spec fn local(p: Vec3<i64>) -> (int, int, int) {
    (p.x as int, p.y as int, p.z as int)
}

impl Lente {
    pub open spec fn bem_formada(self) -> bool {
        0 < self.perto < self.longe && 0 < self.foco
    }

    /// Screen coordinate `floor(foco * c / z + tamanho / 2)` of a camera-space
    /// coordinate `c` at depth `z > 0`, clamped to `i32`.
    pub open spec fn coordenada(self, c: int, z: int, tamanho: int) -> int {
        saturar(piso(2 * self.foco * c + tamanho * z, 2 * z))
    }

    /// Perspective projection of a camera-space point: absent outside
    /// `[perto, longe]`, else its pixel and its depth (its `z`).
    pub open spec fn projecao_local(self, p: (int, int, int)) -> Option<((int, int), int)> {
        if p.2 < self.perto || p.2 > self.longe {
            None
        } else {
            Some(
                (
                    (
                        self.coordenada(p.0, p.2, self.resolucao.x as int),
                        self.coordenada(p.1, p.2, self.resolucao.y as int),
                    ),
                    p.2,
                ),
            )
        }
    }

    /// A world point in camera space.
    pub open spec fn para_local(self, p: Vec3<i32>) -> (int, int, int) {
        (p.x - self.pos.x, p.y - self.pos.y, p.z - self.pos.z)
    }

    pub open spec fn projecao(self, p: Vec3<i32>) -> Option<((int, int), int)> {
        self.projecao_local(self.para_local(p))
    }
}

/// Point of the segment `a`-`b` at depth `zp` (`a.z != b.z`), each coordinate
/// rounded down.
pub open spec fn interpolar(a: (int, int, int), b: (int, int, int), zp: int) -> (int, int, int) {
    (
        a.0 + piso((zp - a.2) * (b.0 - a.0), b.2 - a.2),
        a.1 + piso((zp - a.2) * (b.1 - a.1), b.2 - a.2),
        zp,
    )
}

/// Every coordinate is within `2^32` of zero: true of any difference of two
/// `i32` points, and kept by interpolation.
pub open spec fn limitado(p: (int, int, int)) -> bool {
    -0x1_0000_0000 <= p.0 <= 0x1_0000_0000 && -0x1_0000_0000 <= p.1 <= 0x1_0000_0000
        && -0x1_0000_0000 <= p.2 <= 0x1_0000_0000
}

fn div_piso(n: i128, d: i128) -> (r: i128)
    requires
        d > 0,
        -0x1_0000_0000_0000_0000_0000_0000 <= n <= 0x1_0000_0000_0000_0000_0000_0000,
        d <= 0x1_0000_0000_0000_0000_0000_0000,
    ensures
        r == n / d,
{
    if n >= 0 {
        n / d
    } else {
        let m = -n + d - 1;
        let q = m / d;
        proof {
            lemma_fundamental_div_mod(m as int, d as int);
            let rr = m % d;
            assert(0 <= rr < d);
            assert(m == d * q + rr);
            assert(n == (-q) * d + (d - 1 - rr)) by (nonlinear_arith)
                requires
                    m == d * q + rr,
                    m == -n + d - 1,
            ;
            lemma_fundamental_div_mod_converse(n as int, d as int, -q, d - 1 - rr);
        }
        -q
    }
}

/// `piso(k * delta, d)` lies between `0` and `delta` when `0 <= k <= d`.
proof fn lema_fracao(k: int, delta: int, d: int)
    requires
        0 < d,
        0 <= k <= d,
    ensures
        delta >= 0 ==> 0 <= (k * delta) / d <= delta,
        delta < 0 ==> delta <= (k * delta) / d <= 0,
{
    let q = (k * delta) / d;
    lemma_fundamental_div_mod(k * delta, d);
    let r = (k * delta) % d;
    assert(0 <= r < d);
    if delta >= 0 {
        assert(0 <= k * delta <= d * delta) by (nonlinear_arith)
            requires
                0 <= k <= d,
                delta >= 0,
        ;
        assert(0 <= q <= delta) by (nonlinear_arith)
            requires
                k * delta == d * q + r,
                0 <= r < d,
                0 <= k * delta <= d * delta,
                0 < d,
        ;
    } else {
        assert(d * delta <= k * delta <= 0) by (nonlinear_arith)
            requires
                0 <= k <= d,
                delta < 0,
        ;
        assert(delta <= q <= 0) by (nonlinear_arith)
            requires
                k * delta == d * q + r,
                0 <= r < d,
                d * delta <= k * delta <= 0,
                0 < d,
        ;
    }
}

/// One coordinate of [`interpolar`]: `a + piso((zp - az) * (b - a), bz - az)`.
fn interpolar_coord(a: i64, b: i64, az: i64, bz: i64, zp: i64) -> (r: i64)
    requires
        az != bz,
        az < bz ==> az <= zp <= bz,
        bz < az ==> bz <= zp <= az,
        -0x1_0000_0000 <= a <= 0x1_0000_0000,
        -0x1_0000_0000 <= b <= 0x1_0000_0000,
        -0x1_0000_0000 <= az <= 0x1_0000_0000,
        -0x1_0000_0000 <= bz <= 0x1_0000_0000,
    ensures
        r == a + piso((zp - az) * (b - a), bz - az),
        a <= b ==> a <= r <= b,
        b < a ==> b <= r <= a,
{
    let k0 = zp as i128 - az as i128;
    let d0 = bz as i128 - az as i128;
    let delta = b as i128 - a as i128;
    let (k, d) = if d0 > 0 {
        (k0, d0)
    } else {
        (-k0, -d0)
    };
    assert(-0x4_0000_0000_0000_0000 <= k * delta <= 0x4_0000_0000_0000_0000) by (nonlinear_arith)
        requires
            0 <= k <= d,
            d <= 0x2_0000_0000,
            -0x2_0000_0000 <= delta <= 0x2_0000_0000,
    ;
    let q = div_piso(k * delta, d);
    proof {
        lema_fracao(k as int, delta as int, d as int);
        if d0 <= 0 {
            assert(k * delta == -((zp - az) * (b - a))) by (nonlinear_arith)
                requires
                    k == -k0,
                    k0 == zp - az,
                    delta == b - a,
            ;
        }
    }
    (a as i128 + q) as i64
}

/// [`interpolar`] on camera-space points.
pub fn interpolar_plano_z(a: Vec3<i64>, b: Vec3<i64>, z_plano: i64) -> (r: Vec3<i64>)
    requires
        a.z != b.z,
        a.z < b.z ==> a.z <= z_plano <= b.z,
        b.z < a.z ==> b.z <= z_plano <= a.z,
        limitado(local(a)),
        limitado(local(b)),
    ensures
        local(r) == interpolar(local(a), local(b), z_plano as int),
        limitado(local(r)),
{
    let x = interpolar_coord(a.x, b.x, a.z, b.z, z_plano);
    let y = interpolar_coord(a.y, b.y, a.z, b.z, z_plano);
    Vec3 { x, y, z: z_plano }
}

/// The pixel and depth of an executable projection result.
pub open spec fn vista_projecao(r: Option<(Vec2<i32>, i64)>) -> Option<((int, int), int)> {
    match r {
        Some((p, z)) => Some(((p.x as int, p.y as int), z as int)),
        None => None,
    }
}

pub open spec fn dentro_plano(p: (int, int, int), plano: int, frente: bool) -> bool {
    if frente {
        p.2 >= plano
    } else {
        p.2 <= plano
    }
}

/// What the edge ending at vertex `i` contributes to the polygon `v` clipped
/// to the side of `plano` that `frente` names (`z >= plano` or `z <= plano`).
pub open spec fn emitir(v: Seq<(int, int, int)>, plano: int, frente: bool, i: int) -> Seq<(int, int, int)> {
    let cur = v[i];
    let prev = if i == 0 {
        v[v.len() - 1]
    } else {
        v[i - 1]
    };
    if dentro_plano(cur, plano, frente) {
        if !dentro_plano(prev, plano, frente) {
            seq![interpolar(prev, cur, plano), cur]
        } else {
            seq![cur]
        }
    } else if dentro_plano(prev, plano, frente) {
        seq![interpolar(prev, cur, plano)]
    } else {
        seq![]
    }
}

/// Sutherland-Hodgman against one plane, over the edges ending at the first
/// `k` vertices.
pub open spec fn recorte_plano(v: Seq<(int, int, int)>, plano: int, frente: bool, k: int) -> Seq<(int, int, int)>
    decreases k,
{
    if k <= 0 || k > v.len() {
        seq![]
    } else {
        recorte_plano(v, plano, frente, k - 1) + emitir(v, plano, frente, k - 1)
    }
}

pub open spec fn vista_pontos(v: Seq<Vec3<i64>>) -> Seq<(int, int, int)> {
    v.map_values(|p: Vec3<i64>| local(p))
}

impl Lente {
    /// The segment `p1`-`p2` in camera space with each end that lies before
    /// the near plane or beyond the far plane moved onto it; absent when both
    /// ends lie on the same outer side.
    pub open spec fn recorte_linha(self, p1: Vec3<i32>, p2: Vec3<i32>) -> Option<((int, int, int), (int, int, int))> {
        let a = self.para_local(p1);
        let b = self.para_local(p2);
        let near = self.perto as int;
        let far = self.longe as int;
        if (a.2 < near && b.2 < near) || (a.2 > far && b.2 > far) {
            None
        } else {
            let a1 = if a.2 < near {
                interpolar(a, b, near)
            } else {
                a
            };
            let b1 = if a.2 < near {
                b
            } else if b.2 < near {
                interpolar(b, a, near)
            } else {
                b
            };
            let a2 = if a1.2 > far {
                interpolar(a1, b1, far)
            } else {
                a1
            };
            let b2 = if a1.2 > far {
                b1
            } else if b1.2 > far {
                interpolar(b1, a1, far)
            } else {
                b1
            };
            Some((a2, b2))
        }
    }

    /// A polygon in camera space clipped to the near plane, then to the far one.
    pub open spec fn recorte_poligono(self, vs: Seq<Vec3<i32>>) -> Seq<(int, int, int)> {
        let l = vs.map_values(|p: Vec3<i32>| self.para_local(p));
        let n1 = recorte_plano(l, self.perto as int, true, l.len() as int);
        recorte_plano(n1, self.longe as int, false, n1.len() as int)
    }
}

proof fn lema_meio(w: int, z: int)
    requires
        0 <= w,
        0 < z,
    ensures
        (w * z) / (2 * z) == w / 2,
{
    let q = w / 2;
    let r = w % 2;
    lemma_fundamental_div_mod(w, 2);
    assert(w * z == q * (2 * z) + r * z) by (nonlinear_arith)
        requires
            w == 2 * q + r,
    ;
    assert(0 <= r * z < 2 * z) by (nonlinear_arith)
        requires
            0 <= r < 2,
            0 < z,
    ;
    lemma_fundamental_div_mod_converse(w * z, 2 * z, q, r * z);
}

/// A point straight ahead of the camera and within its depth range projects
/// to the center of the viewport.
pub proof fn lema_centro(cam: Lente, p: Vec3<i32>)
    requires
        cam.bem_formada(),
        p.x == cam.pos.x,
        p.y == cam.pos.y,
        cam.perto <= p.z - cam.pos.z <= cam.longe,
        cam.resolucao.x / 2 <= i32::MAX,
        cam.resolucao.y / 2 <= i32::MAX,
    ensures
        cam.projecao(p) == Some(
            (((cam.resolucao.x / 2) as int, (cam.resolucao.y / 2) as int), p.z - cam.pos.z),
        ),
{
    let z = p.z - cam.pos.z;
    let w = cam.resolucao.x as int;
    let h = cam.resolucao.y as int;
    assert(2 * cam.foco * 0 == 0);
    lema_meio(w, z);
    lema_meio(h, z);
    assert(cam.coordenada(0, z, w) == w / 2);
    assert(cam.coordenada(0, z, h) == h / 2);
}

/// A camera-space point nearer than the near plane or farther than the far
/// plane has no projection.
pub proof fn lema_fora_do_alcance(cam: Lente, p: (int, int, int))
    requires
        p.2 < cam.perto || p.2 > cam.longe,
    ensures
        cam.projecao_local(p) is None,
{
}

/// Both ends of a clipped segment lie within the depth range, so both
/// project.
pub proof fn lema_recorte_no_alcance(cam: Lente, p1: Vec3<i32>, p2: Vec3<i32>)
    requires
        cam.bem_formada(),
    ensures
        cam.recorte_linha(p1, p2) matches Some((a, b)) ==> cam.perto <= a.2 <= cam.longe
            && cam.perto <= b.2 <= cam.longe && cam.projecao_local(a) is Some
            && cam.projecao_local(b) is Some,
{
}

/// A segment with one end before the near plane and the other within range:
/// that end does not project, yet both ends of the clipped segment do, the
/// first of them on the near plane.
pub proof fn lema_recorte_perto(cam: Lente, a: Vec3<i32>, b: Vec3<i32>)
    requires
        cam.bem_formada(),
        cam.para_local(a).2 < cam.perto,
        cam.perto <= cam.para_local(b).2 <= cam.longe,
    ensures
        cam.projecao(a) is None,
        cam.recorte_linha(a, b) matches Some((ca, cb)) && ca.2 == cam.perto && cb == cam.para_local(b)
            && cam.projecao_local(ca) is Some && cam.projecao_local(cb) is Some,
{
}

proof fn lema_plano_dentro(v: Seq<(int, int, int)>, plano: int, frente: bool, k: int)
    ensures
        forall|i: int| 0 <= i < recorte_plano(v, plano, frente, k).len()
            ==> dentro_plano(#[trigger] recorte_plano(v, plano, frente, k)[i], plano, frente),
    decreases k,
{
    if k > 0 && k <= v.len() {
        lema_plano_dentro(v, plano, frente, k - 1);
        let a = recorte_plano(v, plano, frente, k - 1);
        let e = emitir(v, plano, frente, k - 1);
        assert forall|i: int| 0 <= i < e.len() implies dentro_plano(#[trigger] e[i], plano, frente) by {}
        assert forall|i: int| 0 <= i < (a + e).len() implies dentro_plano(#[trigger] (a + e)[i], plano, frente) by {
            if i >= a.len() {
                assert((a + e)[i] == e[i - a.len()]);
            }
        }
    }
}

proof fn lema_plano_minimo(v: Seq<(int, int, int)>, plano: int, frente: bool, k: int, lo: int)
    requires
        forall|i: int| 0 <= i < v.len() ==> (#[trigger] v[i]).2 >= lo,
        plano >= lo,
    ensures
        forall|i: int| 0 <= i < recorte_plano(v, plano, frente, k).len()
            ==> (#[trigger] recorte_plano(v, plano, frente, k)[i]).2 >= lo,
    decreases k,
{
    if k > 0 && k <= v.len() {
        lema_plano_minimo(v, plano, frente, k - 1, lo);
        let a = recorte_plano(v, plano, frente, k - 1);
        let e = emitir(v, plano, frente, k - 1);
        assert(v[k - 1].2 >= lo);
        assert forall|i: int| 0 <= i < e.len() implies (#[trigger] e[i]).2 >= lo by {}
        assert forall|i: int| 0 <= i < (a + e).len() implies (#[trigger] (a + e)[i]).2 >= lo by {
            if i >= a.len() {
                assert((a + e)[i] == e[i - a.len()]);
            }
        }
    }
}

proof fn lema_plano_tudo_dentro(v: Seq<(int, int, int)>, plano: int, frente: bool, k: int)
    requires
        0 <= k <= v.len(),
        forall|i: int| 0 <= i < v.len() ==> dentro_plano(#[trigger] v[i], plano, frente),
    ensures
        recorte_plano(v, plano, frente, k) == v.take(k),
    decreases k,
{
    if k > 0 {
        lema_plano_tudo_dentro(v, plano, frente, k - 1);
        assert(dentro_plano(v[k - 1], plano, frente));
        if k - 1 == 0 {
            assert(dentro_plano(v[v.len() - 1], plano, frente));
        } else {
            assert(dentro_plano(v[k - 2], plano, frente));
        }
        assert(v.take(k - 1) + seq![v[k - 1]] =~= v.take(k));
    } else {
        assert(v.take(0) =~= seq![]);
    }
}

/// Every vertex of a clipped polygon lies within the camera's depth range.
pub proof fn lema_poligono_no_alcance(cam: Lente, vs: Seq<Vec3<i32>>)
    requires
        cam.bem_formada(),
    ensures
        forall|i: int| 0 <= i < cam.recorte_poligono(vs).len() ==> cam.perto <= (
        #[trigger] cam.recorte_poligono(vs)[i]).2 <= cam.longe,
{
    let l = vs.map_values(|p: Vec3<i32>| cam.para_local(p));
    let n1 = recorte_plano(l, cam.perto as int, true, l.len() as int);
    lema_plano_dentro(l, cam.perto as int, true, l.len() as int);
    assert forall|i: int| 0 <= i < n1.len() implies (#[trigger] n1[i]).2 >= cam.perto by {
        assert(dentro_plano(n1[i], cam.perto as int, true));
    }
    lema_plano_minimo(n1, cam.longe as int, false, n1.len() as int, cam.perto as int);
    lema_plano_dentro(n1, cam.longe as int, false, n1.len() as int);
}

/// A polygon that lies within the depth range is only moved into camera
/// space by clipping.
pub proof fn lema_poligono_interno(cam: Lente, vs: Seq<Vec3<i32>>)
    requires
        cam.bem_formada(),
        forall|i: int| 0 <= i < vs.len() ==> cam.perto <= (#[trigger] cam.para_local(vs[i])).2 <= cam.longe,
    ensures
        cam.recorte_poligono(vs) == vs.map_values(|p: Vec3<i32>| cam.para_local(p)),
{
    let l = vs.map_values(|p: Vec3<i32>| cam.para_local(p));
    assert forall|i: int| 0 <= i < l.len() implies dentro_plano(#[trigger] l[i], cam.perto as int, true) by {
        assert(l[i] == cam.para_local(vs[i]));
    }
    lema_plano_tudo_dentro(l, cam.perto as int, true, l.len() as int);
    assert(l.take(l.len() as int) =~= l);
    assert forall|i: int| 0 <= i < l.len() implies dentro_plano(#[trigger] l[i], cam.longe as int, false) by {
        assert(l[i] == cam.para_local(vs[i]));
    }
    lema_plano_tudo_dentro(l, cam.longe as int, false, l.len() as int);
}

fn coordenada_exec(foco: i32, c: i64, z: i64, tamanho: usize) -> (r: i32)
    requires
        0 < z <= i32::MAX,
        0 < foco,
    ensures
        r == saturar(piso(2 * foco * c + tamanho * z, 2 * z)),
{
    assert(-0x8000_0000_0000_0000_0000_0000 <= 2 * (foco as int) * (c as int) <= 0x8000_0000_0000_0000_0000_0000) by (nonlinear_arith)
        requires
            0 < foco <= 0x8000_0000,
            -0x8000_0000_0000_0000 <= c <= 0x8000_0000_0000_0000,
    ;
    assert(0 <= (tamanho as int) * (z as int) <= 0x8000_0000_0000_0000_0000_0000) by (nonlinear_arith)
        requires
            0 <= tamanho <= 0x1_0000_0000_0000_0000,
            0 < z <= 0x8000_0000,
    ;
    let n = 2 * (foco as i128) * (c as i128) + (tamanho as i128) * (z as i128);
    let v = div_piso(n, 2 * z as i128);
    if v < i32::MIN as i128 {
        i32::MIN
    } else if v > i32::MAX as i128 {
        i32::MAX
    } else {
        v as i32
    }
}

/// Clips a camera-space polygon to one side of the plane `z == plano`.
fn recortar_plano(v: &Vec<Vec3<i64>>, plano: i64, frente: bool) -> (r: Vec<Vec3<i64>>)
    requires
        forall|i: int| 0 <= i < v@.len() ==> limitado(#[trigger] local(v@[i])),
        -0x1_0000_0000 <= plano <= 0x1_0000_0000,
    ensures
        vista_pontos(r@) == recorte_plano(vista_pontos(v@), plano as int, frente, v@.len() as int),
        forall|i: int| 0 <= i < r@.len() ==> limitado(#[trigger] local(r@[i])),
{
    let ghost vv = vista_pontos(v@);
    let mut r: Vec<Vec3<i64>> = Vec::new();
    let n = v.len();
    let mut i: usize = 0;
    while i < n
        invariant
            n == v@.len(),
            vv == vista_pontos(v@),
            i <= n,
            forall|j: int| 0 <= j < v@.len() ==> limitado(#[trigger] local(v@[j])),
            -0x1_0000_0000 <= plano <= 0x1_0000_0000,
            vista_pontos(r@) == recorte_plano(vv, plano as int, frente, i as int),
            forall|j: int| 0 <= j < r@.len() ==> limitado(#[trigger] local(r@[j])),
        decreases n - i,
    {
        let cur = v[i];
        let prev = if i == 0 {
            v[n - 1]
        } else {
            v[i - 1]
        };
        let ghost antes = r@;
        let cur_dentro = if frente {
            cur.z >= plano
        } else {
            cur.z <= plano
        };
        let prev_dentro = if frente {
            prev.z >= plano
        } else {
            prev.z <= plano
        };
        if cur_dentro {
            if !prev_dentro {
                r.push(interpolar_plano_z(prev, cur, plano));
            }
            r.push(cur);
        } else if prev_dentro {
            r.push(interpolar_plano_z(prev, cur, plano));
        }
        proof {
            assert(local(cur) == vv[i as int]);
            assert(local(prev) == if i == 0 { vv[n - 1] } else { vv[i - 1] });
            assert(vista_pontos(r@) =~= recorte_plano(vv, plano as int, frente, i as int) + emitir(vv, plano as int, frente, i as int));
        }
        i = i + 1;
    }
    r
}

impl Camera {
    pub open spec fn bem_formada(&self) -> bool {
        self@.bem_formada()
    }

    /// A camera whose near plane is its focal distance and whose far plane is
    /// [`ALCANCE_PADRAO`].
    pub fn new(pos: Vec3<i32>, dist_foco: i32, resolucao: Vec2<usize>) -> (r: Self)
        requires
            0 < dist_foco < ALCANCE_PADRAO,
        ensures
            r.bem_formada(),
            r@ == (Lente { pos, foco: dist_foco, resolucao, perto: dist_foco, longe: ALCANCE_PADRAO }),
    {
        Camera { pos, dist_foco, resolucao, perto: dist_foco, alcance: ALCANCE_PADRAO }
    }

    /// A camera that sees the depths `[perto, alcance]`.
    pub fn com_planos(pos: Vec3<i32>, dist_foco: i32, resolucao: Vec2<usize>, perto: i32, alcance: i32) -> (r: Self)
        requires
            0 < dist_foco,
            0 < perto < alcance,
        ensures
            r.bem_formada(),
            r@ == (Lente { pos, foco: dist_foco, resolucao, perto, longe: alcance }),
    {
        Camera { pos, dist_foco, resolucao, perto, alcance }
    }

    /// Projects a camera-space point; absent outside `[perto, alcance]`.
    pub fn projetar_local(&self, ponto: Vec3<i64>) -> (r: Option<(Vec2<i32>, i64)>)
        requires
            self.bem_formada(),
        ensures
            vista_projecao(r) == self@.projecao_local(local(ponto)),
    {
        if ponto.z < self.perto as i64 || ponto.z > self.alcance as i64 {
            return None;
        }
        let x = coordenada_exec(self.dist_foco, ponto.x, ponto.z, self.resolucao.x);
        let y = coordenada_exec(self.dist_foco, ponto.y, ponto.z, self.resolucao.y);
        Some((Vec2 { x, y }, ponto.z))
    }

    /// Projects a world point; absent when its depth from the camera is
    /// outside `[perto, alcance]`.
    pub fn projetar(&self, ponto: Vec3<i32>) -> (r: Option<(Vec2<i32>, i64)>)
        requires
            self.bem_formada(),
        ensures
            vista_projecao(r) == self@.projecao(ponto),
    {
        let ponto_local = ponto.menos(self.pos);
        self.projetar_local(ponto_local)
    }

    /// Clips the world segment `p1`-`p2` to the camera's depth range, in
    /// camera space.
    pub fn clipar_linha(&self, p1: Vec3<i32>, p2: Vec3<i32>) -> (r: Option<[Vec3<i64>; 2]>)
        requires
            self.bem_formada(),
        ensures
            match (r, self@.recorte_linha(p1, p2)) {
                (None, None) => true,
                (Some(s), Some((a, b))) => local(s[0]) == a && local(s[1]) == b && limitado(a) && limitado(b),
                _ => false,
            },
    {
        let mut a = p1.menos(self.pos);
        let mut b = p2.menos(self.pos);
        let near = self.perto as i64;
        let far = self.alcance as i64;
        if (a.z < near && b.z < near) || (a.z > far && b.z > far) {
            return None;
        }
        if a.z < near {
            a = interpolar_plano_z(a, b, near);
        } else if b.z < near {
            b = interpolar_plano_z(b, a, near);
        }
        if a.z > far {
            a = interpolar_plano_z(a, b, far);
        } else if b.z > far {
            b = interpolar_plano_z(b, a, far);
        }
        Some([a, b])
    }

    /// Clips a segment, then projects both of its ends.
    pub fn projetar_e_clipar_linha(&self, a: Vec3<i32>, b: Vec3<i32>) -> (r: Option<[(Vec2<i32>, i64); 2]>)
        requires
            self.bem_formada(),
        ensures
            match (r, self@.recorte_linha(a, b)) {
                (None, None) => true,
                (Some(s), Some((ca, cb))) => vista_projecao(Some(s[0])) == self@.projecao_local(ca)
                    && vista_projecao(Some(s[1])) == self@.projecao_local(cb),
                _ => false,
            },
    {
        let s = match self.clipar_linha(a, b) {
            Some(s) => s,
            None => return None,
        };
        let ca = s[0];
        let cb = s[1];
        let (p1, z1) = match self.projetar_local(ca) {
            Some(v) => v,
            None => return None,
        };
        let (p2, z2) = match self.projetar_local(cb) {
            Some(v) => v,
            None => return None,
        };
        Some([(p1, z1), (p2, z2)])
    }

    /// Clips a world polygon to the near plane and then to the far plane, in
    /// camera space. Fewer than three vertices may come out.
    pub fn clipar_poligono(&self, vertices: &Vec<Vec3<i32>>) -> (r: Vec<Vec3<i64>>)
        requires
            self.bem_formada(),
        ensures
            vista_pontos(r@) == self@.recorte_poligono(vertices@),
            forall|i: int| 0 <= i < r@.len() ==> limitado(#[trigger] local(r@[i])),
    {
        let mut locais: Vec<Vec3<i64>> = Vec::new();
        let mut i: usize = 0;
        while i < vertices.len()
            invariant
                i <= vertices@.len(),
                locais@.len() == i,
                forall|j: int| 0 <= j < i ==> local(#[trigger] locais@[j]) == self@.para_local(vertices@[j]),
                forall|j: int| 0 <= j < i ==> limitado(#[trigger] local(locais@[j])),
            decreases vertices@.len() - i,
        {
            let p = vertices[i].menos(self.pos);
            locais.push(p);
            i = i + 1;
        }
        let ghost l = vertices@.map_values(|p: Vec3<i32>| self@.para_local(p));
        assert(vista_pontos(locais@) =~= l);
        let perto = recortar_plano(&locais, self.perto as i64, true);
        let r = recortar_plano(&perto, self.alcance as i64, false);
        r
    }
}

} // verus!
