use vstd::prelude::*;
use vstd::arithmetic::div_mod::{
    lemma_div_pos_is_pos, lemma_fundamental_div_mod, lemma_fundamental_div_mod_converse,
    lemma_mod_pos_bound,
};
use vstd::arithmetic::mul::lemma_mul_inequality;
use crate::cor::Cor;
use crate::vetores::Vec2;

verus! {

/// Upper half block: the foreground paints the top pixel of a cell and the
/// background the bottom one.
pub const MEIO_BLOCO_CIMA: char = '\u{2580}';

/// Depth of a pixel that nothing has been drawn on yet.
pub const LONGE: i64 = 9223372036854775807;

/// One terminal character position, holding two vertically stacked pixels.
#[derive(Debug, Clone, Copy, PartialEq, Eq, Structural)]
pub struct Celula {
    pub ch: char,
    pub fg: Cor,
    pub bg: Cor,
}

impl Default for Celula {
    /// An upper half block, black on black.
    fn default() -> (r: Self)
        ensures
            r == (Celula { ch: MEIO_BLOCO_CIMA, fg: Cor::Preto, bg: Cor::Preto }),
    {
        Celula { ch: MEIO_BLOCO_CIMA, fg: Cor::Preto, bg: Cor::Preto }
    }
}

/// What a frame sink receives: a cell to print at the cursor, or a move to
/// the start of the next output line.
#[derive(Debug, Clone, Copy, PartialEq, Eq, Structural)]
pub enum Instrucao {
    Celula(Celula),
    ProximaLinha,
}

/// The mathematical content of a [`Buffer`]: its size in pixels, its cells
/// row by row, and one depth per pixel row by row.
pub struct Tela {
    pub largura: int,
    pub altura: int,
    pub celulas: Seq<Celula>,
    pub z: Seq<i64>,
}

/// `i == r * w + x` with `0 <= x < w` means `i / w == r` and `i % w == x`.
pub proof fn lema_indice(w: int, r: int, x: int)
    requires
        0 <= x < w,
    ensures
        (r * w + x) / w == r,
        (r * w + x) % w == x,
{
    lemma_fundamental_div_mod_converse(r * w + x, w, r, x);
}

/// Any index splits into a row and a column of a grid `w` wide.
pub proof fn lema_decompor(w: int, k: int)
    requires
        0 < w,
        0 <= k,
    ensures
        k == (k / w) * w + k % w,
        0 <= k % w < w,
        0 <= k / w,
{
    lemma_fundamental_div_mod(k, w);
    lemma_mod_pos_bound(k, w);
    assert(w * (k / w) == (k / w) * w) by (nonlinear_arith);
    lemma_div_pos_is_pos(k, w);
}

/// A row `y` of a grid `w` wide fits in `h` rows.
pub proof fn lema_dentro(w: int, h: int, x: int, y: int)
    requires
        0 <= x < w,
        0 <= y < h,
    ensures
        0 <= y * w + x < w * h,
{
    lemma_mul_inequality(y + 1, h, w);
    assert(0 <= y * w) by (nonlinear_arith)
        requires
            0 <= y,
            0 <= w,
    ;
    assert((y + 1) * w == y * w + w) by (nonlinear_arith);
    assert(h * w == w * h) by (nonlinear_arith);
}

impl Tela {
    /// Pixel `(x, y)` has a cell: the last row of an odd height has none.
    pub open spec fn visivel(self, x: int, y: int) -> bool {
        0 <= x < self.largura && 0 <= y && y / 2 < self.altura / 2
    }

    pub open spec fn bem_formada(self) -> bool {
        &&& 0 <= self.largura
        &&& 0 <= self.altura
        &&& self.celulas.len() == self.largura * (self.altura / 2)
        &&& self.z.len() == self.largura * self.altura
    }

    pub open spec fn indice_z(self, x: int, y: int) -> int {
        y * self.largura + x
    }

    pub open spec fn indice_celula(self, x: int, y: int) -> int {
        (y / 2) * self.largura + x
    }

    /// Color of pixel `(x, y)`: the foreground of its cell on an even row, the
    /// background on an odd one.
    pub open spec fn cor_em(self, x: int, y: int) -> Cor {
        let c = self.celulas[self.indice_celula(x, y)];
        if y % 2 == 0 {
            c.fg
        } else {
            c.bg
        }
    }

    pub open spec fn z_em(self, x: int, y: int) -> i64 {
        self.z[self.indice_z(x, y)]
    }

    /// Drawing at depth `z` reaches pixel `(x, y)` of `s`: it is on screen and
    /// strictly nearer than what the pixel holds.
    pub open spec fn escreve(self, s: Set<(int, int)>, z: i64, x: int, y: int) -> bool {
        &&& self.visivel(x, y)
        &&& s.contains((x, y))
        &&& z < self.z[self.indice_z(x, y)]
    }

    /// The screen after drawing every pixel of `s` in `cor` at depth `z`, with
    /// nearer-wins depth testing. Pixels off screen are dropped.
    pub open spec fn pintar(self, s: Set<(int, int)>, cor: Cor, z: i64) -> Tela {
        let w = self.largura;
        Tela {
            largura: w,
            altura: self.altura,
            celulas: Seq::new(
                self.celulas.len(),
                |i: int|
                    {
                        let c = self.celulas[i];
                        Celula {
                            ch: c.ch,
                            fg: if self.escreve(s, z, i % w, 2 * (i / w)) {
                                cor
                            } else {
                                c.fg
                            },
                            bg: if self.escreve(s, z, i % w, 2 * (i / w) + 1) {
                                cor
                            } else {
                                c.bg
                            },
                        }
                    },
            ),
            z: Seq::new(
                self.z.len(),
                |k: int|
                    if self.escreve(s, z, k % w, k / w) {
                        z
                    } else {
                        self.z[k]
                    },
            ),
        }
    }

    /// A fresh screen: every cell an upper half block on black, every depth far.
    pub open spec fn inicial(w: int, h: int) -> Tela {
        Tela {
            largura: w,
            altura: h,
            celulas: Seq::new(
                (w * (h / 2)) as nat,
                |i: int| Celula { ch: MEIO_BLOCO_CIMA, fg: Cor::Preto, bg: Cor::Preto },
            ),
            z: Seq::new((w * h) as nat, |k: int| LONGE),
        }
    }

    /// The screen after clearing to color `c`: glyphs kept, depths reset to far.
    pub open spec fn limpa(self, c: Cor) -> Tela {
        Tela {
            largura: self.largura,
            altura: self.altura,
            celulas: Seq::new(
                self.celulas.len(),
                |i: int| Celula { ch: self.celulas[i].ch, fg: c, bg: c },
            ),
            z: Seq::new(self.z.len(), |k: int| LONGE),
        }
    }
}

/// Drawing `a` and then `b` in one color and depth is drawing their union.
pub proof fn lema_pintar_uniao(t: Tela, a: Set<(int, int)>, b: Set<(int, int)>, cor: Cor, z: i64)
    requires
        t.bem_formada(),
    ensures
        t.pintar(a, cor, z).pintar(b, cor, z) == t.pintar(a.union(b), cor, z),
{
    let w = t.largura;
    let h = t.altura;
    let t1 = t.pintar(a, cor, z);
    let t2 = t1.pintar(b, cor, z);
    let u = t.pintar(a.union(b), cor, z);
    assert forall|k: int| 0 <= k < t.z.len() implies t2.z[k] == u.z[k] by {
        if w > 0 {
            lema_decompor(w, k);
        }
    }
    assert forall|i: int| 0 <= i < t.celulas.len() implies t2.celulas[i] == u.celulas[i] by {
        if w > 0 {
            let x = i % w;
            let r = i / w;
            lema_decompor(w, i);
            assert(0 <= r < h / 2) by (nonlinear_arith)
                requires
                    i == r * w + x,
                    0 <= x < w,
                    0 <= i < w * (h / 2),
                    0 <= h,
            {
                assert(0 <= r);
            }
            lema_indice(w, 2 * r, x);
            lema_indice(w, 2 * r + 1, x);
            lema_dentro(w, h, x, 2 * r);
            lema_dentro(w, h, x, 2 * r + 1);
        }
    }
    assert(t2.z =~= u.z);
    assert(t2.celulas =~= u.celulas);
}

/// The cells of cell row `y`, left to right.
pub open spec fn linha_de_celulas(t: Tela, y: int) -> Seq<Instrucao> {
    Seq::new(t.largura as nat, |x: int| Instrucao::Celula(t.celulas[y * t.largura + x]))
}

/// The first `k` cell rows top to bottom, with a move to the next line
/// between two rows.
pub open spec fn quadro(t: Tela, k: int) -> Seq<Instrucao>
    decreases k,
{
    if k <= 0 {
        seq![]
    } else if k == 1 {
        linha_de_celulas(t, 0)
    } else {
        quadro(t, k - 1) + seq![Instrucao::ProximaLinha] + linha_de_celulas(t, k - 1)
    }
}

/// A pixel off screen is never drawn.
pub proof fn lema_fora_da_tela(t: Tela, x: int, y: int, cor: Cor, z: i64)
    requires
        !t.visivel(x, y),
    ensures
        t.pintar(set![(x, y)], cor, z) == t,
{
    lema_pintar_visiveis(t, set![(x, y)], Set::empty(), cor, z);
    lema_pintar_vazio(t, cor, z);
}

/// Nearer wins: once a pixel was drawn at depth `d1`, drawing it again at a
/// depth `d2 >= d1` changes nothing; drawn first at a farther `d2` and then
/// at `d1`, it ends with the color and depth of `d1`.
pub proof fn lema_mais_perto_vence(t: Tela, x: int, y: int, c1: Cor, d1: i64, c2: Cor, d2: i64)
    requires
        t.bem_formada(),
        t.visivel(x, y),
        d1 <= d2,
    ensures
        t.pintar(set![(x, y)], c1, d1).pintar(set![(x, y)], c2, d2) == t.pintar(set![(x, y)], c1, d1),
        d1 < d2 && d1 < t.z_em(x, y) ==> t.pintar(set![(x, y)], c2, d2).pintar(set![(x, y)], c1, d1).cor_em(x, y) == c1
            && t.pintar(set![(x, y)], c2, d2).pintar(set![(x, y)], c1, d1).z_em(x, y) == d1,
{
    let w = t.largura;
    let h = t.altura;
    let s = set![(x, y)];
    let t1 = t.pintar(s, c1, d1);
    let t2 = t1.pintar(s, c2, d2);
    lema_indice(w, y, x);
    lema_indice(w, y / 2, x);
    lema_dentro(w, h, x, y);
    lema_dentro(w, h / 2, x, y / 2);
    assert forall|k: int| 0 <= k < t.z.len() implies t2.z[k] == t1.z[k] by {
        lema_decompor(w, k);
    }
    assert forall|i: int| 0 <= i < t.celulas.len() implies t2.celulas[i] == t1.celulas[i] by {
        lema_decompor(w, i);
        let r = i / w;
        assert(0 <= r < h / 2) by (nonlinear_arith)
            requires
                i == r * w + i % w,
                0 <= i % w < w,
                0 <= i < w * (h / 2),
                0 <= h,
                0 <= r,
        ;
        lema_indice(w, 2 * r, i % w);
        lema_indice(w, 2 * r + 1, i % w);
        lema_dentro(w, h, i % w, 2 * r);
        lema_dentro(w, h, i % w, 2 * r + 1);
    }
    assert(t2.z =~= t1.z);
    assert(t2.celulas =~= t1.celulas);
    let u1 = t.pintar(s, c2, d2);
    let u2 = u1.pintar(s, c1, d1);
    if d1 < d2 && d1 < t.z_em(x, y) {
        let k = y * w + x;
        assert(u1.z[k] == d2 || u1.z[k] == t.z[k]);
        assert(u2.z[k] == d1);
        let i = (y / 2) * w + x;
        if y % 2 == 0 {
            assert(2 * (i / w) == y);
        } else {
            assert(2 * (i / w) + 1 == y);
        }
        assert(u2.cor_em(x, y) == c1);
    }
}

/// Drawing no pixel changes nothing.
pub proof fn lema_pintar_vazio(t: Tela, cor: Cor, z: i64)
    ensures
        t.pintar(Set::empty(), cor, z) == t,
{
    assert(t.pintar(Set::empty(), cor, z).z =~= t.z);
    assert(t.pintar(Set::empty(), cor, z).celulas =~= t.celulas);
}

/// Drawing only depends on the pixels of the set that are on screen.
pub proof fn lema_pintar_visiveis(t: Tela, a: Set<(int, int)>, b: Set<(int, int)>, cor: Cor, z: i64)
    requires
        forall|x: int, y: int| t.visivel(x, y) ==> (a.contains((x, y)) <==> b.contains((x, y))),
    ensures
        t.pintar(a, cor, z) == t.pintar(b, cor, z),
{
    assert(t.pintar(a, cor, z).z =~= t.pintar(b, cor, z).z);
    assert(t.pintar(a, cor, z).celulas =~= t.pintar(b, cor, z).celulas);
}

/// A grid of half-block cells with one depth per pixel. A pixel `(x, y)`
/// lives in the cell of column `x` and row `y / 2`: even rows are its
/// foreground, odd rows its background.
pub struct Buffer {
    resolucao: Vec2<usize>,
    celulas: Vec<Celula>,
    z_buffer: Vec<i64>,
}

impl View for Buffer {
    type V = Tela;

    closed spec fn view(&self) -> Tela {
        Tela {
            largura: self.resolucao.x as int,
            altura: self.resolucao.y as int,
            celulas: self.celulas@,
            z: self.z_buffer@,
        }
    }
}

impl Buffer {
    pub open spec fn bem_formado(&self) -> bool {
        self@.bem_formada()
    }

    /// Pixels of a set drawn in one call: one pixel.
    pub open spec fn ponto(p: Vec2<i32>) -> Set<(int, int)> {
        set![(p.x as int, p.y as int)]
    }

    /// A buffer of `resolucao.x` by `resolucao.y` pixels, all black and far.
    pub fn new(resolucao: Vec2<usize>) -> (r: Self)
        requires
            resolucao.x * resolucao.y <= usize::MAX,
        ensures
            r.bem_formado(),
            r@ == Tela::inicial(resolucao.x as int, resolucao.y as int),
    {
        let w = resolucao.x;
        let h = resolucao.y;
        assert(w * (h / 2) <= w * h) by (nonlinear_arith)
            requires
                0 <= w,
                0 <= h,
        ;
        let n_cel = w * (h / 2);
        let n_z = w * h;
        let celula = Celula::default();
        let mut celulas: Vec<Celula> = Vec::new();
        let mut i: usize = 0;
        while i < n_cel
            invariant
                i <= n_cel,
                celulas@.len() == i,
                forall|j: int| 0 <= j < i ==> celulas@[j] == celula,
            decreases n_cel - i,
        {
            celulas.push(celula);
            i = i + 1;
        }
        let mut z_buffer: Vec<i64> = Vec::new();
        let mut k: usize = 0;
        while k < n_z
            invariant
                k <= n_z,
                z_buffer@.len() == k,
                forall|j: int| 0 <= j < k ==> z_buffer@[j] == LONGE,
            decreases n_z - k,
        {
            z_buffer.push(LONGE);
            k = k + 1;
        }
        let r = Buffer { resolucao, celulas, z_buffer };
        assert(r@.celulas =~= Tela::inicial(w as int, h as int).celulas);
        assert(r@.z =~= Tela::inicial(w as int, h as int).z);
        r
    }

    pub fn largura(&self) -> (r: usize)
        ensures
            r == self@.largura,
    {
        self.resolucao.x
    }

    pub fn altura(&self) -> (r: usize)
        ensures
            r == self@.altura,
    {
        self.resolucao.y
    }

    /// Clears every cell to `cor` (black when absent) and every depth to far.
    pub fn limpar(&mut self, cor: Option<Cor>)
        requires
            old(self).bem_formado(),
        ensures
            final(self).bem_formado(),
            final(self)@ == old(self)@.limpa(
                match cor {
                    Some(c) => c,
                    None => Cor::Preto,
                },
            ),
    {
        let c = match cor {
            Some(c) => c,
            None => Cor::Preto,
        };
        let ghost antes = self@;
        let n = self.celulas.len();
        let mut i: usize = 0;
        while i < n
            invariant
                antes == old(self)@,
                n == antes.celulas.len(),
                i <= n,
                self.resolucao == old(self).resolucao,
                self.z_buffer == old(self).z_buffer,
                self.celulas@.len() == n,
                forall|j: int| 0 <= j < i ==> self.celulas@[j] == antes.limpa(c).celulas[j],
                forall|j: int| i <= j < n ==> self.celulas@[j] == antes.celulas[j],
            decreases n - i,
        {
            let ch = self.celulas[i].ch;
            self.celulas.set(i, Celula { ch, fg: c, bg: c });
            i = i + 1;
        }
        let m = self.z_buffer.len();
        let mut k: usize = 0;
        while k < m
            invariant
                antes == old(self)@,
                m == antes.z.len(),
                k <= m,
                self.resolucao == old(self).resolucao,
                self.celulas@ =~= antes.limpa(c).celulas,
                self.z_buffer@.len() == m,
                forall|j: int| 0 <= j < k ==> self.z_buffer@[j] == LONGE,
            decreases m - k,
        {
            self.z_buffer.set(k, LONGE);
            k = k + 1;
        }
        assert(self@.z =~= antes.limpa(c).z);
    }

    /// The frame for a sink: the cells row by row, top to bottom and left to
    /// right, with a move to the next line between two rows.
    pub fn renderizar(&self) -> (r: Vec<Instrucao>)
        requires
            self.bem_formado(),
        ensures
            r@ == quadro(self@, self@.altura / 2),
    {
        let w = self.resolucao.x;
        let linhas = self.resolucao.y / 2;
        let ghost t = self@;
        let n_c = self.celulas.len();
        let mut r: Vec<Instrucao> = Vec::new();
        let mut y: usize = 0;
        while y < linhas
            invariant
                t == self@,
                self.bem_formado(),
                w == t.largura,
                linhas == t.altura / 2,
                y <= linhas,
                n_c == self.celulas@.len(),
                r@ == quadro(t, y as int),
            decreases linhas - y,
        {
            let ghost antes = r@;
            if y > 0 {
                r.push(Instrucao::ProximaLinha);
            }
            let ghost base = r@;
            let mut x: usize = 0;
            while x < w
                invariant
                    t == self@,
                    self.bem_formado(),
                    w == t.largura,
                    linhas == t.altura / 2,
                    y < linhas,
                    x <= w,
                    n_c == self.celulas@.len(),
                    r@ == base + linha_de_celulas(t, y as int).take(x as int),
                decreases w - x,
            {
                proof {
                    lema_dentro(w as int, linhas as int, x as int, y as int);
                }
                let c = self.celulas[y * w + x];
                r.push(Instrucao::Celula(c));
                proof {
                    assert(linha_de_celulas(t, y as int).take(x + 1) =~= linha_de_celulas(t, y as int).take(x as int).push(Instrucao::Celula(c)));
                }
                x = x + 1;
            }
            proof {
                assert(linha_de_celulas(t, y as int).take(w as int) =~= linha_de_celulas(t, y as int));
                if y == 0 {
                    assert(r@ =~= quadro(t, 1));
                } else {
                    assert(r@ =~= quadro(t, y + 1));
                }
            }
            y = y + 1;
        }
        r
    }

    /// The color of pixel `pos`, if it is on screen.
    pub fn cor_pixel(&self, pos: Vec2<i32>) -> (r: Option<Cor>)
        requires
            self.bem_formado(),
        ensures
            r == if self@.visivel(pos.x as int, pos.y as int) {
                Some(self@.cor_em(pos.x as int, pos.y as int))
            } else {
                None
            },
    {
        match self.indice_linear(pos) {
            Some((c, _)) => {
                let cel = self.celulas[c];
                if pos.y % 2 == 0 {
                    Some(cel.fg)
                } else {
                    Some(cel.bg)
                }
            },
            None => None,
        }
    }

    /// The depth of pixel `pos`, if it is on screen.
    pub fn profundidade_pixel(&self, pos: Vec2<i32>) -> (r: Option<i64>)
        requires
            self.bem_formado(),
        ensures
            r == if self@.visivel(pos.x as int, pos.y as int) {
                Some(self@.z_em(pos.x as int, pos.y as int))
            } else {
                None
            },
    {
        match self.indice_linear(pos) {
            Some((_, k)) => Some(self.z_buffer[k]),
            None => None,
        }
    }

    /// Index of the cell and of the depth of pixel `pos`, if it is on screen.
    fn indice_linear(&self, pos: Vec2<i32>) -> (r: Option<(usize, usize)>)
        requires
            self.bem_formado(),
        ensures
            r is Some <==> self@.visivel(pos.x as int, pos.y as int),
            r matches Some((c, k)) ==> c == self@.indice_celula(pos.x as int, pos.y as int)
                && k == self@.indice_z(pos.x as int, pos.y as int) && c < self@.celulas.len()
                && k < self@.z.len(),
    {
        if pos.x < 0 || pos.y < 0 {
            return None;
        }
        let x = pos.x as usize;
        let y = pos.y as usize;
        let y_terminal = y / 2;
        if x >= self.resolucao.x || y_terminal >= self.resolucao.y / 2 {
            return None;
        }
        let w = self.resolucao.x;
        let h = self.resolucao.y;
        let n_z = self.z_buffer.len();
        let n_c = self.celulas.len();
        proof {
            lema_dentro(w as int, h as int, x as int, y as int);
            lema_dentro(w as int, (h / 2) as int, x as int, y_terminal as int);
        }
        Some((y_terminal * w + x, y * w + x))
    }

    /// Draws the point `p`: the same as [`Buffer::set_pixel`].
    pub fn desenhar_ponto(&mut self, p: Vec2<i32>, cor: Cor, z: i64)
        requires
            old(self).bem_formado(),
        ensures
            final(self).bem_formado(),
            final(self)@ == old(self)@.pintar(Buffer::ponto(p), cor, z),
    {
        self.set_pixel(p, cor, z);
    }

    /// Draws one pixel in `cor` at depth `z` if it is on screen and nearer
    /// than what it holds; anything else leaves the buffer as it was.
    pub fn set_pixel(&mut self, pos: Vec2<i32>, cor: Cor, z: i64)
        requires
            old(self).bem_formado(),
        ensures
            final(self).bem_formado(),
            final(self)@ == old(self)@.pintar(Buffer::ponto(pos), cor, z),
    {
        let ghost t = self@;
        let ghost s = Buffer::ponto(pos);
        let ghost (px, py) = (pos.x as int, pos.y as int);
        match self.indice_linear(pos) {
            None => {
                proof {
                    lema_pintar_visiveis(t, s, Set::empty(), cor, z);
                    assert(t.pintar(Set::empty(), cor, z).z =~= t.z);
                    assert(t.pintar(Set::empty(), cor, z).celulas =~= t.celulas);
                }
            },
            Some((c, k)) => {
                if z < self.z_buffer[k] {
                    self.z_buffer.set(k, z);
                    let mut cel = self.celulas[c];
                    if pos.y % 2 == 0 {
                        cel.fg = cor;
                    } else {
                        cel.bg = cor;
                    }
                    self.celulas.set(c, cel);
                }
                proof {
                    let w = t.largura;
                    let u = t.pintar(s, cor, z);
                    assert forall|j: int| 0 <= j < t.z.len() implies self.z_buffer@[j] == u.z[j] by {
                        lema_decompor(w, j);
                        lema_indice(w, py, px);
                    }
                    assert forall|j: int| 0 <= j < t.celulas.len() implies self.celulas@[j]
                        == u.celulas[j] by {
                        lema_decompor(w, j);
                        lema_indice(w, py / 2, px);
                    }
                    assert(self.z_buffer@ =~= u.z);
                    assert(self.celulas@ =~= u.celulas);
                }
            },
        }
    }
}

} // verus!
