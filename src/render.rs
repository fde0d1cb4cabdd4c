use vstd::prelude::*;
use crate::buffer::{Buffer, LONGE, Tela, lema_pintar_vazio};
use crate::camera::{Camera, Lente, vista_pontos, vista_projecao};
use crate::cor::Cor;
use crate::linha::pixels_linha;
use crate::raster::pixels_poligono;
use crate::vetores::{Vec2, Vec3};

verus! {

/// A shape that draws itself through a camera into a buffer: every pixel of
/// `pixels` in `cor` at depth `profundidade`, nearer wins.
pub trait Renderizavel {
    spec fn pixels(&self, cam: Lente) -> Set<(int, int)>;

    spec fn cor(&self) -> Cor;

    spec fn profundidade(&self, cam: Lente) -> i64;

    fn renderizar(&self, cam: &Camera, buf: &mut Buffer)
        requires
            cam.bem_formada(),
            old(buf).bem_formado(),
        ensures
            final(buf).bem_formado(),
            final(buf)@ == old(buf)@.pintar(self.pixels(cam@), self.cor(), self.profundidade(cam@)),
    ;
}

/// A screen position as the executable vector.
pub open spec fn como_vec2(p: (int, int)) -> Vec2<i32> {
    Vec2 { x: p.0 as i32, y: p.1 as i32 }
}

pub open spec fn menor(a: int, b: int) -> int {
    if a <= b {
        a
    } else {
        b
    }
}

/// A point, drawn in cyan where it projects.
pub struct Vertice {
    pub pos: Vec3<i32>,
}

impl Renderizavel for Vertice {
    open spec fn pixels(&self, cam: Lente) -> Set<(int, int)> {
        match cam.projecao(self.pos) {
            Some((p, _)) => set![p],
            None => Set::empty(),
        }
    }

    open spec fn cor(&self) -> Cor {
        Cor::Ciano
    }

    open spec fn profundidade(&self, cam: Lente) -> i64 {
        match cam.projecao(self.pos) {
            Some((_, z)) => z as i64,
            None => LONGE,
        }
    }

    fn renderizar(&self, cam: &Camera, buf: &mut Buffer) {
        match cam.projetar(self.pos) {
            Some((pos, z)) => {
                buf.desenhar_ponto(pos, Cor::Ciano, z);
            },
            None => {
                proof {
                    lema_pintar_vazio(buf@, Cor::Ciano, LONGE);
                }
            },
        }
    }
}

/// A segment, clipped to the camera's depth range and drawn in white at the
/// depth of its nearer end.
pub struct Aresta {
    pub de: Vec3<i32>,
    pub ate: Vec3<i32>,
}

impl Aresta {
    /// The two projected ends of the clipped segment, if it shows.
    pub open spec fn extremos(&self, cam: Lente) -> Option<(((int, int), int), ((int, int), int))> {
        match cam.recorte_linha(self.de, self.ate) {
            Some((ca, cb)) => match (cam.projecao_local(ca), cam.projecao_local(cb)) {
                (Some(pa), Some(pb)) => Some((pa, pb)),
                _ => None,
            },
            None => None,
        }
    }
}

impl Renderizavel for Aresta {
    open spec fn pixels(&self, cam: Lente) -> Set<(int, int)> {
        match self.extremos(cam) {
            Some((pa, pb)) => pixels_linha(como_vec2(pa.0), como_vec2(pb.0)),
            None => Set::empty(),
        }
    }

    open spec fn cor(&self) -> Cor {
        Cor::Branco
    }

    open spec fn profundidade(&self, cam: Lente) -> i64 {
        match self.extremos(cam) {
            Some((pa, pb)) => menor(pa.1, pb.1) as i64,
            None => LONGE,
        }
    }

    fn renderizar(&self, cam: &Camera, buf: &mut Buffer) {
        match cam.projetar_e_clipar_linha(self.de, self.ate) {
            Some(l) => {
                let (a, za) = l[0];
                let (b, zb) = l[1];
                let z = if za <= zb {
                    za
                } else {
                    zb
                };
                buf.desenhar_linha_simples(a, b, Cor::Branco, z);
            },
            None => {
                proof {
                    lema_pintar_vazio(buf@, Cor::Branco, LONGE);
                }
            },
        }
    }
}

/// The projections of the first `k` camera-space points that project, in order.
pub open spec fn projetados(cam: Lente, s: Seq<(int, int, int)>, k: int) -> Seq<Vec2<i32>>
    decreases k,
{
    if k <= 0 || k > s.len() {
        seq![]
    } else {
        projetados(cam, s, k - 1) + match cam.projecao_local(s[k - 1]) {
            Some((p, _)) => seq![como_vec2(p)],
            None => seq![],
        }
    }
}

/// The smallest depth among the first `k` points that project.
pub open spec fn menor_z(cam: Lente, s: Seq<(int, int, int)>, k: int) -> i64
    decreases k,
{
    if k <= 0 || k > s.len() {
        LONGE
    } else {
        match cam.projecao_local(s[k - 1]) {
            Some((_, z)) => menor(menor_z(cam, s, k - 1) as int, z) as i64,
            None => menor_z(cam, s, k - 1),
        }
    }
}

/// A polygon, clipped to the camera's depth range and filled in green at the
/// depth of its nearest clipped vertex.
pub struct Poligono {
    pub vertices: Vec<Vec3<i32>>,
}

impl Poligono {
    pub open spec fn projetado(&self, cam: Lente) -> Seq<Vec2<i32>> {
        let l = cam.recorte_poligono(self.vertices@);
        projetados(cam, l, l.len() as int)
    }
}

impl Renderizavel for Poligono {
    open spec fn pixels(&self, cam: Lente) -> Set<(int, int)> {
        let l = cam.recorte_poligono(self.vertices@);
        if l.len() < 3 {
            Set::empty()
        } else {
            pixels_poligono(self.projetado(cam))
        }
    }

    open spec fn cor(&self) -> Cor {
        Cor::Verde
    }

    open spec fn profundidade(&self, cam: Lente) -> i64 {
        let l = cam.recorte_poligono(self.vertices@);
        menor_z(cam, l, l.len() as int)
    }

    fn renderizar(&self, cam: &Camera, buf: &mut Buffer) {
        let ghost lente = cam@;
        let ghost l = lente.recorte_poligono(self.vertices@);
        let vertices_locais = cam.clipar_poligono(&self.vertices);
        let ghost z_final = menor_z(lente, l, l.len() as int);
        assert(vista_pontos(vertices_locais@).len() == vertices_locais@.len());
        if vertices_locais.len() < 3 {
            proof {
                lema_pintar_vazio(buf@, Cor::Verde, z_final);
            }
            return;
        }
        let mut pontos_2d: Vec<Vec2<i32>> = Vec::new();
        let mut z_min: i64 = LONGE;
        let mut i: usize = 0;
        while i < vertices_locais.len()
            invariant
                cam.bem_formada(),
                lente == cam@,
                l == vista_pontos(vertices_locais@),
                i <= vertices_locais@.len(),
                pontos_2d@ == projetados(lente, l, i as int),
                z_min == menor_z(lente, l, i as int),
            decreases vertices_locais@.len() - i,
        {
            let v = vertices_locais[i];
            assert(crate::camera::local(v) == l[i as int]);
            match cam.projetar_local(v) {
                Some((pos, z)) => {
                    pontos_2d.push(pos);
                    if z < z_min {
                        z_min = z;
                    }
                    assert(pontos_2d@ =~= projetados(lente, l, i + 1));
                },
                None => {
                    assert(pontos_2d@ =~= projetados(lente, l, i + 1));
                },
            }
            i = i + 1;
        }
        buf.desenhar_poligono(&pontos_2d, Cor::Verde, z_min);
    }
}

} // verus!
