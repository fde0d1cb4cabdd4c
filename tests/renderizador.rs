use renderizador::camera::interpolar_plano_z;
use renderizador::raster::ponto_em_triangulo;
use renderizador::{
    Aresta, Buffer, Camera, Celula, Cor, Instrucao, Poligono, Renderizavel, Vec2, Vec3, Vertice,
    LONGE, MEIO_BLOCO_CIMA,
};

fn cena() -> (Camera, Buffer) {
    let res = Vec2::new(10usize, 10usize);
    let cam = Camera::com_planos(Vec3::new(0, 0, 0), 1, res, 1, 10000);
    (cam, Buffer::new(res))
}

fn pintados(buf: &Buffer) -> Vec<(i32, i32, Cor)> {
    let mut v = Vec::new();
    for y in 0..buf.altura() as i32 {
        for x in 0..buf.largura() as i32 {
            if let Some(c) = buf.cor_pixel(Vec2::new(x, y)) {
                if c != Cor::Preto {
                    v.push((x, y, c));
                }
            }
        }
    }
    v
}

#[test]
fn codigo_de_cores() {
    assert_eq!(Cor::codigo(Cor::Vermelho, Cor::Azul), "\x1b[31;44m");
    assert_eq!(Cor::codigo(Cor::Preto, Cor::Branco), "\x1b[30;47m");
    assert_eq!(Cor::codigo(Cor::Ciano, Cor::Ciano), "\x1b[36;46m");
}

#[test]
fn vetores_componentes() {
    let a = Vec3::new(1, -2, 3);
    let b = Vec3::new(4, 5, -6);
    assert_eq!(a.menos(b), Vec3::new(-3i64, -7, 9));
    assert_eq!(a.mais(b), Vec3::new(5i64, 3, -3));
    let m = Vec3::new(i32::MIN, i32::MAX, 0).menos(Vec3::new(i32::MAX, i32::MIN, 0));
    assert_eq!(m.x, i32::MIN as i64 - i32::MAX as i64);
    let p = Vec2::new(7, 8);
    assert_eq!((p.x, p.y), (7, 8));
}

#[test]
fn projecao_no_centro() {
    let (cam, _) = cena();
    assert_eq!(cam.projetar(Vec3::new(0, 0, 50)), Some((Vec2::new(5, 5), 50)));
    let cam2 = Camera::com_planos(Vec3::new(3, -4, 10), 2, Vec2::new(80, 50), 1, 1000);
    assert_eq!(cam2.projetar(Vec3::new(3, -4, 17)), Some((Vec2::new(40, 25), 7)));
    let cam3 = Camera::com_planos(Vec3::new(0, 0, 0), 1, Vec2::new(9, 7), 1, 100);
    assert_eq!(cam3.projetar(Vec3::new(0, 0, 5)), Some((Vec2::new(4, 3), 5)));
}

#[test]
fn projecao_formula() {
    let cam = Camera::com_planos(Vec3::new(0, 0, 0), 2, Vec2::new(10, 10), 1, 100);
    // floor(2 * 3 / 2 + 5) = 8, floor(2 * -1 / 2 + 5) = 4
    assert_eq!(cam.projetar_local(Vec3::new(3, -1, 2)), Some((Vec2::new(8, 4), 2)));
    // floor(2 * -1 / 3 + 5) = floor(4.33) = 4, floor(2 * 1 / 3 + 5) = 5
    assert_eq!(cam.projetar_local(Vec3::new(-1, 1, 3)), Some((Vec2::new(4, 5), 3)));
    // floor(2 * -30 / 4 + 5) = -10
    assert_eq!(cam.projetar_local(Vec3::new(-30, 0, 4)), Some((Vec2::new(-10, 5), 4)));
}

#[test]
fn projecao_satura() {
    let cam = Camera::com_planos(Vec3::new(0, 0, 0), 1_000_000, Vec2::new(10, 10), 1, 100);
    let r = cam.projetar_local(Vec3::new(1i64 << 40, -(1i64 << 40), 1));
    assert_eq!(r, Some((Vec2::new(i32::MAX, i32::MIN), 1)));
}

#[test]
fn fora_do_alcance() {
    let (cam, _) = cena();
    assert_eq!(cam.projetar(Vec3::new(0, 0, 0)), None);
    assert_eq!(cam.projetar(Vec3::new(0, 0, -5)), None);
    assert_eq!(cam.projetar(Vec3::new(0, 0, 10001)), None);
    assert!(cam.projetar(Vec3::new(0, 0, 10000)).is_some());
    assert!(cam.projetar(Vec3::new(0, 0, 1)).is_some());
    let padrao = Camera::new(Vec3::new(0, 0, 0), 2, Vec2::new(10, 10));
    assert_eq!(padrao.projetar(Vec3::new(0, 0, 1)), None);
    assert_eq!(padrao.projetar(Vec3::new(0, 0, 1001)), None);
    assert!(padrao.projetar(Vec3::new(0, 0, 1000)).is_some());
}

#[test]
fn recorte_antes_da_projecao() {
    let (cam, _) = cena();
    let a = Vec3::new(0, 0, -10);
    let b = Vec3::new(4, 0, 10);
    assert_eq!(cam.projetar(a), None);
    let r = cam.clipar_linha(a, b).unwrap();
    // t = (1 - -10) / 20, x = 0 + floor(11 * 4 / 20) = 2
    assert_eq!(r, [Vec3::new(2, 0, 1), Vec3::new(4, 0, 10)]);
    let p = cam.projetar_e_clipar_linha(a, b).unwrap();
    assert_eq!(p[0], (Vec2::new(7, 5), 1));
    assert_eq!(p[1], (Vec2::new(5, 5), 10));
}

#[test]
fn recorte_longe_e_invisivel() {
    let cam = Camera::com_planos(Vec3::new(0, 0, 0), 1, Vec2::new(10, 10), 5, 20);
    assert_eq!(cam.clipar_linha(Vec3::new(0, 0, -1), Vec3::new(0, 0, 4)), None);
    assert_eq!(cam.clipar_linha(Vec3::new(0, 0, 21), Vec3::new(0, 0, 40)), None);
    assert_eq!(cam.projetar_e_clipar_linha(Vec3::new(0, 0, 21), Vec3::new(0, 0, 40)), None);
    let r = cam.clipar_linha(Vec3::new(10, 0, 0), Vec3::new(-10, 0, 40)).unwrap();
    // near: x = 10 + floor(5 * -20 / 40) = 7; far: from (-10,0,40) towards (7,0,5) at 20: -10 + floor(340 / 35) = -1
    assert_eq!(r, [Vec3::new(7, 0, 5), Vec3::new(-1, 0, 20)]);
    let dentro = cam.clipar_linha(Vec3::new(1, 2, 6), Vec3::new(3, 4, 7)).unwrap();
    assert_eq!(dentro, [Vec3::new(1, 2, 6), Vec3::new(3, 4, 7)]);
}

#[test]
fn interpolacao_no_plano() {
    let r = interpolar_plano_z(Vec3::new(10, 0, 0), Vec3::new(0, 6, 10), 5);
    assert_eq!(r, Vec3::new(5, 3, 5));
    let r = interpolar_plano_z(Vec3::new(0, 0, 0), Vec3::new(-3, 0, 2), 1);
    assert_eq!(r, Vec3::new(-2, 0, 1));
}

#[test]
fn recorte_de_poligono() {
    let cam = Camera::com_planos(Vec3::new(0, 0, 0), 1, Vec2::new(10, 10), 5, 20);
    let dentro = vec![Vec3::new(0, 0, 6), Vec3::new(4, 0, 6), Vec3::new(0, 4, 10)];
    assert_eq!(
        cam.clipar_poligono(&dentro),
        vec![Vec3::new(0i64, 0, 6), Vec3::new(4, 0, 6), Vec3::new(0, 4, 10)]
    );
    let atras = vec![Vec3::new(0, 0, 1), Vec3::new(4, 0, 1), Vec3::new(0, 4, 2)];
    assert!(cam.clipar_poligono(&atras).is_empty());
    let cruza = vec![Vec3::new(0, 0, 0), Vec3::new(10, 0, 10), Vec3::new(0, 0, 10)];
    let r = cam.clipar_poligono(&cruza);
    assert_eq!(r, vec![Vec3::new(0i64, 0, 5), Vec3::new(5, 0, 5), Vec3::new(10, 0, 10), Vec3::new(0, 0, 10)]);
    for p in r.iter() {
        assert!(5 <= p.z && p.z <= 20);
    }
    let longe = vec![Vec3::new(0, 0, 10), Vec3::new(0, 0, 30), Vec3::new(4, 0, 10)];
    let r = cam.clipar_poligono(&longe);
    assert_eq!(r, vec![Vec3::new(0i64, 0, 10), Vec3::new(0, 0, 20), Vec3::new(2, 0, 20), Vec3::new(4, 0, 10)]);
}

#[test]
fn buffer_novo_e_quadro() {
    let buf = Buffer::new(Vec2::new(3, 4));
    let q = buf.renderizar();
    let c = Instrucao::Celula(Celula { ch: MEIO_BLOCO_CIMA, fg: Cor::Preto, bg: Cor::Preto });
    assert_eq!(q, vec![c, c, c, Instrucao::ProximaLinha, c, c, c]);
    assert_eq!(buf.profundidade_pixel(Vec2::new(2, 3)), Some(LONGE));
    assert_eq!(Buffer::new(Vec2::new(0, 0)).renderizar(), vec![]);
    assert_eq!(Buffer::new(Vec2::new(2, 1)).renderizar(), vec![]);
}

#[test]
fn altura_impar() {
    let mut buf = Buffer::new(Vec2::new(3, 3));
    assert_eq!(buf.renderizar().len(), 3);
    assert_eq!(buf.cor_pixel(Vec2::new(0, 2)), None);
    buf.set_pixel(Vec2::new(0, 2), Cor::Verde, 1);
    assert_eq!(pintados(&buf).len(), 0);
    assert_eq!(buf.renderizar().len(), 3);
}

#[test]
fn pixel_meia_celula() {
    let mut buf = Buffer::new(Vec2::new(4, 4));
    buf.set_pixel(Vec2::new(1, 2), Cor::Vermelho, 3);
    buf.set_pixel(Vec2::new(1, 3), Cor::Azul, 3);
    let q = buf.renderizar();
    // row 1 starts after 4 cells and one line move
    assert_eq!(q[5 + 1], Instrucao::Celula(Celula { ch: MEIO_BLOCO_CIMA, fg: Cor::Vermelho, bg: Cor::Azul }));
    assert_eq!(buf.cor_pixel(Vec2::new(1, 2)), Some(Cor::Vermelho));
    assert_eq!(buf.cor_pixel(Vec2::new(1, 3)), Some(Cor::Azul));
    assert_eq!(buf.profundidade_pixel(Vec2::new(1, 3)), Some(3));
    assert_eq!(pintados(&buf).len(), 2);
}

#[test]
fn mais_perto_vence() {
    let mut buf = Buffer::new(Vec2::new(4, 4));
    let p = Vec2::new(2, 1);
    buf.set_pixel(p, Cor::Vermelho, 5);
    buf.set_pixel(p, Cor::Azul, 9);
    assert_eq!(buf.cor_pixel(p), Some(Cor::Vermelho));
    assert_eq!(buf.profundidade_pixel(p), Some(5));
    buf.set_pixel(p, Cor::Verde, 5);
    assert_eq!(buf.cor_pixel(p), Some(Cor::Vermelho));

    let mut buf = Buffer::new(Vec2::new(4, 4));
    buf.set_pixel(p, Cor::Azul, 9);
    buf.set_pixel(p, Cor::Vermelho, 5);
    assert_eq!(buf.cor_pixel(p), Some(Cor::Vermelho));
    assert_eq!(buf.profundidade_pixel(p), Some(5));
}

#[test]
fn fora_dos_limites() {
    let mut buf = Buffer::new(Vec2::new(4, 4));
    buf.set_pixel(Vec2::new(1, 1), Cor::Amarelo, 2);
    let antes = buf.renderizar();
    buf.set_pixel(Vec2::new(4, 0), Cor::Verde, 1);
    buf.set_pixel(Vec2::new(-1, 0), Cor::Verde, 1);
    buf.set_pixel(Vec2::new(0, 4), Cor::Verde, 1);
    buf.set_pixel(Vec2::new(0, -1), Cor::Verde, 1);
    buf.desenhar_ponto(Vec2::new(i32::MAX, i32::MIN), Cor::Verde, 1);
    assert_eq!(buf.renderizar(), antes);
    assert_eq!(pintados(&buf), vec![(1, 1, Cor::Amarelo)]);
}

#[test]
fn limpar_redefine_tudo() {
    let mut buf = Buffer::new(Vec2::new(4, 4));
    buf.set_pixel(Vec2::new(0, 0), Cor::Vermelho, 1);
    buf.limpar(Some(Cor::Azul));
    assert_eq!(buf.cor_pixel(Vec2::new(0, 0)), Some(Cor::Azul));
    assert_eq!(buf.cor_pixel(Vec2::new(3, 3)), Some(Cor::Azul));
    assert_eq!(buf.profundidade_pixel(Vec2::new(0, 0)), Some(LONGE));
    buf.set_pixel(Vec2::new(0, 0), Cor::Verde, 100);
    assert_eq!(buf.cor_pixel(Vec2::new(0, 0)), Some(Cor::Verde));
    buf.limpar(None);
    assert_eq!(pintados(&buf).len(), 0);
}

#[test]
fn bresenham_pixels() {
    let mut buf = Buffer::new(Vec2::new(10, 10));
    buf.desenhar_linha_simples(Vec2::new(0, 0), Vec2::new(4, 2), Cor::Branco, 1);
    let mut esperado = vec![(0, 0), (1, 1), (2, 1), (3, 2), (4, 2)];
    esperado.sort_by_key(|p| (p.1, p.0));
    let obtido: Vec<(i32, i32)> = pintados(&buf).iter().map(|p| (p.0, p.1)).collect();
    assert_eq!(obtido, esperado);
}

#[test]
fn bresenham_simetrico() {
    let pares = [
        (Vec2::new(0, 0), Vec2::new(2, 1)),
        (Vec2::new(1, 7), Vec2::new(8, 2)),
        (Vec2::new(9, 0), Vec2::new(0, 9)),
        (Vec2::new(3, 3), Vec2::new(3, 3)),
        (Vec2::new(-5, 2), Vec2::new(12, 6)),
    ];
    for (a, b) in pares.iter() {
        let mut um = Buffer::new(Vec2::new(10, 10));
        let mut outro = Buffer::new(Vec2::new(10, 10));
        um.desenhar_linha_simples(*a, *b, Cor::Verde, 1);
        outro.desenhar_linha_simples(*b, *a, Cor::Verde, 1);
        assert_eq!(um.renderizar(), outro.renderizar());
        assert!(pintados(&um).len() > 0);
    }
}

#[test]
fn linha_vertical_e_poligonal() {
    let mut buf = Buffer::new(Vec2::new(6, 6));
    buf.desenhar_linha(&[Vec2::new(0, 0), Vec2::new(0, 3), Vec2::new(3, 3)], Cor::Magenta, 1);
    let obtido: Vec<(i32, i32)> = pintados(&buf).iter().map(|p| (p.0, p.1)).collect();
    assert_eq!(obtido, vec![(0, 0), (0, 1), (0, 2), (0, 3), (1, 3), (2, 3), (3, 3)]);
    let mut so_um = Buffer::new(Vec2::new(6, 6));
    so_um.desenhar_linha(&[Vec2::new(1, 1)], Cor::Magenta, 1);
    assert_eq!(pintados(&so_um).len(), 0);
}

#[test]
fn teste_de_arestas() {
    let a = Vec2::new(0, 0);
    let b = Vec2::new(4, 0);
    let c = Vec2::new(0, 4);
    assert!(ponto_em_triangulo(Vec2::new(1, 1), a, b, c));
    assert!(ponto_em_triangulo(Vec2::new(2, 2), a, b, c));
    assert!(ponto_em_triangulo(Vec2::new(0, 0), a, b, c));
    assert!(!ponto_em_triangulo(Vec2::new(3, 3), a, b, c));
    assert!(ponto_em_triangulo(Vec2::new(1, 1), a, c, b));
    assert!(!ponto_em_triangulo(Vec2::new(-1, 0), a, c, b));
}

#[test]
fn triangulo_preenchido() {
    let mut buf = Buffer::new(Vec2::new(10, 10));
    buf.rasterizar_triangulo_simples(Vec2::new(0, 0), Vec2::new(2, 0), Vec2::new(0, 2), Cor::Verde, 1);
    let obtido: Vec<(i32, i32)> = pintados(&buf).iter().map(|p| (p.0, p.1)).collect();
    assert_eq!(obtido, vec![(0, 0), (1, 0), (2, 0), (0, 1), (1, 1), (0, 2)]);
}

#[test]
fn poligono_em_leque() {
    let mut buf = Buffer::new(Vec2::new(10, 10));
    let quad = [Vec2::new(1, 1), Vec2::new(3, 1), Vec2::new(3, 3), Vec2::new(1, 3)];
    buf.desenhar_poligono(&quad, Cor::Azul, 1);
    assert_eq!(pintados(&buf).len(), 9);
    let mut dois = Buffer::new(Vec2::new(10, 10));
    dois.desenhar_poligono(&quad[..2], Cor::Azul, 1);
    assert_eq!(pintados(&dois).len(), 0);
}

#[test]
fn cena_ponta_a_ponta() {
    let (cam, mut buf) = cena();
    Vertice { pos: Vec3::new(0, 0, 50) }.renderizar(&cam, &mut buf);
    assert_eq!(pintados(&buf), vec![(5, 5, Cor::Ciano)]);
    assert_eq!(buf.renderizar()[2 * 11 + 5], Instrucao::Celula(Celula { ch: MEIO_BLOCO_CIMA, fg: Cor::Preto, bg: Cor::Ciano }));

    let (cam, mut buf) = cena();
    Aresta { de: Vec3::new(10, 0, 50), ate: Vec3::new(-10, 0, 50) }.renderizar(&cam, &mut buf);
    assert_eq!(pintados(&buf), vec![(4, 5, Cor::Branco), (5, 5, Cor::Branco)]);

    let (cam, mut buf) = cena();
    let antes = buf.renderizar();
    Poligono {
        vertices: vec![Vec3::new(1000, 1000, 50), Vec3::new(2000, 1000, 50), Vec3::new(1000, 2000, 50)],
    }
    .renderizar(&cam, &mut buf);
    assert_eq!(buf.renderizar(), antes);
}

#[test]
fn formas_invisiveis_e_visiveis() {
    let (cam, mut buf) = cena();
    let antes = buf.renderizar();
    Vertice { pos: Vec3::new(0, 0, -3) }.renderizar(&cam, &mut buf);
    Aresta { de: Vec3::new(0, 0, -3), ate: Vec3::new(5, 0, 0) }.renderizar(&cam, &mut buf);
    Poligono { vertices: vec![Vec3::new(0, 0, -1), Vec3::new(1, 0, -1)] }.renderizar(&cam, &mut buf);
    assert_eq!(buf.renderizar(), antes);

    let cam = Camera::com_planos(Vec3::new(0, 0, 0), 10, Vec2::new(10, 10), 1, 100);
    let mut buf = Buffer::new(Vec2::new(10, 10));
    Poligono { vertices: vec![Vec3::new(-2, -2, 10), Vec3::new(2, -2, 10), Vec3::new(2, 2, 10), Vec3::new(-2, 2, 10)] }
        .renderizar(&cam, &mut buf);
    // corners project to 3 and 7 on both axes
    assert_eq!(pintados(&buf).len(), 25);
    assert_eq!(buf.profundidade_pixel(Vec2::new(5, 5)), Some(10));
    // a nearer point in front of the polygon wins, a farther one does not
    Vertice { pos: Vec3::new(0, 0, 5) }.renderizar(&cam, &mut buf);
    Vertice { pos: Vec3::new(1, 1, 50) }.renderizar(&cam, &mut buf);
    assert_eq!(buf.cor_pixel(Vec2::new(5, 5)), Some(Cor::Ciano));
    assert_eq!(buf.profundidade_pixel(Vec2::new(5, 5)), Some(5));
}

#[test]
fn vetores_produto_divisao_resto() {
    let a = Vec3::new(-7, 7, i32::MIN);
    let b = Vec3::new(2, -2, -1);
    assert_eq!(a.vezes(b), Vec3::new(-14i64, -14, 2147483648));
    assert_eq!(a.dividido(b), Vec3::new(-3i64, -3, 2147483648));
    assert_eq!(a.resto(b), Vec3::new(-1i64, 1, 0));
    assert_eq!(Vec3::new(9, 0, -9).dividido(Vec3::new(3, 5, -4)), Vec3::new(3i64, 0, 2));
    assert_eq!(Vec3::new(9, 0, -9).resto(Vec3::new(3, 5, -4)), Vec3::new(0i64, 0, -1));
    let p = Vec2::new(i32::MAX, 3);
    let q = Vec2::new(1, -4);
    assert_eq!(p.mais(q), Vec2::new(2147483648i64, -1));
    assert_eq!(p.menos(q), Vec2::new(2147483646i64, 7));
}
