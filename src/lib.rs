//! Terminal 3-D renderer: integer perspective projection, near/far clipping,
//! Bresenham lines, edge-function triangle fill and a depth-tested buffer of
//! half-block cells.
pub mod vetores;
pub mod cor;
pub mod buffer;
pub mod linha;
pub mod raster;
pub mod camera;
pub mod render;

pub use buffer::{Buffer, Celula, Instrucao, LONGE, MEIO_BLOCO_CIMA};
pub use camera::{Camera, ALCANCE_PADRAO};
pub use cor::Cor;
pub use render::{Aresta, Poligono, Renderizavel, Vertice};
pub use vetores::{Vec2, Vec3};
