// A retained-mode scene graph. Nodes live in a generational arena (`arena`,
// `scene`) and own components through per-kind keys (`links`, `components`).
// Mutations report typed events to an observer that gathers dirty subtree roots
// (`observer`). The resolver (`inherit`) recomputes world values below those roots
// from each node's nearest owning ancestor, and `render` scans viewports for
// renderable nodes and keeps the two depth-ordered render lists. The arithmetic on
// values (matrix products, opacity products, distances) is supplied by the caller.
pub mod arena;
pub mod components;
pub mod inherit;
pub mod links;
pub mod material;
pub mod mesh;
pub mod observer;
pub mod render;
pub mod sampler;
pub mod scene;
pub mod viewport;
