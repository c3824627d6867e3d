# palette_kmeans

Finds a palette of `k` colours for an image by k-means on the GPU, and shows the image with it.

- `src/` is the library, verified with Verus: distances between colours (`color`), drawing by
  weight (`weighted`, `random`), Forgy's method and K-means++ (`init`), images (`pixels`), what
  lives on the GPU and where it is bound (`gpu`, `bytes`), and what is run when (`renderer`).
- `app/` is the renderer of a window. It owns the `wgpu` device and hands the library's plans to
  it. The shaders are read from `shaders/kmeans.wgsl` and `shaders/composite.wgsl`.
- `tests/` runs the library.
