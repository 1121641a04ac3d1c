# rustyray

A small ray-tracing game. The verified library (`src/`) holds the parts that
decide rather than compute in floating point:

- `options`: the rendering options and their text form;
- `controls`: the input state machine (what each key, mouse motion or quit
  request does) and the camera commands of a frame update;
- `layout`: how the screen is split into view zones (a grid, or nested rings);
- `raster`: the order in which a zone's pixels are rendered, and the painting
  of RGB buffers;
- `ordering`: the order in which zones rendered on worker threads are drawn;
- `mesh`: which faces of an STL mesh become triangles of the scene.

`app/` is the program around it: the SDL window and event loop, the thread
pool, file reading, and the floating-point ray tracer itself.
