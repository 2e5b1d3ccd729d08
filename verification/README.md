# robo_sim4

A small software-rendered 3D world: platforms, a camera-player and a
Q-learning agent, drawn pixel by pixel into an `image` frame buffer and shown
in a `piston_window` window.

- `src/` is the library, written in Verus: the inputs that drive players and
  agents (`inputs`), the training bookkeeping of an agent (`training`), the
  named collection of game objects (`collection`), the Wavefront OBJ mesh
  reader (`obj`, over the character functions of `text`), the face walks of
  collision boxes (`faces`) and the pixel squares painted into the frame
  (`framebuf`).
- `app/` is the program: vectors, matrices, collision boxes, drawing and the
  window loop, all of which work in floating point or do I/O.
- `tests/` runs the library on concrete values.
