# control_ga_pid

The GA-PID control core: one law in plane space, the design surface that parameterizes it, and the
loop that realizes it on a plant.

The law, its design and the loop are floating-point arithmetic over `control_math`'s matrices and a
`control_base` plant; they live in `app/`. What the loop decides on indices, names and orders is the
verified library in `src/`:

- `base`: the split of a machine's coordinates into a held base and its joints — row and block
  selection, and the assembly of a command from the two parts, with the laws that the split and the
  assembly undo each other.
- `wrench_source`: the base end read off the actuator table (held, free, or unreadable), the command
  sources, and the joint part of a full-coordinate vector.
- `budget` and `numeral`: the name a demand scan gives a joint ("joint {i}"), the reading of the index
  back out of it (as `str::parse::<usize>` reads it), and the resolution through a model's joint names.
- `recruit`: minimal-authority-first recruitment order, with its uniqueness, and its readout.
- `opts`: the gain readings (poles, physical, joint) and what each asks of a tick.
- `task_loop`: the plane count of a design and the per-segment link radii of the whole-arm escape.
- `escape`: the task-avoidance shaper's type.

`tests/` runs the library on concrete values.
