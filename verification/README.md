# nixe_boundary

Compiled code fragments are entered and left through boundaries: instructions
whose operands keep a caller-supplied order while the register allocator is free
to place them. This library, written and proved in Verus, covers a boundary from
the intermediate representation to patched machine code.

| module | what it holds |
| --- | --- |
| `ir`, `types` | fragments, and how they are built |
| `validate` | the rules that a fragment must meet |
| `dead_code` | removal of what cannot run |
| `lower` | boundary instructions to machine-level operands |
| `boundary`, `reg` | operands before and after allocation; the allocator is `regalloc2` |
| `frame`, `isa`, `buffer` | native frames, targets, emitted code |
| `emit` | machine code and maps of boundaries |
| `state_map`, `patch` | maps, and branches in their patch units |
| `bridge` | moves between the exit of a fragment and the entry of another |
| `fragments` | sample fragments |
| `laws` | what holds across the stages |

`app/` holds serializable forms of the reported types. `tests/` drives the library
with the real allocator.

## What is fixed, and what is a choice

Some behaviour is one choice among several that would serve, and callers should
not rely on more than is said here. A fragment that breaks several rules is
refused for the first of them in the order of `validate::Violation`. Of the words
of a refusal, those that name the boundary kind and the rule are stable; the rest
is explanation. Identities of fault spans count among the unique identities.
Padding is written in front of what leads to a patch unit, and behind a comparison
on the deadline path. The sizes of the transfer area and of the frame are up to
the owner of the frame, who states them in a `FrameLayout`.
