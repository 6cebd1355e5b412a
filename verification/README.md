# columned

One contiguous allocation for several arrays, such as the columns of a
structure-of-arrays.

Builders (`GuardedBuilder`) state the alignment and size of their array; a
`Subscriber` of a `Guard` gathers them in order, computes the layout of the
one block that holds them all, and, given the block's address, hands each
builder the address of its array.

`src/` is verified with Verus:

- `layout`: rounding up to an alignment, layout validity, `AllocLayout`.
- `guarded_slice`: builders and their requests.
- `subscriber`: the placement model (`slots_end`, `slot_offset`,
  `slots_align`) and its laws: every array is aligned for its elements, lies
  inside the block, and arrays follow each other without overlapping.
- `guard`: the owner of the block.
- `single_allocation`: an allocator serving one block at a time from a
  region.
- `chain`: a chain of builders known from its type, with its table of
  indices ordered by alignment.

`app/` holds what needs raw memory: allocating and freeing the block with the
global allocator or inside a caller's buffer, and the typed views (`Guarded`)
of the arrays.
