use vstd::prelude::*;
use crate::face::CubeFace;
use crate::material::Material;

verus! {

/// Edge length of a bundle, in blocks.
pub const BLOCK_BUNDLE_SIZE: usize = 16;

/// Number of blocks in a bundle.
pub const BUNDLE_VOLUME: usize = 4096;

/// Edge length of a block, in world units.
pub const UNITS_PER_BLOCK: usize = 4;

/// Edge length of a bundle, in world units.
pub const BUNDLE_UNITS: usize = 64;

#[derive(Clone, Copy, Debug, PartialEq, Eq, Structural)]
pub enum Shape {
    Block,
    VPlank,
    HPlank,
    /// A quarter of the edge of a full block.
    Mini,
}

#[derive(Clone, Copy, Debug, PartialEq, Eq, Structural)]
pub struct BlockData {
    pub shape: Shape,
    pub material: Material,
}

#[derive(Debug)]
pub enum Block {
    Full(BlockData),
    /// Several partial blocks sharing one cell; kept in the world but not drawn.
    Multiple(Vec<BlockData>),
}

/// A cube of `BLOCK_BUNDLE_SIZE`^3 blocks, stored x fastest, then y, then z.
#[derive(Debug)]
pub struct BlockBundle {
    blocks: Vec<Block>,
}

impl BlockData {
    pub fn new(shape: Shape, material: Material) -> (r: Self)
        ensures
            r == (BlockData { shape, material }),
    {
        BlockData { shape, material }
    }
}

/// The empty block that fills a new bundle.
pub open spec fn empty_block() -> Block {
    Block::Full(BlockData { shape: Shape::Block, material: Material::Empty })
}

impl Block {
    pub open spec fn spec_is_occluder(&self) -> bool {
        match self {
            Block::Full(d) => d.material.spec_is_occluder(),
            Block::Multiple(_) => false,
        }
    }

    pub fn is_full(&self) -> (r: bool)
        ensures
            r == (self is Full),
    {
        match self {
            Block::Full(_) => true,
            Block::Multiple(_) => false,
        }
    }

    /// Whether this block hides the faces of its neighbours: a full block of a
    /// solid, opaque material.
    pub fn is_occluder(&self) -> (r: bool)
        ensures
            r == self.spec_is_occluder(),
    {
        match self {
            Block::Full(d) => {
                let data = d.material.data();
                data.is_solid && !data.is_transparent
            },
            Block::Multiple(_) => false,
        }
    }

    pub fn new() -> (r: Self)
        ensures
            r == empty_block(),
    {
        Block::Full(BlockData { shape: Shape::Block, material: Material::Empty })
    }
}

/// Position in a bundle's storage of the block at `(x, y, z)`.
pub open spec fn block_index(x: int, y: int, z: int) -> int {
    256 * z + 16 * y + x
}

pub open spec fn in_bundle(x: int, y: int, z: int) -> bool {
    0 <= x < 16 && 0 <= y < 16 && 0 <= z < 16
}

fn local_offset(x: usize, y: usize, z: usize) -> (r: usize)
    requires
        in_bundle(x as int, y as int, z as int),
    ensures
        r == block_index(x as int, y as int, z as int),
        r < BUNDLE_VOLUME,
{
    256 * z + 16 * y + x
}

impl View for BlockBundle {
    type V = Seq<Block>;

    closed spec fn view(&self) -> Seq<Block> {
        self.blocks@
    }
}

impl BlockBundle {
    pub open spec fn wf(&self) -> bool {
        self@.len() == BUNDLE_VOLUME
    }

    /// A bundle of empty blocks.
    pub fn new() -> (r: Self)
        ensures
            r.wf(),
            forall|i: int| 0 <= i < BUNDLE_VOLUME ==> #[trigger] r@[i] == empty_block(),
    {
        let mut blocks: Vec<Block> = Vec::with_capacity(BUNDLE_VOLUME);
        let mut i: usize = 0;
        while i < BUNDLE_VOLUME
            invariant
                i <= BUNDLE_VOLUME,
                blocks@.len() == i,
                forall|j: int| 0 <= j < i ==> #[trigger] blocks@[j] == empty_block(),
            decreases BUNDLE_VOLUME - i,
        {
            blocks.push(Block::new());
            i += 1;
        }
        BlockBundle { blocks }
    }

    pub fn get(&self, x: usize, y: usize, z: usize) -> (r: &Block)
        requires
            self.wf(),
            in_bundle(x as int, y as int, z as int),
        ensures
            *r == self@[block_index(x as int, y as int, z as int)],
    {
        &self.blocks[local_offset(x, y, z)]
    }

    pub fn get_mut(&mut self, x: usize, y: usize, z: usize) -> (r: &mut Block)
        requires
            old(self).wf(),
            in_bundle(x as int, y as int, z as int),
        ensures
            *r == old(self)@[block_index(x as int, y as int, z as int)],
            final(self)@ == old(self)@.update(block_index(x as int, y as int, z as int), *final(r)),
    {
        &mut self.blocks[local_offset(x, y, z)]
    }
}

/// Whether the neighbour of block `(x, y, z)` across face `f` lies in the same
/// bundle and occludes. Neighbours in other bundles are never consulted.
pub open spec fn neighbour_occludes(b: Seq<Block>, x: int, y: int, z: int, f: CubeFace) -> bool {
    let (dx, dy, dz) = f.step();
    in_bundle(x + dx, y + dy, z + dz) && b[block_index(x + dx, y + dy, z + dz)].spec_is_occluder()
}

pub open spec fn face_exposed(b: Seq<Block>, x: int, y: int, z: int, f: CubeFace) -> bool {
    !neighbour_occludes(b, x, y, z, f)
}

pub open spec fn face_if_exposed(b: Seq<Block>, x: int, y: int, z: int, f: CubeFace) -> Seq<
    CubeFace,
> {
    if face_exposed(b, x, y, z, f) {
        seq![f]
    } else {
        seq![]
    }
}

/// The exposed faces of block `(x, y, z)`, in the order -x, +x, -y, +y, -z, +z.
pub open spec fn exposed_faces(b: Seq<Block>, x: int, y: int, z: int) -> Seq<CubeFace> {
    face_if_exposed(b, x, y, z, CubeFace::MinusX) + face_if_exposed(b, x, y, z, CubeFace::PlusX)
        + face_if_exposed(b, x, y, z, CubeFace::MinusY) + face_if_exposed(
        b,
        x,
        y,
        z,
        CubeFace::PlusY,
    ) + face_if_exposed(b, x, y, z, CubeFace::MinusZ) + face_if_exposed(
        b,
        x,
        y,
        z,
        CubeFace::PlusZ,
    )
}

/// A list of at most six faces laid out in six slots, unused slots `None`.
pub open spec fn padded_faces(s: Seq<CubeFace>) -> Seq<Option<CubeFace>> {
    Seq::new(
        6,
        |i: int|
            if i < s.len() {
                Some(s[i])
            } else {
                None
            },
    )
}

fn push_face(
    out: &mut [Option<CubeFace>; 6],
    j: usize,
    f: CubeFace,
    Ghost(acc): Ghost<Seq<CubeFace>>,
) -> (r: usize)
    requires
        old(out)@ == padded_faces(acc),
        j == acc.len(),
        j < 6,
    ensures
        final(out)@ == padded_faces(acc.push(f)),
        r == j + 1,
{
    out[j] = Some(f);
    assert(out@ =~= padded_faces(acc.push(f)));
    j + 1
}

/// The faces of block `(x, y, z)` that must be drawn: every face except those
/// whose neighbour in the bundle is an occluder. Faces on the bundle's border
/// are always exposed. The faces fill the first slots in the order -x, +x, -y,
/// +y, -z, +z; the remaining slots are `None`.
pub fn face_visibility(bundle: &BlockBundle, x: usize, y: usize, z: usize) -> (r: [Option<
    CubeFace,
>; 6])
    requires
        bundle.wf(),
        in_bundle(x as int, y as int, z as int),
    ensures
        r@ == padded_faces(exposed_faces(bundle@, x as int, y as int, z as int)),
{
    let ghost b = bundle@;
    let mut out: [Option<CubeFace>; 6] = [None; 6];
    let mut j: usize = 0;
    let ghost mut acc: Seq<CubeFace> = seq![];
    assert(out@ =~= padded_faces(acc));

    if x < 1 || !bundle.get(x - 1, y, z).is_occluder() {
        j = push_face(&mut out, j, CubeFace::MinusX, Ghost(acc));
        proof {
            acc = acc.push(CubeFace::MinusX);
        }
    }
    assert(acc =~= face_if_exposed(b, x as int, y as int, z as int, CubeFace::MinusX));
    let ghost acc1 = acc;
    if x + 1 >= BLOCK_BUNDLE_SIZE || !bundle.get(x + 1, y, z).is_occluder() {
        j = push_face(&mut out, j, CubeFace::PlusX, Ghost(acc));
        proof {
            acc = acc.push(CubeFace::PlusX);
        }
    }
    assert(acc =~= acc1 + face_if_exposed(b, x as int, y as int, z as int, CubeFace::PlusX));
    let ghost acc2 = acc;
    if y < 1 || !bundle.get(x, y - 1, z).is_occluder() {
        j = push_face(&mut out, j, CubeFace::MinusY, Ghost(acc));
        proof {
            acc = acc.push(CubeFace::MinusY);
        }
    }
    assert(acc =~= acc2 + face_if_exposed(b, x as int, y as int, z as int, CubeFace::MinusY));
    let ghost acc3 = acc;
    if y + 1 >= BLOCK_BUNDLE_SIZE || !bundle.get(x, y + 1, z).is_occluder() {
        j = push_face(&mut out, j, CubeFace::PlusY, Ghost(acc));
        proof {
            acc = acc.push(CubeFace::PlusY);
        }
    }
    assert(acc =~= acc3 + face_if_exposed(b, x as int, y as int, z as int, CubeFace::PlusY));
    let ghost acc4 = acc;
    if z < 1 || !bundle.get(x, y, z - 1).is_occluder() {
        j = push_face(&mut out, j, CubeFace::MinusZ, Ghost(acc));
        proof {
            acc = acc.push(CubeFace::MinusZ);
        }
    }
    assert(acc =~= acc4 + face_if_exposed(b, x as int, y as int, z as int, CubeFace::MinusZ));
    let ghost acc5 = acc;
    if z + 1 >= BLOCK_BUNDLE_SIZE || !bundle.get(x, y, z + 1).is_occluder() {
        j = push_face(&mut out, j, CubeFace::PlusZ, Ghost(acc));
        proof {
            acc = acc.push(CubeFace::PlusZ);
        }
    }
    assert(acc =~= acc5 + face_if_exposed(b, x as int, y as int, z as int, CubeFace::PlusZ));
    assert(acc =~= exposed_faces(b, x as int, y as int, z as int));
    out
}

/// Face culling is exact: the face of block `(x, y, z)` toward `f` is left out
/// of the visible slots exactly when the neighbour across it lies in the same
/// bundle and is a solid, opaque block. So a face between two adjacent occluders
/// is never emitted, and a face next to a transparent block, a partial block or
/// the bundle's border always is.
pub proof fn lemma_face_occlusion(bundle: &BlockBundle, x: int, y: int, z: int, f: CubeFace)
    requires
        bundle.wf(),
        in_bundle(x, y, z),
    ensures
        padded_faces(exposed_faces(bundle@, x, y, z)).contains(Some(f)) <==> !neighbour_occludes(
            bundle@,
            x,
            y,
            z,
            f,
        ),
{
    let b = bundle@;
    let e0 = face_if_exposed(b, x, y, z, CubeFace::MinusX);
    let e1 = face_if_exposed(b, x, y, z, CubeFace::PlusX);
    let e2 = face_if_exposed(b, x, y, z, CubeFace::MinusY);
    let e3 = face_if_exposed(b, x, y, z, CubeFace::PlusY);
    let e4 = face_if_exposed(b, x, y, z, CubeFace::MinusZ);
    let e5 = face_if_exposed(b, x, y, z, CubeFace::PlusZ);
    lemma_concat_contains(e0, e1, f);
    lemma_concat_contains(e0 + e1, e2, f);
    lemma_concat_contains(e0 + e1 + e2, e3, f);
    lemma_concat_contains(e0 + e1 + e2 + e3, e4, f);
    lemma_concat_contains(e0 + e1 + e2 + e3 + e4, e5, f);
    lemma_single_contains(b, x, y, z, CubeFace::MinusX, f);
    lemma_single_contains(b, x, y, z, CubeFace::PlusX, f);
    lemma_single_contains(b, x, y, z, CubeFace::MinusY, f);
    lemma_single_contains(b, x, y, z, CubeFace::PlusY, f);
    lemma_single_contains(b, x, y, z, CubeFace::MinusZ, f);
    lemma_single_contains(b, x, y, z, CubeFace::PlusZ, f);
    let s = exposed_faces(b, x, y, z);
    assert(s.contains(f) <==> face_exposed(b, x, y, z, f));
    let p = padded_faces(s);
    if s.contains(f) {
        let k = choose|k: int| 0 <= k < s.len() && s[k] == f;
        assert(p[k] == Some(f));
    }
    if p.contains(Some(f)) {
        let k = choose|k: int| 0 <= k < p.len() && p[k] == Some(f);
        assert(s[k] == f);
    }
}

proof fn lemma_single_contains(b: Seq<Block>, x: int, y: int, z: int, g: CubeFace, f: CubeFace)
    ensures
        face_if_exposed(b, x, y, z, g).contains(f) <==> (g == f && face_exposed(b, x, y, z, g)),
{
    if face_exposed(b, x, y, z, g) {
        assert(face_if_exposed(b, x, y, z, g)[0] == g);
    }
}

proof fn lemma_concat_contains(a: Seq<CubeFace>, b: Seq<CubeFace>, f: CubeFace)
    ensures
        (a + b).contains(f) <==> a.contains(f) || b.contains(f),
{
    if a.contains(f) {
        let k = choose|k: int| 0 <= k < a.len() && a[k] == f;
        assert((a + b)[k] == f);
    }
    if b.contains(f) {
        let k = choose|k: int| 0 <= k < b.len() && b[k] == f;
        assert((a + b)[a.len() + k] == f);
    }
    if (a + b).contains(f) {
        let k = choose|k: int| 0 <= k < (a + b).len() && (a + b)[k] == f;
        if k < a.len() {
            assert(a[k] == f);
        } else {
            assert(b[k - a.len()] == f);
        }
    }
}

/// The loaded part of the world: a cube of `world_bundle_size`^3 bundles whose
/// corner sits at bundle coordinates `(offset_x, offset_y, offset_z)`. Bundle
/// `(u, v, w)` relative to that corner is stored at
/// `w * world_bundle_squared + v * world_bundle_size + u`.
pub struct WorldData {
    pub bundles: Vec<BlockBundle>,
    pub world_bundle_size: usize,
    pub world_bundle_squared: usize,
    pub offset_x: usize,
    pub offset_y: usize,
    pub offset_z: usize,
}

impl WorldData {
    pub open spec fn wf(&self) -> bool {
        &&& self.world_bundle_squared == self.world_bundle_size * self.world_bundle_size
        &&& self.bundles@.len() == self.world_bundle_squared * self.world_bundle_size
        &&& forall|i: int| 0 <= i < self.bundles@.len() ==> (#[trigger] self.bundles@[i]).wf()
    }

    /// Whether bundle `(bx, by, bz)`, in absolute bundle coordinates, is inside
    /// the loaded window.
    pub open spec fn is_loaded(&self, bx: int, by: int, bz: int) -> bool {
        &&& self.offset_x <= bx < self.offset_x + self.world_bundle_size
        &&& self.offset_y <= by < self.offset_y + self.world_bundle_size
        &&& self.offset_z <= bz < self.offset_z + self.world_bundle_size
    }

    /// Storage slot of the loaded bundle `(bx, by, bz)`.
    pub open spec fn bundle_slot(&self, bx: int, by: int, bz: int) -> int {
        (bz - self.offset_z) * self.world_bundle_squared + (by - self.offset_y)
            * self.world_bundle_size + (bx - self.offset_x)
    }

    /// The block at absolute block coordinates `(x, y, z)`, or `None` where its
    /// bundle is not loaded.
    pub open spec fn block_at(&self, x: int, y: int, z: int) -> Option<Block> {
        if self.is_loaded(x / 16, y / 16, z / 16) {
            Some(
                self.bundles@[self.bundle_slot(x / 16, y / 16, z / 16)]@[block_index(
                    x % 16,
                    y % 16,
                    z % 16,
                )],
            )
        } else {
            None
        }
    }

    /// A world of empty bundles, `world_bundle_size` bundles along each axis,
    /// whose first bundle has the given coordinates.
    pub fn new(world_bundle_size: usize, offset_x: usize, offset_y: usize, offset_z: usize) -> (r:
        Self)
        requires
            world_bundle_size * world_bundle_size * world_bundle_size <= usize::MAX,
        ensures
            r.wf(),
            r.world_bundle_size == world_bundle_size,
            r.offset_x == offset_x,
            r.offset_y == offset_y,
            r.offset_z == offset_z,
            forall|i: int, j: int|
                0 <= i < r.bundles@.len() && 0 <= j < BUNDLE_VOLUME ==> #[trigger] r.bundles@[i]@[j]
                    == empty_block(),
    {
        proof {
            let n = world_bundle_size as int;
            assert(0 <= n * n <= n * n * n) by (nonlinear_arith)
                requires
                    0 <= n,
            ;
        }
        let squared = world_bundle_size * world_bundle_size;
        let num_bundles = squared * world_bundle_size;
        let mut bundles: Vec<BlockBundle> = Vec::with_capacity(num_bundles);
        let mut i: usize = 0;
        while i < num_bundles
            invariant
                i <= num_bundles,
                bundles@.len() == i,
                forall|k: int| 0 <= k < i ==> (#[trigger] bundles@[k]).wf(),
                forall|k: int, j: int|
                    0 <= k < i && 0 <= j < BUNDLE_VOLUME ==> #[trigger] bundles@[k]@[j]
                        == empty_block(),
            decreases num_bundles - i,
        {
            bundles.push(BlockBundle::new());
            i += 1;
        }
        WorldData {
            bundles,
            world_bundle_size,
            world_bundle_squared: squared,
            offset_x,
            offset_y,
            offset_z,
        }
    }

    /// Storage slot of bundle `(bx, by, bz)`, or `None` where it lies outside
    /// the loaded window. Coordinates below the offset are rejected before any
    /// subtraction.
    fn slot_of(&self, bx: usize, by: usize, bz: usize) -> (r: Option<usize>)
        requires
            self.wf(),
        ensures
            r is Some <==> self.is_loaded(bx as int, by as int, bz as int),
            r matches Some(i) ==> i == self.bundle_slot(bx as int, by as int, bz as int) && i
                < self.bundles@.len(),
    {
        if bx < self.offset_x || by < self.offset_y || bz < self.offset_z {
            return None;
        }
        let x_coord = bx - self.offset_x;
        let y_coord = by - self.offset_y;
        let z_coord = bz - self.offset_z;
        if x_coord >= self.world_bundle_size || y_coord >= self.world_bundle_size || z_coord
            >= self.world_bundle_size {
            return None;
        }
        proof {
            lemma_slot_bound(
                x_coord as int,
                y_coord as int,
                z_coord as int,
                self.world_bundle_size as int,
            );
        }
        proof {
            assert(self.bundles@.len() == self.bundles.len());
        }
        proof {
            let n = self.world_bundle_size as int;
            assert(0 <= z_coord * (n * n) && 0 <= y_coord * n) by (nonlinear_arith)
                requires
                    0 <= z_coord,
                    0 <= y_coord,
                    0 <= n,
            ;
        }
        Some(z_coord * self.world_bundle_squared + y_coord * self.world_bundle_size + x_coord)
    }

    /// The bundle at absolute bundle coordinates, or `None` where it is not loaded.
    pub fn get_bundle(&self, bundle_x: usize, bundle_y: usize, bundle_z: usize) -> (r: Option<
        &BlockBundle,
    >)
        requires
            self.wf(),
        ensures
            r is Some <==> self.is_loaded(bundle_x as int, bundle_y as int, bundle_z as int),
            r matches Some(b) ==> *b == self.bundles@[self.bundle_slot(
                bundle_x as int,
                bundle_y as int,
                bundle_z as int,
            )] && b.wf(),
    {
        match self.slot_of(bundle_x, bundle_y, bundle_z) {
            Some(i) => Some(&self.bundles[i]),
            None => None,
        }
    }

    /// The loaded bundle at absolute bundle coordinates, for writing; `None`
    /// where it is not loaded. Only that bundle can change through the result.
    pub fn get_bundle_mut(&mut self, bundle_x: usize, bundle_y: usize, bundle_z: usize) -> (r:
        Option<&mut BlockBundle>)
        requires
            old(self).wf(),
        ensures
            r is Some <==> old(self).is_loaded(bundle_x as int, bundle_y as int, bundle_z as int),
            r is None ==> *final(self) == *old(self),
            r matches Some(b) ==> {
                let i = old(self).bundle_slot(bundle_x as int, bundle_y as int, bundle_z as int);
                &&& 0 <= i < old(self).bundles@.len()
                &&& *b == old(self).bundles@[i]
                &&& b.wf()
                &&& final(self).bundles@ == old(self).bundles@.update(i, *final(b))
                &&& final(self).world_bundle_size == old(self).world_bundle_size
                &&& final(self).world_bundle_squared == old(self).world_bundle_squared
                &&& final(self).offset_x == old(self).offset_x
                &&& final(self).offset_y == old(self).offset_y
                &&& final(self).offset_z == old(self).offset_z
            },
    {
        match self.slot_of(bundle_x, bundle_y, bundle_z) {
            Some(i) => Some(&mut self.bundles[i]),
            None => None,
        }
    }

    /// The block at absolute block coordinates with the bundle that holds it,
    /// or `None` where that bundle is not loaded.
    pub fn get(&self, x: usize, y: usize, z: usize) -> (r: Option<(&Block, &BlockBundle)>)
        requires
            self.wf(),
        ensures
            r is Some <==> self.block_at(x as int, y as int, z as int) is Some,
            r matches Some(p) ==> Some(*p.0) == self.block_at(x as int, y as int, z as int)
                && *p.1 == self.bundles@[self.bundle_slot(
                x as int / 16,
                y as int / 16,
                z as int / 16,
            )],
    {
        let bundle = match self.get_bundle(
            x / BLOCK_BUNDLE_SIZE,
            y / BLOCK_BUNDLE_SIZE,
            z / BLOCK_BUNDLE_SIZE,
        ) {
            Some(b) => b,
            None => return None,
        };
        let block = bundle.get(x % BLOCK_BUNDLE_SIZE, y % BLOCK_BUNDLE_SIZE, z % BLOCK_BUNDLE_SIZE);
        Some((block, bundle))
    }

    /// The block at absolute block coordinates, for writing; `None` where its
    /// bundle is not loaded. Only that block can change through the result.
    pub fn get_mut(&mut self, x: usize, y: usize, z: usize) -> (r: Option<&mut Block>)
        requires
            old(self).wf(),
        ensures
            r is Some <==> old(self).block_at(x as int, y as int, z as int) is Some,
            r is None ==> *final(self) == *old(self),
            r matches Some(b) ==> {
                let i = old(self).bundle_slot(x as int / 16, y as int / 16, z as int / 16);
                let k = block_index(x as int % 16, y as int % 16, z as int % 16);
                &&& Some(*b) == old(self).block_at(x as int, y as int, z as int)
                &&& final(self).bundles@.len() == old(self).bundles@.len()
                &&& forall|j: int|
                    0 <= j < old(self).bundles@.len() && j != i ==> final(self).bundles@[j] == old(
                        self,
                    ).bundles@[j]
                &&& final(self).bundles@[i]@ == old(self).bundles@[i]@.update(k, *final(b))
                &&& final(self).world_bundle_size == old(self).world_bundle_size
                &&& final(self).world_bundle_squared == old(self).world_bundle_squared
                &&& final(self).offset_x == old(self).offset_x
                &&& final(self).offset_y == old(self).offset_y
                &&& final(self).offset_z == old(self).offset_z
            },
    {
        match self.get_bundle_mut(x / BLOCK_BUNDLE_SIZE, y / BLOCK_BUNDLE_SIZE, z / BLOCK_BUNDLE_SIZE) {
            Some(bundle) => Some(
                bundle.get_mut(x % BLOCK_BUNDLE_SIZE, y % BLOCK_BUNDLE_SIZE, z % BLOCK_BUNDLE_SIZE),
            ),
            None => None,
        }
    }
}

/// One face to draw: block `(x, y, z)` of a bundle, which face, the block's
/// shape and the texture to put on the face.
#[derive(Clone, Copy, Debug, PartialEq, Eq, Structural)]
pub struct FaceDraw {
    pub x: usize,
    pub y: usize,
    pub z: usize,
    pub face: CubeFace,
    pub shape: Shape,
    pub texture: u16,
}

/// The faces drawn for block `(x, y, z)` of a bundle: its exposed faces, in
/// order, when it is a full block of a non-transparent material; none otherwise.
pub open spec fn block_draws(b: Seq<Block>, x: int, y: int, z: int) -> Seq<FaceDraw> {
    match b[block_index(x, y, z)] {
        Block::Full(d) => if d.material.spec_is_transparent() {
            seq![]
        } else {
            exposed_faces(b, x, y, z).map_values(
                |f: CubeFace|
                    FaceDraw {
                        x: x as usize,
                        y: y as usize,
                        z: z as usize,
                        face: f,
                        shape: d.shape,
                        texture: d.material.spec_texture_id(),
                    },
            )
        },
        Block::Multiple(_) => seq![],
    }
}

/// Coordinates of the `n`-th block visited in a bundle: x outermost, z innermost.
pub open spec fn visit_x(n: int) -> int {
    n / 256
}

pub open spec fn visit_y(n: int) -> int {
    (n / 16) % 16
}

pub open spec fn visit_z(n: int) -> int {
    n % 16
}

/// The faces drawn for the first `n` blocks visited in a bundle.
pub open spec fn bundle_draws(b: Seq<Block>, n: int) -> Seq<FaceDraw>
    decreases n,
{
    if n <= 0 {
        seq![]
    } else {
        bundle_draws(b, n - 1) + block_draws(b, visit_x(n - 1), visit_y(n - 1), visit_z(n - 1))
    }
}

/// Offset, in bundles, of corner `k` of a bundle's bounding cube: bit 0 is x,
/// bit 1 is y, bit 2 is z.
pub open spec fn corner_step(k: int) -> (int, int, int) {
    (k % 2, (k / 2) % 2, k / 4)
}

/// Appends to `out` the faces to draw for block `(dx, dy, dz)` of `bundle`.
pub fn draw_block(bundle: &BlockBundle, dx: usize, dy: usize, dz: usize, out: &mut Vec<FaceDraw>)
    requires
        bundle.wf(),
        in_bundle(dx as int, dy as int, dz as int),
    ensures
        final(out)@ == old(out)@ + block_draws(bundle@, dx as int, dy as int, dz as int),
{
    let ghost b = bundle@;
    let ghost start = out@;
    let block = bundle.get(dx, dy, dz);
    if let Block::Full(block_data) = block {
        let material_data = block_data.material.data();
        if material_data.is_transparent {
            assert(start + block_draws(b, dx as int, dy as int, dz as int) =~= start);
            return;
        }
        let texture_ids = match material_data.texture {
            Some(t) => t,
            None => return,
        };
        let faces = face_visibility(bundle, dx, dy, dz);
        let ghost list = exposed_faces(b, dx as int, dy as int, dz as int);
        let ghost want = block_draws(b, dx as int, dy as int, dz as int);
        let mut i: usize = 0;
        while i < 6
            invariant
                i <= 6,
                i <= list.len(),
                faces@ == padded_faces(list),
                list.len() <= 6,
                want == block_draws(b, dx as int, dy as int, dz as int),
                b == bundle@,
                start == old(out)@,
                want == list.map_values(
                    |f: CubeFace|
                        FaceDraw {
                            x: dx,
                            y: dy,
                            z: dz,
                            face: f,
                            shape: block_data.shape,
                            texture: block_data.material.spec_texture_id(),
                        },
                ),
                forall|j: int| 0 <= j < 6 ==> #[trigger] texture_ids[j]
                    == block_data.material.spec_texture_id(),
                out@ == start + want.subrange(0, i as int),
            decreases 6 - i,
        {
            match faces[i] {
                Some(face) => {
                    out.push(
                        FaceDraw {
                            x: dx,
                            y: dy,
                            z: dz,
                            face,
                            shape: block_data.shape,
                            texture: texture_ids[face.index()],
                        },
                    );
                    assert(want.subrange(0, i + 1) =~= want.subrange(0, i as int).push(want[i as int]));
                    i += 1;
                },
                None => {
                    assert(padded_faces(list)[i as int] is None);
                    assert(i == list.len());
                    assert(want.subrange(0, i as int) =~= want);
                    return;
                },
            }
        }
        assert(want.subrange(0, i as int) =~= want);
    } else {
        assert(start + block_draws(b, dx as int, dy as int, dz as int) =~= start);
    }
}

impl WorldData {
    /// Storage slot of the bundle `(u, v, w)` places from the loaded corner.
    pub open spec fn local_slot(&self, u: int, v: int, w: int) -> int {
        w * self.world_bundle_squared + v * self.world_bundle_size + u
    }

    /// The eight corners, in world units, of the bounding cube of the bundle
    /// `(u, v, w)` places from the loaded corner; corner `k` is offset by
    /// `corner_step(k)` bundle edges.
    pub fn bundle_corners(&self, u: usize, v: usize, w: usize) -> (r: [(usize, usize, usize); 8])
        requires
            (u + self.offset_x + 1) * BUNDLE_UNITS <= usize::MAX,
            (v + self.offset_y + 1) * BUNDLE_UNITS <= usize::MAX,
            (w + self.offset_z + 1) * BUNDLE_UNITS <= usize::MAX,
        ensures
            forall|k: int|
                0 <= k < 8 ==> #[trigger] r[k] == (
                    ((u + self.offset_x + corner_step(k).0) * 64) as usize,
                    ((v + self.offset_y + corner_step(k).1) * 64) as usize,
                    ((w + self.offset_z + corner_step(k).2) * 64) as usize,
                ),
    {
        let x = (u + self.offset_x) * BUNDLE_UNITS;
        let y = (v + self.offset_y) * BUNDLE_UNITS;
        let z = (w + self.offset_z) * BUNDLE_UNITS;
        let x1 = x + BUNDLE_UNITS;
        let y1 = y + BUNDLE_UNITS;
        let z1 = z + BUNDLE_UNITS;
        let r = [(x, y, z), (x1, y, z), (x, y1, z), (x1, y1, z), (x, y, z1), (x1, y, z1), (x, y1, z1), (x1, y1, z1)];
        assert(forall|k: int|
            0 <= k < 8 ==> #[trigger] r[k] == (
                ((u + self.offset_x + corner_step(k).0) * 64) as usize,
                ((v + self.offset_y + corner_step(k).1) * 64) as usize,
                ((w + self.offset_z + corner_step(k).2) * 64) as usize,
            )) by {
            assert forall|k: int| 0 <= k < 8 implies #[trigger] r[k] == (
                ((u + self.offset_x + corner_step(k).0) * 64) as usize,
                ((v + self.offset_y + corner_step(k).1) * 64) as usize,
                ((w + self.offset_z + corner_step(k).2) * 64) as usize,
            ) by {
                assert(k == 0 || k == 1 || k == 2 || k == 3 || k == 4 || k == 5 || k == 6 || k == 7);
            }
        }
        r
    }

    /// The faces to draw for the bundle `(u, v, w)` places from the loaded
    /// corner, given for each of its eight corners whether the camera sees it.
    /// A bundle none of whose corners is seen, or that is not loaded, yields
    /// nothing and none of its blocks is visited; otherwise every block is
    /// visited, x outermost and z innermost.
    pub fn draw_bundle(&self, u: usize, v: usize, w: usize, corner_visible: [bool; 8]) -> (r: Vec<
        FaceDraw,
    >)
        requires
            self.wf(),
        ensures
            !(exists|k: int| 0 <= k < 8 && #[trigger] corner_visible[k]) ==> r@.len() == 0,
            r@ == if (exists|k: int| 0 <= k < 8 && #[trigger] corner_visible[k]) && u
                < self.world_bundle_size && v < self.world_bundle_size && w
                < self.world_bundle_size {
                bundle_draws(self.bundles@[self.local_slot(u as int, v as int, w as int)]@, 4096)
            } else {
                seq![]
            },
    {
        let mut out: Vec<FaceDraw> = Vec::new();
        let mut any = false;
        let mut k: usize = 0;
        while k < 8
            invariant
                k <= 8,
                any == exists|j: int| 0 <= j < k && #[trigger] corner_visible[j],
            decreases 8 - k,
        {
            if corner_visible[k] {
                any = true;
            }
            k += 1;
        }
        if !any || u >= self.world_bundle_size || v >= self.world_bundle_size || w
            >= self.world_bundle_size {
            return out;
        }
        proof {
            lemma_slot_bound(u as int, v as int, w as int, self.world_bundle_size as int);
        }
        proof {
            assert(self.bundles@.len() == self.bundles.len());
        }
        proof {
            let n = self.world_bundle_size as int;
            assert(0 <= w * (n * n) && 0 <= v * n) by (nonlinear_arith)
                requires
                    0 <= w,
                    0 <= v,
                    0 <= n,
            ;
        }
        let bundle = &self.bundles[w * self.world_bundle_squared + v * self.world_bundle_size + u];
        let ghost b = bundle@;
        let mut n: usize = 0;
        while n < BUNDLE_VOLUME
            invariant
                n <= BUNDLE_VOLUME,
                bundle.wf(),
                b == bundle@,
                out@ == bundle_draws(b, n as int),
            decreases BUNDLE_VOLUME - n,
        {
            draw_block(bundle, n / 256, (n / 16) % 16, n % 16, &mut out);
            n += 1;
        }
        out
    }
}

proof fn lemma_slot_bound(x: int, y: int, z: int, n: int)
    requires
        0 <= x < n,
        0 <= y < n,
        0 <= z < n,
    ensures
        0 <= z * (n * n) + y * n + x < (n * n) * n,
{
    assert(0 <= z * (n * n) + y * n + x < (n * n) * n) by (nonlinear_arith)
        requires
            0 <= x < n,
            0 <= y < n,
            0 <= z < n,
    {
        assert(y * n + x < n * n) by (nonlinear_arith)
            requires
                0 <= x < n,
                0 <= y < n,
        ;
        assert(z * (n * n) + n * n <= (n * n) * n) by (nonlinear_arith)
            requires
                0 <= z < n,
        ;
    }
}

} // verus!
