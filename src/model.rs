//! The model assembler: folds the chunk walk of a model container into a
//! model of geometries, materials and texture names.
use vstd::prelude::*;
use vstd::slice::{slice_subrange, slice_to_vec};
use crate::bytes::{le_u32_at, read_le_u32};
use crate::chunk::{
    lemma_step_progress, step, Chunk, ChunkReader, ReaderState, KIND_GEOMETRY, KIND_MATERIAL,
    KIND_STRING, KIND_STRUCT, KIND_TEXTURE,
};
use crate::error::AssetError;
use crate::triangle::{triangle_at, Triangle};

verus! {

/// A colour of four 8-bit channels.
#[derive(Debug, Clone, Copy, PartialEq, Eq)]
pub struct Rgba {
    pub r: u8,
    pub g: u8,
    pub b: u8,
    pub a: u8,
}

/// A vertex position: the IEEE-754 bit patterns of its three coordinates,
/// as stored.
#[derive(Debug, Clone, Copy, PartialEq, Eq)]
pub struct Vertex {
    pub x: u32,
    pub y: u32,
    pub z: u32,
}

/// The mesh of one geometry; triangle indices refer to its own vertices.
#[derive(Debug, PartialEq, Eq)]
pub struct Geometry {
    pub vertices: Vec<Vertex>,
    pub triangles: Vec<Triangle>,
}

/// A material's colour and the name of its texture, if it has one.
#[derive(Debug, PartialEq, Eq)]
pub struct Material {
    pub color: Rgba,
    pub texture: Option<Vec<u8>>,
}

/// A decoded model container. Indices (a triangle's material, a vertex) are
/// not checked against the tables they point into.
#[derive(Debug, PartialEq, Eq)]
pub struct Model {
    pub geometries: Vec<Geometry>,
    pub materials: Vec<Material>,
    pub textures: Vec<Vec<u8>>,
}

pub struct ModelView {
    pub geometries: Seq<(Seq<Vertex>, Seq<Triangle>)>,
    pub materials: Seq<(Rgba, Option<Seq<u8>>)>,
    pub textures: Seq<Seq<u8>>,
}

pub open spec fn geometry_view(g: Geometry) -> (Seq<Vertex>, Seq<Triangle>) {
    (g.vertices@, g.triangles@)
}

pub open spec fn material_view(m: Material) -> (Rgba, Option<Seq<u8>>) {
    (
        m.color,
        match m.texture {
            Some(t) => Some(t@),
            None => None,
        },
    )
}

impl View for Model {
    type V = ModelView;

    open spec fn view(&self) -> ModelView {
        ModelView {
            geometries: self.geometries@.map_values(|g: Geometry| geometry_view(g)),
            materials: self.materials@.map_values(|m: Material| material_view(m)),
            textures: self.textures@.map_values(|t: Vec<u8>| t@),
        }
    }
}

/// The library version that a header's version stamp stands for, as
/// `0xMmmpp` hex digits (`0x34000` for 3.4.0.0). Old files store the version
/// itself in the stamp's low 16 bits.
pub open spec fn library_version(stamp: u32) -> u32 {
    if stamp & 0xFFFF0000 != 0 {
        ((((stamp >> 14u32) & 0x3FF00) + 0x30000) as u32) | ((stamp >> 16u32) & 0x3F)
    } else {
        stamp << 8u32
    }
}

pub fn library_version_exec(stamp: u32) -> (r: u32)
    ensures
        r == library_version(stamp),
{
    if stamp & 0xFFFF0000 != 0 {
        let hi = (stamp >> 14u32) & 0x3FF00;
        assert(hi <= 0x3FF00) by (bit_vector)
            requires
                hi == (stamp >> 14u32) & 0x3FF00,
        ;
        ((hi + 0x30000) | ((stamp >> 16u32) & 0x3F))
    } else {
        stamp << 8u32
    }
}

/// How many texture-coordinate sets a geometry stores.
pub open spec fn uv_sets(format: u32) -> int {
    let n = (format >> 16u32) & 0xFF;
    if n != 0 {
        n as int
    } else if format & 0x80 != 0 {
        2
    } else if format & 0x04 != 0 {
        1
    } else {
        0
    }
}

/// Where the parts of a geometry record start, given its header fields:
/// the triangles, and the first morph target.
pub open spec fn triangles_offset(format: u32, nv: u32, stamp: u32) -> int {
    16 + (if library_version(stamp) < 0x34000 { 12int } else { 0 }) + (if format & 0x08 != 0 {
        4 * nv
    } else {
        0
    }) + uv_sets(format) * nv * 8
}

/// The vertices and triangles of a geometry record `p` written by library
/// version stamp `stamp`: a header (format flags, triangle count, vertex
/// count, morph-target count), surface lighting for versions before 3.4,
/// prelit colours and texture coordinates when the format has them, the
/// triangles, then the morph targets, of which the first holds the vertex
/// positions (after a bounding sphere and two presence flags). `None` when
/// the record is shorter than its counts say.
pub open spec fn decode_geometry(p: Seq<u8>, stamp: u32) -> Option<(Seq<Vertex>, Seq<Triangle>)> {
    if p.len() < 16 {
        None
    } else {
        let format = le_u32_at(p, 0);
        let nt = le_u32_at(p, 4);
        let nv = le_u32_at(p, 8);
        let nm = le_u32_at(p, 12);
        let t = triangles_offset(format, nv, stamp);
        let m = t + 8 * nt;
        let tris = Seq::new(nt as nat, |k: int| triangle_at(p, t + 8 * k));
        if nm == 0 {
            if m <= p.len() {
                Some((seq![], tris))
            } else {
                None
            }
        } else if m + 24 > p.len() {
            None
        } else if le_u32_at(p, m + 16) == 0 {
            Some((seq![], tris))
        } else if m + 24 + 12 * nv > p.len() {
            None
        } else {
            Some((Seq::new(nv as nat, |k: int| vertex_at(p, m + 24 + 12 * k)), tris))
        }
    }
}

pub open spec fn vertex_at(p: Seq<u8>, i: int) -> Vertex {
    Vertex { x: le_u32_at(p, i), y: le_u32_at(p, i + 4), z: le_u32_at(p, i + 8) }
}

fn uv_sets_exec(format: u32) -> (r: u64)
    ensures
        r == uv_sets(format),
        r <= 255,
{
    let n = (format >> 16u32) & 0xFF;
    assert(n <= 0xFF) by (bit_vector)
        requires
            n == (format >> 16u32) & 0xFF,
    ;
    if n != 0 {
        n as u64
    } else if format & 0x80 != 0 {
        2
    } else if format & 0x04 != 0 {
        1
    } else {
        0
    }
}

/// Decodes a geometry record (see `decode_geometry`).
pub fn read_geometry(p: &[u8], stamp: u32) -> (r: Option<Geometry>)
    ensures
        match r {
            Some(g) => decode_geometry(p@, stamp) == Some(geometry_view(g)),
            None => decode_geometry(p@, stamp) is None,
        },
{
    let len = p.len() as u64;
    if p.len() < 16 {
        return None;
    }
    let format = read_le_u32(p, 0);
    let nt = read_le_u32(p, 4);
    let nv = read_le_u32(p, 8);
    let nm = read_le_u32(p, 12);
    let uv = uv_sets_exec(format);
    let lighting: u64 = if library_version_exec(stamp) < 0x34000 { 12 } else { 0 };
    let prelit: u64 = if format & 0x08 != 0 { 4 * (nv as u64) } else { 0 };
    assert(uv * (nv as u64) <= 255 * 0xFFFF_FFFF) by (nonlinear_arith)
        requires
            uv <= 255,
            nv <= 0xFFFF_FFFF,
    ;
    let t: u64 = 16 + lighting + prelit + uv * (nv as u64) * 8;
    assert(t == triangles_offset(format, nv, stamp)) by (nonlinear_arith)
        requires
            t == 16 + lighting + prelit + uv * (nv as u64) * 8,
            lighting == (if library_version(stamp) < 0x34000 { 12int } else { 0 }),
            prelit == (if format & 0x08 != 0 { 4 * nv } else { 0 }),
            uv == uv_sets(format),
    ;
    let m: u64 = t + 8 * (nt as u64);
    if m > len {
        return None;
    }
    let ghost tri_spec = Seq::new(nt as nat, |k: int| triangle_at(p@, t + 8 * k));
    let mut triangles: Vec<Triangle> = Vec::new();
    let mut k: u64 = 0;
    while k < nt as u64
        invariant
            k <= nt,
            m == t + 8 * nt,
            m <= p@.len(),
            p@.len() <= usize::MAX,
            tri_spec == Seq::new(nt as nat, |k: int| triangle_at(p@, t + 8 * k)),
            triangles@ == tri_spec.take(k as int),
        decreases nt - k,
    {
        let tri = Triangle::read_at(p, (t + 8 * k) as usize);
        triangles.push(tri);
        k = k + 1;
        assert(triangles@ =~= tri_spec.take(k as int));
    }
    assert(tri_spec.take(nt as int) =~= tri_spec);
    if nm == 0 {
        return Some(Geometry { vertices: Vec::new(), triangles });
    }
    if m + 24 > len {
        return None;
    }
    let has_vertices = read_le_u32(p, (m + 16) as usize);
    if has_vertices == 0 {
        return Some(Geometry { vertices: Vec::new(), triangles });
    }
    if m + 24 + 12 * (nv as u64) > len {
        return None;
    }
    let base: u64 = m + 24;
    let ghost vert_spec = Seq::new(nv as nat, |k: int| vertex_at(p@, base + 12 * k));
    let mut vertices: Vec<Vertex> = Vec::new();
    let mut k: u64 = 0;
    while k < nv as u64
        invariant
            k <= nv,
            base + 12 * nv <= p@.len(),
            p@.len() <= usize::MAX,
            vert_spec == Seq::new(nv as nat, |k: int| vertex_at(p@, base + 12 * k)),
            vertices@ == vert_spec.take(k as int),
        decreases nv - k,
    {
        let at = (base + 12 * k) as usize;
        let v = Vertex { x: read_le_u32(p, at), y: read_le_u32(p, at + 4), z: read_le_u32(p, at + 8) };
        vertices.push(v);
        k = k + 1;
        assert(vertices@ =~= vert_spec.take(k as int));
    }
    assert(vert_spec.take(nv as int) =~= vert_spec);
    Some(Geometry { vertices, triangles })
}

/// The bytes of `p` before its first zero byte.
pub fn read_name(p: &[u8]) -> (r: Vec<u8>)
    ensures
        r@ == name_of(p@),
{
    let mut i: usize = 0;
    assert(p@.subrange(0, p@.len() as int) =~= p@);
    while i < p.len() && p[i] != 0
        invariant
            i <= p@.len(),
            name_len(p@) == i + name_len(p@.subrange(i as int, p@.len() as int)),
        decreases p@.len() - i,
    {
        assert(p@.subrange(i + 1, p@.len() as int) =~= p@.subrange(i as int, p@.len() as int).drop_first());
        i = i + 1;
    }
    slice_to_vec(slice_subrange(p, 0, i))
}

/// How many bytes of `p` come before its first zero byte.
pub open spec fn name_len(p: Seq<u8>) -> nat
    decreases p.len(),
{
    if p.len() == 0 || p[0] == 0 {
        0
    } else {
        1 + name_len(p.drop_first())
    }
}

/// A texture's name: its string payload up to the first zero byte.
pub open spec fn name_of(p: Seq<u8>) -> Seq<u8> {
    p.take(name_len(p) as int)
}

/// The assembler's state: the model so far, and whether a texture chunk
/// was opened whose name has not been read yet.
pub type AssemblyState = (ModelView, bool);

/// The payload of a chunk within the buffer.
pub open spec fn payload(data: Seq<u8>, c: Chunk) -> Seq<u8> {
    data.subrange(c.start as int, c.end as int)
}

/// Whether the assembler reads chunks of this kind at all.
pub open spec fn is_known_kind(kind: u32) -> bool {
    kind == KIND_STRUCT || kind == KIND_STRING || kind == KIND_TEXTURE
}

/// What one chunk does to the assembly. A geometry's record adds a
/// geometry; a material's record (flags, then the colour) adds a material;
/// a texture's first string names the texture, which goes to the list of
/// texture names and to the last material. Every other chunk, of a known
/// kind or not, changes nothing.
pub open spec fn absorb(st: AssemblyState, c: Chunk, data: Seq<u8>) -> Result<AssemblyState, AssetError> {
    let (m, awaiting) = st;
    let p = payload(data, c);
    if c.kind == KIND_TEXTURE {
        Ok((m, true))
    } else if c.kind == KIND_STRUCT && c.parent == Some(KIND_GEOMETRY) {
        match decode_geometry(p, c.version) {
            None => Err(AssetError::InsufficientRecordBytes),
            Some(g) => Ok((ModelView { geometries: m.geometries.push(g), ..m }, awaiting)),
        }
    } else if c.kind == KIND_STRUCT && c.parent == Some(KIND_MATERIAL) {
        if p.len() < 8 {
            Err(AssetError::InsufficientRecordBytes)
        } else {
            let color = Rgba { r: p[4], g: p[5], b: p[6], a: p[7] };
            Ok((ModelView { materials: m.materials.push((color, None)), ..m }, awaiting))
        }
    } else if c.kind == KIND_STRING && c.parent == Some(KIND_TEXTURE) && awaiting {
        let name = name_of(p);
        let materials = if m.materials.len() > 0 {
            m.materials.update(
                m.materials.len() - 1,
                (m.materials.last().0, Some(name)),
            )
        } else {
            m.materials
        };
        Ok((ModelView { materials, textures: m.textures.push(name), ..m }, false))
    } else {
        Ok(st)
    }
}

/// The model assembled from the rest of a walk.
pub open spec fn assemble_from(st: ReaderState, acc: AssemblyState) -> Result<ModelView, AssetError>
    decreases st.remaining(),
{
    let (next, out) = step(st);
    match out {
        None => Ok(acc.0),
        Some(Err(e)) => Err(e),
        Some(Ok(c)) => match absorb(acc, c, st.data) {
            Err(e) => Err(e),
            Ok(a) => if next.remaining() < st.remaining() {
                assemble_from(next, a)
            } else {
                Ok(a.0)
            },
        },
    }
}

pub open spec fn empty_model() -> ModelView {
    ModelView { geometries: seq![], materials: seq![], textures: seq![] }
}

/// What a model container decodes to.
pub open spec fn assemble_spec(data: Seq<u8>) -> Result<ModelView, AssetError> {
    assemble_from(
        ReaderState { data, pos: 0, open: seq![], done: false },
        (empty_model(), false),
    )
}

/// A buffer whose first header declares a payload longer than the bytes
/// after it fails to decode with `TruncatedChunk` at offset 0.
pub proof fn lemma_overlong_payload_truncated(data: Seq<u8>)
    requires
        data.len() >= 12,
        12 + le_u32_at(data, 4) > data.len(),
    ensures
        assemble_spec(data) == Err::<ModelView, _>(AssetError::TruncatedChunk(0)),
{
    let st = ReaderState { data, pos: 0, open: seq![], done: false };
    assert(crate::chunk::close_finished(st.open, 0) == st.open);
}

/// A chunk of a kind that the assembler does not read leaves the model as it
/// was: unknown kinds never abort assembly.
pub proof fn lemma_unknown_kind_skipped(st: AssemblyState, c: Chunk, data: Seq<u8>)
    requires
        !is_known_kind(c.kind),
    ensures
        absorb(st, c, data) == Ok::<_, AssetError>(st),
{
}

/// Applies one chunk to the assembly (see `absorb`).
fn absorb_chunk(m: Model, awaiting: bool, c: Chunk, data: &Vec<u8>) -> (r: Result<(Model, bool), AssetError>)
    requires
        c.start <= c.end <= data@.len(),
    ensures
        match r {
            Ok((m2, a2)) => absorb((m@, awaiting), c, data@) == Ok::<_, AssetError>((m2@, a2)),
            Err(e) => absorb((m@, awaiting), c, data@) == Err::<AssemblyState, _>(e),
        },
{
    let mut m = m;
    let ghost mv = m@;
    let p = slice_subrange(data.as_slice(), c.start, c.end);
    assert(p@ == payload(data@, c));
    if c.kind == KIND_TEXTURE {
        Ok((m, true))
    } else if c.kind == KIND_STRUCT && c.parent == Some(KIND_GEOMETRY) {
        match read_geometry(p, c.version) {
            None => Err(AssetError::InsufficientRecordBytes),
            Some(g) => {
                let ghost gv = geometry_view(g);
                m.geometries.push(g);
                assert(m@.geometries =~= mv.geometries.push(gv));
                Ok((m, awaiting))
            },
        }
    } else if c.kind == KIND_STRUCT && c.parent == Some(KIND_MATERIAL) {
        if p.len() < 8 {
            Err(AssetError::InsufficientRecordBytes)
        } else {
            let color = Rgba { r: p[4], g: p[5], b: p[6], a: p[7] };
            m.materials.push(Material { color, texture: None });
            assert(m@.materials =~= mv.materials.push((color, None)));
            Ok((m, awaiting))
        }
    } else if c.kind == KIND_STRING && c.parent == Some(KIND_TEXTURE) && awaiting {
        let name = read_name(p);
        let ghost nv = name@;
        let copy = slice_to_vec(name.as_slice());
        if m.materials.len() > 0 {
            let last = m.materials.pop().unwrap();
            m.materials.push(Material { color: last.color, texture: Some(copy) });
            assert(m@.materials =~= mv.materials.update(
                mv.materials.len() - 1,
                (mv.materials.last().0, Some(nv)),
            ));
        }
        m.textures.push(name);
        assert(m@.textures =~= mv.textures.push(nv));
        Ok((m, false))
    } else {
        Ok((m, awaiting))
    }
}

impl Model {
    /// Decodes a model container: walks its chunk tree in document order and
    /// folds every chunk into the model (see `absorb`). Fails with the first
    /// truncated chunk or short record.
    pub fn from_bytes(data: &[u8]) -> (r: Result<Model, AssetError>)
        ensures
            match r {
                Ok(m) => assemble_spec(data@) == Ok::<_, AssetError>(m@),
                Err(e) => assemble_spec(data@) == Err::<ModelView, _>(e),
            },
    {
        let ghost d = data@;
        let mut reader = ChunkReader::new(slice_to_vec(data));
        let mut model = Model { geometries: Vec::new(), materials: Vec::new(), textures: Vec::new() };
        let mut awaiting = false;
        assert(model@ == empty_model()) by {
            assert(model@.geometries =~= seq![]);
            assert(model@.materials =~= seq![]);
            assert(model@.textures =~= seq![]);
        }
        loop
            invariant
                reader@.wf(),
                reader@.data == d,
                d == data@,
                assemble_from(reader@, (model@, awaiting)) == assemble_spec(d),
            decreases reader@.remaining(),
        {
            proof {
                lemma_step_progress(reader@);
            }
            let ghost before = reader@;
            let out = reader.next();
            proof {
                reveal_with_fuel(assemble_from, 2);
                assert(step(before) == (reader@, out));
            }
            match out {
                None => return Ok(model),
                Some(Err(e)) => return Err(e),
                Some(Ok(c)) => {
                    match absorb_chunk(model, awaiting, c, reader.data()) {
                        Err(e) => return Err(e),
                        Ok((m2, a2)) => {
                            model = m2;
                            awaiting = a2;
                        },
                    }
                },
            }
        }
    }
}

} // verus!
