use city_assets::chunk::{ChunkReader, KIND_CLUMP, KIND_GEOMETRY, KIND_STRUCT};
use city_assets::model::{library_version_exec, Model, Rgba, Vertex};
use city_assets::triangle::Triangle;
use city_assets::AssetError;

const STAMP: u32 = 0x1003FFFF;

fn chunk(kind: u32, payload: &[u8]) -> Vec<u8> {
    let mut out = Vec::new();
    out.extend_from_slice(&kind.to_le_bytes());
    out.extend_from_slice(&(payload.len() as u32).to_le_bytes());
    out.extend_from_slice(&STAMP.to_le_bytes());
    out.extend_from_slice(payload);
    out
}

fn words(ws: &[u32]) -> Vec<u8> {
    ws.iter().flat_map(|w| w.to_le_bytes()).collect()
}

fn geometry_record() -> Vec<u8> {
    // format, triangles, vertices, morph targets
    let mut p = words(&[0, 1, 3, 1]);
    // one triangle: vertex2, vertex1, material, vertex3
    p.extend_from_slice(&[1, 0, 0, 0, 0, 0, 2, 0]);
    // bounding sphere, has vertices, has normals
    p.extend(words(&[0, 0, 0, 0, 1, 0]));
    p.extend(words(&[1.0f32.to_bits(), 2.0f32.to_bits(), 3.0f32.to_bits()]));
    p.extend(words(&[4, 5, 6]));
    p.extend(words(&[7, 8, 9]));
    p
}

fn sample_model() -> Vec<u8> {
    let geometry = chunk(0x0F, &chunk(0x01, &geometry_record()));
    let geometry_list = chunk(0x1A, &[chunk(0x01, &words(&[1])), geometry].concat());
    let texture = chunk(
        0x06,
        &[chunk(0x01, &[0; 4]), chunk(0x02, b"brick\0\0\0"), chunk(0x02, b"mask\0\0\0\0")].concat(),
    );
    let material = chunk(0x07, &[chunk(0x01, &[0, 0, 0, 0, 10, 20, 30, 255, 0, 0, 0, 0]), texture].concat());
    let material_list = chunk(0x08, &material);
    let unknown = chunk(0x0253F2FE, &[9, 9, 9, 9]);
    chunk(0x10, &[geometry_list, material_list, unknown].concat())
}

#[test]
fn triangle_fields_are_remapped() {
    let bytes = [5, 0, 3, 0, 7, 0, 9, 0, 42];
    let (rest, t) = Triangle::parse(&bytes).unwrap();
    assert_eq!(t, Triangle { vertex1: 3, vertex2: 5, vertex3: 9, material_id: 7 });
    assert_eq!(rest, &[42]);
}

#[test]
fn triangle_needs_eight_bytes() {
    assert_eq!(Triangle::parse(&[5, 0, 3, 0, 7, 0, 9]), Err(AssetError::InsufficientRecordBytes));
}

#[test]
fn overlong_payload_is_truncated() {
    let mut bytes = words(&[KIND_STRUCT, 100, STAMP]);
    bytes.extend_from_slice(&[1, 2, 3, 4]);
    let mut reader = ChunkReader::new(bytes.clone());
    assert_eq!(reader.next(), Some(Err(AssetError::TruncatedChunk(0))));
    assert_eq!(reader.next(), None);
    assert_eq!(Model::from_bytes(&bytes), Err(AssetError::TruncatedChunk(0)));
}

#[test]
fn short_header_is_truncated() {
    let mut bytes = chunk(0x99, &[1]);
    bytes.extend_from_slice(&[1, 2, 3]);
    let mut reader = ChunkReader::new(bytes);
    let first = reader.next().unwrap().unwrap();
    assert_eq!(first.kind, 0x99);
    assert_eq!(reader.next(), Some(Err(AssetError::TruncatedChunk(13))));
}

#[test]
fn child_overrunning_its_container_is_truncated() {
    let mut inner = chunk(KIND_STRUCT, &[0; 8]);
    inner.truncate(16);
    let outer = chunk(KIND_GEOMETRY, &inner);
    let mut bytes = outer.clone();
    bytes.extend_from_slice(&[0; 8]);
    let mut reader = ChunkReader::new(bytes);
    assert_eq!(reader.next().unwrap().unwrap().kind, KIND_GEOMETRY);
    assert_eq!(reader.next(), Some(Err(AssetError::TruncatedChunk(12))));
}

#[test]
fn walk_reports_depth_and_parent() {
    let bytes = chunk(KIND_CLUMP, &[chunk(KIND_STRUCT, &[1, 2]), chunk(0x1234, &[])].concat());
    let mut reader = ChunkReader::new(bytes);
    let a = reader.next().unwrap().unwrap();
    assert_eq!((a.kind, a.depth, a.parent, a.start, a.end), (KIND_CLUMP, 0, None, 12, 38));
    let b = reader.next().unwrap().unwrap();
    assert_eq!((b.kind, b.depth, b.parent, b.start, b.end), (KIND_STRUCT, 1, Some(KIND_CLUMP), 24, 26));
    let c = reader.next().unwrap().unwrap();
    assert_eq!((c.kind, c.depth, c.parent, c.start, c.end), (0x1234, 1, Some(KIND_CLUMP), 38, 38));
    assert_eq!(reader.next(), None);
    assert_eq!(reader.next(), None);
}

#[test]
fn assembles_a_model() {
    let model = Model::from_bytes(&sample_model()).unwrap();
    assert_eq!(model.geometries.len(), 1);
    let g = &model.geometries[0];
    assert_eq!(g.triangles, vec![Triangle { vertex1: 0, vertex2: 1, vertex3: 2, material_id: 0 }]);
    assert_eq!(g.vertices[0], Vertex { x: 1.0f32.to_bits(), y: 2.0f32.to_bits(), z: 3.0f32.to_bits() });
    assert_eq!(g.vertices[2], Vertex { x: 7, y: 8, z: 9 });
    assert_eq!(model.materials.len(), 1);
    assert_eq!(model.materials[0].color, Rgba { r: 10, g: 20, b: 30, a: 255 });
    assert_eq!(model.materials[0].texture, Some(b"brick".to_vec()));
    assert_eq!(model.textures, vec![b"brick".to_vec()]);
}

#[test]
fn unknown_kinds_are_skipped() {
    let plain = chunk(0x10, &chunk(0x0F, &chunk(0x01, &geometry_record())));
    let with_unknown = chunk(
        0x10,
        &[chunk(0x0777, &[1, 2, 3]), chunk(0x0F, &chunk(0x01, &geometry_record()))].concat(),
    );
    assert_eq!(Model::from_bytes(&plain).unwrap(), Model::from_bytes(&with_unknown).unwrap());
}

#[test]
fn short_geometry_record_fails() {
    let mut record = geometry_record();
    record.truncate(40);
    let bytes = chunk(0x0F, &chunk(0x01, &record));
    assert_eq!(Model::from_bytes(&bytes), Err(AssetError::InsufficientRecordBytes));
}

#[test]
fn short_material_record_fails() {
    let bytes = chunk(0x07, &chunk(0x01, &[0, 0, 0, 0, 1, 2, 3]));
    assert_eq!(Model::from_bytes(&bytes), Err(AssetError::InsufficientRecordBytes));
}

#[test]
fn empty_buffer_is_an_empty_model() {
    let model = Model::from_bytes(&[]).unwrap();
    assert!(model.geometries.is_empty() && model.materials.is_empty() && model.textures.is_empty());
}

#[test]
fn version_stamps_decode() {
    assert_eq!(library_version_exec(0x1003FFFF), 0x34003);
    assert_eq!(library_version_exec(0x0C02FFFF), 0x33002);
    assert_eq!(library_version_exec(0x0310), 0x31000);
}
