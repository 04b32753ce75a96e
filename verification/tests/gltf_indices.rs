use malx::error::LoadError;
use malx::gltf::{
    index_read_fits, primitive_indices, read_indices, triangle_primitives, BufferViewLayout, ComponentType,
    IndexAccessor, PrimitiveMode,
};

fn accessor(view: Option<BufferViewLayout>, offset: usize, count: usize, t: ComponentType) -> IndexAccessor {
    IndexAccessor { view, offset, count, data_type: t }
}

fn view(buffer: usize, offset: usize, stride: Option<usize>) -> Option<BufferViewLayout> {
    Some(BufferViewLayout { buffer, offset, stride })
}

fn gltf_message(e: LoadError) -> String {
    match e {
        LoadError::Gltf(m) => m,
        other => panic!("expected a glTF error, got {:?}", other),
    }
}

#[test]
fn no_index_accessor_gives_none() {
    let bufs: Vec<&[u8]> = vec![];
    assert!(read_indices(&None, &bufs).unwrap().is_none());
}

#[test]
fn u8_indices() {
    let data = [9u8, 1, 2, 3, 4];
    let bufs: Vec<&[u8]> = vec![&data];
    let acc = accessor(view(0, 1, None), 0, 4, ComponentType::U8);
    assert_eq!(read_indices(&Some(acc), &bufs).unwrap().unwrap(), vec![1, 2, 3, 4]);
}

#[test]
fn u16_indices_are_little_endian() {
    let data = [0x01u8, 0x02, 0xff, 0xff, 0x00, 0x01];
    let bufs: Vec<&[u8]> = vec![&data];
    let acc = accessor(view(0, 0, None), 0, 3, ComponentType::U16);
    assert_eq!(read_indices(&Some(acc), &bufs).unwrap().unwrap(), vec![0x0201, 0xffff, 0x0100]);
}

#[test]
fn u32_indices_with_offsets_and_stride() {
    let other = [0u8; 4];
    let data = [
        0xAAu8, 0xAA, // view offset 2
        0xBB, // accessor offset 1
        0x04, 0x03, 0x02, 0x01, 0xCC, 0xCC, // stride 6
        0xff, 0xff, 0xff, 0xff,
    ];
    let bufs: Vec<&[u8]> = vec![&other, &data];
    let acc = accessor(view(1, 2, Some(6)), 1, 2, ComponentType::U32);
    assert_eq!(read_indices(&Some(acc), &bufs).unwrap().unwrap(), vec![0x01020304, 0xffff_ffff]);
}

#[test]
fn zero_count_reads_nothing() {
    let data: [u8; 0] = [];
    let bufs: Vec<&[u8]> = vec![&data];
    let acc = accessor(view(0, 0, None), 0, 0, ComponentType::U32);
    assert_eq!(read_indices(&Some(acc), &bufs).unwrap().unwrap(), Vec::<u32>::new());
}

#[test]
fn sparse_accessor_is_refused() {
    let bufs: Vec<&[u8]> = vec![];
    let acc = accessor(None, 0, 3, ComponentType::U16);
    let m = gltf_message(read_indices(&Some(acc), &bufs).unwrap_err());
    assert_eq!(m, "sparse index accessor not supported");
}

#[test]
fn float_index_type_is_refused() {
    let data = [0u8; 16];
    let bufs: Vec<&[u8]> = vec![&data];
    for (t, name) in [
        (ComponentType::F32, "F32"),
        (ComponentType::I8, "I8"),
        (ComponentType::I16, "I16"),
    ] {
        let acc = accessor(view(0, 0, None), 0, 2, t);
        let m = gltf_message(read_indices(&Some(acc), &bufs).unwrap_err());
        assert_eq!(m, format!("unsupported index type {}", name));
    }
}

#[test]
fn default_indices_count_vertices() {
    assert_eq!(primitive_indices(None, 4), vec![0, 1, 2, 3]);
    assert_eq!(primitive_indices(Some(vec![2, 1, 0]), 4), vec![2, 1, 0]);
    assert_eq!(primitive_indices(None, 0), Vec::<u32>::new());
}

#[test]
fn only_triangle_primitives_are_kept() {
    let modes = vec![
        PrimitiveMode::Lines,
        PrimitiveMode::Triangles,
        PrimitiveMode::TriangleStrip,
        PrimitiveMode::Triangles,
    ];
    assert_eq!(triangle_primitives(&modes).unwrap(), vec![1, 3]);
}

#[test]
fn file_without_triangles_is_refused() {
    let modes = vec![PrimitiveMode::Points, PrimitiveMode::TriangleFan];
    let m = gltf_message(triangle_primitives(&modes).unwrap_err());
    assert_eq!(m, "file contains no triangle primitives");
    assert!(triangle_primitives(&vec![]).is_err());
}

#[test]
fn index_read_fits_checks_the_last_element() {
    let data = [0u8; 8];
    let bufs: Vec<&[u8]> = vec![&data];
    // Four u16 indices fill the eight bytes exactly.
    assert!(index_read_fits(&accessor(view(0, 0, None), 0, 4, ComponentType::U16), &bufs));
    // A fifth runs past the end.
    assert!(!index_read_fits(&accessor(view(0, 0, None), 0, 5, ComponentType::U16), &bufs));
    // With a stride of 4 only two u16 elements fit (at 0 and 4, ending at 6).
    assert!(index_read_fits(&accessor(view(0, 0, Some(4)), 0, 2, ComponentType::U16), &bufs));
    assert!(!index_read_fits(&accessor(view(0, 2, Some(4)), 1, 2, ComponentType::U16), &bufs));
}

#[test]
fn index_read_fits_other_cases() {
    let data = [0u8; 4];
    let bufs: Vec<&[u8]> = vec![&data];
    // Missing buffer.
    assert!(!index_read_fits(&accessor(view(1, 0, None), 0, 1, ComponentType::U8), &bufs));
    // Sparse accessors and non-integer types read nothing.
    assert!(index_read_fits(&accessor(None, 0, 100, ComponentType::U32), &bufs));
    assert!(index_read_fits(&accessor(view(0, 0, None), 0, 100, ComponentType::F32), &bufs));
    // No elements.
    assert!(index_read_fits(&accessor(view(0, 4, None), 0, 0, ComponentType::U32), &bufs));
    // Offsets whose sum overflows.
    assert!(!index_read_fits(&accessor(view(0, usize::MAX, None), 1, 0, ComponentType::U8), &bufs));
    // A stride so large that the last offset overflows.
    assert!(!index_read_fits(&accessor(view(0, 0, Some(usize::MAX)), 0, 3, ComponentType::U8), &bufs));
}
