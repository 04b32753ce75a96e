//! Reading glTF index data out of binary buffers.
//!
//! The glTF document is described here by plain values: which buffer an
//! accessor reads, at which byte offset and stride, how many elements and of
//! which component type.

use vstd::prelude::*;
use crate::error::LoadError;

verus! {

/// Component type of a glTF accessor (`gltf::accessor::DataType`).
#[derive(Copy, Clone, Debug, PartialEq, Eq, Structural)]
pub enum ComponentType {
    I8,
    U8,
    I16,
    U16,
    U32,
    F32,
}

/// Where a buffer view lies in its buffer.
#[derive(Copy, Clone, Debug, PartialEq, Eq, Structural)]
pub struct BufferViewLayout {
    /// Index of the buffer the view belongs to.
    pub buffer: usize,
    /// Byte offset of the view in the buffer.
    pub offset: usize,
    /// Byte distance between elements; `None` when they are tightly packed.
    pub stride: Option<usize>,
}

/// The parts of an index accessor that reading it depends on.
#[derive(Copy, Clone, Debug, PartialEq, Eq, Structural)]
pub struct IndexAccessor {
    /// The buffer view read; `None` for a sparse accessor.
    pub view: Option<BufferViewLayout>,
    /// Byte offset of the first element inside the view.
    pub offset: usize,
    /// Number of elements.
    pub count: usize,
    pub data_type: ComponentType,
}

/// Byte size of an index of type `t`, for the types indices may have.
pub open spec fn index_size(t: ComponentType) -> Option<nat> {
    match t {
        ComponentType::U8 => Some(1),
        ComponentType::U16 => Some(2),
        ComponentType::U32 => Some(4),
        _ => None,
    }
}

/// Name of a component type as `Debug` prints it.
pub open spec fn component_name(t: ComponentType) -> Seq<char> {
    match t {
        ComponentType::I8 => "I8"@,
        ComponentType::U8 => "U8"@,
        ComponentType::I16 => "I16"@,
        ComponentType::U16 => "U16"@,
        ComponentType::U32 => "U32"@,
        ComponentType::F32 => "F32"@,
    }
}

/// Little-endian value of the `size` bytes of `data` at `o`.
pub open spec fn le_value(data: Seq<u8>, o: int, size: nat) -> nat {
    if size == 1 {
        data[o] as nat
    } else if size == 2 {
        data[o] as nat + 256 * data[o + 1] as nat
    } else {
        data[o] as nat + 256 * data[o + 1] as nat + 65536 * data[o + 2] as nat + 16777216 * data[o
            + 3] as nat
    }
}

/// Byte distance between consecutive elements of `view` of `size` bytes.
pub open spec fn element_stride(view: BufferViewLayout, size: nat) -> nat {
    match view.stride {
        Some(s) => s as nat,
        None => size,
    }
}

/// The inputs on which reading `accessor` stays inside `bufs`: the view's
/// buffer exists, the first element's offset is a `usize`, and for a
/// supported index type the last element lies inside the buffer.
pub open spec fn index_read_in_bounds(accessor: IndexAccessor, bufs: Seq<&[u8]>) -> bool {
    match accessor.view {
        None => true,
        Some(view) => {
            &&& view.buffer < bufs.len()
            &&& view.offset + accessor.offset <= usize::MAX
            &&& match index_size(accessor.data_type) {
                None => true,
                Some(size) => accessor.count == 0 || view.offset + accessor.offset + (
                accessor.count - 1) * element_stride(view, size) + size <= bufs[view.buffer as int]@.len(),
            }
        },
    }
}

/// Whether reading `accessor` stays inside `bufs` (`index_read_in_bounds`),
/// decided without overflow.
pub fn index_read_fits(accessor: &IndexAccessor, bufs: &[&[u8]]) -> (r: bool)
    ensures
        r == index_read_in_bounds(*accessor, bufs@),
{
    let view = match accessor.view {
        Some(v) => v,
        None => {
            return true;
        },
    };
    if view.buffer >= bufs.len() {
        return false;
    }
    let base = match view.offset.checked_add(accessor.offset) {
        Some(b) => b,
        None => {
            return false;
        },
    };
    let size: usize = match accessor.data_type {
        ComponentType::U8 => 1,
        ComponentType::U16 => 2,
        ComponentType::U32 => 4,
        _ => {
            return true;
        },
    };
    if accessor.count == 0 {
        return true;
    }
    let stride = match view.stride {
        Some(s) => s,
        None => size,
    };
    let len = bufs[view.buffer].len();
    match (accessor.count - 1).checked_mul(stride) {
        None => false,
        Some(o) => match o.checked_add(base) {
            None => false,
            Some(p) => match p.checked_add(size) {
                None => false,
                Some(end) => end <= len,
            },
        },
    }
}

/// The indices an accessor denotes: element `i` is the little-endian value
/// at `view.offset + accessor.offset + i * stride`.
pub open spec fn index_values(accessor: IndexAccessor, bufs: Seq<&[u8]>) -> Result<Option<Seq<u32>>, Seq<char>> {
    match accessor.view {
        None => Err("sparse index accessor not supported"@),
        Some(view) => match index_size(accessor.data_type) {
            None => Err("unsupported index type "@ + component_name(accessor.data_type)),
            Some(size) => {
                let data = bufs[view.buffer as int]@;
                let base = view.offset + accessor.offset;
                let stride = element_stride(view, size);
                Ok(
                    Some(
                        Seq::new(
                            accessor.count as nat,
                            |i: int| le_value(data, base + i * stride, size) as u32,
                        ),
                    ),
                )
            },
        },
    }
}

proof fn lemma_two_bytes(d0: u8, d1: u8)
    ensures
        ({
            let x = d0 as int + 256 * d1 as int;
            &&& x % 256 == d0 && x / 256 == d1
            &&& x < 0x1_0000
        }),
{
    let x = d0 as int + 256 * d1 as int;
    vstd::arithmetic::div_mod::lemma_fundamental_div_mod_converse(x, 256, d1 as int, d0 as int);
}

proof fn lemma_four_bytes(d0: u8, d1: u8, d2: u8, d3: u8)
    ensures
        ({
            let x = d0 as int + 256 * d1 as int + 65536 * d2 as int + 16777216 * d3 as int;
            &&& x % 256 == d0
            &&& (x / 256) % 256 == d1
            &&& (x / 65536) % 256 == d2
            &&& x / 16777216 == d3
            &&& x < 0x1_0000_0000
        }),
{
    let x = d0 as int + 256 * d1 as int + 65536 * d2 as int + 16777216 * d3 as int;
    let h1 = d1 as int + 256 * d2 as int + 65536 * d3 as int;
    let h2 = d2 as int + 256 * d3 as int;
    vstd::arithmetic::div_mod::lemma_fundamental_div_mod_converse(x, 256, h1, d0 as int);
    vstd::arithmetic::div_mod::lemma_fundamental_div_mod_converse(h1, 256, h2, d1 as int);
    vstd::arithmetic::div_mod::lemma_fundamental_div_mod_converse(h2, 256, d3 as int, d2 as int);
    vstd::arithmetic::div_mod::lemma_fundamental_div_mod_converse(x, 65536, h2, d0 as int + 256 * d1 as int);
    vstd::arithmetic::div_mod::lemma_fundamental_div_mod_converse(
        x,
        16777216,
        d3 as int,
        d0 as int + 256 * d1 as int + 65536 * d2 as int,
    );
}

/// Index law: every index is the value of the bytes it is read from, least
/// significant byte first.  An 8-bit index is its byte; a 16-bit index has
/// its first byte as low and its second as high byte; a 32-bit index has its
/// four bytes, from the first, as its base-256 digits.  Element `i` is read
/// at `view.offset + accessor.offset + i * stride`.
pub proof fn lemma_indices_are_their_bytes(accessor: IndexAccessor, bufs: Seq<&[u8]>)
    requires
        accessor.view is Some,
        index_size(accessor.data_type) is Some,
    ensures
        ({
            let view = accessor.view->0;
            let data = bufs[view.buffer as int]@;
            let base = view.offset + accessor.offset;
            let stride = element_stride(view, index_size(accessor.data_type)->0);
            index_values(accessor, bufs) matches Ok(Some(v)) && v.len() == accessor.count
                && forall|i: int|
                0 <= i < accessor.count ==> {
                    let o = base + i * stride;
                    let x = #[trigger] v[i] as int;
                    &&& accessor.data_type == ComponentType::U8 ==> x == data[o]
                    &&& accessor.data_type == ComponentType::U16 ==> x % 256 == data[o] && x / 256
                        == data[o + 1]
                    &&& accessor.data_type == ComponentType::U32 ==> x % 256 == data[o] && (x / 256)
                        % 256 == data[o + 1] && (x / 65536) % 256 == data[o + 2] && x / 16777216
                        == data[o + 3]
                }
        }),
{
    let view = accessor.view->0;
    let data = bufs[view.buffer as int]@;
    let base = view.offset + accessor.offset;
    let size = index_size(accessor.data_type)->0;
    let stride = element_stride(view, size);
    let v = Seq::new(
        accessor.count as nat,
        |i: int| le_value(data, base + i * stride, size) as u32,
    );
    assert(index_values(accessor, bufs) == Ok::<Option<Seq<u32>>, Seq<char>>(Some(v)));
    assert forall|i: int| 0 <= i < accessor.count implies {
        let o = base + i * stride;
        let x = #[trigger] v[i] as int;
        &&& accessor.data_type == ComponentType::U8 ==> x == data[o]
        &&& accessor.data_type == ComponentType::U16 ==> x % 256 == data[o] && x / 256 == data[o
            + 1]
        &&& accessor.data_type == ComponentType::U32 ==> x % 256 == data[o] && (x / 256) % 256
            == data[o + 1] && (x / 65536) % 256 == data[o + 2] && x / 16777216 == data[o + 3]
    } by {
        let o = base + i * stride;
        if accessor.data_type == ComponentType::U16 {
            lemma_two_bytes(data[o], data[o + 1]);
        } else if accessor.data_type == ComponentType::U32 {
            lemma_four_bytes(data[o], data[o + 1], data[o + 2], data[o + 3]);
        }
    }
}

/// `r` is the glTF outcome described by `s`.
pub open spec fn gltf_outcome<T>(r: Result<T, LoadError>, s: Result<T, Seq<char>>) -> bool {
    match (r, s) {
        (Ok(a), Ok(b)) => a == b,
        (Err(LoadError::Gltf(m)), Err(t)) => m@ == t,
        _ => false,
    }
}

fn component_name_exec(t: ComponentType) -> (r: &'static str)
    ensures
        r@ == component_name(t),
{
    match t {
        ComponentType::I8 => "I8",
        ComponentType::U8 => "U8",
        ComponentType::I16 => "I16",
        ComponentType::U16 => "U16",
        ComponentType::U32 => "U32",
        ComponentType::F32 => "F32",
    }
}

/// Reads the index list of a primitive: `Ok(None)` when it has no index
/// accessor, an error for a sparse accessor or a non-integer index type,
/// and otherwise the `count` little-endian values the accessor points at.
pub fn read_indices(indices: &Option<IndexAccessor>, bufs: &[&[u8]]) -> (r: Result<
    Option<Vec<u32>>,
    LoadError,
>)
    requires
        indices matches Some(a) ==> index_read_in_bounds(*a, bufs@),
    ensures
        match indices {
            None => r matches Ok(None),
            Some(a) => gltf_outcome(
                match r {
                    Ok(Some(v)) => Ok(Some(v@)),
                    Ok(None) => Ok(None),
                    Err(e) => Err(e),
                },
                index_values(*a, bufs@),
            ),
        },
{
    let acc = match indices {
        Some(a) => *a,
        None => {
            return Ok(None);
        },
    };
    let view = match acc.view {
        Some(v) => v,
        None => {
            return Err(LoadError::Gltf(String::from_str("sparse index accessor not supported")));
        },
    };
    let data: &[u8] = bufs[view.buffer];
    let base = view.offset + acc.offset;
    let size: usize = match acc.data_type {
        ComponentType::U8 => 1,
        ComponentType::U16 => 2,
        ComponentType::U32 => 4,
        other => {
            let m = String::from_str("unsupported index type ").concat(component_name_exec(other));
            return Err(LoadError::Gltf(m));
        },
    };
    let stride = match view.stride {
        Some(s) => s,
        None => size,
    };
    let ghost expected = Seq::new(
        acc.count as nat,
        |i: int| le_value(data@, base + i * stride, size as nat) as u32,
    );
    let mut out: Vec<u32> = Vec::new();
    let mut i: usize = 0;
    let mut o: usize = base;
    while i < acc.count
        invariant
            i <= acc.count,
            i < acc.count ==> o as int == base + i * stride,
            acc.count > 0 ==> base + (acc.count - 1) * stride + size <= data@.len(),
            size == 1 || size == 2 || size == 4,
            expected.len() == acc.count,
            forall|j: int|
                0 <= j < acc.count ==> #[trigger] expected[j] == le_value(
                    data@,
                    base + j * stride,
                    size as nat,
                ) as u32,
            out@ == expected.take(i as int),
        decreases acc.count - i,
    {
        proof {
            vstd::arithmetic::mul::lemma_mul_inequality(i as int, acc.count - 1, stride as int);
        }
        let v: u32 = if size == 1 {
            data[o] as u32
        } else if size == 2 {
            data[o] as u32 + 256 * (data[o + 1] as u32)
        } else {
            data[o] as u32 + 256 * (data[o + 1] as u32) + 65536 * (data[o + 2] as u32) + 16777216
                * (data[o + 3] as u32)
        };
        assert(v == expected[i as int]);
        out.push(v);
        i = i + 1;
        if i < acc.count {
            proof {
                vstd::arithmetic::mul::lemma_mul_inequality(i as int, acc.count - 1, stride as int);
                assert(i * stride == (i - 1) * stride + stride) by (nonlinear_arith);
            }
            o = o + stride;
        } else {
            proof {
                assert(i * stride == (i - 1) * stride + stride) by (nonlinear_arith);
            }
        }
        assert(out@ =~= expected.take(i as int));
    }
    assert(expected.take(acc.count as int) =~= expected);
    Ok(Some(out))
}

/// The index list of a primitive with `vertex_count` vertices: the one read
/// from its index accessor, or `0, 1, 2, ...` (counted as `u32`) when it has
/// none.
pub fn primitive_indices(read: Option<Vec<u32>>, vertex_count: usize) -> (r: Vec<u32>)
    ensures
        match read {
            Some(v) => r@ == v@,
            None => r@ == Seq::new((vertex_count as u32) as nat, |i: int| i as u32),
        },
{
    match read {
        Some(v) => v,
        None => {
            let n = vertex_count as u32;
            let mut out: Vec<u32> = Vec::new();
            let mut i: u32 = 0;
            while i < n
                invariant
                    i <= n,
                    out@ == Seq::new(i as nat, |k: int| k as u32),
                decreases n - i,
            {
                out.push(i);
                i = i + 1;
                assert(out@ =~= Seq::new(i as nat, |k: int| k as u32));
            }
            out
        },
    }
}

/// How a glTF primitive's vertices are assembled (`gltf::mesh::Mode`).
#[derive(Copy, Clone, Debug, PartialEq, Eq, Structural)]
pub enum PrimitiveMode {
    Points,
    Lines,
    LineLoop,
    LineStrip,
    Triangles,
    TriangleStrip,
    TriangleFan,
}

/// Positions, in order, of the primitives drawn as triangle lists; a file
/// without any is refused.
pub fn triangle_primitives(modes: &Vec<PrimitiveMode>) -> (r: Result<Vec<usize>, LoadError>)
    ensures
        ({
            let sel = Seq::new(modes@.len(), |i: int| i).filter(
                |i: int| modes@[i] == PrimitiveMode::Triangles,
            );
            if sel.len() == 0 {
                gltf_outcome(r, Err("file contains no triangle primitives"@))
            } else {
                r matches Ok(v) && v@.map_values(|i: usize| i as int) == sel
            }
        }),
{
    let ghost all = Seq::new(modes@.len(), |i: int| i);
    let ghost pred = |i: int| modes@[i] == PrimitiveMode::Triangles;
    let mut out: Vec<usize> = Vec::new();
    let mut i: usize = 0;
    while i < modes.len()
        invariant
            i <= modes@.len(),
            all == Seq::new(modes@.len(), |i: int| i),
            pred == (|i: int| modes@[i] == PrimitiveMode::Triangles),
            out@.map_values(|i: usize| i as int) == all.take(i as int).filter(pred),
        decreases modes@.len() - i,
    {
        reveal_with_fuel(Seq::filter, 1);
        assert(all.take(i + 1).drop_last() =~= all.take(i as int));
        let ghost before = out@;
        if modes[i] == PrimitiveMode::Triangles {
            out.push(i);
            assert(out@.map_values(|i: usize| i as int) =~= before.map_values(|i: usize| i as int).push(i as int));
        } else {
            assert(out@ == before);
        }
        i = i + 1;
    }
    assert(all.take(modes@.len() as int) =~= all);
    if out.len() == 0 {
        return Err(LoadError::Gltf(String::from_str("file contains no triangle primitives")));
    }
    Ok(out)
}

} // verus!
