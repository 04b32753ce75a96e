//! Choosing a loader for a model file.

use vstd::prelude::*;
use crate::error::LoadError;
use crate::text::{ascii_lowercase, to_ascii_lowercase, to_chars};

verus! {

/// The model formats the loaders read.
#[derive(Copy, Clone, Debug, PartialEq, Eq, Structural)]
pub enum ModelFormat {
    /// Wavefront `.obj`.
    Obj,
    /// glTF 2.0, as `.gltf` or binary `.glb`.
    Gltf,
}

/// The format a file extension (without the dot) names, compared without
/// regard to ASCII case; any other extension is refused with
/// `UnsupportedFormat` carrying it in lower case.
pub fn format_for_extension(ext: &str) -> (r: Result<ModelFormat, LoadError>)
    ensures
        ({
            let l = ascii_lowercase(ext@);
            if l == seq!['o', 'b', 'j'] {
                r matches Ok(ModelFormat::Obj)
            } else if l == seq!['g', 'l', 't', 'f'] || l == seq!['g', 'l', 'b'] {
                r matches Ok(ModelFormat::Gltf)
            } else {
                r matches Err(LoadError::UnsupportedFormat(m)) && m@ == l
            }
        }),
{
    let lower = to_ascii_lowercase(ext);
    let cs = to_chars(lower.as_str());
    let ghost l = cs@;
    if cs.len() == 3 && cs[0] == 'o' && cs[1] == 'b' && cs[2] == 'j' {
        assert(l =~= seq!['o', 'b', 'j']);
        return Ok(ModelFormat::Obj);
    }
    if cs.len() == 4 && cs[0] == 'g' && cs[1] == 'l' && cs[2] == 't' && cs[3] == 'f' {
        assert(l =~= seq!['g', 'l', 't', 'f']);
        assert(l != seq!['o', 'b', 'j']);
        return Ok(ModelFormat::Gltf);
    }
    if cs.len() == 3 && cs[0] == 'g' && cs[1] == 'l' && cs[2] == 'b' {
        assert(l =~= seq!['g', 'l', 'b']);
        assert(l != seq!['o', 'b', 'j']) by {
            assert(seq!['o', 'b', 'j'][0] == 'o');
        }
        assert(l != seq!['g', 'l', 't', 'f']);
        return Ok(ModelFormat::Gltf);
    }
    proof {
        if l == seq!['o', 'b', 'j'] {
            assert(l.len() == 3 && l[0] == 'o' && l[1] == 'b' && l[2] == 'j');
        }
        if l == seq!['g', 'l', 't', 'f'] {
            assert(l.len() == 4 && l[0] == 'g' && l[1] == 'l' && l[2] == 't' && l[3] == 'f');
        }
        if l == seq!['g', 'l', 'b'] {
            assert(l.len() == 3 && l[0] == 'g' && l[1] == 'l' && l[2] == 'b');
        }
    }
    Err(LoadError::UnsupportedFormat(lower))
}

} // verus!
