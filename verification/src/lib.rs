//! The discrete core of a path tracer.
//!
//! Everything here works on ordered coordinate codes: signed 64-bit integers
//! that sort exactly as the quantities they stand for (see `code`). The
//! library compares, selects and arranges such codes (bounding boxes, the
//! bounding-volume hierarchy, closest-hit bookkeeping, lattice hashing for
//! gradient noise, raster lookups, the decisions of shapes and materials)
//! and never does arithmetic on the quantities; the numeric work that
//! produces them belongs to the caller.

pub mod code;
pub mod vec3;
pub mod aabb;
pub mod hittable;
pub mod hittable_list;
pub mod rtweekend;
pub mod bvh;
pub mod traversal;
pub mod perlin;
pub mod texture;
pub mod sphere;
pub mod aarect;
pub mod box_object;
pub mod constant_medium;
pub mod integrator;
pub mod material;
pub mod color;

use vstd::prelude::*;
use vstd::string::StringSliceAdditionalSpecFns;

verus! {

/// Whether the run is a continuous-integration run, given the value of the
/// variable `CI` if it is set: only the exact value `true` says so.
pub fn is_ci(ci: Option<&str>) -> (r: bool)
    ensures
        r == (ci matches Some(s) && s@ == "true"@),
{
    match ci {
        Some(s) => {
            let b = s.as_bytes();
            proof {
                reveal_strlit("true");
                vstd::string::is_ascii_spec_bytes("true");
                vstd::utf8::encode_utf8_decode_utf8(s@);
                vstd::utf8::encode_utf8_decode_utf8("true"@);
                assert("true".spec_bytes() =~= seq![116u8, 114u8, 117u8, 101u8]);
            }
            let r = b.len() == 4 && b[0] == 116 && b[1] == 114 && b[2] == 117 && b[3] == 101;
            proof {
                if r {
                    assert(b@ =~= seq![116u8, 114u8, 117u8, 101u8]);
                }
            }
            r
        },
        None => false,
    }
}

} // verus!
