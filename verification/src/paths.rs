//! Paths as lists of components, and the few decisions that depend on what
//! a file is called or begins with.

use crate::timeline::copy_bytes;
use vstd::prelude::*;

verus! {

/// The path could not be rebased: it does not lie under the base.
#[derive(Clone, Copy, Debug, PartialEq, Eq, Structural)]
pub struct NotUnderBase;

/// The components of `base` are the first components of `path`.
pub open spec fn is_prefix(base: Seq<Vec<u8>>, path: Seq<Vec<u8>>) -> bool {
    base.len() <= path.len() && forall|i: int|
        0 <= i < base.len() ==> (#[trigger] base[i])@ == path[i]@
}

/// `r` is `path` with its first components, those of `base`, replaced by the
/// components of `new_base`.
pub open spec fn is_rebased(
    r: Seq<Vec<u8>>,
    path: Seq<Vec<u8>>,
    base: Seq<Vec<u8>>,
    new_base: Seq<Vec<u8>>,
) -> bool {
    &&& r.len() == new_base.len() + path.len() - base.len()
    &&& forall|i: int| 0 <= i < new_base.len() ==> (#[trigger] r[i])@ == new_base[i]@
    &&& forall|j: int|
        new_base.len() <= j < r.len() ==> (#[trigger] r[j])@ == path[j - new_base.len()
            + base.len()]@
}

fn same_component(a: &Vec<u8>, b: &Vec<u8>) -> (r: bool)
    ensures
        r == (a@ == b@),
{
    if a.len() != b.len() {
        return false;
    }
    let mut i: usize = 0;
    while i < a.len()
        invariant
            0 <= i <= a@.len(),
            a@.len() == b@.len(),
            forall|k: int| 0 <= k < i ==> a@[k] == b@[k],
        decreases a@.len() - i,
    {
        if a[i] != b[i] {
            return false;
        }
        i += 1;
    }
    proof {
        assert(a@ =~= b@);
    }
    true
}

/// The path that lies under `new_base` as `path` lies under
/// `base`. Paths are given by their components. A path that does not lie
/// under `base` cannot be rebased.
pub fn rebase_directory(
    path: &Vec<Vec<u8>>,
    base: &Vec<Vec<u8>>,
    new_base: &Vec<Vec<u8>>,
) -> (r: Result<Vec<Vec<u8>>, NotUnderBase>)
    ensures
        r is Ok == is_prefix(base@, path@),
        r is Ok ==> is_rebased(r.unwrap()@, path@, base@, new_base@),
{
    if base.len() > path.len() {
        return Err(NotUnderBase);
    }
    let mut i: usize = 0;
    while i < base.len()
        invariant
            0 <= i <= base@.len(),
            base@.len() <= path@.len(),
            forall|k: int| 0 <= k < i ==> (#[trigger] base@[k])@ == path@[k]@,
        decreases base@.len() - i,
    {
        if !same_component(&base[i], &path[i]) {
            return Err(NotUnderBase);
        }
        i += 1;
    }
    let mut out: Vec<Vec<u8>> = Vec::new();
    let mut j: usize = 0;
    while j < new_base.len()
        invariant
            0 <= j <= new_base@.len(),
            out@.len() == j,
            forall|k: int| 0 <= k < j ==> (#[trigger] out@[k])@ == new_base@[k]@,
        decreases new_base@.len() - j,
    {
        out.push(copy_bytes(&new_base[j]));
        j += 1;
    }
    let mut k: usize = base.len();
    while k < path.len()
        invariant
            base@.len() <= k <= path@.len(),
            out@.len() == new_base@.len() + k - base@.len(),
            forall|a: int| 0 <= a < new_base@.len() ==> (#[trigger] out@[a])@ == new_base@[a]@,
            forall|a: int|
                new_base@.len() <= a < out@.len() ==> (#[trigger] out@[a])@ == path@[a
                    - new_base@.len() + base@.len()]@,
        decreases path@.len() - k,
    {
        out.push(copy_bytes(&path[k]));
        k += 1;
    }
    Ok(out)
}

/// The first two bytes of an image layer file, read as one number.
pub const IMAGE_FILE_MAGIC: u16 = 0x5A60;

/// The first two bytes of a delta layer file, read as one number.
pub const DELTA_FILE_MAGIC: u16 = 0x5A61;

/// The kind of a layer file.
#[derive(Clone, Copy, Debug, PartialEq, Eq, Structural)]
pub enum LayerFileKind {
    Image,
    Delta,
}

/// The first two bytes of a file say no kind of layer file.
#[derive(Clone, Copy, Debug, PartialEq, Eq, Structural)]
pub struct UnrecognizedMagic(pub u16);

/// The number that two bytes spell, the first being the more significant.
pub open spec fn be_u16(b0: u8, b1: u8) -> u16 {
    (b0 as u16 * 256 + b1 as u16) as u16
}

/// The kind of layer file that begins with the bytes `b0` and `b1`.
pub fn layer_file_kind(b0: u8, b1: u8) -> (r: Result<LayerFileKind, UnrecognizedMagic>)
    ensures
        r == (if be_u16(b0, b1) == IMAGE_FILE_MAGIC {
            Ok::<LayerFileKind, UnrecognizedMagic>(LayerFileKind::Image)
        } else if be_u16(b0, b1) == DELTA_FILE_MAGIC {
            Ok::<LayerFileKind, UnrecognizedMagic>(LayerFileKind::Delta)
        } else {
            Err::<LayerFileKind, UnrecognizedMagic>(UnrecognizedMagic(be_u16(b0, b1)))
        }),
{
    let magic: u16 = (b0 as u16) * 256 + (b1 as u16);
    if magic == IMAGE_FILE_MAGIC {
        Ok(LayerFileKind::Image)
    } else if magic == DELTA_FILE_MAGIC {
        Ok(LayerFileKind::Delta)
    } else {
        Err(UnrecognizedMagic(magic))
    }
}

} // verus!
