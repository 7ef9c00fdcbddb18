//! The manifest: logical paths and the bytes to place at them, and its checks.
use vstd::prelude::*;
use crate::name::{valid_path, is_valid_path, SLASH};
use crate::BuildError;

verus! {

/// One file to place in the image: its logical path and its content.
pub struct ManifestEntry {
    pub path: Vec<u8>,
    pub data: Vec<u8>,
}

/// `b` lies below the directory `a`: it starts with `a` and a slash.
pub open spec fn under(a: Seq<u8>, b: Seq<u8>) -> bool {
    a.len() < b.len() && b[a.len() as int] == SLASH && b.take(a.len() as int) == a
}

/// Two paths that cannot both name a file: equal, or one a directory of the other.
pub open spec fn conflict(a: Seq<u8>, b: Seq<u8>) -> bool {
    a == b || under(a, b) || under(b, a)
}

pub open spec fn paths(m: Seq<ManifestEntry>) -> Seq<Seq<u8>> {
    Seq::new(m.len(), |i: int| m[i].path@)
}

/// Empty, a malformed path, or no byte of content at all.
pub open spec fn manifest_invalid(m: Seq<ManifestEntry>) -> bool {
    ||| m.len() == 0
    ||| exists|i: int| 0 <= i < m.len() && !valid_path(#[trigger] m[i].path@)
    ||| forall|i: int| 0 <= i < m.len() ==> (#[trigger] m[i].data@).len() == 0
}

pub open spec fn has_conflict(m: Seq<ManifestEntry>) -> bool {
    exists|i: int, j: int| 0 <= i < j < m.len() && conflict(#[trigger] m[i].path@, #[trigger] m[j].path@)
}

/// Well-formed, and no two paths in conflict.
pub open spec fn manifest_ok(m: Seq<ManifestEntry>) -> bool {
    !manifest_invalid(m) && !has_conflict(m)
}

pub fn is_under(a: &Vec<u8>, b: &Vec<u8>) -> (r: bool)
    ensures
        r == under(a@, b@),
{
    if a.len() >= b.len() || b[a.len()] != SLASH {
        return false;
    }
    let mut i: usize = 0;
    while i < a.len()
        invariant
            a@.len() < b@.len(),
            i <= a@.len(),
            forall|k: int| 0 <= k < i ==> a@[k] == b@[k],
        decreases a@.len() - i,
    {
        if a[i] != b[i] {
            assert(b@.take(a@.len() as int)[i as int] != a@[i as int]);
            return false;
        }
        i = i + 1;
    }
    assert(b@.take(a@.len() as int) =~= a@);
    true
}

pub fn same_bytes(a: &Vec<u8>, b: &Vec<u8>) -> (r: bool)
    ensures
        r == (a@ == b@),
{
    if a.len() != b.len() {
        return false;
    }
    let mut i: usize = 0;
    while i < a.len()
        invariant
            a@.len() == b@.len(),
            i <= a@.len(),
            forall|k: int| 0 <= k < i ==> a@[k] == b@[k],
        decreases a@.len() - i,
    {
        if a[i] != b[i] {
            return false;
        }
        i = i + 1;
    }
    assert(a@ =~= b@);
    true
}

pub fn in_conflict(a: &Vec<u8>, b: &Vec<u8>) -> (r: bool)
    ensures
        r == conflict(a@, b@),
{
    same_bytes(a, b) || is_under(a, b) || is_under(b, a)
}

/// Checks a manifest before anything is laid out.
pub fn check_manifest(m: &Vec<ManifestEntry>) -> (r: Result<(), BuildError>)
    ensures
        (r is Ok) <==> manifest_ok(m@),
        (r matches Err(BuildError::InvalidManifest)) <==> manifest_invalid(m@),
        (r matches Err(BuildError::PathConflict { .. })) <==> !manifest_invalid(m@) && has_conflict(m@),
        r matches Err(BuildError::PathConflict { first, second }) ==> first < second < m@.len()
            && conflict(m@[first as int].path@, m@[second as int].path@),
        r is Ok || r matches Err(BuildError::InvalidManifest) || r matches Err(BuildError::PathConflict { .. }),
{
    let n = m.len();
    if n == 0 {
        return Err(BuildError::InvalidManifest);
    }
    let mut any_content = false;
    let mut i: usize = 0;
    while i < n
        invariant
            n == m@.len(),
            i <= n,
            forall|k: int| 0 <= k < i ==> valid_path(#[trigger] m@[k].path@),
            any_content <==> exists|k: int| 0 <= k < i && (#[trigger] m@[k].data@).len() > 0,
        decreases n - i,
    {
        if !is_valid_path(&m[i].path) {
            return Err(BuildError::InvalidManifest);
        }
        if m[i].data.len() > 0 {
            any_content = true;
        }
        i = i + 1;
    }
    if !any_content {
        return Err(BuildError::InvalidManifest);
    }
    let mut j: usize = 0;
    while j < n
        invariant
            n == m@.len(),
            !manifest_invalid(m@),
            j <= n,
            forall|a: int, b: int| 0 <= a < b < j ==> !conflict(#[trigger] m@[a].path@, #[trigger] m@[b].path@),
        decreases n - j,
    {
        let mut k: usize = 0;
        while k < j
            invariant
                n == m@.len(),
                !manifest_invalid(m@),
                j < n,
                k <= j,
                forall|a: int, b: int| 0 <= a < b < j ==> !conflict(#[trigger] m@[a].path@, #[trigger] m@[b].path@),
                forall|a: int| 0 <= a < k ==> !conflict(#[trigger] m@[a].path@, m@[j as int].path@),
            decreases j - k,
        {
            if in_conflict(&m[k].path, &m[j].path) {
                return Err(BuildError::PathConflict { first: k, second: j });
            }
            k = k + 1;
        }
        j = j + 1;
    }
    Ok(())
}

} // verus!
