//! The reported lines.
//!
//! Reporting is purely observational: one line per path as it
//! resolves, and one closing notice once every path has. The exact
//! bytes of both are pinned here, so that what the program prints is
//! what the coordinator was told.

use vstd::prelude::*;

verus! {

/// The bytes of `" exists!"`, the marker after each resolved path.
pub open spec fn exists_suffix() -> Seq<u8> {
    seq![32u8, 101u8, 120u8, 105u8, 115u8, 116u8, 115u8, 33u8]
}

/// The bytes of `"all files now exist"`, the closing notice.
pub open spec fn all_resolved_text() -> Seq<u8> {
    seq![
        97u8,
        108u8,
        108u8,
        32u8,
        102u8,
        105u8,
        108u8,
        101u8,
        115u8,
        32u8,
        110u8,
        111u8,
        119u8,
        32u8,
        101u8,
        120u8,
        105u8,
        115u8,
        116u8,
    ]
}

/// The line printed when `path` resolves: the path followed by
/// `" exists!"`.
pub fn success_line(path: &Vec<u8>) -> (r: Vec<u8>)
    ensures
        r@ == path@ + exists_suffix(),
{
    let mut r: Vec<u8> = Vec::new();
    let mut j: usize = 0;
    while j < path.len()
        invariant
            j <= path@.len(),
            r@ == path@.take(j as int),
        decreases path@.len() - j,
    {
        r.push(path[j]);
        assert(r@ =~= path@.take(j + 1));
        j += 1;
    }
    assert(r@ =~= path@);
    r.push(32);
    r.push(101);
    r.push(120);
    r.push(105);
    r.push(115);
    r.push(116);
    r.push(115);
    r.push(33);
    assert(r@ =~= path@ + exists_suffix());
    r
}

/// The closing notice emitted once every requested path has
/// resolved.
pub fn all_resolved_line() -> (r: Vec<u8>)
    ensures
        r@ == all_resolved_text(),
{
    let mut r: Vec<u8> = Vec::new();
    r.push(97);
    r.push(108);
    r.push(108);
    r.push(32);
    r.push(102);
    r.push(105);
    r.push(108);
    r.push(101);
    r.push(115);
    r.push(32);
    r.push(110);
    r.push(111);
    r.push(119);
    r.push(32);
    r.push(101);
    r.push(120);
    r.push(105);
    r.push(115);
    r.push(116);
    assert(r@ =~= all_resolved_text());
    r
}

} // verus!
