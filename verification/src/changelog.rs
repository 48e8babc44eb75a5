//! Splicing a formatted block of change entries into a changelog document.
//!
//! The document is handled as bytes; a version heading is the byte sequence
//! `"## "`. The new block goes immediately before the first such heading, so
//! it lands above the latest recorded version. Reading and writing the
//! document is a driver's job; this module only computes the new contents.

use vstd::prelude::*;

verus! {

/// Whether position `i` in `data` starts a version heading: the bytes of
/// `"## "` (35, 35, 32: two number signs and a space).
pub open spec fn is_heading_at(data: Seq<u8>, i: int) -> bool {
    &&& 0 <= i
    &&& i + 3 <= data.len()
    &&& data[i] == 35u8
    &&& data[i + 1] == 35u8
    &&& data[i + 2] == 32u8
}

/// Whether `data` contains a version heading at all.
pub open spec fn has_heading(data: Seq<u8>) -> bool {
    exists|i: int| is_heading_at(data, i)
}

/// The position of the first version heading of `data`.
pub open spec fn first_heading(data: Seq<u8>) -> int {
    choose|i: int|
        is_heading_at(data, i) && (forall|j: int| 0 <= j < i ==> !is_heading_at(data, j))
}

/// Why a changelog document was rejected.
#[derive(Clone, Copy, Debug, PartialEq, Eq, Structural)]
pub enum ChangelogError {
    /// The document has no version heading to insert above.
    MissingVersionHeading,
}

/// Insert `changes` immediately before the first version heading of `data`.
/// A document without any version heading is rejected unchanged.
pub fn insert_before_first_heading(data: &Vec<u8>, changes: &Vec<u8>) -> (r: Result<
    Vec<u8>,
    ChangelogError,
>)
    ensures
        r is Ok <==> has_heading(data@),
        r is Ok ==> {
            let i = first_heading(data@);
            &&& is_heading_at(data@, i)
            &&& forall|j: int| 0 <= j < i ==> !is_heading_at(data@, j)
            &&& r->Ok_0@ == data@.take(i) + changes@ + data@.skip(i)
        },
        r is Err ==> r->Err_0 == ChangelogError::MissingVersionHeading,
{
    let n = data.len();
    let mut i: usize = 0;
    let mut found: bool = false;
    while !found && n >= 3 && i < n - 2
        invariant
            n == data@.len(),
            i <= n,
            !found ==> forall|j: int| 0 <= j < i ==> !is_heading_at(data@, j),
            found ==> is_heading_at(data@, i as int) && (forall|j: int|
                0 <= j < i ==> !is_heading_at(data@, j)),
        decreases n - i + (if found { 0int } else { 1int }),
    {
        if data[i] == 35 && data[i + 1] == 35 && data[i + 2] == 32 {
            found = true;
        } else {
            i = i + 1;
        }
    }
    if !found {
        proof {
            assert forall|j: int| !is_heading_at(data@, j) by {
                if 0 <= j < i {
                } else if j + 3 > data@.len() {
                }
            }
        }
        return Err(ChangelogError::MissingVersionHeading);
    }
    proof {
        assert(has_heading(data@));
        assert(first_heading(data@) == i as int) by {
            let fh = first_heading(data@);
            assert(is_heading_at(data@, fh) && (forall|j: int|
                0 <= j < fh ==> !is_heading_at(data@, j)));
        }
    }
    let mut out: Vec<u8> = Vec::new();
    let mut j: usize = 0;
    while j < i
        invariant
            j <= i,
            i as int + 2 < data@.len(),
            out@ == data@.take(j as int),
        decreases i - j,
    {
        out.push(data[j]);
        proof {
            assert(out@ =~= data@.take(j as int + 1));
        }
        j = j + 1;
    }
    let mut c: usize = 0;
    while c < changes.len()
        invariant
            c <= changes@.len(),
            i as int + 2 < data@.len(),
            out@ == data@.take(i as int) + changes@.take(c as int),
        decreases changes@.len() - c,
    {
        out.push(changes[c]);
        proof {
            assert(out@ =~= data@.take(i as int) + changes@.take(c as int + 1));
        }
        c = c + 1;
    }
    proof {
        assert(changes@.take(changes@.len() as int) =~= changes@);
    }
    let mut k: usize = i;
    while k < data.len()
        invariant
            i <= k <= data@.len(),
            out@ == data@.take(i as int) + changes@ + data@.subrange(i as int, k as int),
        decreases data@.len() - k,
    {
        out.push(data[k]);
        proof {
            assert(out@ =~= data@.take(i as int) + changes@ + data@.subrange(
                i as int,
                k as int + 1,
            ));
        }
        k = k + 1;
    }
    proof {
        assert(data@.subrange(i as int, data@.len() as int) =~= data@.skip(i as int));
    }
    Ok(out)
}

} // verus!
