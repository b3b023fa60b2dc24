//! Small verified helpers on byte strings: fixed-size chunks of a slice,
//! comparison of arrays, and appending an array to a vector.

use vstd::prelude::*;

verus! {

/// Copies the `N` bytes of `bytes` that start at `start` into an array.
pub fn chunk<const N: usize>(bytes: &[u8], start: usize) -> (r: [u8; N])
    requires
        start + N <= bytes@.len(),
    ensures
        r@ == bytes@.subrange(start as int, start + N),
{
    let total: usize = bytes.len();
    let mut out: [u8; N] = [0u8; N];
    let mut i: usize = 0;
    while i < N
        invariant
            i <= N,
            total == bytes@.len(),
            start + N <= total,
            out@.len() == N,
            forall|j: int| 0 <= j < i ==> out@[j] == bytes@[start + j],
        decreases N - i,
    {
        out[i] = bytes[start + i];
        i = i + 1;
    }
    assert(out@ =~= bytes@.subrange(start as int, start + N));
    out
}

/// Whether two arrays hold the same bytes.
pub fn arrays_equal<const N: usize>(a: &[u8; N], b: &[u8; N]) -> (r: bool)
    ensures
        r == (a@ == b@),
{
    let mut i: usize = 0;
    while i < N
        invariant
            i <= N,
            a@.len() == N,
            b@.len() == N,
            forall|j: int| 0 <= j < i ==> a@[j] == b@[j],
        decreases N - i,
    {
        if a[i] != b[i] {
            return false;
        }
        i = i + 1;
    }
    assert(a@ =~= b@);
    true
}

/// Appends the bytes of `part` to `out`.
pub fn append_array<const N: usize>(out: &mut Vec<u8>, part: &[u8; N])
    ensures
        final(out)@ == old(out)@ + part@,
{
    let mut i: usize = 0;
    while i < N
        invariant
            i <= N,
            part@.len() == N,
            out@ == old(out)@ + part@.subrange(0, i as int),
        decreases N - i,
    {
        out.push(part[i]);
        assert(part@.subrange(0, i + 1) =~= part@.subrange(0, i as int).push(part@[i as int]));
        i = i + 1;
    }
    assert(part@.subrange(0, N as int) =~= part@);
}

/// Appends the bytes of `part` to `out`.
pub fn append_slice(out: &mut Vec<u8>, part: &[u8])
    ensures
        final(out)@ == old(out)@ + part@,
{
    let n: usize = part.len();
    let mut i: usize = 0;
    while i < n
        invariant
            i <= n,
            n == part@.len(),
            out@ == old(out)@ + part@.subrange(0, i as int),
        decreases n - i,
    {
        out.push(part[i]);
        assert(part@.subrange(0, i + 1) =~= part@.subrange(0, i as int).push(part@[i as int]));
        i = i + 1;
    }
    assert(part@.subrange(0, n as int) =~= part@);
}

/// The byte strings of a list of vectors, in order.
pub open spec fn views(parts: Seq<Vec<u8>>) -> Seq<Seq<u8>> {
    Seq::new(parts.len(), |i: int| parts[i]@)
}

/// The first `n` byte strings of `parts`, one after the other.
pub open spec fn joined(parts: Seq<Seq<u8>>, n: nat) -> Seq<u8>
    decreases n,
{
    if n == 0 {
        Seq::<u8>::empty()
    } else {
        joined(parts, (n - 1) as nat) + parts[n - 1]
    }
}

/// The byte strings of the first `n` lists of `lists`, one after the other.
pub open spec fn joined_lists(lists: Seq<Vec<Vec<u8>>>, n: nat) -> Seq<u8>
    decreases n,
{
    if n == 0 {
        Seq::<u8>::empty()
    } else {
        joined_lists(lists, (n - 1) as nat) + joined(
            views(lists[n - 1]@),
            lists[n - 1]@.len(),
        )
    }
}

/// All byte strings of `parts`, one after the other.
pub fn concat_all(parts: &Vec<Vec<u8>>) -> (r: Vec<u8>)
    ensures
        r@ == joined(views(parts@), parts@.len()),
{
    let n: usize = parts.len();
    let mut out: Vec<u8> = Vec::new();
    let mut i: usize = 0;
    while i < n
        invariant
            i <= n,
            n == parts@.len(),
            out@ == joined(views(parts@), i as nat),
        decreases n - i,
    {
        append_slice(&mut out, parts[i].as_slice());
        i = i + 1;
    }
    out
}

/// All byte strings of all lists of `lists`, one after the other.
pub fn concat_lists(lists: &Vec<Vec<Vec<u8>>>) -> (r: Vec<u8>)
    ensures
        r@ == joined_lists(lists@, lists@.len()),
{
    let n: usize = lists.len();
    let mut out: Vec<u8> = Vec::new();
    let mut i: usize = 0;
    while i < n
        invariant
            i <= n,
            n == lists@.len(),
            out@ == joined_lists(lists@, i as nat),
        decreases n - i,
    {
        let part = concat_all(&lists[i]);
        append_slice(&mut out, part.as_slice());
        i = i + 1;
    }
    out
}

} // verus!
