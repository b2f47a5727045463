//! Path decisions of the dotfile deployment.
//!
//! The deployment mirrors a staged configuration tree into the home
//! directory. The walking and copying are outside work; what stands here
//! is what the mirror decides per entry: paths that identify
//! version-control metadata are skipped, and every other entry goes to
//! the destination obtained by replacing the staging root with the home
//! root, so the directory structure is preserved.

use vstd::prelude::*;

verus! {

/// The bytes of the version-control marker `.git`.
pub open spec fn vcs_marker() -> Seq<u8> {
    seq![46u8, 103u8, 105u8, 116u8]
}

/// Whether the path contains the version-control marker anywhere.
pub open spec fn has_vcs_marker(path: Seq<u8>) -> bool {
    exists|i: int| 0 <= i && i + 4 <= path.len() && #[trigger] path.subrange(i, i + 4) == vcs_marker()
}

/// Whether `prefix` is a prefix of `s`.
pub open spec fn starts_with(s: Seq<u8>, prefix: Seq<u8>) -> bool {
    prefix.len() <= s.len() && s.subrange(0, prefix.len() as int) == prefix
}

/// Whether a staged entry identifies version-control metadata and is to
/// be skipped by the mirror.
pub fn contains_vcs_marker(path: &Vec<u8>) -> (r: bool)
    ensures
        r == has_vcs_marker(path@),
{
    if path.len() < 4 {
        return false;
    }
    let mut i: usize = 0;
    while i <= path.len() - 4
        invariant
            path@.len() >= 4,
            i <= path@.len() - 4 + 1,
            forall|j: int| 0 <= j < i ==> #[trigger] path@.subrange(j, j + 4) != vcs_marker(),
        decreases path@.len() - i,
    {
        let hit = path[i] == 46u8 && path[i + 1] == 103u8 && path[i + 2] == 105u8 && path[i + 3]
            == 116u8;
        proof {
            let seg = path@.subrange(i as int, i + 4);
            assert(seg[0] == path@[i as int] && seg[1] == path@[i as int + 1] && seg[2] == path@[
                i as int + 2] && seg[3] == path@[i as int + 3]);
            assert(vcs_marker()[0] == 46u8 && vcs_marker()[1] == 103u8 && vcs_marker()[2] == 105u8
                && vcs_marker()[3] == 116u8);
            if hit {
                assert(seg =~= vcs_marker());
            }
        }
        if hit {
            return true;
        }
        i += 1;
    }
    proof {
        if has_vcs_marker(path@) {
            let j = choose|j: int|
                0 <= j && j + 4 <= path@.len() && #[trigger] path@.subrange(j, j + 4)
                    == vcs_marker();
            assert(j < i);
        }
    }
    false
}

/// The destination of a staged entry: the staging root replaced by the
/// home root, the rest of the path kept as it is. Nothing when the entry
/// does not lie under the staging root.
pub fn rebase_path(path: &Vec<u8>, from: &Vec<u8>, to: &Vec<u8>) -> (r: Option<Vec<u8>>)
    ensures
        match r {
            Some(q) => starts_with(path@, from@) && q@ == to@ + path@.skip(from@.len() as int),
            None => !starts_with(path@, from@),
        },
{
    if from.len() > path.len() {
        return None;
    }
    let mut k: usize = 0;
    while k < from.len()
        invariant
            from@.len() <= path@.len(),
            k <= from@.len(),
            forall|j: int| 0 <= j < k ==> path@[j] == from@[j],
        decreases from@.len() - k,
    {
        if path[k] != from[k] {
            proof {
                if starts_with(path@, from@) {
                    assert(path@.subrange(0, from@.len() as int)[k as int] == path@[k as int]);
                }
            }
            return None;
        }
        k += 1;
    }
    proof {
        assert(path@.subrange(0, from@.len() as int) =~= from@);
    }
    let mut q: Vec<u8> = Vec::new();
    let mut a: usize = 0;
    while a < to.len()
        invariant
            a <= to@.len(),
            q@ == to@.take(a as int),
        decreases to@.len() - a,
    {
        q.push(to[a]);
        proof {
            assert(q@ =~= to@.take(a + 1));
        }
        a += 1;
    }
    let mut b: usize = from.len();
    while b < path.len()
        invariant
            from@.len() <= b <= path@.len(),
            q@ == to@.take(to@.len() as int) + path@.subrange(from@.len() as int, b as int),
        decreases path@.len() - b,
    {
        q.push(path[b]);
        proof {
            assert(q@ =~= to@.take(to@.len() as int) + path@.subrange(
                from@.len() as int,
                b + 1,
            ));
        }
        b += 1;
    }
    proof {
        assert(to@.take(to@.len() as int) =~= to@);
        assert(path@.subrange(from@.len() as int, path@.len() as int) =~= path@.skip(
            from@.len() as int,
        ));
        assert(q@ =~= to@ + path@.skip(from@.len() as int));
    }
    Some(q)
}

} // verus!
