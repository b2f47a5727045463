//! The package-list source: a newline-delimited list of package names.
//!
//! A package name is a non-empty line with its surrounding whitespace
//! removed; blank lines are discarded before any step sees the list, and
//! the order of the remaining names is kept.

use vstd::prelude::*;

use crate::lines::{
    lemma_line_views_push, lemma_trim_no_surrounding_ws, line_views, spec_is_ws, spec_split_lines,
    spec_trim, split_lines, trim_bytes,
};

verus! {

/// The trimmed, non-empty entries of a sequence of lines, in order.
pub open spec fn trimmed_entries(lines: Seq<Seq<u8>>) -> Seq<Seq<u8>>
    decreases lines.len(),
{
    if lines.len() == 0 {
        Seq::empty()
    } else {
        let t = spec_trim(lines.first());
        let rest = trimmed_entries(lines.drop_first());
        if t.len() == 0 {
            rest
        } else {
            seq![t] + rest
        }
    }
}

/// Extending the lines at the back extends the entries at the back.
pub proof fn lemma_trimmed_entries_push(lines: Seq<Seq<u8>>, x: Seq<u8>)
    ensures
        trimmed_entries(lines.push(x)) == trimmed_entries(lines) + (if spec_trim(x).len() == 0 {
            Seq::empty()
        } else {
            seq![spec_trim(x)]
        }),
    decreases lines.len(),
{
    let tail: Seq<Seq<u8>> = if spec_trim(x).len() == 0 {
        Seq::empty()
    } else {
        seq![spec_trim(x)]
    };
    if lines.len() == 0 {
        assert(lines.push(x).drop_first() =~= Seq::<Seq<u8>>::empty());
        assert(lines.push(x).first() == x);
        assert(trimmed_entries(Seq::<Seq<u8>>::empty()) =~= Seq::<Seq<u8>>::empty());
        assert(trimmed_entries(lines) =~= Seq::<Seq<u8>>::empty());
        assert(trimmed_entries(lines.push(x)) =~= trimmed_entries(lines) + tail);
    } else {
        assert(lines.push(x).first() == lines.first());
        assert(lines.push(x).drop_first() =~= lines.drop_first().push(x));
        lemma_trimmed_entries_push(lines.drop_first(), x);
        if spec_trim(lines.first()).len() != 0 {
            assert(seq![spec_trim(lines.first())] + (trimmed_entries(lines.drop_first()) + tail)
                =~= (seq![spec_trim(lines.first())] + trimmed_entries(lines.drop_first())) + tail);
        }
    }
}

/// The package names carried by the content of a package-list file.
pub open spec fn spec_package_list(content: Seq<u8>) -> Seq<Seq<u8>> {
    trimmed_entries(spec_split_lines(content))
}

/// Loads a package list out of file content: one name per line, trimmed,
/// blank lines discarded, order preserved. No name that comes out carries
/// leading or trailing whitespace.
pub fn parse_package_list(content: &Vec<u8>) -> (r: Vec<Vec<u8>>)
    ensures
        line_views(r@) == spec_package_list(content@),
        forall|i: int|
            0 <= i < r@.len() ==> (#[trigger] r@[i]@).len() > 0 && !spec_is_ws(r@[i]@.first())
                && !spec_is_ws(r@[i]@.last()),
{
    let all_lines = split_lines(content);
    let ghost all = line_views(all_lines@);
    let mut r: Vec<Vec<u8>> = Vec::new();
    let mut i: usize = 0;
    proof {
        assert(all.take(0) =~= Seq::<Seq<u8>>::empty());
        assert(trimmed_entries(all.take(0)) =~= Seq::<Seq<u8>>::empty());
    }
    while i < all_lines.len()
        invariant
            i <= all_lines@.len(),
            all == line_views(all_lines@),
            line_views(r@) == trimmed_entries(all.take(i as int)),
            forall|k: int|
                0 <= k < r@.len() ==> (#[trigger] r@[k]@).len() > 0 && !spec_is_ws(r@[k]@.first())
                    && !spec_is_ws(r@[k]@.last()),
        decreases all_lines@.len() - i,
    {
        let entry = trim_bytes(&all_lines[i]);
        proof {
            assert(all.take(i + 1) =~= all.take(i as int).push(all[i as int]));
            lemma_trimmed_entries_push(all.take(i as int), all[i as int]);
            lemma_trim_no_surrounding_ws(all[i as int]);
        }
        if entry.len() > 0 {
            let ghost old_r = r@;
            r.push(entry);
            proof {
                lemma_line_views_push(old_r, r@[r@.len() - 1]);
                assert(line_views(r@) =~= trimmed_entries(all.take(i as int)) + seq![
                    spec_trim(all[i as int]),
                ]);
            }
        } else {
            proof {
                assert(line_views(r@) =~= trimmed_entries(all.take(i as int))
                    + Seq::<Seq<u8>>::empty());
            }
        }
        i += 1;
    }
    proof {
        assert(all.take(all.len() as int) =~= all);
    }
    r
}

} // verus!
