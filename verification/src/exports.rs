//! The export-sync engine and the shell-startup-file snapshot.
//!
//! A canonical list of `export` declarations is reconciled against the
//! current contents of one or more shell startup files. For each target
//! file, the engine computes exactly the declarations that are missing and
//! leaves everything already present untouched. Two declarations are equal
//! exactly when their bytes are identical.

use vstd::prelude::*;

use crate::lines::{bytes_eq, clone_line, line_views, spec_split_lines, split_lines};
use crate::select::{
    is_subsequence, keep_matching, lemma_keep_matching_empty, lemma_keep_matching_membership,
    lemma_keep_matching_push, lemma_keep_matching_subsequence,
};

verus! {

/// The bytes of the token `export ` that opens every export declaration.
pub open spec fn export_prefix() -> Seq<u8> {
    seq![101u8, 120u8, 112u8, 111u8, 114u8, 116u8, 32u8]
}

/// An export declaration: a line that begins with the token `export `.
pub open spec fn is_export_line(l: Seq<u8>) -> bool {
    l.len() >= 7 && l.subrange(0, 7) == export_prefix()
}

/// Whether a line begins with the token `export `.
pub fn starts_with_export(line: &Vec<u8>) -> (r: bool)
    ensures
        r == is_export_line(line@),
{
    if line.len() < 7 {
        return false;
    }
    let r = line[0] == 101u8 && line[1] == 120u8 && line[2] == 112u8 && line[3] == 111u8
        && line[4] == 114u8 && line[5] == 116u8 && line[6] == 32u8;
    proof {
        let p = line@.subrange(0, 7);
        assert(p[0] == line@[0] && p[1] == line@[1] && p[2] == line@[2] && p[3] == line@[3] && p[4]
            == line@[4] && p[5] == line@[5] && p[6] == line@[6]);
        if r {
            assert(p =~= export_prefix());
        } else {
            assert(export_prefix()[0] == 101u8 && export_prefix()[1] == 120u8 && export_prefix()[2]
                == 112u8 && export_prefix()[3] == 111u8 && export_prefix()[4] == 114u8
                && export_prefix()[5] == 116u8 && export_prefix()[6] == 32u8);
        }
    }
    r
}

/// Why the export-sync phase failed. Either failure is fatal to this
/// phase alone: it neither undoes nor prevents any other phase. A target
/// startup file that does not exist is not created: the shell's own
/// first run is expected to have made it.
pub enum SyncPhaseError {
    /// The canonical source-of-truth file could not be opened or read.
    ConfigUnavailable,
    /// A target startup file could not be opened for reading or append.
    TargetMissing,
}

impl SyncPhaseError {
    /// Whether the failure lies with the canonical list rather than with
    /// one of the targets.
    pub fn is_config(&self) -> (r: bool)
        ensures
            r == (self is ConfigUnavailable),
    {
        match self {
            SyncPhaseError::ConfigUnavailable => true,
            SyncPhaseError::TargetMissing => false,
        }
    }
}

/// The set of export declarations present among the given file lines.
pub open spec fn spec_snapshot(file_lines: Seq<Seq<u8>>) -> Set<Seq<u8>> {
    Set::new(|l: Seq<u8>| file_lines.contains(l) && is_export_line(l))
}

/// The export declarations already present in one shell startup file at
/// the moment it was read: an unordered set, independent of every other
/// file's snapshot.
pub struct RcSnapshot {
    exports: Vec<Vec<u8>>,
}

impl RcSnapshot {
    /// The set of declarations this snapshot holds.
    pub closed spec fn set_view(&self) -> Set<Seq<u8>> {
        Set::new(|l: Seq<u8>| line_views(self.exports@).contains(l))
    }

    /// Reads a snapshot off the lines of a startup file: a line belongs to
    /// it exactly when it begins with `export `; duplicates collapse.
    pub fn of_lines(file_lines: &Vec<Vec<u8>>) -> (s: Self)
        ensures
            s.set_view() == spec_snapshot(line_views(file_lines@)),
    {
        let ghost all = line_views(file_lines@);
        let mut exports: Vec<Vec<u8>> = Vec::new();
        let mut i: usize = 0;
        while i < file_lines.len()
            invariant
                i <= file_lines@.len(),
                all == line_views(file_lines@),
                forall|k: int|
                    0 <= k < exports@.len() ==> is_export_line(#[trigger] exports@[k]@)
                        && all.contains(exports@[k]@),
                forall|k: int|
                    0 <= k < i && is_export_line(#[trigger] all[k]) ==> line_views(
                        exports@,
                    ).contains(all[k]),
            decreases file_lines@.len() - i,
        {
            let is_exp = starts_with_export(&file_lines[i]);
            if is_exp {
                let ghost old_exports = exports@;
                exports.push(clone_line(&file_lines[i]));
                proof {
                    crate::lines::lemma_line_views_push(old_exports, exports@[exports@.len() - 1]);
                    assert(exports@[exports@.len() - 1]@ == all[i as int]);
                    assert(all.contains(all[i as int]));
                    assert forall|k: int|
                        0 <= k < i + 1 && is_export_line(#[trigger] all[k]) implies line_views(
                        exports@,
                    ).contains(all[k]) by {
                        if k < i {
                            assert(line_views(old_exports).contains(all[k]));
                            let j = choose|j: int|
                                0 <= j < line_views(old_exports).len() && line_views(
                                    old_exports,
                                )[j] == all[k];
                            assert(line_views(exports@)[j] == all[k]);
                        } else {
                            assert(line_views(exports@)[line_views(exports@).len() - 1] == all[k]);
                        }
                    }
                }
            }
            i += 1;
        }
        let s = RcSnapshot { exports };
        proof {
            assert forall|l: Seq<u8>| #[trigger]
                s.set_view().contains(l) implies spec_snapshot(all).contains(l) by {
                let j = choose|j: int|
                    0 <= j < line_views(s.exports@).len() && line_views(s.exports@)[j] == l;
                assert(is_export_line(s.exports@[j]@));
            }
            assert forall|l: Seq<u8>| #[trigger]
                spec_snapshot(all).contains(l) implies s.set_view().contains(l) by {
                let k = choose|k: int| 0 <= k < all.len() && all[k] == l;
                assert(is_export_line(all[k]));
            }
            assert(s.set_view() =~= spec_snapshot(all));
        }
        s
    }

    /// Whether a declaration with exactly these bytes is in the snapshot.
    pub fn contains_line(&self, line: &Vec<u8>) -> (r: bool)
        ensures
            r == self.set_view().contains(line@),
    {
        let mut i: usize = 0;
        while i < self.exports.len()
            invariant
                i <= self.exports@.len(),
                forall|k: int| 0 <= k < i ==> #[trigger] self.exports@[k]@ != line@,
            decreases self.exports@.len() - i,
        {
            if bytes_eq(&self.exports[i], line) {
                proof {
                    assert(line_views(self.exports@)[i as int] == line@);
                }
                return true;
            }
            i += 1;
        }
        proof {
            if self.set_view().contains(line@) {
                let j = choose|j: int|
                    0 <= j < line_views(self.exports@).len() && line_views(self.exports@)[j]
                        == line@;
                assert(self.exports@[j]@ == line@);
            }
        }
        false
    }
}

/// The declarations of the canonical list that are absent from `present`,
/// in canonical order.
pub open spec fn spec_missing(canonical: Seq<Seq<u8>>, present: Set<Seq<u8>>) -> Seq<Seq<u8>> {
    keep_matching(canonical, |l: Seq<u8>| !present.contains(l))
}

/// The canonical export list carried by the source-of-truth file: its
/// export declarations, in file order; every other line is ignored.
pub open spec fn spec_canonical(content: Seq<u8>) -> Seq<Seq<u8>> {
    keep_matching(spec_split_lines(content), |l: Seq<u8>| is_export_line(l))
}

/// Reads the canonical export list out of the content of the
/// source-of-truth file.
pub fn parse_canonical(content: &Vec<u8>) -> (r: Vec<Vec<u8>>)
    ensures
        line_views(r@) == spec_canonical(content@),
        forall|i: int| 0 <= i < r@.len() ==> is_export_line(#[trigger] r@[i]@),
{
    let all_lines = split_lines(content);
    let ghost all = line_views(all_lines@);
    let ghost pred = |l: Seq<u8>| is_export_line(l);
    let mut r: Vec<Vec<u8>> = Vec::new();
    let mut i: usize = 0;
    proof {
        assert(all.take(0) =~= Seq::<Seq<u8>>::empty());
        assert(keep_matching(all.take(0), pred) =~= Seq::<Seq<u8>>::empty());
    }
    while i < all_lines.len()
        invariant
            i <= all_lines@.len(),
            all == line_views(all_lines@),
            line_views(r@) == keep_matching(all.take(i as int), pred),
            pred == (|l: Seq<u8>| is_export_line(l)),
            forall|k: int| 0 <= k < r@.len() ==> is_export_line(#[trigger] r@[k]@),
        decreases all_lines@.len() - i,
    {
        let keep = starts_with_export(&all_lines[i]);
        proof {
            assert(all.take(i + 1) =~= all.take(i as int).push(all[i as int]));
            lemma_keep_matching_push(all.take(i as int), all[i as int], pred);
        }
        if keep {
            let ghost old_r = r@;
            r.push(clone_line(&all_lines[i]));
            proof {
                crate::lines::lemma_line_views_push(old_r, r@[r@.len() - 1]);
                assert(line_views(r@) =~= keep_matching(all.take(i as int), pred) + seq![
                    all[i as int],
                ]);
            }
        } else {
            proof {
                assert(line_views(r@) =~= keep_matching(all.take(i as int), pred)
                    + Seq::<Seq<u8>>::empty());
            }
        }
        i += 1;
    }
    proof {
        assert(all.take(all.len() as int) =~= all);
    }
    r
}

/// Computes the sync plan for one target: the canonical declarations that
/// the target's snapshot lacks, in canonical order.
pub fn missing_exports(canonical: &Vec<Vec<u8>>, snapshot: &RcSnapshot) -> (plan: Vec<Vec<u8>>)
    ensures
        line_views(plan@) == spec_missing(line_views(canonical@), snapshot.set_view()),
{
    let ghost c = line_views(canonical@);
    let ghost pred = |l: Seq<u8>| !snapshot.set_view().contains(l);
    let mut plan: Vec<Vec<u8>> = Vec::new();
    let mut i: usize = 0;
    proof {
        assert(c.take(0) =~= Seq::<Seq<u8>>::empty());
        assert(keep_matching(c.take(0), pred) =~= Seq::<Seq<u8>>::empty());
    }
    while i < canonical.len()
        invariant
            i <= canonical@.len(),
            c == line_views(canonical@),
            line_views(plan@) == keep_matching(c.take(i as int), pred),
            pred == (|l: Seq<u8>| !snapshot.set_view().contains(l)),
        decreases canonical@.len() - i,
    {
        let absent = !snapshot.contains_line(&canonical[i]);
        proof {
            assert(c.take(i + 1) =~= c.take(i as int).push(c[i as int]));
            lemma_keep_matching_push(c.take(i as int), c[i as int], pred);
        }
        if absent {
            let ghost old_plan = plan@;
            plan.push(clone_line(&canonical[i]));
            proof {
                crate::lines::lemma_line_views_push(old_plan, plan@[plan@.len() - 1]);
                assert(line_views(plan@) =~= keep_matching(c.take(i as int), pred) + seq![
                    c[i as int],
                ]);
            }
        } else {
            proof {
                assert(line_views(plan@) =~= keep_matching(c.take(i as int), pred)
                    + Seq::<Seq<u8>>::empty());
            }
        }
        i += 1;
    }
    proof {
        assert(c.take(c.len() as int) =~= c);
    }
    plan
}

/// Computes the sync plan for one target straight from its file lines.
pub fn sync_target(canonical: &Vec<Vec<u8>>, target_lines: &Vec<Vec<u8>>) -> (plan: Vec<Vec<u8>>)
    ensures
        line_views(plan@) == spec_missing(
            line_views(canonical@),
            spec_snapshot(line_views(target_lines@)),
        ),
{
    let snapshot = RcSnapshot::of_lines(target_lines);
    missing_exports(canonical, &snapshot)
}

/// Computes the sync plans for several targets at once. Each target's plan
/// is computed from that target's lines alone: what one file contains has
/// no effect on what is appended to another.
pub fn sync_all(canonical: &Vec<Vec<u8>>, targets: &Vec<Vec<Vec<u8>>>) -> (plans: Vec<Vec<Vec<u8>>>)
    ensures
        plans@.len() == targets@.len(),
        forall|t: int|
            0 <= t < targets@.len() ==> line_views(#[trigger] plans@[t]@) == spec_missing(
                line_views(canonical@),
                spec_snapshot(line_views(targets@[t]@)),
            ),
{
    let mut plans: Vec<Vec<Vec<u8>>> = Vec::new();
    let mut t: usize = 0;
    while t < targets.len()
        invariant
            t <= targets@.len(),
            plans@.len() == t,
            forall|k: int|
                0 <= k < t ==> line_views(#[trigger] plans@[k]@) == spec_missing(
                    line_views(canonical@),
                    spec_snapshot(line_views(targets@[k]@)),
                ),
        decreases targets@.len() - t,
    {
        let plan = sync_target(canonical, &targets[t]);
        plans.push(plan);
        t += 1;
    }
    plans
}

/// The target's lines after the plan has been appended: every line already
/// there stays in place and unchanged, and the plan follows in order.
pub fn apply_plan(target_lines: &Vec<Vec<u8>>, plan: &Vec<Vec<u8>>) -> (r: Vec<Vec<u8>>)
    ensures
        line_views(r@) == line_views(target_lines@) + line_views(plan@),
        line_views(r@).take(target_lines@.len() as int) == line_views(target_lines@),
{
    let mut r: Vec<Vec<u8>> = Vec::new();
    let mut i: usize = 0;
    while i < target_lines.len()
        invariant
            i <= target_lines@.len(),
            line_views(r@) == line_views(target_lines@).take(i as int),
        decreases target_lines@.len() - i,
    {
        let ghost old_r = r@;
        r.push(clone_line(&target_lines[i]));
        proof {
            crate::lines::lemma_line_views_push(old_r, r@[r@.len() - 1]);
            assert(line_views(r@) =~= line_views(target_lines@).take(i + 1));
        }
        i += 1;
    }
    let mut j: usize = 0;
    while j < plan.len()
        invariant
            j <= plan@.len(),
            line_views(r@) == line_views(target_lines@).take(target_lines@.len() as int)
                + line_views(plan@).take(j as int),
        decreases plan@.len() - j,
    {
        let ghost old_r = r@;
        r.push(clone_line(&plan[j]));
        proof {
            crate::lines::lemma_line_views_push(old_r, r@[r@.len() - 1]);
            assert(line_views(r@) =~= line_views(target_lines@).take(
                target_lines@.len() as int,
            ) + line_views(plan@).take(j + 1));
        }
        j += 1;
    }
    proof {
        assert(line_views(target_lines@).take(target_lines@.len() as int) =~= line_views(
            target_lines@,
        ));
        assert(line_views(plan@).take(plan@.len() as int) =~= line_views(plan@));
        assert((line_views(target_lines@) + line_views(plan@)).take(target_lines@.len() as int)
            =~= line_views(target_lines@));
    }
    r
}

/// A declaration is in the plan exactly when the canonical list holds it
/// and the target's snapshot does not.
pub proof fn lemma_missing_membership(canonical: Seq<Seq<u8>>, present: Set<Seq<u8>>)
    ensures
        forall|l: Seq<u8>| #[trigger]
            spec_missing(canonical, present).contains(l) <==> canonical.contains(l)
                && !present.contains(l),
{
    lemma_keep_matching_membership(canonical, |l: Seq<u8>| !present.contains(l));
}

/// The plan lists the appended declarations in the same relative order
/// as the canonical list: the engine never reorders.
pub proof fn lemma_missing_in_canonical_order(canonical: Seq<Seq<u8>>, present: Set<Seq<u8>>)
    ensures
        is_subsequence(spec_missing(canonical, present), canonical),
{
    lemma_keep_matching_subsequence(canonical, |l: Seq<u8>| !present.contains(l));
}

/// After a sync run every canonical declaration is present in the target:
/// the file's new snapshot covers the whole canonical list.
pub proof fn lemma_sync_complete(canonical: Seq<Seq<u8>>, target: Seq<Seq<u8>>)
    requires
        forall|i: int| 0 <= i < canonical.len() ==> is_export_line(#[trigger] canonical[i]),
    ensures
        forall|l: Seq<u8>| #[trigger]
            canonical.contains(l) ==> spec_snapshot(
                target + spec_missing(canonical, spec_snapshot(target)),
            ).contains(l),
{
    let snap = spec_snapshot(target);
    let plan = spec_missing(canonical, snap);
    lemma_missing_membership(canonical, snap);
    assert forall|l: Seq<u8>| #[trigger]
        canonical.contains(l) implies spec_snapshot(target + plan).contains(l) by {
        let i = choose|i: int| 0 <= i < canonical.len() && canonical[i] == l;
        assert(is_export_line(l));
        if snap.contains(l) {
            let j = choose|j: int| 0 <= j < target.len() && target[j] == l;
            assert((target + plan)[j] == l);
        } else {
            assert(plan.contains(l));
            let j = choose|j: int| 0 <= j < plan.len() && plan[j] == l;
            assert((target + plan)[target.len() + j] == l);
        }
    }
}

/// Syncing is idempotent: once a run has appended its plan, a second run
/// over the same canonical list computes an empty plan, so it changes
/// nothing.
pub proof fn lemma_sync_idempotent(canonical: Seq<Seq<u8>>, target: Seq<Seq<u8>>)
    requires
        forall|i: int| 0 <= i < canonical.len() ==> is_export_line(#[trigger] canonical[i]),
    ensures
        spec_missing(
            canonical,
            spec_snapshot(target + spec_missing(canonical, spec_snapshot(target))),
        ) == Seq::<Seq<u8>>::empty(),
        (target + spec_missing(canonical, spec_snapshot(target))) + spec_missing(
            canonical,
            spec_snapshot(target + spec_missing(canonical, spec_snapshot(target))),
        ) == target + spec_missing(canonical, spec_snapshot(target)),
{
    let after = target + spec_missing(canonical, spec_snapshot(target));
    lemma_sync_complete(canonical, target);
    assert forall|i: int| 0 <= i < canonical.len() implies !(
    |l: Seq<u8>| !spec_snapshot(after).contains(l))(#[trigger] canonical[i]) by {
        assert(canonical.contains(canonical[i]));
    }
    lemma_keep_matching_empty(canonical, |l: Seq<u8>| !spec_snapshot(after).contains(l));
    assert(after + spec_missing(canonical, spec_snapshot(after)) =~= after);
}

/// Whether a declaration is appended to a target depends on that
/// target's snapshot alone: a declaration already in one target's
/// snapshot is not appended there, while the same declaration is
/// appended to another target that lacks it.
pub proof fn lemma_target_independence(
    canonical: Seq<Seq<u8>>,
    snap_a: Set<Seq<u8>>,
    snap_b: Set<Seq<u8>>,
    l: Seq<u8>,
)
    requires
        canonical.contains(l),
        snap_a.contains(l),
        !snap_b.contains(l),
    ensures
        !spec_missing(canonical, snap_a).contains(l),
        spec_missing(canonical, snap_b).contains(l),
{
    lemma_missing_membership(canonical, snap_a);
    lemma_missing_membership(canonical, snap_b);
}

} // verus!
