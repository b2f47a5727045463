//! Lines of bytes: splitting, trimming and comparing.
//!
//! A file's content is a `Vec<u8>`; a line is a `Vec<u8>` without the
//! terminating line break. Spec-level values are `Seq<u8>` and
//! `Seq<Seq<u8>>`.

use vstd::prelude::*;

verus! {

/// The views of a sequence of byte vectors, as a sequence of byte sequences.
pub open spec fn line_views(s: Seq<Vec<u8>>) -> Seq<Seq<u8>> {
    Seq::new(s.len(), |i: int| s[i]@)
}

/// Pushing a vector corresponds to pushing its view.
pub proof fn lemma_line_views_push(s: Seq<Vec<u8>>, x: Vec<u8>)
    ensures
        line_views(s.push(x)) == line_views(s).push(x@),
{
    assert(line_views(s.push(x)) =~= line_views(s).push(x@));
}

/// The line-break byte.
pub open spec fn is_line_break(b: u8) -> bool {
    b == 10u8
}

/// Splitting with an explicit line under construction: the lines of
/// `cur + s`, where `cur` holds the bytes read since the last break.
pub open spec fn split_rec(s: Seq<u8>, cur: Seq<u8>) -> Seq<Seq<u8>>
    decreases s.len(),
{
    if s.len() == 0 {
        seq![cur]
    } else if is_line_break(s.first()) {
        seq![cur] + split_rec(s.drop_first(), Seq::empty())
    } else {
        split_rec(s.drop_first(), cur.push(s.first()))
    }
}

/// The lines of a byte sequence, split on line breaks. Every content has
/// at least one line; a trailing line break yields a final empty line.
pub open spec fn spec_split_lines(s: Seq<u8>) -> Seq<Seq<u8>> {
    split_rec(s, Seq::empty())
}

/// Splits file content into lines on the line-break byte.
pub fn split_lines(content: &Vec<u8>) -> (r: Vec<Vec<u8>>)
    ensures
        line_views(r@) == spec_split_lines(content@),
{
    let mut out: Vec<Vec<u8>> = Vec::new();
    let mut cur: Vec<u8> = Vec::new();
    let mut i: usize = 0;
    proof {
        assert(content@.skip(0) =~= content@);
        assert(line_views(out@) + split_rec(content@, cur@) =~= split_rec(content@, cur@));
    }
    while i < content.len()
        invariant
            i <= content.len(),
            spec_split_lines(content@) == line_views(out@) + split_rec(
                content@.skip(i as int),
                cur@,
            ),
        decreases content.len() - i,
    {
        let b = content[i];
        proof {
            assert(content@.skip(i as int).first() == content@[i as int]);
            assert(content@.skip(i as int).drop_first() =~= content@.skip(i as int + 1));
        }
        if b == 10u8 {
            let done = cur;
            cur = Vec::new();
            let ghost old_out = out@;
            out.push(done);
            proof {
                lemma_line_views_push(old_out, out@[out@.len() - 1]);
                assert(line_views(out@) + split_rec(content@.skip(i as int + 1), cur@)
                    =~= line_views(old_out) + (seq![out@[out@.len() - 1]@] + split_rec(
                    content@.skip(i as int + 1),
                    Seq::empty(),
                )));
            }
        } else {
            cur.push(b);
        }
        i += 1;
    }
    proof {
        assert(content@.skip(content@.len() as int) =~= Seq::<u8>::empty());
    }
    let ghost old_out = out@;
    let ghost last = cur@;
    out.push(cur);
    proof {
        lemma_line_views_push(old_out, out@[out@.len() - 1]);
        assert(line_views(out@) =~= line_views(old_out).push(last));
    }
    out
}

/// ASCII whitespace, as far as trimming package names is concerned:
/// space, tab, carriage return and line break.
pub open spec fn spec_is_ws(b: u8) -> bool {
    b == 32u8 || b == 9u8 || b == 13u8 || b == 10u8
}

/// Whether a byte is ASCII whitespace.
fn is_ws(b: u8) -> (r: bool)
    ensures
        r == spec_is_ws(b),
{
    b == 32u8 || b == 9u8 || b == 13u8 || b == 10u8
}

/// A sequence with its leading whitespace removed.
pub open spec fn trim_front(s: Seq<u8>) -> Seq<u8>
    decreases s.len(),
{
    if s.len() > 0 && spec_is_ws(s.first()) {
        trim_front(s.drop_first())
    } else {
        s
    }
}

/// A sequence with its trailing whitespace removed.
pub open spec fn trim_back(s: Seq<u8>) -> Seq<u8>
    decreases s.len(),
{
    if s.len() > 0 && spec_is_ws(s.last()) {
        trim_back(s.drop_last())
    } else {
        s
    }
}

/// A sequence with whitespace removed from both ends.
pub open spec fn spec_trim(s: Seq<u8>) -> Seq<u8> {
    trim_back(trim_front(s))
}

/// What trimming leaves never starts with whitespace.
pub proof fn lemma_trim_front_no_leading(s: Seq<u8>)
    ensures
        trim_front(s).len() > 0 ==> !spec_is_ws(trim_front(s).first()),
    decreases s.len(),
{
    if s.len() > 0 && spec_is_ws(s.first()) {
        lemma_trim_front_no_leading(s.drop_first());
    }
}

/// What trimming leaves never ends with whitespace.
pub proof fn lemma_trim_back_no_trailing(s: Seq<u8>)
    ensures
        trim_back(s).len() > 0 ==> !spec_is_ws(trim_back(s).last()),
    decreases s.len(),
{
    if s.len() > 0 && spec_is_ws(s.last()) {
        lemma_trim_back_no_trailing(s.drop_last());
    }
}

/// Trimming at the back does not touch the first byte.
pub proof fn lemma_trim_back_keeps_first(s: Seq<u8>)
    ensures
        trim_back(s).len() > 0 ==> trim_back(s).first() == s.first(),
    decreases s.len(),
{
    if s.len() > 0 && spec_is_ws(s.last()) {
        lemma_trim_back_keeps_first(s.drop_last());
        if trim_back(s).len() > 0 {
            assert(s.drop_last().first() == s.first());
        }
    }
}

/// A non-empty trimmed line neither starts nor ends with whitespace.
pub proof fn lemma_trim_no_surrounding_ws(s: Seq<u8>)
    ensures
        spec_trim(s).len() > 0 ==> !spec_is_ws(spec_trim(s).first()) && !spec_is_ws(
            spec_trim(s).last(),
        ),
{
    lemma_trim_front_no_leading(s);
    lemma_trim_back_no_trailing(trim_front(s));
    lemma_trim_back_keeps_first(trim_front(s));
}

/// Removes leading and trailing ASCII whitespace from a line.
pub fn trim_bytes(line: &Vec<u8>) -> (r: Vec<u8>)
    ensures
        r@ == spec_trim(line@),
{
    let mut start: usize = 0;
    proof {
        assert(line@.skip(0) =~= line@);
    }
    while start < line.len() && is_ws(line[start])
        invariant
            start <= line@.len(),
            trim_front(line@) == trim_front(line@.skip(start as int)),
        decreases line@.len() - start,
    {
        proof {
            assert(line@.skip(start as int).first() == line@[start as int]);
            assert(line@.skip(start as int).drop_first() =~= line@.skip(start as int + 1));
        }
        start += 1;
    }
    proof {
        if start < line@.len() {
            assert(line@.skip(start as int).first() == line@[start as int]);
        } else {
            assert(line@.skip(start as int) =~= Seq::<u8>::empty());
        }
        assert(trim_front(line@.skip(start as int)) == line@.skip(start as int));
        assert(line@.skip(start as int) =~= line@.subrange(start as int, line@.len() as int));
    }
    let mut end: usize = line.len();
    while end > start && is_ws(line[end - 1])
        invariant
            start <= end <= line@.len(),
            trim_front(line@) == line@.skip(start as int),
            trim_back(line@.skip(start as int)) == trim_back(
                line@.subrange(start as int, end as int),
            ),
        decreases end,
    {
        proof {
            let seg = line@.subrange(start as int, end as int);
            assert(seg.last() == line@[end - 1]);
            assert(seg.drop_last() =~= line@.subrange(start as int, end as int - 1));
        }
        end -= 1;
    }
    proof {
        let seg = line@.subrange(start as int, end as int);
        if end > start {
            assert(seg.last() == line@[end - 1]);
        }
        assert(trim_back(seg) == seg);
    }
    let mut r: Vec<u8> = Vec::new();
    let mut i: usize = start;
    while i < end
        invariant
            start <= i <= end <= line@.len(),
            r@ == line@.subrange(start as int, i as int),
        decreases end - i,
    {
        r.push(line[i]);
        proof {
            assert(r@ =~= line@.subrange(start as int, i as int + 1));
        }
        i += 1;
    }
    proof {
        assert(r@ == spec_trim(line@));
    }
    r
}

/// A copy of a line with the same bytes.
pub fn clone_line(line: &Vec<u8>) -> (r: Vec<u8>)
    ensures
        r@ == line@,
{
    let r = line.clone();
    proof {
        assert forall|i: int| 0 <= i < line@.len() implies r@[i] == line@[i] by {
            assert(vstd::pervasive::cloned::<u8>(line@[i], r@[i]));
        }
        assert(r@ =~= line@);
    }
    r
}

/// Byte-for-byte equality of two byte vectors.
pub fn bytes_eq(a: &Vec<u8>, b: &Vec<u8>) -> (r: bool)
    ensures
        r == (a@ == b@),
{
    if a.len() != b.len() {
        return false;
    }
    let mut i: usize = 0;
    while i < a.len()
        invariant
            i <= a.len(),
            a@.len() == b@.len(),
            forall|k: int| 0 <= k < i ==> a@[k] == b@[k],
        decreases a.len() - i,
    {
        if a[i] != b[i] {
            return false;
        }
        i += 1;
    }
    proof {
        assert(a@ =~= b@);
    }
    true
}

} // verus!
