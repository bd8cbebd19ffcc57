//! The two-pass assembler: line-oriented source text to an instruction
//! sequence.
//!
//! Pass one walks the statements in order, binding each label (a
//! statement ending in a colon) to the index of the next instruction
//! and queueing every other statement. Pass two tokenizes each queued
//! statement and decodes it, resolving jump targets first as numeric
//! addresses and then as labels, so forward references work. Every
//! executable function is specified against a spec-level mirror of the
//! same grammar, culminating in [`assemble`].

use vstd::prelude::*;
use crate::text::{is_ws, is_alpha, is_dec, dec_val, trim_of, dec_of};
use crate::text::{byte_is_ws, byte_is_alpha, parse_u8, parse_usize, trim_bytes, subrange_vec,
    bytes_eq, lemma_dec_of_val, lemma_dec_val_nonneg, lemma_trim_front_idx, lemma_trim_front_le};
use crate::text::trim_front;
use crate::vm::{Reg, MemSrc, Source, Instruction};

verus! {

/// The views of a sequence of byte vectors.
pub open spec fn views(vs: Seq<Vec<u8>>) -> Seq<Seq<u8>> {
    vs.map_values(|v: Vec<u8>| v@)
}

/// The index of the first occurrence of `d` in `s`, or the length of
/// `s` when `d` does not occur.
pub open spec fn idx_of(s: Seq<u8>, d: u8) -> int
    decreases s.len(),
{
    if s.len() == 0 {
        0
    } else if s[0] == d {
        0
    } else {
        1 + idx_of(s.drop_first(), d)
    }
}

pub proof fn lemma_idx_of(s: Seq<u8>, d: u8)
    ensures
        0 <= idx_of(s, d) <= s.len(),
        idx_of(s, d) < s.len() ==> s[idx_of(s, d)] == d,
        forall|k: int| 0 <= k < idx_of(s, d) ==> s[k] != d,
    decreases s.len(),
{
    if s.len() > 0 && s[0] != d {
        lemma_idx_of(s.drop_first(), d);
        assert forall|k: int| 0 <= k < idx_of(s, d) implies s[k] != d by {
            if k >= 1 {
                assert(s.drop_first()[k - 1] != d);
                assert(s[k] == s.drop_first()[k - 1]);
            }
        }
    }
}

/// The index where the first comment marker (two slashes) begins, or
/// the length of `s` when there is none.
pub open spec fn idx_of2(s: Seq<u8>) -> int
    decreases s.len(),
{
    if s.len() < 2 {
        s.len() as int
    } else if s[0] == 47 && s[1] == 47 {
        0
    } else {
        1 + idx_of2(s.drop_first())
    }
}

pub proof fn lemma_idx_of2(s: Seq<u8>)
    ensures
        0 <= idx_of2(s) <= s.len(),
        idx_of2(s) < s.len() ==> idx_of2(s) + 1 < s.len() && s[idx_of2(s)] == 47 && s[idx_of2(s)
            + 1] == 47,
        forall|k: int|
            0 <= k < idx_of2(s) && k + 1 < s.len() ==> !(#[trigger] s[k] == 47 && s[k + 1]
                == 47),
    decreases s.len(),
{
    if s.len() >= 2 && !(s[0] == 47 && s[1] == 47) {
        lemma_idx_of2(s.drop_first());
        assert forall|k: int| 0 <= k < idx_of2(s) && k + 1 < s.len() implies !(#[trigger] s[k]
            == 47 && s[k + 1] == 47) by {
            if k >= 1 {
                assert(!(s.drop_first()[k - 1] == 47 && s.drop_first()[k] == 47));
                assert(s[k] == s.drop_first()[k - 1]);
                assert(s[k + 1] == s.drop_first()[k]);
            }
        }
    }
}

/// A line's content: everything before its comment marker.
pub open spec fn strip_comment(line: Seq<u8>) -> Seq<u8> {
    line.take(idx_of2(line))
}

/// The statements of one comment-stripped line: split on `;`, trimmed,
/// empties dropped, and any leading label declarations split off as
/// statements of their own.
pub open spec fn seg_pieces(t: Seq<u8>) -> Seq<Seq<u8>>
    decreases t.len(),
{
    let i = idx_of(t, 59);
    if 0 <= i < t.len() {
        split_leading_labels(trim_of(t.take(i))) + seg_pieces(t.skip(i + 1))
    } else {
        split_leading_labels(trim_of(t))
    }
}

/// A statement may open with label declarations: tokens ending in a
/// colon, each binding a name to the instruction that follows. They
/// are split off as statements of their own; the rest of the text, if
/// any, is the statement proper.
pub open spec fn split_leading_labels(s: Seq<u8>) -> Seq<Seq<u8>>
    decreases s.len(),
    via split_leading_labels_dec
{
    if s.len() == 0 {
        Seq::<Seq<u8>>::empty()
    } else {
        let k = run_len(s);
        let tok = s.take(k);
        if is_label(tok) && k < s.len() {
            seq![tok] + split_leading_labels(trim_front(s.skip(k)))
        } else {
            seq![s]
        }
    }
}

#[via_fn]
proof fn split_leading_labels_dec(s: Seq<u8>) {
    if s.len() > 0 {
        lemma_run_len(s);
        let k = run_len(s);
        if is_label(s.take(k)) && k < s.len() {
            lemma_trim_front_le(s.skip(k));
        }
    }
}

/// The statements of one raw source line.
pub open spec fn segs_of_line(line: Seq<u8>) -> Seq<Seq<u8>> {
    seg_pieces(strip_comment(line))
}

/// Every statement of a source text, in order: line by line, comments
/// stripped, split on `;`, trimmed, empties dropped.
pub open spec fn segments_of(src: Seq<u8>) -> Seq<Seq<u8>>
    decreases src.len(),
{
    let i = idx_of(src, 10);
    if 0 <= i < src.len() {
        segs_of_line(src.take(i)) + segments_of(src.skip(i + 1))
    } else {
        segs_of_line(src)
    }
}

/// The index of the first occurrence of `d` at or after `from`, or the
/// length of the slice.
fn find_byte_from(s: &[u8], from: usize, d: u8) -> (r: usize)
    requires
        from <= s@.len(),
    ensures
        from <= r <= s@.len(),
        r - from == idx_of(s@.skip(from as int), d),
{
    let mut i: usize = from;
    while i < s.len() && s[i] != d
        invariant
            from <= i <= s@.len(),
            forall|k: int| from <= k < i ==> s@[k] != d,
        decreases s@.len() - i,
    {
        i = i + 1;
    }
    proof {
        let t = s@.skip(from as int);
        lemma_idx_of(t, d);
        assert(forall|k: int| 0 <= k < i - from ==> t[k] == s@[k + from] && t[k] != d);
        if i < s.len() {
            assert(t[i - from] == d);
        }
    }
    i
}

/// The index where the line's comment (two slashes) begins, or the
/// length of the slice.
fn find_comment(s: &[u8]) -> (r: usize)
    ensures
        0 <= r <= s@.len(),
        r == idx_of2(s@),
{
    if s.len() == 0 {
        proof {
            lemma_idx_of2(s@);
        }
        return 0;
    }
    let mut i: usize = 0;
    while i < s.len() - 1 && !(s[i] == 47 && s[i + 1] == 47)
        invariant
            0 <= i <= s@.len(),
            s@.len() > 0,
            i < s@.len(),
            forall|k: int| 0 <= k < i ==> !(#[trigger] s@[k] == 47 && s@[k + 1] == 47),
        decreases s@.len() - i,
    {
        i = i + 1;
    }
    proof {
        lemma_idx_of2(s@);
    }
    if i + 1 < s.len() {
        i
    } else {
        s.len()
    }
}

/// Splits the leading label declarations of a trimmed statement into
/// their own segments.
fn split_labels(s: &[u8]) -> (r: Vec<Vec<u8>>)
    ensures
        views(r@) == split_leading_labels(s@),
    decreases s@.len(),
{
    if s.len() == 0 {
        let r: Vec<Vec<u8>> = Vec::new();
        proof {
            assert(views(r@) =~= split_leading_labels(s@));
        }
        return r;
    }
    let mut k: usize = 0;
    while k < s.len() && !byte_is_ws(s[k])
        invariant
            0 <= k <= s@.len(),
            forall|j: int| 0 <= j < k ==> !is_ws(#[trigger] s@[j]),
        decreases s@.len() - k,
    {
        k = k + 1;
    }
    proof {
        lemma_run_len(s@);
        assert(run_len(s@) == k);
    }
    let label_tok = k >= 1 && s[k - 1] == 58;
    if label_tok && k < s.len() {
        let tok = subrange_vec(s, 0, k);
        let mut lo = k;
        while lo < s.len() && byte_is_ws(s[lo])
            invariant
                k <= lo <= s@.len(),
                forall|j: int| k <= j < lo ==> is_ws(#[trigger] s@[j]),
            decreases s@.len() - lo,
        {
            lo = lo + 1;
        }
        let rest = subrange_vec(s, lo, s.len());
        proof {
            lemma_trim_front_idx(s@.skip(k as int), lo - k);
            assert(s@.skip(k as int).skip(lo - k) =~= s@.skip(lo as int));
            assert(trim_front(s@.skip(k as int)) =~= rest@);
            assert(s@.take(k as int) =~= tok@);
        }
        let mut r = split_labels(rest.as_slice());
        r.insert(0, tok);
        proof {
            assert(views(r@) =~= split_leading_labels(s@));
        }
        r
    } else {
        let mut r: Vec<Vec<u8>> = Vec::new();
        r.push(to_vec(s));
        proof {
            assert(s@.take(run_len(s@)) =~= s@.subrange(0, k as int));
            assert(views(r@) =~= split_leading_labels(s@));
        }
        r
    }
}

/// The statements of one comment-stripped piece of a line, from `from`
/// on.
fn seg_split_from(t: &[u8], from: usize) -> (r: Vec<Vec<u8>>)
    requires
        from <= t@.len(),
    ensures
        views(r@) == seg_pieces(t@.skip(from as int)),
    decreases t@.len() - from,
{
    let j = find_byte_from(t, from, 59);
    let piece = trim_bytes_range(t, from, j);
    if j == t.len() {
        let r = split_labels(piece.as_slice());
        proof {
            assert(t@.skip(from as int) =~= t@.subrange(from as int, t@.len() as int));
            assert(views(r@) =~= seg_pieces(t@.skip(from as int)));
        }
        r
    } else {
        let mut rest = seg_split_from(t, j + 1);
        proof {
            assert(t@.skip(from as int).skip(j - from + 1) =~= t@.skip(j + 1));
            assert(t@.skip(from as int).take(j - from) =~= t@.subrange(from as int, j as int));
        }
        let mut r = split_labels(piece.as_slice());
        r.append(&mut rest);
        proof {
            assert(views(r@) =~= seg_pieces(t@.skip(from as int)));
        }
        r
    }
}

/// Removes leading and trailing whitespace of the bytes in `i..j`.
fn trim_bytes_range(s: &[u8], i: usize, j: usize) -> (r: Vec<u8>)
    requires
        i <= j <= s@.len(),
    ensures
        r@ == trim_of(s@.subrange(i as int, j as int)),
{
    let piece = subrange_vec(s, i, j);
    trim_bytes(piece.as_slice())
}

/// Every statement of a source text, from `from` on, line by line.
fn segments_from(src: &[u8], from: usize) -> (r: Vec<Vec<u8>>)
    requires
        from <= src@.len(),
    ensures
        views(r@) == segments_of(src@.skip(from as int)),
    decreases src@.len() - from,
{
    let j = find_byte_from(src, from, 10);
    let line_end = find_comment_range(src, from, j);
    let mut segs = seg_split_from_range(src, from, line_end);
    proof {
        let t = src@.skip(from as int);
        let line = t.take(j - from);
        assert(line =~= src@.subrange(from as int, j as int));
        assert(strip_comment(line) =~= src@.subrange(from as int, line_end as int));
    }
    if j == src.len() {
        proof {
            assert(src@.skip(from as int) =~= src@.subrange(from as int, src@.len() as int));
            assert(strip_comment(src@.skip(from as int)) =~= src@.subrange(
                from as int,
                line_end as int,
            ));
            assert(views(segs@) =~= segments_of(src@.skip(from as int)));
        }
        segs
    } else {
        let mut rest = segments_from(src, j + 1);
        proof {
            assert(src@.skip(from as int).skip(j - from + 1) =~= src@.skip(j + 1));
        }
        segs.append(&mut rest);
        proof {
            assert(views(segs@) =~= segments_of(src@.skip(from as int)));
        }
        segs
    }
}

/// The comment start inside the line `i..j`, as an absolute index.
fn find_comment_range(s: &[u8], i: usize, j: usize) -> (r: usize)
    requires
        i <= j <= s@.len(),
    ensures
        i <= r <= j,
        r - i == idx_of2(s@.subrange(i as int, j as int)),
{
    let line = subrange_vec(s, i, j);
    let c = find_comment(line.as_slice());
    i + c
}

/// The statements of the comment-stripped line `i..j`.
fn seg_split_from_range(s: &[u8], i: usize, j: usize) -> (r: Vec<Vec<u8>>)
    requires
        i <= j <= s@.len(),
    ensures
        views(r@) == seg_pieces(s@.subrange(i as int, j as int)),
{
    let content = subrange_vec(s, i, j);
    let r = seg_split_from(content.as_slice(), 0);
    proof {
        assert(content@.skip(0) =~= s@.subrange(i as int, j as int));
    }
    r
}

/// Every statement of a source text, in order.
pub fn collect_segments(src: &[u8]) -> (r: Vec<Vec<u8>>)
    ensures
        views(r@) == segments_of(src@),
{
    let r = segments_from(src, 0);
    proof {
        assert(src@.skip(0) =~= src@);
    }
    r
}

/// A label declaration: a statement ending in a colon.
pub open spec fn is_label(seg: Seq<u8>) -> bool {
    seg.len() > 0 && seg.last() == 58
}

/// A label's name: the statement with its trailing colons stripped.
pub open spec fn label_name(seg: Seq<u8>) -> Seq<u8>
    decreases seg.len(),
{
    if seg.len() > 0 && seg.last() == 58 {
        label_name(seg.drop_last())
    } else {
        seg
    }
}

/// The instruction statements among `segs` (labels skipped), in order.
pub open spec fn instr_segs(segs: Seq<Seq<u8>>) -> Seq<Seq<u8>>
    decreases segs.len(),
{
    if segs.len() == 0 {
        Seq::<Seq<u8>>::empty()
    } else {
        let front = instr_segs(segs.drop_last());
        if is_label(segs.last()) {
            front
        } else {
            front.push(segs.last())
        }
    }
}

/// The label bindings of `segs`, in declaration order, each to the
/// number of instruction statements before it: the index of the next
/// instruction.
pub open spec fn labels_of(segs: Seq<Seq<u8>>) -> Seq<(Seq<u8>, int)>
    decreases segs.len(),
{
    if segs.len() == 0 {
        Seq::<(Seq<u8>, int)>::empty()
    } else {
        let front = labels_of(segs.drop_last());
        if is_label(segs.last()) {
            front.push((label_name(segs.last()), instr_segs(segs.drop_last()).len() as int))
        } else {
            front
        }
    }
}

/// The address a label resolves to; a later declaration of the same
/// name overwrites an earlier one.
pub open spec fn lookup_label(labels: Seq<(Seq<u8>, int)>, name: Seq<u8>) -> Option<int>
    decreases labels.len(),
{
    if labels.len() == 0 {
        Option::<int>::None
    } else if labels.last().0 == name {
        Some(labels.last().1)
    } else {
        lookup_label(labels.drop_last(), name)
    }
}

/// The view of an executable label table.
pub open spec fn label_views(ls: Seq<(Vec<u8>, usize)>) -> Seq<(Seq<u8>, int)> {
    ls.map_values(|p: (Vec<u8>, usize)| (p.0@, p.1 as int))
}

proof fn lemma_label_name_idx(s: Seq<u8>, n: int)
    requires
        0 <= n <= s.len(),
        forall|k: int| n <= k < s.len() ==> s[k] == 58,
        n == 0 || s[n - 1] != 58,
    ensures
        label_name(s) == s.take(n),
    decreases s.len() - n,
{
    if n == s.len() {
        assert(s.take(n) =~= s);
    } else {
        lemma_label_name_idx(s.drop_last(), n);
        assert(s.drop_last().take(n) =~= s.take(n));
    }
}

/// Strips the trailing colons of a label declaration.
fn strip_label(seg: &[u8]) -> (r: Vec<u8>)
    ensures
        r@ == label_name(seg@),
{
    let mut n: usize = seg.len();
    while n > 0 && seg[n - 1] == 58
        invariant
            0 <= n <= seg@.len(),
            forall|k: int| n <= k < seg@.len() ==> seg@[k] == 58,
        decreases n,
    {
        n = n - 1;
    }
    proof {
        lemma_label_name_idx(seg@, n as int);
    }
    subrange_vec(seg, 0, n)
}

/// Pass one: split the statements into the label table and the queued
/// instruction statements, binding each label to the index of the
/// instruction that follows it.
pub fn pass_labels(segs: &Vec<Vec<u8>>) -> (r: (Vec<(Vec<u8>, usize)>, Vec<Vec<u8>>))
    ensures
        label_views(r.0@) == labels_of(views(segs@)),
        views(r.1@) == instr_segs(views(segs@)),
{
    let mut labels: Vec<(Vec<u8>, usize)> = Vec::new();
    let mut raws: Vec<Vec<u8>> = Vec::new();
    let mut i: usize = 0;
    while i < segs.len()
        invariant
            0 <= i <= segs@.len(),
            label_views(labels@) == labels_of(views(segs@).take(i as int)),
            views(raws@) == instr_segs(views(segs@).take(i as int)),
        decreases segs@.len() - i,
    {
        let seg = &segs[i];
        proof {
            assert(views(segs@).take(i + 1).drop_last() =~= views(segs@).take(i as int));
            assert(views(segs@).take(i + 1).last() == seg@);
        }
        if seg.len() > 0 && seg[seg.len() - 1] == 58 {
            let name = strip_label(seg.as_slice());
            labels.push((name, raws.len()));
            proof {
                assert(label_views(labels@) =~= labels_of(views(segs@).take(i + 1)));
            }
        } else {
            let copy = subrange_vec(seg.as_slice(), 0, seg.len());
            proof {
                assert(copy@ =~= seg@);
            }
            raws.push(copy);
            proof {
                assert(views(raws@) =~= instr_segs(views(segs@).take(i + 1)));
            }
        }
        i = i + 1;
    }
    proof {
        assert(views(segs@).take(segs@.len() as int) =~= views(segs@));
    }
    (labels, raws)
}

/// Looks a label up in the first `upto` bindings of the table; the
/// last declaration wins.
fn lookup(labels: &Vec<(Vec<u8>, usize)>, upto: usize, name: &[u8]) -> (r: Option<usize>)
    requires
        upto <= labels@.len(),
    ensures
        (match lookup_label(label_views(labels@).take(upto as int), name@) {
            Option::Some(n) => r matches Some(u) && u as int == n,
            Option::None => r is None,
        }),
    decreases upto,
{
    if upto == 0 {
        proof {
            assert(label_views(labels@).take(0) =~= Seq::<(Seq<u8>, int)>::empty());
        }
        None
    } else {
        proof {
            assert(label_views(labels@).take(upto as int).drop_last() =~= label_views(
                labels@,
            ).take(upto - 1));
            assert(label_views(labels@).take(upto as int).last() == (labels@[upto - 1].0@, labels@[
                upto - 1].1 as int));
        }
        let p = &labels[upto - 1];
        if bytes_eq(p.0.as_slice(), name) {
            Some(p.1)
        } else {
            lookup(labels, upto - 1, name)
        }
    }
}

/// The length of the leading run of non-whitespace bytes.
pub open spec fn run_len(s: Seq<u8>) -> int
    decreases s.len(),
{
    if s.len() == 0 || is_ws(s[0]) {
        0
    } else {
        1 + run_len(s.drop_first())
    }
}

pub proof fn lemma_run_len(s: Seq<u8>)
    ensures
        0 <= run_len(s) <= s.len(),
        forall|k: int| 0 <= k < run_len(s) ==> !is_ws(#[trigger] s[k]),
        run_len(s) < s.len() ==> is_ws(s[run_len(s)]),
    decreases s.len(),
{
    if s.len() > 0 && !is_ws(s[0]) {
        lemma_run_len(s.drop_first());
        assert forall|k: int| 0 <= k < run_len(s) implies !is_ws(#[trigger] s[k]) by {
            if k >= 1 {
                assert(!is_ws(s.drop_first()[k - 1]));
                assert(s[k] == s.drop_first()[k - 1]);
            }
        }
        if run_len(s) < s.len() {
            assert(s[run_len(s)] == s.drop_first()[run_len(s) - 1]);
        }
    }
}

/// The whitespace-separated tokens of a statement, in order.
pub open spec fn tokens_of(s: Seq<u8>) -> Seq<Seq<u8>>
    decreases s.len(),
{
    if s.len() == 0 {
        Seq::<Seq<u8>>::empty()
    } else if is_ws(s[0]) {
        tokens_of(s.drop_first())
    } else {
        let k = run_len(s);
        if 0 < k <= s.len() {
            seq![s.take(k)] + tokens_of(s.skip(k))
        } else {
            seq![s]
        }
    }
}

fn tokenize_from(s: &[u8], from: usize) -> (r: Vec<Vec<u8>>)
    requires
        from <= s@.len(),
    ensures
        views(r@) == tokens_of(s@.skip(from as int)),
    decreases s@.len() - from,
{
    if from == s.len() {
        let r: Vec<Vec<u8>> = Vec::new();
        proof {
            assert(views(r@) =~= tokens_of(s@.skip(from as int)));
        }
        return r;
    }
    if byte_is_ws(s[from]) {
        let r = tokenize_from(s, from + 1);
        proof {
            assert(s@.skip(from as int).drop_first() =~= s@.skip(from + 1));
        }
        return r;
    }
    let mut j: usize = from + 1;
    while j < s.len() && !byte_is_ws(s[j])
        invariant
            from < j <= s@.len(),
            forall|k: int| from <= k < j ==> !is_ws(#[trigger] s@[k]),
        decreases s@.len() - j,
    {
        j = j + 1;
    }
    proof {
        let t = s@.skip(from as int);
        lemma_run_len(t);
        assert(forall|k: int| 0 <= k < j - from ==> #[trigger] t[k] == s@[k + from]);
        if j < s.len() {
            assert(is_ws(t[j - from]));
        }
        assert(run_len(t) == j - from);
    }
    let tok = subrange_vec(s, from, j);
    let mut rest = tokenize_from(s, j);
    proof {
        assert(s@.skip(from as int).skip(j - from) =~= s@.skip(j as int));
        assert(s@.skip(from as int).take(j - from) =~= s@.subrange(from as int, j as int));
    }
    rest.insert(0, tok);
    proof {
        assert(views(rest@) =~= tokens_of(s@.skip(from as int)));
    }
    rest
}

/// Splits a statement into its whitespace-separated tokens.
pub fn tokenize(s: &[u8]) -> (r: Vec<Vec<u8>>)
    ensures
        views(r@) == tokens_of(s@),
{
    let r = tokenize_from(s, 0);
    proof {
        assert(s@.skip(0) =~= s@);
    }
    r
}

/// The kinds of fatal assembly error.
#[derive(Clone, Copy, Debug, PartialEq, Eq, Structural)]
pub enum AsmErrKind {
    UnknownInstruction,
    UnknownRegister,
    UnknownLabel,
    InvalidMemorySource,
    ExpectedNumericAddress,
    InvalidLiteral,
}

/// A fatal assembly error: its kind and the offending token or
/// statement.
#[derive(Debug)]
pub struct AsmError {
    pub kind: AsmErrKind,
    pub token: Vec<u8>,
}

/// The model of an assembly error.
#[verifier::ext_equal]
pub ghost struct AsmFail {
    pub kind: AsmErrKind,
    pub token: Seq<u8>,
}

impl View for AsmError {
    type V = AsmFail;

    open spec fn view(&self) -> AsmFail {
        AsmFail { kind: self.kind, token: self.token@ }
    }
}

/// How an executable parse result models a spec-level one.
pub open spec fn res_models<T>(r: Result<T, AsmError>, s: Result<T, AsmFail>) -> bool {
    match (r, s) {
        (Result::Ok(a), Result::Ok(b)) => a == b,
        (Result::Err(e), Result::Err(f)) => e@ == f,
        _ => false,
    }
}

/// The register a token names.
pub open spec fn reg_of(s: Seq<u8>) -> Option<Reg> {
    if s.len() == 1 {
        if s[0] == 65 {
            Some(Reg::A)
        } else if s[0] == 66 {
            Some(Reg::B)
        } else if s[0] == 67 {
            Some(Reg::C)
        } else if s[0] == 68 {
            Some(Reg::D)
        } else if s[0] == 69 {
            Some(Reg::E)
        } else {
            Option::<Reg>::None
        }
    } else {
        Option::<Reg>::None
    }
}

/// A register token, or the unknown-register error.
pub open spec fn reg_token(s: Seq<u8>) -> Result<Reg, AsmFail> {
    match reg_of(s) {
        Some(r) => Ok(r),
        None => Err(AsmFail { kind: AsmErrKind::UnknownRegister, token: s }),
    }
}

/// All-letter bracket contents denote a register-indirect reference.
pub open spec fn all_alpha(s: Seq<u8>) -> bool {
    forall|k: int| 0 <= k < s.len() ==> is_alpha(#[trigger] s[k])
}

/// An operand token: a decimal byte literal, a quoted character, a
/// bracketed memory reference, or a register name.
pub open spec fn source_token(s: Seq<u8>) -> Result<Source, AsmFail> {
    if is_dec(s) && dec_val(s) <= 255 {
        Ok(Source::Lit(dec_val(s) as u8))
    } else if s.len() == 3 && s[0] == 39 && s[2] == 39 {
        Ok(Source::Lit(s[1]))
    } else if s.len() >= 2 && s[0] == 91 && s.last() == 93 {
        let inner = s.subrange(1, s.len() - 1);
        if is_dec(inner) && dec_val(inner) <= 255 {
            Ok(Source::Mem(MemSrc::Addr(dec_val(inner) as u8)))
        } else if all_alpha(inner) {
            match reg_of(inner) {
                Some(r) => Ok(Source::Mem(MemSrc::Reg(r))),
                None => Err(AsmFail { kind: AsmErrKind::UnknownRegister, token: inner }),
            }
        } else {
            Err(AsmFail { kind: AsmErrKind::InvalidMemorySource, token: s })
        }
    } else {
        match reg_of(s) {
            Some(r) => Ok(Source::Reg(r)),
            None => Err(AsmFail { kind: AsmErrKind::UnknownRegister, token: s }),
        }
    }
}

/// A STORE destination: a bracketed register name or absolute address.
pub open spec fn memsrc_token(s: Seq<u8>) -> Result<MemSrc, AsmFail> {
    if s.len() >= 2 && s[0] == 91 && s.last() == 93 {
        let inner = s.subrange(1, s.len() - 1);
        if all_alpha(inner) {
            match reg_of(inner) {
                Some(r) => Ok(MemSrc::Reg(r)),
                None => Err(AsmFail { kind: AsmErrKind::UnknownRegister, token: inner }),
            }
        } else if is_dec(inner) && dec_val(inner) <= 255 {
            Ok(MemSrc::Addr(dec_val(inner) as u8))
        } else {
            Err(AsmFail { kind: AsmErrKind::ExpectedNumericAddress, token: inner })
        }
    } else {
        Err(AsmFail { kind: AsmErrKind::InvalidMemorySource, token: s })
    }
}

/// A jump or loop target: first a numeric address, else a label.
pub open spec fn addr_token(s: Seq<u8>, labels: Seq<(Seq<u8>, int)>) -> Result<int, AsmFail> {
    if is_dec(s) && dec_val(s) <= usize::MAX {
        Ok(dec_val(s))
    } else {
        match lookup_label(labels, s) {
            Some(n) => Ok(n),
            None => Err(AsmFail { kind: AsmErrKind::UnknownLabel, token: s }),
        }
    }
}

/// Copies a whole slice into a fresh vector.
fn to_vec(s: &[u8]) -> (r: Vec<u8>)
    ensures
        r@ == s@,
{
    let r = subrange_vec(s, 0, s.len());
    proof {
        assert(r@ =~= s@);
    }
    r
}

fn all_alphabetic(s: &[u8]) -> (r: bool)
    ensures
        r == all_alpha(s@),
{
    let mut i: usize = 0;
    while i < s.len()
        invariant
            0 <= i <= s@.len(),
            forall|k: int| 0 <= k < i ==> is_alpha(#[trigger] s@[k]),
        decreases s@.len() - i,
    {
        if !byte_is_alpha(s[i]) {
            return false;
        }
        i = i + 1;
    }
    true
}

/// Parses a register name.
pub fn parse_reg(s: &[u8]) -> (res: Result<Reg, AsmError>)
    ensures
        res_models(res, reg_token(s@)),
{
    if s.len() == 1 {
        let b = s[0];
        if b == 65 {
            return Ok(Reg::A);
        }
        if b == 66 {
            return Ok(Reg::B);
        }
        if b == 67 {
            return Ok(Reg::C);
        }
        if b == 68 {
            return Ok(Reg::D);
        }
        if b == 69 {
            return Ok(Reg::E);
        }
    }
    Err(AsmError { kind: AsmErrKind::UnknownRegister, token: to_vec(s) })
}

/// Parses an operand token.
pub fn parse_source(s: &[u8]) -> (res: Result<Source, AsmError>)
    ensures
        res_models(res, source_token(s@)),
{
    match parse_u8(s) {
        Some(v) => {
            return Ok(Source::Lit(v));
        },
        None => {},
    }
    if s.len() == 3 && s[0] == 39 && s[2] == 39 {
        return Ok(Source::Lit(s[1]));
    }
    if s.len() >= 2 && s[0] == 91 && s[s.len() - 1] == 93 {
        let inner = subrange_vec(s, 1, s.len() - 1);
        match parse_u8(inner.as_slice()) {
            Some(a) => {
                return Ok(Source::Mem(MemSrc::Addr(a)));
            },
            None => {},
        }
        if all_alphabetic(inner.as_slice()) {
            return match parse_reg(inner.as_slice()) {
                Ok(r) => Ok(Source::Mem(MemSrc::Reg(r))),
                Err(e) => Err(e),
            };
        }
        return Err(AsmError { kind: AsmErrKind::InvalidMemorySource, token: to_vec(s) });
    }
    match parse_reg(s) {
        Ok(r) => Ok(Source::Reg(r)),
        Err(e) => Err(e),
    }
}

/// Parses a STORE destination.
pub fn parse_mem_src(s: &[u8]) -> (res: Result<MemSrc, AsmError>)
    ensures
        res_models(res, memsrc_token(s@)),
{
    if s.len() >= 2 && s[0] == 91 && s[s.len() - 1] == 93 {
        let inner = subrange_vec(s, 1, s.len() - 1);
        if all_alphabetic(inner.as_slice()) {
            return match parse_reg(inner.as_slice()) {
                Ok(r) => Ok(MemSrc::Reg(r)),
                Err(e) => Err(e),
            };
        }
        match parse_u8(inner.as_slice()) {
            Some(a) => Ok(MemSrc::Addr(a)),
            None => Err(AsmError { kind: AsmErrKind::ExpectedNumericAddress, token: inner }),
        }
    } else {
        Err(AsmError { kind: AsmErrKind::InvalidMemorySource, token: to_vec(s) })
    }
}

/// Resolves a jump or loop target: first as a numeric address, then as
/// a label; an unresolved label is fatal.
pub fn parse_label_or_addr(addr: &[u8], labels: &Vec<(Vec<u8>, usize)>) -> (res: Result<
    usize,
    AsmError,
>)
    ensures
        (addr_token(addr@, label_views(labels@)) matches Ok(n) ==> res matches Ok(u) && u as int
            == n),
        (addr_token(addr@, label_views(labels@)) matches Err(f) ==> res matches Err(e) && e@ == f),
{
    proof {
        if is_dec(addr@) {
            lemma_dec_val_nonneg(addr@);
        }
    }
    match parse_usize(addr) {
        Some(v) => {
            return Ok(v);
        },
        None => {},
    }
    proof {
        assert(label_views(labels@).take(labels@.len() as int) =~= label_views(labels@));
    }
    match lookup(labels, labels.len(), addr) {
        Some(p) => Ok(p),
        None => Err(AsmError { kind: AsmErrKind::UnknownLabel, token: to_vec(addr) }),
    }
}

/// The mnemonics of the instruction set (with `Unknown` for any other
/// token).
#[derive(Clone, Copy, Debug, PartialEq, Eq, Structural)]
pub enum Mnemonic {
    Mov,
    Store,
    Add,
    Sub,
    Mul,
    Mulh,
    Div,
    Mod,
    Jmp,
    Jz,
    Jnz,
    Loop,
    Print,
    Printch,
    Input,
    Inkey,
    Draw,
    Slp,
    Cmp,
    Rand,
    Cls,
    Cts,
    Render,
    Halt,
    Unknown,
}

/// The mnemonic a token names.
pub open spec fn mnemonic_of(s: Seq<u8>) -> Mnemonic {
    if s.len() == 3 && s[0] == 77 && s[1] == 79 && s[2] == 86 {
        Mnemonic::Mov
    } else if s.len() == 5 && s[0] == 83 && s[1] == 84 && s[2] == 79 && s[3] == 82 && s[4] == 69 {
        Mnemonic::Store
    } else if s.len() == 3 && s[0] == 65 && s[1] == 68 && s[2] == 68 {
        Mnemonic::Add
    } else if s.len() == 3 && s[0] == 83 && s[1] == 85 && s[2] == 66 {
        Mnemonic::Sub
    } else if s.len() == 3 && s[0] == 77 && s[1] == 85 && s[2] == 76 {
        Mnemonic::Mul
    } else if s.len() == 4 && s[0] == 77 && s[1] == 85 && s[2] == 76 && s[3] == 72 {
        Mnemonic::Mulh
    } else if s.len() == 3 && s[0] == 68 && s[1] == 73 && s[2] == 86 {
        Mnemonic::Div
    } else if s.len() == 3 && s[0] == 77 && s[1] == 79 && s[2] == 68 {
        Mnemonic::Mod
    } else if s.len() == 3 && s[0] == 74 && s[1] == 77 && s[2] == 80 {
        Mnemonic::Jmp
    } else if s.len() == 2 && s[0] == 74 && s[1] == 90 {
        Mnemonic::Jz
    } else if s.len() == 3 && s[0] == 74 && s[1] == 78 && s[2] == 90 {
        Mnemonic::Jnz
    } else if s.len() == 4 && s[0] == 76 && s[1] == 79 && s[2] == 79 && s[3] == 80 {
        Mnemonic::Loop
    } else if s.len() == 5 && s[0] == 80 && s[1] == 82 && s[2] == 73 && s[3] == 78 && s[4] == 84 {
        Mnemonic::Print
    } else if s.len() == 7 && s[0] == 80 && s[1] == 82 && s[2] == 73 && s[3] == 78 && s[4] == 84 && s[5] == 67 && s[6] == 72 {
        Mnemonic::Printch
    } else if s.len() == 5 && s[0] == 73 && s[1] == 78 && s[2] == 80 && s[3] == 85 && s[4] == 84 {
        Mnemonic::Input
    } else if s.len() == 5 && s[0] == 73 && s[1] == 78 && s[2] == 75 && s[3] == 69 && s[4] == 89 {
        Mnemonic::Inkey
    } else if s.len() == 4 && s[0] == 68 && s[1] == 82 && s[2] == 65 && s[3] == 87 {
        Mnemonic::Draw
    } else if s.len() == 3 && s[0] == 83 && s[1] == 76 && s[2] == 80 {
        Mnemonic::Slp
    } else if s.len() == 3 && s[0] == 67 && s[1] == 77 && s[2] == 80 {
        Mnemonic::Cmp
    } else if s.len() == 4 && s[0] == 82 && s[1] == 65 && s[2] == 78 && s[3] == 68 {
        Mnemonic::Rand
    } else if s.len() == 3 && s[0] == 67 && s[1] == 76 && s[2] == 83 {
        Mnemonic::Cls
    } else if s.len() == 3 && s[0] == 67 && s[1] == 84 && s[2] == 83 {
        Mnemonic::Cts
    } else if s.len() == 6 && s[0] == 82 && s[1] == 69 && s[2] == 78 && s[3] == 68 && s[4] == 69 && s[5] == 82 {
        Mnemonic::Render
    } else if s.len() == 4 && s[0] == 72 && s[1] == 65 && s[2] == 76 && s[3] == 84 {
        Mnemonic::Halt
    } else {
        Mnemonic::Unknown
    }
}

/// Reads a token as a mnemonic.
fn mnemonic(s: &[u8]) -> (m: Mnemonic)
    ensures
        m == mnemonic_of(s@),
{
    if s.len() == 3 && s[0] == 77 && s[1] == 79 && s[2] == 86 {
        Mnemonic::Mov
    } else if s.len() == 5 && s[0] == 83 && s[1] == 84 && s[2] == 79 && s[3] == 82 && s[4] == 69 {
        Mnemonic::Store
    } else if s.len() == 3 && s[0] == 65 && s[1] == 68 && s[2] == 68 {
        Mnemonic::Add
    } else if s.len() == 3 && s[0] == 83 && s[1] == 85 && s[2] == 66 {
        Mnemonic::Sub
    } else if s.len() == 3 && s[0] == 77 && s[1] == 85 && s[2] == 76 {
        Mnemonic::Mul
    } else if s.len() == 4 && s[0] == 77 && s[1] == 85 && s[2] == 76 && s[3] == 72 {
        Mnemonic::Mulh
    } else if s.len() == 3 && s[0] == 68 && s[1] == 73 && s[2] == 86 {
        Mnemonic::Div
    } else if s.len() == 3 && s[0] == 77 && s[1] == 79 && s[2] == 68 {
        Mnemonic::Mod
    } else if s.len() == 3 && s[0] == 74 && s[1] == 77 && s[2] == 80 {
        Mnemonic::Jmp
    } else if s.len() == 2 && s[0] == 74 && s[1] == 90 {
        Mnemonic::Jz
    } else if s.len() == 3 && s[0] == 74 && s[1] == 78 && s[2] == 90 {
        Mnemonic::Jnz
    } else if s.len() == 4 && s[0] == 76 && s[1] == 79 && s[2] == 79 && s[3] == 80 {
        Mnemonic::Loop
    } else if s.len() == 5 && s[0] == 80 && s[1] == 82 && s[2] == 73 && s[3] == 78 && s[4] == 84 {
        Mnemonic::Print
    } else if s.len() == 7 && s[0] == 80 && s[1] == 82 && s[2] == 73 && s[3] == 78 && s[4] == 84 && s[5] == 67 && s[6] == 72 {
        Mnemonic::Printch
    } else if s.len() == 5 && s[0] == 73 && s[1] == 78 && s[2] == 80 && s[3] == 85 && s[4] == 84 {
        Mnemonic::Input
    } else if s.len() == 5 && s[0] == 73 && s[1] == 78 && s[2] == 75 && s[3] == 69 && s[4] == 89 {
        Mnemonic::Inkey
    } else if s.len() == 4 && s[0] == 68 && s[1] == 82 && s[2] == 65 && s[3] == 87 {
        Mnemonic::Draw
    } else if s.len() == 3 && s[0] == 83 && s[1] == 76 && s[2] == 80 {
        Mnemonic::Slp
    } else if s.len() == 3 && s[0] == 67 && s[1] == 77 && s[2] == 80 {
        Mnemonic::Cmp
    } else if s.len() == 4 && s[0] == 82 && s[1] == 65 && s[2] == 78 && s[3] == 68 {
        Mnemonic::Rand
    } else if s.len() == 3 && s[0] == 67 && s[1] == 76 && s[2] == 83 {
        Mnemonic::Cls
    } else if s.len() == 3 && s[0] == 67 && s[1] == 84 && s[2] == 83 {
        Mnemonic::Cts
    } else if s.len() == 6 && s[0] == 82 && s[1] == 69 && s[2] == 78 && s[3] == 68 && s[4] == 69 && s[5] == 82 {
        Mnemonic::Render
    } else if s.len() == 4 && s[0] == 72 && s[1] == 65 && s[2] == 76 && s[3] == 84 {
        Mnemonic::Halt
    } else {
        Mnemonic::Unknown
    }
}

/// The unknown-instruction error for a token or statement.
pub open spec fn unknown_instr(tok: Seq<u8>) -> AsmFail {
    AsmFail { kind: AsmErrKind::UnknownInstruction, token: tok }
}

/// Whether a token is the newline-suppressing option of PRINT and
/// PRINTCH.
pub open spec fn is_no_newline(s: Seq<u8>) -> bool {
    s.len() == 2 && s[0] == 45 && s[1] == 78
}

/// One decoded statement: the mnemonic and its operands, each operand
/// read by the token grammar, with the first operand error winning.
/// A mnemonic or arity that fits no instruction is the
/// unknown-instruction error (named after the mnemonic here; the
/// statement-level decoder renames it to the whole statement).
pub open spec fn instr_of(parts: Seq<Seq<u8>>, labels: Seq<(Seq<u8>, int)>) -> Result<
    Instruction,
    AsmFail,
> {
    if parts.len() == 0 {
        Err(unknown_instr(Seq::<u8>::empty()))
    } else {
        let n = parts.len();
        match mnemonic_of(parts[0]) {
            Mnemonic::Mov => if n == 3 {
                match reg_token(parts[1]) {
                Result::Err(f) => Err(f),
                Result::Ok(r) => match source_token(parts[2]) {
                    Result::Err(f) => Err(f),
                    Result::Ok(s) => Ok(Instruction::MOV(r, s)),
                },
            }
            } else {
                Err(unknown_instr(parts[0]))
            },
            Mnemonic::Store => if n == 3 {
                match reg_token(parts[1]) {
                    Result::Err(f) => Err(f),
                    Result::Ok(r) => match memsrc_token(parts[2]) {
                        Result::Err(f) => Err(f),
                        Result::Ok(m) => Ok(Instruction::STORE(r, m)),
                    },
                }
            } else {
                Err(unknown_instr(parts[0]))
            },
            Mnemonic::Add => if n == 3 {
                match reg_token(parts[1]) {
                Result::Err(f) => Err(f),
                Result::Ok(r) => match source_token(parts[2]) {
                    Result::Err(f) => Err(f),
                    Result::Ok(s) => Ok(Instruction::ADD(r, s)),
                },
            }
            } else {
                Err(unknown_instr(parts[0]))
            },
            Mnemonic::Sub => if n == 3 {
                match reg_token(parts[1]) {
                Result::Err(f) => Err(f),
                Result::Ok(r) => match source_token(parts[2]) {
                    Result::Err(f) => Err(f),
                    Result::Ok(s) => Ok(Instruction::SUB(r, s)),
                },
            }
            } else {
                Err(unknown_instr(parts[0]))
            },
            Mnemonic::Mul => if n == 3 {
                match reg_token(parts[1]) {
                Result::Err(f) => Err(f),
                Result::Ok(r) => match source_token(parts[2]) {
                    Result::Err(f) => Err(f),
                    Result::Ok(s) => Ok(Instruction::MUL(r, s)),
                },
            }
            } else {
                Err(unknown_instr(parts[0]))
            },
            Mnemonic::Mulh => if n == 4 {
                match reg_token(parts[1]) {
                    Result::Err(f) => Err(f),
                    Result::Ok(d) => match reg_token(parts[2]) {
                        Result::Err(f) => Err(f),
                        Result::Ok(s1) => match reg_token(parts[3]) {
                            Result::Err(f) => Err(f),
                            Result::Ok(s2) => Ok(Instruction::MULH(d, s1, s2)),
                        },
                    },
                }
            } else {
                Err(unknown_instr(parts[0]))
            },
            Mnemonic::Div => if n == 3 {
                match reg_token(parts[1]) {
                Result::Err(f) => Err(f),
                Result::Ok(r) => match source_token(parts[2]) {
                    Result::Err(f) => Err(f),
                    Result::Ok(s) => Ok(Instruction::DIV(r, s)),
                },
            }
            } else {
                Err(unknown_instr(parts[0]))
            },
            Mnemonic::Mod => if n == 3 {
                match reg_token(parts[1]) {
                Result::Err(f) => Err(f),
                Result::Ok(r) => match source_token(parts[2]) {
                    Result::Err(f) => Err(f),
                    Result::Ok(s) => Ok(Instruction::MOD(r, s)),
                },
            }
            } else {
                Err(unknown_instr(parts[0]))
            },
            Mnemonic::Jmp => if n == 2 {
                match addr_token(parts[1], labels) {
                    Result::Err(f) => Err(f),
                    Result::Ok(a) => Ok(Instruction::JMP(a as usize)),
                }
            } else {
                Err(unknown_instr(parts[0]))
            },
            Mnemonic::Jz => if n == 2 {
                match addr_token(parts[1], labels) {
                    Result::Err(f) => Err(f),
                    Result::Ok(a) => Ok(Instruction::JZ(a as usize)),
                }
            } else {
                Err(unknown_instr(parts[0]))
            },
            Mnemonic::Jnz => if n == 2 {
                match addr_token(parts[1], labels) {
                    Result::Err(f) => Err(f),
                    Result::Ok(a) => Ok(Instruction::JNZ(a as usize)),
                }
            } else {
                Err(unknown_instr(parts[0]))
            },
            Mnemonic::Loop => if n == 3 {
                match addr_token(parts[1], labels) {
                    Result::Err(f) => Err(f),
                    Result::Ok(a) => match reg_token(parts[2]) {
                        Result::Err(f) => Err(f),
                        Result::Ok(r) => Ok(Instruction::LOOP(a as usize, r)),
                    },
                }
            } else {
                Err(unknown_instr(parts[0]))
            },
            Mnemonic::Print => if n == 2 || (n == 3 && is_no_newline(parts[2])) {
                match reg_token(parts[1]) {
                    Result::Err(f) => Err(f),
                    Result::Ok(r) => Ok(Instruction::PRINT(r, n == 2)),
                }
            } else {
                Err(unknown_instr(parts[0]))
            },
            Mnemonic::Printch => if n == 2 || (n == 3 && is_no_newline(parts[2])) {
                match reg_token(parts[1]) {
                    Result::Err(f) => Err(f),
                    Result::Ok(r) => Ok(Instruction::PRINTCH(r, n == 2)),
                }
            } else {
                Err(unknown_instr(parts[0]))
            },
            Mnemonic::Input => if n == 2 {
                match reg_token(parts[1]) {
                    Result::Err(f) => Err(f),
                    Result::Ok(r) => Ok(Instruction::INPUT(r)),
                }
            } else {
                Err(unknown_instr(parts[0]))
            },
            Mnemonic::Inkey => if n == 2 {
                match reg_token(parts[1]) {
                    Result::Err(f) => Err(f),
                    Result::Ok(r) => Ok(Instruction::INKEY(r)),
                }
            } else {
                Err(unknown_instr(parts[0]))
            },
            Mnemonic::Draw => if n == 4 {
                match source_token(parts[1]) {
                    Result::Err(f) => Err(f),
                    Result::Ok(x) => match source_token(parts[2]) {
                        Result::Err(f) => Err(f),
                        Result::Ok(y) => match source_token(parts[3]) {
                            Result::Err(f) => Err(f),
                            Result::Ok(c) => Ok(Instruction::DRAW(x, y, c)),
                        },
                    },
                }
            } else {
                Err(unknown_instr(parts[0]))
            },
            Mnemonic::Slp => if n == 2 {
                if is_dec(parts[1]) && dec_val(parts[1]) <= usize::MAX {
                    Ok(Instruction::SLP(dec_val(parts[1]) as usize))
                } else {
                    Err(AsmFail { kind: AsmErrKind::InvalidLiteral, token: parts[1] })
                }
            } else {
                Err(unknown_instr(parts[0]))
            },
            Mnemonic::Cmp => if n == 3 {
                match reg_token(parts[1]) {
                Result::Err(f) => Err(f),
                Result::Ok(r) => match source_token(parts[2]) {
                    Result::Err(f) => Err(f),
                    Result::Ok(s) => Ok(Instruction::CMP(r, s)),
                },
            }
            } else {
                Err(unknown_instr(parts[0]))
            },
            Mnemonic::Rand => if n == 2 {
                match reg_token(parts[1]) {
                    Result::Err(f) => Err(f),
                    Result::Ok(r) => Ok(Instruction::RAND(r)),
                }
            } else {
                Err(unknown_instr(parts[0]))
            },
            Mnemonic::Cls => if n == 1 {
                Ok(Instruction::CLS)
            } else {
                Err(unknown_instr(parts[0]))
            },
            Mnemonic::Cts => if n == 1 {
                Ok(Instruction::CTS)
            } else {
                Err(unknown_instr(parts[0]))
            },
            Mnemonic::Render => if n == 1 {
                Ok(Instruction::RENDER)
            } else {
                Err(unknown_instr(parts[0]))
            },
            Mnemonic::Halt => if n == 1 {
                Ok(Instruction::HALT)
            } else {
                Err(unknown_instr(parts[0]))
            },
            Mnemonic::Unknown => Err(unknown_instr(parts[0])),
        }
    }
}

/// The unknown-instruction error over a copied token.
fn unknown_err(tok: &[u8]) -> (e: AsmError)
    ensures
        e@ == unknown_instr(tok@),
{
    AsmError { kind: AsmErrKind::UnknownInstruction, token: to_vec(tok) }
}

/// Decodes one tokenized statement against the label table.
#[verifier::rlimit(100)]
#[verifier::spinoff_prover]
pub fn parse_instruction(parts: &Vec<Vec<u8>>, labels: &Vec<(Vec<u8>, usize)>) -> (res: Result<
    Instruction,
    AsmError,
>)
    ensures
        res_models(res, instr_of(views(parts@), label_views(labels@))),
{
    if parts.len() == 0 {
        let e = AsmError { kind: AsmErrKind::UnknownInstruction, token: Vec::new() };
        proof {
            assert(e@.token =~= Seq::<u8>::empty());
        }
        return Err(e);
    }
    let m = mnemonic(parts[0].as_slice());
    match m {
        Mnemonic::Mov => decode_data(m, parts, labels),
        Mnemonic::Store => decode_data(m, parts, labels),
        Mnemonic::Add => decode_data(m, parts, labels),
        Mnemonic::Sub => decode_data(m, parts, labels),
        Mnemonic::Mul => decode_data(m, parts, labels),
        Mnemonic::Mulh => decode_data(m, parts, labels),
        Mnemonic::Div => decode_data(m, parts, labels),
        Mnemonic::Mod => decode_data(m, parts, labels),
        Mnemonic::Jmp => decode_flow(m, parts, labels),
        Mnemonic::Jz => decode_flow(m, parts, labels),
        Mnemonic::Jnz => decode_flow(m, parts, labels),
        Mnemonic::Loop => decode_flow(m, parts, labels),
        Mnemonic::Print => decode_io(m, parts, labels),
        Mnemonic::Printch => decode_io(m, parts, labels),
        Mnemonic::Input => decode_io(m, parts, labels),
        Mnemonic::Inkey => decode_io(m, parts, labels),
        Mnemonic::Rand => decode_io(m, parts, labels),
        Mnemonic::Slp => decode_io(m, parts, labels),
        Mnemonic::Draw => decode_misc(m, parts, labels),
        Mnemonic::Cls => decode_misc(m, parts, labels),
        Mnemonic::Cts => decode_misc(m, parts, labels),
        Mnemonic::Render => decode_misc(m, parts, labels),
        Mnemonic::Halt => decode_misc(m, parts, labels),
        Mnemonic::Cmp => decode_data(m, parts, labels),
        Mnemonic::Unknown => Err(unknown_err(parts[0].as_slice())),
    }
}

/// Decodes the register and memory instructions.
#[verifier::rlimit(100)]
#[verifier::spinoff_prover]
fn decode_data(m: Mnemonic, parts: &Vec<Vec<u8>>, labels: &Vec<(Vec<u8>, usize)>) -> (res: Result<
    Instruction,
    AsmError,
>)
    requires
        parts@.len() > 0,
        m == mnemonic_of(views(parts@)[0]),
        m is Mov || m is Store || m is Add || m is Sub || m is Mul || m is Mulh || m is Div
            || m is Mod || m is Cmp,
    ensures
        res_models(res, instr_of(views(parts@), label_views(labels@))),
{
    let n = parts.len();
    match m {
        Mnemonic::Mov => {
            if n == 3 {
                let a = match parse_reg(parts[1].as_slice()) {
                    Ok(v) => v,
                    Err(e) => {
                        return Err(e);
                    },
                };
                let b = match parse_source(parts[2].as_slice()) {
                    Ok(v) => v,
                    Err(e) => {
                        return Err(e);
                    },
                };
                return Ok(Instruction::MOV(a, b));
            } else {
                return Err(unknown_err(parts[0].as_slice()));
            }
        },
        Mnemonic::Store => {
            if n == 3 {
                let a = match parse_reg(parts[1].as_slice()) {
                    Ok(v) => v,
                    Err(e) => {
                        return Err(e);
                    },
                };
                let b = match parse_mem_src(parts[2].as_slice()) {
                    Ok(v) => v,
                    Err(e) => {
                        return Err(e);
                    },
                };
                return Ok(Instruction::STORE(a, b));
            } else {
                return Err(unknown_err(parts[0].as_slice()));
            }
        },
        Mnemonic::Add => {
            if n == 3 {
                let a = match parse_reg(parts[1].as_slice()) {
                    Ok(v) => v,
                    Err(e) => {
                        return Err(e);
                    },
                };
                let b = match parse_source(parts[2].as_slice()) {
                    Ok(v) => v,
                    Err(e) => {
                        return Err(e);
                    },
                };
                return Ok(Instruction::ADD(a, b));
            } else {
                return Err(unknown_err(parts[0].as_slice()));
            }
        },
        Mnemonic::Sub => {
            if n == 3 {
                let a = match parse_reg(parts[1].as_slice()) {
                    Ok(v) => v,
                    Err(e) => {
                        return Err(e);
                    },
                };
                let b = match parse_source(parts[2].as_slice()) {
                    Ok(v) => v,
                    Err(e) => {
                        return Err(e);
                    },
                };
                return Ok(Instruction::SUB(a, b));
            } else {
                return Err(unknown_err(parts[0].as_slice()));
            }
        },
        Mnemonic::Mul => {
            if n == 3 {
                let a = match parse_reg(parts[1].as_slice()) {
                    Ok(v) => v,
                    Err(e) => {
                        return Err(e);
                    },
                };
                let b = match parse_source(parts[2].as_slice()) {
                    Ok(v) => v,
                    Err(e) => {
                        return Err(e);
                    },
                };
                return Ok(Instruction::MUL(a, b));
            } else {
                return Err(unknown_err(parts[0].as_slice()));
            }
        },
        Mnemonic::Mulh => {
            if n == 4 {
                let d = match parse_reg(parts[1].as_slice()) {
                    Ok(v) => v,
                    Err(e) => {
                        return Err(e);
                    },
                };
                let s1 = match parse_reg(parts[2].as_slice()) {
                    Ok(v) => v,
                    Err(e) => {
                        return Err(e);
                    },
                };
                let s2 = match parse_reg(parts[3].as_slice()) {
                    Ok(v) => v,
                    Err(e) => {
                        return Err(e);
                    },
                };
                return Ok(Instruction::MULH(d, s1, s2));
            } else {
                return Err(unknown_err(parts[0].as_slice()));
            }
        },
        Mnemonic::Div => {
            if n == 3 {
                let a = match parse_reg(parts[1].as_slice()) {
                    Ok(v) => v,
                    Err(e) => {
                        return Err(e);
                    },
                };
                let b = match parse_source(parts[2].as_slice()) {
                    Ok(v) => v,
                    Err(e) => {
                        return Err(e);
                    },
                };
                return Ok(Instruction::DIV(a, b));
            } else {
                return Err(unknown_err(parts[0].as_slice()));
            }
        },
        Mnemonic::Cmp => {
            if n == 3 {
                let a = match parse_reg(parts[1].as_slice()) {
                    Ok(v) => v,
                    Err(e) => {
                        return Err(e);
                    },
                };
                let b = match parse_source(parts[2].as_slice()) {
                    Ok(v) => v,
                    Err(e) => {
                        return Err(e);
                    },
                };
                return Ok(Instruction::CMP(a, b));
            } else {
                return Err(unknown_err(parts[0].as_slice()));
            }
        },
        Mnemonic::Mod => {
            if n == 3 {
                let a = match parse_reg(parts[1].as_slice()) {
                    Ok(v) => v,
                    Err(e) => {
                        return Err(e);
                    },
                };
                let b = match parse_source(parts[2].as_slice()) {
                    Ok(v) => v,
                    Err(e) => {
                        return Err(e);
                    },
                };
                return Ok(Instruction::MOD(a, b));
            } else {
                return Err(unknown_err(parts[0].as_slice()));
            }
        },
        _ => {
            proof {
                assert(false);
            }
            Err(unknown_err(parts[0].as_slice()))
        },
    }
}

/// Decodes the control-transfer instructions.
#[verifier::rlimit(100)]
#[verifier::spinoff_prover]
fn decode_flow(m: Mnemonic, parts: &Vec<Vec<u8>>, labels: &Vec<(Vec<u8>, usize)>) -> (res: Result<
    Instruction,
    AsmError,
>)
    requires
        parts@.len() > 0,
        m == mnemonic_of(views(parts@)[0]),
        m is Jmp || m is Jz || m is Jnz || m is Loop,
    ensures
        res_models(res, instr_of(views(parts@), label_views(labels@))),
{
    let n = parts.len();
    match m {
        Mnemonic::Jmp => {
            if n == 2 {
                match parse_label_or_addr(parts[1].as_slice(), labels) {
                    Ok(a) => return Ok(Instruction::JMP(a)),
                    Err(e) => return Err(e),
                }
            } else {
                return Err(unknown_err(parts[0].as_slice()));
            }
        },
        Mnemonic::Jz => {
            if n == 2 {
                match parse_label_or_addr(parts[1].as_slice(), labels) {
                    Ok(a) => return Ok(Instruction::JZ(a)),
                    Err(e) => return Err(e),
                }
            } else {
                return Err(unknown_err(parts[0].as_slice()));
            }
        },
        Mnemonic::Jnz => {
            if n == 2 {
                match parse_label_or_addr(parts[1].as_slice(), labels) {
                    Ok(a) => return Ok(Instruction::JNZ(a)),
                    Err(e) => return Err(e),
                }
            } else {
                return Err(unknown_err(parts[0].as_slice()));
            }
        },
        Mnemonic::Loop => {
            if n == 3 {
                let a = match parse_label_or_addr(parts[1].as_slice(), labels) {
                    Ok(v) => v,
                    Err(e) => {
                        return Err(e);
                    },
                };
                let r = match parse_reg(parts[2].as_slice()) {
                    Ok(v) => v,
                    Err(e) => {
                        return Err(e);
                    },
                };
                return Ok(Instruction::LOOP(a, r));
            } else {
                return Err(unknown_err(parts[0].as_slice()));
            }
        },
        _ => {
            proof {
                assert(false);
            }
            Err(unknown_err(parts[0].as_slice()))
        },
    }
}

/// Decodes the output and peripheral instructions.
#[verifier::rlimit(100)]
#[verifier::spinoff_prover]
fn decode_io(m: Mnemonic, parts: &Vec<Vec<u8>>, labels: &Vec<(Vec<u8>, usize)>) -> (res: Result<
    Instruction,
    AsmError,
>)
    requires
        parts@.len() > 0,
        m == mnemonic_of(views(parts@)[0]),
        m is Print || m is Printch || m is Input || m is Inkey || m is Rand || m is Slp,
    ensures
        res_models(res, instr_of(views(parts@), label_views(labels@))),
{
    let n = parts.len();
    match m {
        Mnemonic::Print => {
            let two = n == 2;
            if two || (n == 3 && parts[2].len() == 2 && parts[2][0] == 45 && parts[2][1] == 78) {
                match parse_reg(parts[1].as_slice()) {
                    Ok(r) => return Ok(Instruction::PRINT(r, two)),
                    Err(e) => return Err(e),
                }
            } else {
                return Err(unknown_err(parts[0].as_slice()));
            }
        },
        Mnemonic::Printch => {
            let two = n == 2;
            if two || (n == 3 && parts[2].len() == 2 && parts[2][0] == 45 && parts[2][1] == 78) {
                match parse_reg(parts[1].as_slice()) {
                    Ok(r) => return Ok(Instruction::PRINTCH(r, two)),
                    Err(e) => return Err(e),
                }
            } else {
                return Err(unknown_err(parts[0].as_slice()));
            }
        },
        Mnemonic::Input => {
            if n == 2 {
                match parse_reg(parts[1].as_slice()) {
                    Ok(r) => return Ok(Instruction::INPUT(r)),
                    Err(e) => return Err(e),
                }
            } else {
                return Err(unknown_err(parts[0].as_slice()));
            }
        },
        Mnemonic::Inkey => {
            if n == 2 {
                match parse_reg(parts[1].as_slice()) {
                    Ok(r) => return Ok(Instruction::INKEY(r)),
                    Err(e) => return Err(e),
                }
            } else {
                return Err(unknown_err(parts[0].as_slice()));
            }
        },
        Mnemonic::Rand => {
            if n == 2 {
                match parse_reg(parts[1].as_slice()) {
                    Ok(r) => return Ok(Instruction::RAND(r)),
                    Err(e) => return Err(e),
                }
            } else {
                return Err(unknown_err(parts[0].as_slice()));
            }
        },
        Mnemonic::Slp => {
            if n == 2 {
                proof {
                    if is_dec(parts@[1]@) {
                        lemma_dec_val_nonneg(parts@[1]@);
                    }
                }
                match parse_usize(parts[1].as_slice()) {
                    Some(d) => return Ok(Instruction::SLP(d)),
                    None => return Err(
                        AsmError {
                            kind: AsmErrKind::InvalidLiteral,
                            token: to_vec(parts[1].as_slice()),
                        },
                    ),
                }
            } else {
                return Err(unknown_err(parts[0].as_slice()));
            }
        },
        _ => {
            proof {
                assert(false);
            }
            Err(unknown_err(parts[0].as_slice()))
        },
    }
}

/// Decodes the display and bare instructions.
#[verifier::rlimit(100)]
#[verifier::spinoff_prover]
fn decode_misc(m: Mnemonic, parts: &Vec<Vec<u8>>, labels: &Vec<(Vec<u8>, usize)>) -> (res: Result<
    Instruction,
    AsmError,
>)
    requires
        parts@.len() > 0,
        m == mnemonic_of(views(parts@)[0]),
        m is Draw || m is Cls || m is Cts || m is Render || m is Halt,
    ensures
        res_models(res, instr_of(views(parts@), label_views(labels@))),
{
    let n = parts.len();
    match m {
        Mnemonic::Draw => {
            if n == 4 {
                let x = match parse_source(parts[1].as_slice()) {
                    Ok(v) => v,
                    Err(e) => {
                        return Err(e);
                    },
                };
                let y = match parse_source(parts[2].as_slice()) {
                    Ok(v) => v,
                    Err(e) => {
                        return Err(e);
                    },
                };
                let c = match parse_source(parts[3].as_slice()) {
                    Ok(v) => v,
                    Err(e) => {
                        return Err(e);
                    },
                };
                return Ok(Instruction::DRAW(x, y, c));
            } else {
                return Err(unknown_err(parts[0].as_slice()));
            }
        },
        Mnemonic::Cls => {
            if n == 1 {
                return Ok(Instruction::CLS);
            } else {
                return Err(unknown_err(parts[0].as_slice()));
            }
        },
        Mnemonic::Cts => {
            if n == 1 {
                return Ok(Instruction::CTS);
            } else {
                return Err(unknown_err(parts[0].as_slice()));
            }
        },
        Mnemonic::Render => {
            if n == 1 {
                return Ok(Instruction::RENDER);
            } else {
                return Err(unknown_err(parts[0].as_slice()));
            }
        },
        Mnemonic::Halt => {
            if n == 1 {
                return Ok(Instruction::HALT);
            } else {
                return Err(unknown_err(parts[0].as_slice()));
            }
        },
        _ => {
            proof {
                assert(false);
            }
            Err(unknown_err(parts[0].as_slice()))
        },
    }
}


/// Decoding one raw statement: tokenize and decode; an unknown
/// mnemonic or arity is reported with the whole statement as the
/// offending text.
pub open spec fn instr_of_seg(seg: Seq<u8>, labels: Seq<(Seq<u8>, int)>) -> Result<
    Instruction,
    AsmFail,
> {
    match instr_of(tokens_of(seg), labels) {
        Result::Ok(i) => Ok(i),
        Result::Err(f) => if f.kind == AsmErrKind::UnknownInstruction {
            Err(AsmFail { kind: f.kind, token: seg })
        } else {
            Err(f)
        },
    }
}

/// Pass two: the queued statements decoded in order; the first fatal
/// error wins.
pub open spec fn assemble_list(raws: Seq<Seq<u8>>, labels: Seq<(Seq<u8>, int)>) -> Result<
    Seq<Instruction>,
    AsmFail,
>
    decreases raws.len(),
{
    if raws.len() == 0 {
        Ok(Seq::<Instruction>::empty())
    } else {
        match instr_of_seg(raws.first(), labels) {
            Result::Err(f) => Err(f),
            Result::Ok(i) => match assemble_list(raws.drop_first(), labels) {
                Result::Err(f) => Err(f),
                Result::Ok(rest) => Ok(seq![i] + rest),
            },
        }
    }
}

/// The whole assembler: the statements of the text, the labels bound
/// in pass one, the instructions decoded in pass two.
pub open spec fn assemble(src: Seq<u8>) -> Result<Seq<Instruction>, AsmFail> {
    assemble_list(instr_segs(segments_of(src)), labels_of(segments_of(src)))
}

/// Assembles a source text into a program.
///
/// Statements are collected line by line (comments stripped, `;` as a
/// statement separator); pass one binds each label to the index of the
/// instruction after it; pass two tokenizes and decodes every queued
/// statement, resolving targets first numerically and then through the
/// label table. The result — program, or first fatal error — is
/// exactly [`assemble`] of the text.
pub fn parse_program(src: &[u8]) -> (res: Result<Vec<Instruction>, AsmError>)
    ensures
        (assemble(src@) matches Ok(p) ==> res matches Ok(v) && v@ == p),
        (assemble(src@) matches Err(f) ==> res matches Err(e) && e@ == f),
{
    let segs = collect_segments(src);
    let (labels, raws) = pass_labels(&segs);
    let mut prog: Vec<Instruction> = Vec::new();
    let mut i: usize = 0;
    proof {
        assert(views(raws@).skip(0) =~= views(raws@));
        match assemble_list(views(raws@), label_views(labels@)) {
            Result::Ok(rest) => {
                assert(prog@ + rest =~= rest);
            },
            Result::Err(f) => {},
        }
    }
    while i < raws.len()
        invariant
            0 <= i <= raws@.len(),
            label_views(labels@) == labels_of(segments_of(src@)),
            views(raws@) == instr_segs(segments_of(src@)),
            assemble(src@) == (match assemble_list(
                views(raws@).skip(i as int),
                label_views(labels@),
            ) {
                Result::Ok(rest) => Result::<Seq<Instruction>, AsmFail>::Ok(prog@ + rest),
                Result::Err(f) => Result::<Seq<Instruction>, AsmFail>::Err(f),
            }),
        decreases raws@.len() - i,
    {
        let toks = tokenize(raws[i].as_slice());
        proof {
            assert(views(raws@).skip(i as int).first() == views(raws@)[i as int]);
            assert(views(raws@).skip(i as int).drop_first() =~= views(raws@).skip(i + 1));
        }
        match parse_instruction(&toks, &labels) {
            Ok(ins) => {
                proof {
                    assert(instr_of_seg(views(raws@)[i as int], label_views(labels@))
                        == Ok::<Instruction, AsmFail>(ins));
                }
                let ghost p0 = prog@;
                prog.push(ins);
                proof {
                    let lv = label_views(labels@);
                    let rv = views(raws@);
                    match assemble_list(rv.skip(i + 1), lv) {
                        Result::Ok(rest) => {
                            assert(assemble_list(rv.skip(i as int), lv) == Ok::<
                                Seq<Instruction>,
                                AsmFail,
                            >(seq![ins] + rest));
                            assert(p0 + (seq![ins] + rest) =~= prog@ + rest);
                        },
                        Result::Err(f) => {
                            assert(assemble_list(rv.skip(i as int), lv) == Err::<
                                Seq<Instruction>,
                                AsmFail,
                            >(f));
                        },
                    }
                }
            },
            Err(e) => {
                proof {
                    assert(instr_of_seg(views(raws@)[i as int], label_views(labels@)) is Err);
                    assert(assemble_list(views(raws@).skip(i as int), label_views(labels@))
                        is Err);
                }
                if e.kind == AsmErrKind::UnknownInstruction {
                    let fe = AsmError { kind: e.kind, token: to_vec(raws[i].as_slice()) };
                    proof {
                        assert(fe@ =~= instr_of_seg(
                            views(raws@)[i as int],
                            label_views(labels@),
                        )->Err_0);
                    }
                    return Err(fe);
                } else {
                    return Err(e);
                }
            },
        }
        i = i + 1;
    }
    proof {
        assert(views(raws@).skip(raws@.len() as int) =~= Seq::<Seq<u8>>::empty());
        assert(prog@ + Seq::<Instruction>::empty() =~= prog@);
    }
    Ok(prog)
}

/// A jump target written as a label resolves to the same address as
/// the label's value written as a numeral, so the assembled program —
/// and hence the run — is the same either way.
pub proof fn lemma_label_equiv(name: Seq<u8>, labels: Seq<(Seq<u8>, int)>, a: int)
    requires
        lookup_label(labels, name) == Some(a),
        !is_dec(name),
        0 <= a <= usize::MAX,
    ensures
        addr_token(name, labels) == addr_token(dec_of(a as nat), labels),
        addr_token(name, labels) == Ok::<int, AsmFail>(a),
{
    lemma_dec_of_val(a as nat);
}

} // verus!
