//! The names of files as charts write them.
//!
//! A chart names its sounds and images by paths below its own directory.
//! Such a path may part its directories by either kind of slash, may
//! differ from the name of the file in case, and may have another ending
//! than the file: a chart that asks for a `.wav` is served by an `.ogg` of
//! the same name.

use vstd::prelude::*;
use crate::directive::{to_upper, upper, Span};

verus! {

/// Whether the character parts directories.
pub open spec fn is_separator(c: u8) -> bool {
    c == '/' as u8 || c == '\\' as u8
}

/// The first position at or behind `pos` that holds no separator.
pub open spec fn skip_separators(s: Seq<u8>, pos: int) -> int
    decreases s.len() - pos,
{
    if 0 <= pos < s.len() && is_separator(s[pos]) {
        skip_separators(s, pos + 1)
    } else {
        pos
    }
}

/// The first position at or behind `pos` that holds a separator, or the
/// end of the path.
pub open spec fn part_end(s: Seq<u8>, pos: int) -> int
    decreases s.len() - pos,
{
    if 0 <= pos < s.len() && !is_separator(s[pos]) {
        part_end(s, pos + 1)
    } else {
        pos
    }
}

/// The parts of the path from `pos` on: what stands between separators
/// and is not empty.
pub open spec fn parts_from(s: Seq<u8>, pos: int) -> Seq<Span>
    decreases s.len() - pos,
{
    let from = skip_separators(s, pos);
    if 0 <= pos && from < s.len() {
        proof {
            lemma_skip_separators(s, pos);
            lemma_part_end(s, from);
        }
        seq![Span { from: from as usize, to: part_end(s, from) as usize }] + parts_from(
            s,
            part_end(s, from),
        )
    } else {
        Seq::empty()
    }
}

/// Skipping separators goes forward, stays within the path, and stops
/// before a character that is none.
pub proof fn lemma_skip_separators(s: Seq<u8>, pos: int)
    requires
        0 <= pos <= s.len(),
    ensures
        pos <= skip_separators(s, pos) <= s.len(),
        skip_separators(s, pos) < s.len() ==> !is_separator(s[skip_separators(s, pos)]),
    decreases s.len() - pos,
{
    if pos < s.len() && is_separator(s[pos]) {
        lemma_skip_separators(s, pos + 1);
    }
}

/// A part ends within the path, and behind its start if it starts with a
/// character that is no separator.
pub proof fn lemma_part_end(s: Seq<u8>, pos: int)
    requires
        0 <= pos <= s.len(),
    ensures
        pos <= part_end(s, pos) <= s.len(),
        pos < s.len() && !is_separator(s[pos]) ==> pos < part_end(s, pos),
    decreases s.len() - pos,
{
    if pos < s.len() && !is_separator(s[pos]) {
        lemma_part_end(s, pos + 1);
    }
}

/// The text in upper case.
pub open spec fn uppered(s: Seq<u8>) -> Seq<u8> {
    Seq::new(s.len(), |i: int| upper(s[i]))
}

/// The place of the last full stop among the first `n` characters.
pub open spec fn last_dot(s: Seq<u8>, n: int) -> Option<int>
    decreases n,
{
    if n <= 0 {
        None
    } else if s[n - 1] == '.' as u8 {
        Some(n - 1)
    } else {
        last_dot(s, n - 1)
    }
}

/// Whether the file `name` is the file `wanted` but for its ending, which
/// is `ext` in `wanted`: the name in upper case, with `ext` in place of
/// what follows its last full stop, is `wanted` in upper case. A name
/// without a full stop stands for no other.
pub open spec fn stands_for(name: Seq<u8>, wanted: Seq<u8>, ext: Seq<u8>) -> bool {
    match last_dot(name, name.len() as int) {
        Some(dot) => uppered(name.subrange(0, dot)) + ext == uppered(wanted),
        None => false,
    }
}

/// Whether the file `name` serves where `wanted` is asked for: it is the
/// same name but for case, or it stands for it with one of the endings.
pub open spec fn serves(name: Seq<u8>, wanted: Seq<u8>, exts: Seq<Vec<u8>>) -> bool {
    uppered(name) == uppered(wanted) || exists|k: int|
        0 <= k < exts.len() && stands_for(name, wanted, #[trigger] exts[k]@)
}

/// The parts of a path.
pub fn path_parts(path: &[u8]) -> (r: Vec<Span>)
    ensures
        r@ == parts_from(path@, 0),
        forall|i: int| 0 <= i < r@.len() ==> (#[trigger] r@[i]).from < r@[i].to <= path@.len(),
{
    let mut parts: Vec<Span> = Vec::new();
    let mut pos: usize = 0;
    loop
        invariant
            pos <= path@.len(),
            parts_from(path@, 0) == parts@ + parts_from(path@, pos as int),
            forall|i: int| 0 <= i < parts@.len() ==> (#[trigger] parts@[i]).from < parts@[i].to <= path@.len(),
        decreases path@.len() - pos,
    {
        let mut from = pos;
        while from < path.len() && (path[from] == '/' as u8 || path[from] == '\\' as u8)
            invariant
                pos <= from <= path@.len(),
                skip_separators(path@, from as int) == skip_separators(path@, pos as int),
            decreases path@.len() - from,
        {
            from += 1;
        }
        if from >= path.len() {
            assert(parts_from(path@, pos as int) == Seq::<Span>::empty());
            assert(parts@ + Seq::<Span>::empty() =~= parts@);
            return parts;
        }
        let mut to = from;
        while to < path.len() && !(path[to] == '/' as u8 || path[to] == '\\' as u8)
            invariant
                from <= to <= path@.len(),
                part_end(path@, to as int) == part_end(path@, from as int),
            decreases path@.len() - to,
        {
            to += 1;
        }
        proof {
            lemma_part_end(path@, from as int);
            let rest = parts_from(path@, to as int);
            assert(parts_from(path@, pos as int) == seq![Span { from, to }] + rest);
            assert(parts@ + (seq![Span { from, to }] + rest) =~= parts@.push(Span { from, to }) + rest);
        }
        parts.push(Span { from, to });
        pos = to;
    }
}

/// The place of the last full stop of a name.
fn find_last_dot(name: &[u8]) -> (r: Option<usize>)
    ensures
        r is Some <==> last_dot(name@, name@.len() as int) is Some,
        r matches Some(dot) ==> last_dot(name@, name@.len() as int) == Some(dot as int) && dot
            < name@.len(),
{
    let mut n: usize = name.len();
    while n > 0
        invariant
            n <= name@.len(),
            last_dot(name@, name@.len() as int) == last_dot(name@, n as int),
        decreases n,
    {
        if name[n - 1] == '.' as u8 {
            return Some(n - 1);
        }
        n -= 1;
    }
    None
}

/// Whether two names are the same but for case.
fn same_name(a: &[u8], b: &[u8]) -> (r: bool)
    ensures
        r == (uppered(a@) == uppered(b@)),
{
    if a.len() != b.len() {
        assert(uppered(a@).len() != uppered(b@).len());
        return false;
    }
    let mut i: usize = 0;
    while i < a.len()
        invariant
            i <= a@.len() == b@.len(),
            forall|j: int| 0 <= j < i ==> upper(a@[j]) == upper(b@[j]),
        decreases a@.len() - i,
    {
        if to_upper(a[i]) != to_upper(b[i]) {
            assert(uppered(a@)[i as int] != uppered(b@)[i as int]);
            return false;
        }
        i += 1;
    }
    assert(uppered(a@) =~= uppered(b@));
    true
}

/// Whether the name, cut off at `dot`, stands for `wanted` with the
/// ending `ext`.
fn stem_serves(name: &[u8], dot: usize, wanted: &[u8], ext: &[u8]) -> (r: bool)
    requires
        dot <= name@.len(),
    ensures
        r == (uppered(name@.subrange(0, dot as int)) + ext@ == uppered(wanted@)),
{
    let ghost made = uppered(name@.subrange(0, dot as int)) + ext@;
    if ext.len() > wanted.len() || wanted.len() - ext.len() != dot {
        assert(made.len() != uppered(wanted@).len());
        return false;
    }
    let mut i: usize = 0;
    while i < wanted.len()
        invariant
            i <= wanted@.len() == dot + ext@.len(),
            dot <= name@.len(),
            made == uppered(name@.subrange(0, dot as int)) + ext@,
            forall|j: int| 0 <= j < i ==> made[j] == upper(wanted@[j]),
        decreases wanted@.len() - i,
    {
        let c = if i < dot {
            to_upper(name[i])
        } else {
            ext[i - dot]
        };
        assert(c == made[i as int]);
        if c != to_upper(wanted[i]) {
            assert(made[i as int] != uppered(wanted@)[i as int]);
            return false;
        }
        i += 1;
    }
    assert(made =~= uppered(wanted@));
    true
}

/// Whether the file `name` serves where `wanted` is asked for.
fn name_serves(name: &[u8], wanted: &[u8], exts: &Vec<Vec<u8>>) -> (r: bool)
    ensures
        r == serves(name@, wanted@, exts@),
{
    if same_name(name, wanted) {
        return true;
    }
    match find_last_dot(name) {
        Some(dot) => {
            let mut k: usize = 0;
            while k < exts.len()
                invariant
                    k <= exts@.len(),
                    dot < name@.len(),
                    last_dot(name@, name@.len() as int) == Some(dot as int),
                    forall|j: int| 0 <= j < k ==> !stands_for(name@, wanted@, #[trigger] exts@[j]@),
                decreases exts@.len() - k,
            {
                if stem_serves(name, dot, wanted, exts[k].as_slice()) {
                    assert(stands_for(name@, wanted@, exts@[k as int]@));
                    return true;
                }
                k += 1;
            }
            false
        },
        None => false,
    }
}

/// Finds among the names of a directory the first file that serves where
/// `wanted` is asked for: one of the same name but for case, or one that
/// differs from it only in its ending, where `wanted` has one of the
/// endings `exts`. The endings are written in upper case, with their full
/// stop.
pub fn find_entry(names: &Vec<Vec<u8>>, wanted: &[u8], exts: &Vec<Vec<u8>>) -> (r: Option<usize>)
    ensures
        r matches Some(i) ==> i < names@.len() && serves(names@[i as int]@, wanted@, exts@),
        r matches Some(i) ==> forall|j: int| 0 <= j < i ==> !serves((#[trigger] names@[j])@, wanted@, exts@),
        r is None ==> forall|j: int|
            0 <= j < names@.len() ==> !serves((#[trigger] names@[j])@, wanted@, exts@),
{
    let mut i: usize = 0;
    while i < names.len()
        invariant
            i <= names@.len(),
            forall|j: int| 0 <= j < i ==> !serves((#[trigger] names@[j])@, wanted@, exts@),
        decreases names@.len() - i,
    {
        if name_serves(names[i].as_slice(), wanted, exts) {
            return Some(i);
        }
        i += 1;
    }
    None
}

} // verus!
