//! The template compiler: turns a format string into literal and variable segments.
use vstd::prelude::*;

use crate::text::chars_of;

verus! {

/// A character that may stand in a variable name.
pub open spec fn is_ident_char(c: char) -> bool {
    ('a' <= c && c <= 'z') || ('A' <= c && c <= 'Z') || ('0' <= c && c <= '9') || c == '_'
}

/// The end of the run of name characters in `t` that starts at `i`.
pub open spec fn ident_end(t: Seq<char>, i: int) -> int
    decreases t.len() - i,
{
    if 0 <= i < t.len() && is_ident_char(t[i]) {
        ident_end(t, i + 1)
    } else {
        i
    }
}

/// The end of the run of characters other than `$` in `t` that starts at `i`.
pub open spec fn literal_end(t: Seq<char>, i: int) -> int
    decreases t.len() - i,
{
    if 0 <= i < t.len() && t[i] != '$' {
        literal_end(t, i + 1)
    } else {
        i
    }
}

/// A segment as a mathematical value.
pub enum SegmentModel {
    Literal { text: Seq<char> },
    Variable { name: Seq<char> },
}

/// The segment that starts at `i` in `t`, and the position just after it.
pub open spec fn segment_at(t: Seq<char>, i: int) -> (SegmentModel, int) {
    if t[i] == '$' {
        let e = ident_end(t, i + 1);
        (SegmentModel::Variable { name: t.subrange(i + 1, e) }, e)
    } else {
        let e = literal_end(t, i);
        (SegmentModel::Literal { text: t.subrange(i, e) }, e)
    }
}

/// The segments of `t` from position `i` on, left to right.
pub open spec fn segments_from(t: Seq<char>, i: int) -> Seq<SegmentModel>
    decreases t.len() - i,
{
    if i < 0 || i >= t.len() {
        Seq::empty()
    } else {
        proof {
            lemma_ident_end_bounds(t, i + 1);
            lemma_literal_end_bounds(t, i);
        }
        let (seg, e) = segment_at(t, i);
        seq![seg] + segments_from(t, e)
    }
}

/// The compiled form of the template `t`.
pub open spec fn segments_of(t: Seq<char>) -> Seq<SegmentModel> {
    segments_from(t, 0)
}

pub proof fn lemma_ident_end_bounds(t: Seq<char>, i: int)
    requires
        0 <= i <= t.len(),
    ensures
        i <= ident_end(t, i) <= t.len(),
    decreases t.len() - i,
{
    if i < t.len() && is_ident_char(t[i]) {
        lemma_ident_end_bounds(t, i + 1);
    }
}

pub proof fn lemma_literal_end_bounds(t: Seq<char>, i: int)
    requires
        0 <= i <= t.len(),
    ensures
        i <= literal_end(t, i) <= t.len(),
        0 <= i < t.len() && t[i] != '$' ==> i < literal_end(t, i),
    decreases t.len() - i,
{
    if i < t.len() && t[i] != '$' {
        lemma_literal_end_bounds(t, i + 1);
    }
}

/// One unit of a compiled template.
#[derive(Debug, PartialEq, Eq)]
pub enum Segment {
    /// Text that must appear verbatim in a line.
    Literal { text: String },
    /// A named placeholder whose span becomes a field value.
    Variable { name: String },
}

impl View for Segment {
    type V = SegmentModel;

    open spec fn view(&self) -> SegmentModel {
        match self {
            Segment::Literal { text } => SegmentModel::Literal { text: text@ },
            Segment::Variable { name } => SegmentModel::Variable { name: name@ },
        }
    }
}

/// Whether `c` may stand in a variable name.
fn is_ident(c: char) -> (r: bool)
    ensures
        r == is_ident_char(c),
{
    ('a' <= c && c <= 'z') || ('A' <= c && c <= 'Z') || ('0' <= c && c <= '9') || c == '_'
}

/// Reads the segment of `template` that starts at character `start`, if any
/// remains, with the position just after it.
fn parse_log_format_part(template: &str, chars: &Vec<char>, start: usize) -> (r: Option<
    (Segment, usize),
>)
    requires
        chars@ == template@,
        start <= chars@.len(),
    ensures
        start == chars@.len() ==> r is None,
        start < chars@.len() ==> (r matches Some((seg, next)) && (seg@, next as int)
            == segment_at(chars@, start as int)),
{
    let n = chars.len();
    if start == n {
        return None;
    }
    if chars[start] == '$' {
        let mut i = start + 1;
        while i < n && is_ident(chars[i])
            invariant
                start < i <= n,
                n == chars@.len(),
                ident_end(chars@, start + 1) == ident_end(chars@, i as int),
            decreases n - i,
        {
            i = i + 1;
        }
        let name = template.substring_char(start + 1, i).to_owned();
        Some((Segment::Variable { name }, i))
    } else {
        let mut i = start;
        while i < n && chars[i] != '$'
            invariant
                start <= i <= n,
                n == chars@.len(),
                literal_end(chars@, start as int) == literal_end(chars@, i as int),
            decreases n - i,
        {
            i = i + 1;
        }
        let text = template.substring_char(start, i).to_owned();
        Some((Segment::Literal { text }, i))
    }
}

/// Compiles `template` into its segments, left to right.
pub fn parse_log_format(template: &str) -> (r: Vec<Segment>)
    ensures
        r@.map_values(|s: Segment| s@) == segments_of(template@),
{
    let chars = chars_of(template);
    let mut res: Vec<Segment> = Vec::new();
    let mut pos: usize = 0;
    loop
        invariant
            chars@ == template@,
            pos <= chars@.len(),
            res@.map_values(|s: Segment| s@) + segments_from(chars@, pos as int) == segments_of(
                template@,
            ),
        decreases chars@.len() - pos,
    {
        match parse_log_format_part(template, &chars, pos) {
            Some((seg, next)) => {
                proof {
                    lemma_ident_end_bounds(chars@, pos + 1);
                    lemma_literal_end_bounds(chars@, pos as int);
                    assert(segments_from(chars@, pos as int) == seq![seg@] + segments_from(
                        chars@,
                        next as int,
                    ));
                }
                let ghost before = res@.map_values(|s: Segment| s@);
                res.push(seg);
                assert(res@.map_values(|s: Segment| s@) =~= before.push(seg@));
                assert(before + segments_from(chars@, pos as int) =~= before.push(seg@)
                    + segments_from(chars@, next as int));
                pos = next;
            },
            None => {
                assert(res@.map_values(|s: Segment| s@) + segments_from(chars@, pos as int)
                    =~= res@.map_values(|s: Segment| s@));
                return res;
            },
        }
    }
}

} // verus!
