//! What matching a line against a compiled template yields, as mathematical values.
use vstd::prelude::*;

use crate::error::ParseErrModel;
use crate::segment::SegmentModel;
use crate::text::find_from;

verus! {

/// A field name paired with the text it captured.
pub type Entry = (Seq<char>, Seq<char>);

/// `i` and `j` are the positions of the only two spaces in `v`.
pub open spec fn is_request_split(v: Seq<char>, i: int, j: int) -> bool {
    &&& 0 <= i < j < v.len()
    &&& v[i] == ' '
    &&& v[j] == ' '
    &&& forall|k: int| 0 <= k < v.len() && v[k] == ' ' ==> k == i || k == j
}

/// The method, path and protocol version of an HTTP request line: the three
/// pieces of `v` split on single spaces, when there are exactly three.
pub open spec fn request_parts(v: Seq<char>) -> Option<(Seq<char>, Seq<char>, Seq<char>)> {
    if exists|i: int, j: int| is_request_split(v, i, j) {
        let (i, j) = choose|i: int, j: int| is_request_split(v, i, j);
        Some((v.subrange(0, i), v.subrange(i + 1, j), v.subrange(j + 1, v.len() as int)))
    } else {
        None
    }
}

/// The name of the field whose value is split into request parts.
pub open spec fn request_key() -> Seq<char> {
    "request"@
}

/// The key under which the request method is stored.
pub open spec fn method_key() -> Seq<char> {
    "_http_method"@
}

/// The key under which the request path is stored.
pub open spec fn path_key() -> Seq<char> {
    "_path"@
}

/// The key under which the request protocol version is stored.
pub open spec fn version_key() -> Seq<char> {
    "_http_version"@
}

/// The entries that capturing `value` for the variable `name` adds, in order.
pub open spec fn record(name: Seq<char>, value: Seq<char>) -> Result<Seq<Entry>, ParseErrModel> {
    if name == request_key() {
        match request_parts(value) {
            Some((m, p, v)) => Ok(
                seq![(name, value), (method_key(), m), (path_key(), p), (version_key(), v)],
            ),
            None => Err(ParseErrModel::MalformedRequestField),
        }
    } else {
        Ok(seq![(name, value)])
    }
}

/// `es` put in front of the entries of `r`, or the error of `r`.
pub open spec fn after(es: Seq<Entry>, r: Result<Seq<Entry>, ParseErrModel>) -> Result<
    Seq<Entry>,
    ParseErrModel,
> {
    match r {
        Ok(rest) => Ok(es + rest),
        Err(e) => Err(e),
    }
}

/// The entries that matching `line` from character `c` against the segments
/// from index `p` on yields.
pub open spec fn scan_from(segs: Seq<SegmentModel>, line: Seq<char>, p: int, c: int) -> Result<
    Seq<Entry>,
    ParseErrModel,
>
    decreases segs.len() - p,
{
    if p < 0 || p >= segs.len() {
        Ok(Seq::empty())
    } else {
        match segs[p] {
            SegmentModel::Literal { .. } => Err(
                ParseErrModel::FieldMismatch { expected: segs.len(), actual: p as nat },
            ),
            SegmentModel::Variable { name } => {
                if p + 1 == segs.len() {
                    record(name, line.subrange(c, line.len() as int))
                } else {
                    match segs[p + 1] {
                        SegmentModel::Variable { .. } => Err(
                            ParseErrModel::WrongSequence {
                                expected: "a string"@,
                                actual: "unknown"@,
                            },
                        ),
                        SegmentModel::Literal { text } => match find_from(line, text, c) {
                            None => match record(name, line.subrange(c, line.len() as int)) {
                                Ok(es) => if p + 2 == segs.len() {
                                    Ok(es)
                                } else {
                                    Err(
                                        ParseErrModel::FieldMismatch {
                                            expected: segs.len(),
                                            actual: (p + 2) as nat,
                                        },
                                    )
                                },
                                Err(e) => Err(e),
                            },
                            Some(q) => match record(name, line.subrange(c, q)) {
                                Ok(es) => after(es, scan_from(segs, line, p + 2, q + text.len())),
                                Err(e) => Err(e),
                            },
                        },
                    }
                }
            },
        }
    }
}

/// The entries that matching `line` against `segs` yields, in the order matched.
pub open spec fn match_entries(segs: Seq<SegmentModel>, line: Seq<char>) -> Result<
    Seq<Entry>,
    ParseErrModel,
> {
    if segs.len() > 0 && segs[0] is Literal {
        let text = segs[0]->Literal_text;
        if text.len() <= line.len() && line.subrange(0, text.len() as int) == text {
            scan_from(segs, line, 1, text.len() as int)
        } else {
            Err(
                ParseErrModel::WrongSequence {
                    expected: text,
                    actual: line.subrange(
                        0,
                        if text.len() < line.len() {
                            text.len() as int
                        } else {
                            line.len() as int
                        },
                    ),
                },
            )
        }
    } else {
        scan_from(segs, line, 0, 0)
    }
}

/// The map that the entries make, a later entry replacing an earlier one of the same name.
pub open spec fn entries_map(es: Seq<Entry>) -> Map<Seq<char>, Seq<char>>
    decreases es.len(),
{
    if es.len() == 0 {
        Map::empty()
    } else {
        entries_map(es.drop_last()).insert(es.last().0, es.last().1)
    }
}

/// The field map that matching `line` against `segs` yields.
pub open spec fn match_fields(segs: Seq<SegmentModel>, line: Seq<char>) -> Result<
    Map<Seq<char>, Seq<char>>,
    ParseErrModel,
> {
    match match_entries(segs, line) {
        Ok(es) => Ok(entries_map(es)),
        Err(e) => Err(e),
    }
}

} // verus!
