//! Compiles an access-log format template such as
//! `$remote_addr - [$time_local] "$request"` into a matcher, and matches raw log
//! lines against it, yielding each variable's text as a slice of the line.
//!
//! A variable ends where the next literal first occurs; a variable at the end
//! of the template takes the rest of the line. When the line ends before the
//! delimiter of a variable, the rest of the line is its value, and the match
//! succeeds if that delimiter was the last segment of the template.
use vstd::prelude::*;

pub mod error;
pub mod laws;
pub mod matcher;
pub mod segment;
pub mod text;

use crate::error::{ParseErr, ParseErrModel};
use crate::matcher::{
    after,
    entries_map,
    is_request_split,
    match_entries,
    match_fields,
    record,
    request_parts,
    scan_from,
    Entry,
};
use crate::segment::{parse_log_format, segments_of, Segment, SegmentModel};
use crate::text::{chars_of, find_delimiter, lemma_find_from_found, same_text, window_eq};

verus! {

/// A compiled template, ready to match lines.
#[derive(Debug)]
pub struct Parser {
    log_format: String,
    fields: Vec<Segment>,
}

/// The fields matched in one line: each name with a slice of that line.
#[derive(Debug)]
pub struct Fields<'a, 'b> {
    entries: Vec<(&'a str, &'b str)>,
}

/// The names and values of `v`, as mathematical values.
pub open spec fn entries_view<'a, 'b>(v: Seq<(&'a str, &'b str)>) -> Seq<Entry> {
    v.map_values(|e: (&'a str, &'b str)| (e.0@, e.1@))
}

impl<'a, 'b> View for Fields<'a, 'b> {
    type V = Map<Seq<char>, Seq<char>>;

    closed spec fn view(&self) -> Map<Seq<char>, Seq<char>> {
        entries_map(entries_view(self.entries@))
    }
}

impl View for Parser {
    type V = Seq<SegmentModel>;

    closed spec fn view(&self) -> Seq<SegmentModel> {
        self.fields@.map_values(|s: Segment| s@)
    }
}

/// When no entry from index `i` on has name `k`, the entries before `i` say
/// all there is about `k`.
proof fn lemma_entries_map_prefix(es: Seq<Entry>, i: int, k: Seq<char>)
    requires
        0 <= i <= es.len(),
        forall|j: int| i <= j < es.len() ==> es[j].0 != k,
    ensures
        entries_map(es).contains_key(k) == entries_map(es.take(i)).contains_key(k),
        entries_map(es).contains_key(k) ==> entries_map(es)[k] == entries_map(es.take(i))[k],
    decreases es.len() - i,
{
    if i < es.len() {
        lemma_entries_map_prefix(es.drop_last(), i, k);
        assert(es.drop_last().take(i) =~= es.take(i));
    } else {
        assert(es.take(i) =~= es);
    }
}

impl<'a, 'b> Fields<'a, 'b> {
    /// The value captured for the field `k`.
    pub fn get(&self, k: &'a str) -> (r: Result<&'b str, ParseErr>)
        ensures
            match r {
                Ok(v) => self@.contains_key(k@) && v@ == self@[k@],
                Err(e) => !self@.contains_key(k@) && e@ == (ParseErrModel::NoField { field: k@ }),
            },
    {
        let ghost es = entries_view(self.entries@);
        let mut i = self.entries.len();
        while i > 0
            invariant
                i <= self.entries@.len(),
                es == entries_view(self.entries@),
                forall|j: int| i <= j < es.len() ==> es[j].0 != k@,
            decreases i,
        {
            let (name, value) = self.entries[i - 1];
            if same_text(name, k) {
                proof {
                    lemma_entries_map_prefix(es, i as int, k@);
                    assert(es.take(i as int).drop_last() =~= es.take(i - 1));
                }
                return Ok(value);
            }
            i = i - 1;
        }
        proof {
            lemma_entries_map_prefix(es, 0, k@);
            assert(es.take(0) =~= Seq::<Entry>::empty());
        }
        Err(ParseErr::NoField { field: k.to_owned() })
    }
}

/// Compiles `log_format` into a parser.
pub fn new(log_format: String) -> (r: Parser)
    ensures
        r@ == segments_of(log_format@),
{
    let fields = parse_log_format(log_format.as_str());
    Parser { log_format, fields }
}

impl Parser {
    /// Splits an HTTP request line into method, path and protocol version.
    fn parse_request<'b>(&self, request: &'b str) -> (r: Result<(&'b str, &'b str, &'b str), ParseErr>)
        ensures
            match request_parts(request@) {
                Some((m, p, v)) => r matches Ok((a, b, c)) && a@ == m && b@ == p && c@ == v,
                None => r == Err::<(&'b str, &'b str, &'b str), ParseErr>(
                    ParseErr::MalformedRequestField,
                ),
            },
    {
        let v = chars_of(request);
        let n = v.len();
        let mut count: usize = 0;
        let mut p1: usize = 0;
        let mut p2: usize = 0;
        let mut i: usize = 0;
        while i < n
            invariant
                n == v@.len(),
                v@ == request@,
                i <= n,
                count <= 2,
                count >= 1 ==> p1 < i && v@[p1 as int] == ' ',
                count >= 2 ==> p1 < p2 < i && v@[p2 as int] == ' ',
                forall|k: int|
                    0 <= k < i && v@[k] == ' ' ==> (count >= 1 && k == p1) || (count >= 2 && k
                        == p2),
            decreases n - i,
        {
            if v[i] == ' ' {
                if count == 2 {
                    proof {
                        assert forall|a: int, b: int| !is_request_split(v@, a, b) by {
                            if is_request_split(v@, a, b) {
                                assert(p1 == a || p1 == b);
                                assert(p2 == a || p2 == b);
                                assert(i == a || i == b);
                            }
                        }
                    }
                    return Err(ParseErr::MalformedRequestField);
                }
                if count == 0 {
                    p1 = i;
                } else {
                    p2 = i;
                }
                count = count + 1;
            }
            i = i + 1;
        }
        if count != 2 {
            proof {
                assert forall|a: int, b: int| !is_request_split(v@, a, b) by {
                    if is_request_split(v@, a, b) {
                        assert(v@[a] == ' ' && v@[b] == ' ');
                    }
                }
            }
            return Err(ParseErr::MalformedRequestField);
        }
        proof {
            assert(is_request_split(v@, p1 as int, p2 as int));
            let (a, b) = choose|a: int, b: int| is_request_split(v@, a, b);
            assert(is_request_split(v@, a, b));
            assert(v@[a] == ' ' && v@[b] == ' ');
            assert(a == p1 && b == p2);
        }
        Ok(
            (
                request.substring_char(0, p1),
                request.substring_char(p1 + 1, p2),
                request.substring_char(p2 + 1, n),
            ),
        )
    }

    /// Stores `value` under `name`, and for the `request` field its three parts too.
    fn record<'a, 'b>(&self, fields: &mut Vec<(&'a str, &'b str)>, name: &'a str, value: &'b str) -> (r:
        Result<(), ParseErr>)
        ensures
            match record(name@, value@) {
                Ok(es) => r is Ok && entries_view(final(fields)@) == entries_view(old(fields)@)
                    + es,
                Err(e) => r matches Err(x) && x@ == e,
            },
    {
        let ghost before = entries_view(fields@);
        fields.push((name, value));
        assert(entries_view(fields@) =~= before + seq![(name@, value@)]);
        if same_text(name, "request") {
            match self.parse_request(value) {
                Ok((method, path, version)) => {
                    fields.push(("_http_method", method));
                    fields.push(("_path", path));
                    fields.push(("_http_version", version));
                    assert(entries_view(fields@) =~= before + seq![
                        (name@, value@),
                        ("_http_method"@, method@),
                        ("_path"@, path@),
                        ("_http_version"@, version@),
                    ]);
                },
                Err(e) => {
                    return Err(e);
                },
            }
        }
        Ok(())
    }

    /// Matches `input` against this template and returns each variable's text.
    pub fn parse<'a, 'b>(&'a self, input: &'b str) -> (r: Result<Fields<'a, 'b>, ParseErr>)
        ensures
            match r {
                Ok(f) => match_fields(self@, input@) == Ok::<_, ParseErrModel>(f@),
                Err(e) => match_fields(self@, input@) == Err::<Map<Seq<char>, Seq<char>>, _>(e@),
            },
    {
        let line = chars_of(input);
        let ninput = line.len();
        let nparts = self.fields.len();
        let ghost segs = self@;
        let mut fields: Vec<(&'a str, &'b str)> = Vec::new();
        let mut part_i: usize = 0;
        let mut input_i: usize = 0;

        // the leading literal, if any
        if nparts > 0 {
            if let Segment::Literal { text } = &self.fields[0] {
                let lit = chars_of(text.as_str());
                if !window_eq(&line, 0, &lit) {
                    let vlen = if lit.len() < ninput {
                        lit.len()
                    } else {
                        ninput
                    };
                    proof {
                        assert(segs[0] == self.fields@[0]@);
                    }
                    return Err(
                        ParseErr::WrongSequence {
                            expected: text.clone(),
                            actual: input.substring_char(0, vlen).to_owned(),
                        },
                    );
                }
                input_i = lit.len();
                part_i = 1;
            }
        }
        proof {
            assert(entries_view(fields@) =~= Seq::<Entry>::empty());
            assert(match_entries(segs, input@) == after(
                entries_view(fields@),
                scan_from(segs, input@, part_i as int, input_i as int),
            ));
        }
        while part_i < nparts
            invariant
                segs == self@,
                nparts == segs.len(),
                line@ == input@,
                ninput == line@.len(),
                input_i <= ninput,
                match_entries(segs, input@) == after(
                    entries_view(fields@),
                    scan_from(segs, input@, part_i as int, input_i as int),
                ),
            decreases nparts - part_i,
        {
            proof {
                assert(segs[part_i as int] == self.fields@[part_i as int]@);
            }
            let name = match &self.fields[part_i] {
                Segment::Variable { name } => name,
                Segment::Literal { .. } => {
                    return Err(ParseErr::FieldMismatch { expected: nparts, actual: part_i });
                },
            };
            // a variable at the end takes the rest of the line
            if part_i + 1 == nparts {
                let value = input.substring_char(input_i, ninput);
                match self.record(&mut fields, name.as_str(), value) {
                    Ok(()) => {
                        proof {
                            assert(entries_view(fields@) =~= entries_view(fields@) + Seq::<
                                Entry,
                            >::empty());
                        }
                        return Ok(Fields { entries: fields });
                    },
                    Err(e) => {
                        return Err(e);
                    },
                }
            }
            proof {
                assert(segs[part_i + 1] == self.fields@[part_i + 1]@);
            }
            let delimiter = match &self.fields[part_i + 1] {
                Segment::Literal { text } => text,
                Segment::Variable { .. } => {
                    return Err(
                        ParseErr::WrongSequence {
                            expected: "a string".to_owned(),
                            actual: "unknown".to_owned(),
                        },
                    );
                },
            };
            let pat = chars_of(delimiter.as_str());
            match find_delimiter(&line, input_i, &pat) {
                None => {
                    // the line ended first: the rest of it is the value
                    let value = input.substring_char(input_i, ninput);
                    match self.record(&mut fields, name.as_str(), value) {
                        Ok(()) => {
                            if part_i + 2 == nparts {
                                proof {
                                    assert(entries_view(fields@) =~= entries_view(fields@)
                                        + Seq::<Entry>::empty());
                                }
                                return Ok(Fields { entries: fields });
                            }
                            return Err(
                                ParseErr::FieldMismatch { expected: nparts, actual: part_i + 2 },
                            );
                        },
                        Err(e) => {
                            return Err(e);
                        },
                    }
                },
                Some(q) => {
                    proof {
                        lemma_find_from_found(line@, pat@, input_i as int);
                    }
                    let value = input.substring_char(input_i, q);
                    let ghost before = entries_view(fields@);
                    match self.record(&mut fields, name.as_str(), value) {
                        Ok(()) => {},
                        Err(e) => {
                            return Err(e);
                        },
                    }
                    proof {
                        let es = record(name@, value@)->Ok_0;
                        let rest = scan_from(segs, input@, part_i + 2, q + pat@.len());
                        assert(value@ == input@.subrange(input_i as int, q as int));
                        assert(scan_from(segs, input@, part_i as int, input_i as int) == after(
                            es,
                            rest,
                        ));
                        match rest {
                            Ok(t) => {
                                assert(before + (es + t) =~= entries_view(fields@) + t);
                            },
                            Err(_) => {},
                        }
                    }
                    input_i = q + pat.len();
                    part_i = part_i + 2;
                },
            }
        }
        proof {
            assert(entries_view(fields@) =~= entries_view(fields@) + Seq::<Entry>::empty());
        }
        Ok(Fields { entries: fields })
    }
}

} // verus!
