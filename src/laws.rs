//! Properties that hold of every template and line.
use vstd::prelude::*;

use crate::matcher::{
    entries_map,
    match_entries,
    match_fields,
    method_key,
    path_key,
    record,
    request_key,
    scan_from,
    version_key,
    Entry,
};
use crate::segment::{segments_of, SegmentModel};
use crate::Parser;

verus! {

/// The names of the variables among `segs[p..]`.
pub open spec fn var_names_from(segs: Seq<SegmentModel>, p: int) -> Set<Seq<char>> {
    Set::new(
        |n: Seq<char>|
            exists|i: int| p <= i < segs.len() && segs[i] == (SegmentModel::Variable { name: n }),
    )
}

/// The keys that a declared name brings: itself, and for `request` its three parts.
pub open spec fn keys_of_name(n: Seq<char>) -> Set<Seq<char>> {
    if n == request_key() {
        set![n, method_key(), path_key(), version_key()]
    } else {
        set![n]
    }
}

/// The keys that the variables among `segs[p..]` bring.
pub open spec fn declared_keys_from(segs: Seq<SegmentModel>, p: int) -> Set<Seq<char>> {
    Set::new(|k: Seq<char>| exists|n: Seq<char>| var_names_from(segs, p).contains(n) && keys_of_name(n).contains(k))
}

/// The keys that the variables of `segs` bring.
pub open spec fn declared_keys(segs: Seq<SegmentModel>) -> Set<Seq<char>> {
    declared_keys_from(segs, 0)
}

/// The names that stand in the entries `es`.
pub open spec fn entry_keys(es: Seq<Entry>) -> Set<Seq<char>> {
    Set::new(|k: Seq<char>| exists|i: int| 0 <= i < es.len() && es[i].0 == k)
}

proof fn lemma_entries_map_dom(es: Seq<Entry>)
    ensures
        entries_map(es).dom() == entry_keys(es),
    decreases es.len(),
{
    if es.len() > 0 {
        lemma_entries_map_dom(es.drop_last());
        assert forall|k: Seq<char>| entry_keys(es).contains(k) implies entries_map(es).dom().contains(k) by {
            let i = choose|i: int| 0 <= i < es.len() && es[i].0 == k;
            if i < es.len() - 1 {
                assert(es.drop_last()[i].0 == k);
            }
        }
        assert forall|k: Seq<char>| entries_map(es).dom().contains(k) implies entry_keys(es).contains(k) by {
            if k != es.last().0 {
                let i = choose|i: int| 0 <= i < es.drop_last().len() && es.drop_last()[i].0 == k;
                assert(es[i].0 == k);
            }
        }
        assert(entries_map(es).dom() =~= entry_keys(es));
    } else {
        assert(entries_map(es).dom() =~= entry_keys(es));
    }
}

proof fn lemma_entry_keys_concat(a: Seq<Entry>, b: Seq<Entry>)
    ensures
        entry_keys(a + b) == entry_keys(a) + entry_keys(b),
{
    assert forall|k: Seq<char>| entry_keys(a + b).contains(k) implies (entry_keys(a) + entry_keys(b)).contains(k) by {
        let i = choose|i: int| 0 <= i < (a + b).len() && (a + b)[i].0 == k;
        if i >= a.len() {
            assert(b[i - a.len()].0 == k);
        }
    }
    assert forall|k: Seq<char>| (entry_keys(a) + entry_keys(b)).contains(k) implies entry_keys(a + b).contains(k) by {
        if entry_keys(a).contains(k) {
            let i = choose|i: int| 0 <= i < a.len() && a[i].0 == k;
            assert((a + b)[i].0 == k);
        } else {
            let i = choose|i: int| 0 <= i < b.len() && b[i].0 == k;
            assert((a + b)[i + a.len()].0 == k);
        }
    }
    assert(entry_keys(a + b) =~= entry_keys(a) + entry_keys(b));
}

proof fn lemma_record_keys(name: Seq<char>, value: Seq<char>)
    requires
        record(name, value) is Ok,
    ensures
        entry_keys(record(name, value)->Ok_0) == keys_of_name(name),
{
    let es = record(name, value)->Ok_0;
    if name == request_key() {
        assert(es[0].0 == name && es[1].0 == method_key() && es[2].0 == path_key() && es[3].0
            == version_key());
    } else {
        assert(es[0].0 == name);
    }
    assert(entry_keys(es) =~= keys_of_name(name));
}

/// Names from `p` on: the variable at `p`, then those from `p + 2`, when `p + 1` is a literal.
proof fn lemma_declared_step(segs: Seq<SegmentModel>, p: int, name: Seq<char>)
    requires
        0 <= p,
        p + 1 < segs.len(),
        segs[p] == (SegmentModel::Variable { name }),
        segs[p + 1] is Literal,
    ensures
        declared_keys_from(segs, p) == keys_of_name(name) + declared_keys_from(segs, p + 2),
{
    assert forall|n: Seq<char>| var_names_from(segs, p).contains(n) <==> (n == name
        || var_names_from(segs, p + 2).contains(n)) by {
        if var_names_from(segs, p).contains(n) {
            let i = choose|i: int| p <= i < segs.len() && segs[i] == (SegmentModel::Variable { name: n });
            if i != p {
                assert(i != p + 1);
            }
        }
        if n == name {
            assert(p <= p < segs.len() && segs[p] == (SegmentModel::Variable { name: n }));
        }
        if var_names_from(segs, p + 2).contains(n) {
            let i = choose|i: int| p + 2 <= i < segs.len() && segs[i] == (SegmentModel::Variable { name: n });
            assert(p <= i < segs.len());
        }
    }
    assert forall|k: Seq<char>| declared_keys_from(segs, p).contains(k) <==> (keys_of_name(
        name,
    ).contains(k) || declared_keys_from(segs, p + 2).contains(k)) by {
        if declared_keys_from(segs, p).contains(k) {
            let n = choose|n: Seq<char>|
                var_names_from(segs, p).contains(n) && keys_of_name(n).contains(k);
            if n != name {
                assert(var_names_from(segs, p + 2).contains(n));
            }
        }
        if keys_of_name(name).contains(k) {
            assert(var_names_from(segs, p).contains(name));
        }
        if declared_keys_from(segs, p + 2).contains(k) {
            let n = choose|n: Seq<char>|
                var_names_from(segs, p + 2).contains(n) && keys_of_name(n).contains(k);
            assert(var_names_from(segs, p).contains(n));
        }
    }
    assert(declared_keys_from(segs, p) =~= keys_of_name(name) + declared_keys_from(segs, p + 2));
}

/// Names from `p` on, when only the variable at `p` and perhaps one literal remain.
proof fn lemma_declared_last(segs: Seq<SegmentModel>, p: int, name: Seq<char>)
    requires
        0 <= p < segs.len(),
        segs[p] == (SegmentModel::Variable { name }),
        p + 1 == segs.len() || (p + 2 == segs.len() && segs[p + 1] is Literal),
    ensures
        declared_keys_from(segs, p) == keys_of_name(name),
{
    assert forall|n: Seq<char>| var_names_from(segs, p).contains(n) <==> n == name by {
        if var_names_from(segs, p).contains(n) {
            let i = choose|i: int| p <= i < segs.len() && segs[i] == (SegmentModel::Variable { name: n });
            assert(i == p);
        }
        if n == name {
            assert(p <= p < segs.len() && segs[p] == (SegmentModel::Variable { name: n }));
        }
    }
    assert forall|k: Seq<char>| declared_keys_from(segs, p).contains(k) <==> keys_of_name(
        name,
    ).contains(k) by {
        if declared_keys_from(segs, p).contains(k) {
            let n = choose|n: Seq<char>|
                var_names_from(segs, p).contains(n) && keys_of_name(n).contains(k);
            assert(n == name);
        }
        if keys_of_name(name).contains(k) {
            assert(var_names_from(segs, p).contains(name));
        }
    }
    assert(declared_keys_from(segs, p) =~= keys_of_name(name));
}

proof fn lemma_scan_keys(segs: Seq<SegmentModel>, line: Seq<char>, p: int, c: int)
    requires
        0 <= p,
        scan_from(segs, line, p, c) is Ok,
    ensures
        entry_keys(scan_from(segs, line, p, c)->Ok_0) == declared_keys_from(segs, p),
    decreases segs.len() - p,
{
    if p >= segs.len() {
        assert(entry_keys(Seq::<Entry>::empty()) =~= Set::empty());
        assert(declared_keys_from(segs, p) =~= Set::empty());
    } else {
        let name = segs[p]->Variable_name;
        if p + 1 == segs.len() {
            lemma_record_keys(name, line.subrange(c, line.len() as int));
            lemma_declared_last(segs, p, name);
        } else {
            let text = segs[p + 1]->Literal_text;
            match crate::text::find_from(line, text, c) {
                None => {
                    lemma_record_keys(name, line.subrange(c, line.len() as int));
                    lemma_declared_last(segs, p, name);
                },
                Some(q) => {
                    let es = record(name, line.subrange(c, q))->Ok_0;
                    let rest = scan_from(segs, line, p + 2, q + text.len());
                    lemma_record_keys(name, line.subrange(c, q));
                    lemma_scan_keys(segs, line, p + 2, q + text.len());
                    lemma_entry_keys_concat(es, rest->Ok_0);
                    lemma_declared_step(segs, p, name);
                },
            }
        }
    }
}

/// Every key of a matched line is a declared variable name, or one of the three
/// request parts when `request` is declared, and every such key is present.
pub proof fn law_matched_keys(template: Seq<char>, line: Seq<char>)
    requires
        match_fields(segments_of(template), line) is Ok,
    ensures
        match_fields(segments_of(template), line)->Ok_0.dom() == declared_keys(
            segments_of(template),
        ),
{
    let segs = segments_of(template);
    let es = match_entries(segs, line)->Ok_0;
    lemma_entries_map_dom(es);
    if segs.len() > 0 && segs[0] is Literal {
        let text = segs[0]->Literal_text;
        lemma_scan_keys(segs, line, 1, text.len() as int);
        assert forall|n: Seq<char>| var_names_from(segs, 0).contains(n) <==> var_names_from(segs, 1).contains(n) by {
            if var_names_from(segs, 0).contains(n) {
                let i = choose|i: int| 0 <= i < segs.len() && segs[i] == (SegmentModel::Variable { name: n });
                assert(1 <= i < segs.len());
            }
            if var_names_from(segs, 1).contains(n) {
                let i = choose|i: int| 1 <= i < segs.len() && segs[i] == (SegmentModel::Variable { name: n });
                assert(0 <= i < segs.len());
            }
        }
        assert forall|k: Seq<char>| declared_keys_from(segs, 0).contains(k) <==> declared_keys_from(
            segs,
            1,
        ).contains(k) by {
            if declared_keys_from(segs, 0).contains(k) {
                let n = choose|n: Seq<char>|
                    var_names_from(segs, 0).contains(n) && keys_of_name(n).contains(k);
                assert(var_names_from(segs, 1).contains(n));
            }
            if declared_keys_from(segs, 1).contains(k) {
                let n = choose|n: Seq<char>|
                    var_names_from(segs, 1).contains(n) && keys_of_name(n).contains(k);
                assert(var_names_from(segs, 0).contains(n));
            }
        }
        assert(declared_keys_from(segs, 0) =~= declared_keys_from(segs, 1));
    } else {
        lemma_scan_keys(segs, line, 0, 0);
    }
}

/// The number of variables among `segs[p..]`.
pub open spec fn var_count_from(segs: Seq<SegmentModel>, p: int) -> nat
    decreases segs.len() - p,
{
    if p < 0 || p >= segs.len() {
        0
    } else {
        (if segs[p] is Variable {
            1nat
        } else {
            0nat
        }) + var_count_from(segs, p + 1)
    }
}

/// No two variables of `segs` share a name.
pub open spec fn names_distinct(segs: Seq<SegmentModel>) -> bool {
    forall|i: int, j: int|
        0 <= i < j < segs.len() && segs[i] is Variable && segs[j] is Variable
            ==> segs[i]->Variable_name != segs[j]->Variable_name
}

/// One of the keys under which the parts of a request are stored.
pub open spec fn is_request_part_key(n: Seq<char>) -> bool {
    n == method_key() || n == path_key() || n == version_key()
}

proof fn lemma_var_names_len(segs: Seq<SegmentModel>, p: int)
    requires
        0 <= p <= segs.len(),
        names_distinct(segs),
    ensures
        var_names_from(segs, p).finite(),
        var_names_from(segs, p).len() == var_count_from(segs, p),
    decreases segs.len() - p,
{
    if p == segs.len() {
        assert(var_names_from(segs, p) =~= Set::empty());
    } else {
        lemma_var_names_len(segs, p + 1);
        let rest = var_names_from(segs, p + 1);
        match segs[p] {
            SegmentModel::Variable { name } => {
                assert(var_names_from(segs, p) =~= rest.insert(name));
                if rest.contains(name) {
                    let i = choose|i: int|
                        p + 1 <= i < segs.len() && segs[i] == (SegmentModel::Variable { name });
                    assert(segs[p]->Variable_name == segs[i]->Variable_name);
                }
            },
            SegmentModel::Literal { .. } => {
                assert(var_names_from(segs, p) =~= rest);
            },
        }
    }
}

/// When the variable names of a template are distinct and none is a key of a
/// request part, a matched line has exactly one key per variable, and three
/// more when one of them is `request`.
pub proof fn law_matched_key_count(template: Seq<char>, line: Seq<char>)
    requires
        match_fields(segments_of(template), line) is Ok,
        names_distinct(segments_of(template)),
        forall|i: int|
            0 <= i < segments_of(template).len() && #[trigger] segments_of(template)[i] is Variable
                ==> !is_request_part_key(segments_of(template)[i]->Variable_name),
    ensures
        match_fields(segments_of(template), line)->Ok_0.dom().len() == var_count_from(
            segments_of(template),
            0,
        ) + if var_names_from(segments_of(template), 0).contains(request_key()) {
            3nat
        } else {
            0nat
        },
{
    let segs = segments_of(template);
    law_matched_keys(template, line);
    lemma_var_names_len(segs, 0);
    let names = var_names_from(segs, 0);
    let parts = if names.contains(request_key()) {
        set![method_key(), path_key(), version_key()]
    } else {
        Set::empty()
    };
    assert forall|k: Seq<char>| declared_keys(segs).contains(k) <==> (names + parts).contains(k) by {
        if declared_keys(segs).contains(k) {
            let n = choose|n: Seq<char>| names.contains(n) && keys_of_name(n).contains(k);
        }
        if names.contains(k) {
            assert(keys_of_name(k).contains(k));
        }
        if parts.contains(k) {
            assert(keys_of_name(request_key()).contains(k));
        }
    }
    assert(declared_keys(segs) =~= names + parts);
    assert(names.disjoint(parts)) by {
        assert forall|k: Seq<char>| names.contains(k) implies !parts.contains(k) by {
            let i = choose|i: int| 0 <= i < segs.len() && segs[i] == (SegmentModel::Variable { name: k });
            assert(segs[i] is Variable);
        }
    }
    reveal_strlit("_http_method");
    reveal_strlit("_path");
    reveal_strlit("_http_version");
    assert(method_key().len() != path_key().len());
    assert(method_key().len() != version_key().len());
    assert(path_key().len() != version_key().len());
    vstd::set_lib::lemma_set_disjoint_lens(names, parts);
}

/// A name that the template does not declare is absent from every match result.
pub proof fn law_undeclared_field_absent(template: Seq<char>, line: Seq<char>, k: Seq<char>)
    requires
        match_fields(segments_of(template), line) is Ok,
        !declared_keys(segments_of(template)).contains(k),
    ensures
        !match_fields(segments_of(template), line)->Ok_0.contains_key(k),
{
    law_matched_keys(template, line);
}

/// Compiling one template twice gives equal parsers, and matching one line with
/// either gives the same result.
pub proof fn law_compile_deterministic(template: Seq<char>, line: Seq<char>, a: Parser, b: Parser)
    requires
        a@ == segments_of(template),
        b@ == segments_of(template),
    ensures
        a@ == b@,
        match_fields(a@, line) == match_fields(b@, line),
{
}

} // verus!
