//! JSON handling for the `list` aggregation.
//!
//! `list` scans the store and must turn the scanned payloads into one JSON
//! array string. Each scanned entry contributes at most one element: a
//! payload that is absent (or not stored as a string) is dropped, a payload
//! that is not valid JSON is dropped silently, and a valid payload appears as
//! its canonical serialization. The rendering itself is verified; only the
//! JSON parser is trusted.

use vstd::prelude::*;

verus! {

/// Whether a string is a well-formed JSON document.
pub uninterp spec fn json_valid(s: Seq<char>) -> bool;

/// The canonical form of a well-formed JSON document: the text it serializes
/// back to after parsing.
pub uninterp spec fn json_canon(s: Seq<char>) -> Seq<char>;

/// Relies on `serde_json::from_str` and `serde_json::to_string`: whether a
/// string parses as a JSON value, and the text that value serializes back to,
/// depend on the characters of the input alone.
#[verifier::external_body]
fn canonical_json(s: &str) -> (r: Option<String>)
    ensures
        r is Some <==> json_valid(s@),
        r matches Some(c) ==> c@ == json_canon(s@),
{
    match serde_json::from_str::<serde_json::Value>(s) {
        Ok(v) => Some(serde_json::to_string(&v).expect("a parsed JSON value serializes")),
        Err(_) => None,
    }
}

/// The scanned payloads, viewed as sequences of characters.
pub open spec fn opt_views(ps: Seq<Option<String>>) -> Seq<Option<Seq<char>>> {
    ps.map_values(
        |p: Option<String>|
            match p {
                Some(x) => Some(x@),
                None => None,
            },
    )
}

/// The canonical forms of the payloads that survive filtering, in scan order.
pub open spec fn canon_elems(ps: Seq<Option<Seq<char>>>) -> Seq<Seq<char>>
    decreases ps.len(),
{
    if ps.len() == 0 {
        Seq::empty()
    } else {
        let rest = canon_elems(ps.drop_last());
        match ps.last() {
            Some(p) => if json_valid(p) {
                rest.push(json_canon(p))
            } else {
                rest
            },
            None => rest,
        }
    }
}

/// The elements joined with commas.
pub open spec fn join_comma(elems: Seq<Seq<char>>) -> Seq<char>
    decreases elems.len(),
{
    if elems.len() == 0 {
        Seq::empty()
    } else if elems.len() == 1 {
        elems.last()
    } else {
        join_comma(elems.drop_last()) + ","@ + elems.last()
    }
}

/// What `list` returns for a given sequence of scanned payloads: the
/// surviving canonical forms, comma-joined, between brackets.
pub open spec fn render_model(ps: Seq<Option<Seq<char>>>) -> Seq<char> {
    "["@ + join_comma(canon_elems(ps)) + "]"@
}

/// With nothing scanned, or with every payload filtered out, the rendering is
/// the empty JSON array.
pub proof fn lemma_render_empty(ps: Seq<Option<Seq<char>>>)
    requires
        canon_elems(ps).len() == 0,
    ensures
        render_model(ps) == "[]"@,
{
    reveal_strlit("[");
    reveal_strlit("]");
    reveal_strlit("[]");
    assert(render_model(ps) =~= "[]"@);
}

/// Renders scanned payloads as one JSON array string: keeps each payload that
/// is present and parses as JSON, in scan order and in canonical form, and
/// silently drops the rest.
pub fn render_payloads(ps: &Vec<Option<String>>) -> (r: String)
    ensures
        r@ == render_model(opt_views(ps@)),
{
    let mut body = String::new();
    let mut count: usize = 0;
    let mut i: usize = 0;
    while i < ps.len()
        invariant
            i <= ps@.len(),
            count <= i,
            count == canon_elems(opt_views(ps@.take(i as int))).len(),
            body@ == join_comma(canon_elems(opt_views(ps@.take(i as int)))),
        decreases ps@.len() - i,
    {
        proof {
            assert(opt_views(ps@.take(i + 1)).drop_last() =~= opt_views(ps@.take(i as int)));
        }
        let ghost prev_elems = canon_elems(opt_views(ps@.take(i as int)));
        match &ps[i] {
            Some(p) => {
                match canonical_json(p.as_str()) {
                    Some(c) => {
                        if count > 0 {
                            body.append(",");
                        }
                        body.append(c.as_str());
                        count = count + 1;
                        proof {
                            let elems = canon_elems(opt_views(ps@.take(i + 1)));
                            assert(elems =~= prev_elems.push(json_canon(p@)));
                            assert(elems.drop_last() =~= prev_elems);
                            assert(body@ =~= join_comma(elems));
                        }
                    },
                    None => {
                        proof {
                            assert(canon_elems(opt_views(ps@.take(i + 1))) =~= prev_elems);
                        }
                    },
                }
            },
            None => {
                proof {
                    assert(canon_elems(opt_views(ps@.take(i + 1))) =~= prev_elems);
                }
            },
        }
        i = i + 1;
    }
    proof {
        assert(ps@.take(ps@.len() as int) =~= ps@);
    }
    let mut out = String::new();
    out.append("[");
    out.append(body.as_str());
    out.append("]");
    proof {
        assert(out@ =~= render_model(opt_views(ps@)));
    }
    out
}

} // verus!
