//! Replacing `{{name | filters}}` placeholders with the values given for them.

use vstd::prelude::*;
use crate::models::filter::{default_of, filter_views, inline_filters, inline_filters_exec, Filter};
use crate::text::{append_chars, chars_of, find, find_chars, lemma_find_some, string_of};
use crate::values::Values;

verus! {

/// What a placeholder expression turns into: the value of its variable where that is
/// non-empty; otherwise the value of its `default` filter, if it has one; otherwise,
/// for a variable without a value, the placeholder `{{name}}` without its filters, and
/// for a variable whose value is empty, nothing.
pub open spec fn rendered_expr(expr: Seq<char>, values: Map<Seq<char>, Seq<char>>) -> Seq<char> {
    let name = inline_filters(expr).0;
    let filters = inline_filters(expr).1;
    if values.contains_key(name) && values[name].len() > 0 {
        values[name]
    } else if default_of(filters) is Some {
        default_of(filters)->0
    } else if values.contains_key(name) {
        Seq::empty()
    } else {
        "{{"@ + name + "}}"@
    }
}

/// `s` with every placeholder replaced, from left to right. A `{{` that opens a block
/// tag (`{{#` or `{{/`) is kept as it is; a `{{` without a later `}}` ends the
/// replacement, and the rest of the text is kept as it is.
pub open spec fn substituted(s: Seq<char>, values: Map<Seq<char>, Seq<char>>) -> Seq<char>
    decreases s.len(),
{
    match find(s, "{{"@) {
        None => s,
        Some(start) => {
            if 0 <= start && start + 2 <= s.len() {
                let after = s.skip(start + 2);
                if after.len() > 0 && (after[0] == '#' || after[0] == '/') {
                    s.take(start + 2) + substituted(after, values)
                } else {
                    match find(after, "}}"@) {
                        None => s,
                        Some(end) => {
                            if 0 <= end && end + 2 <= after.len() {
                                s.take(start) + rendered_expr(after.take(end), values)
                                    + substituted(after.skip(end + 2), values)
                            } else {
                                s
                            }
                        },
                    }
                }
            } else {
                s
            }
        },
    }
}

/// The value of the first `default` filter, if there is one.
pub fn get_default(filters: &Vec<Filter>) -> (r: Option<String>)
    ensures
        match r {
            Some(d) => default_of(filter_views(filters@)) == Some(d@),
            None => default_of(filter_views(filters@)) is None,
        },
{
    let ghost fv = filter_views(filters@);
    let n = filters.len();
    let mut i: usize = 0;
    assert(fv.skip(0) =~= fv);
    while i < n
        invariant
            n == filters@.len(),
            i <= n,
            fv == filter_views(filters@),
            default_of(fv) == default_of(fv.skip(i as int)),
        decreases n - i,
    {
        assert(fv.skip(i as int).drop_first() =~= fv.skip(i + 1));
        assert(fv.skip(i as int)[0] == filters@[i as int]@);
        match &filters[i] {
            Filter::Default(v) => {
                return Some(v.clone());
            },
            _ => {},
        }
        i = i + 1;
    }
    None
}

/// What the placeholder expression `expr` turns into.
pub fn render_expr(expr: &Vec<char>, values: &Values) -> (r: Vec<char>)
    ensures
        r@ == rendered_expr(expr@, values@),
{
    let (name, filters) = inline_filters_exec(expr);
    let default = get_default(&filters);
    match values.lookup(&name) {
        Some(v) => {
            if v.len() > 0 {
                return v.clone();
            }
        },
        None => {},
    }
    match default {
        Some(d) => chars_of(d.as_str()),
        None => {
            if values.lookup(&name).is_some() {
                Vec::new()
            } else {
                let mut out = chars_of("{{");
                append_chars(&mut out, &name);
                let close = chars_of("}}");
                append_chars(&mut out, &close);
                out
            }
        },
    }
}

/// `body` with every placeholder replaced, as character vectors.
pub fn substitute_chars(body: &Vec<char>, values: &Values) -> (r: Vec<char>)
    ensures
        r@ == substituted(body@, values@),
{
    let open = chars_of("{{");
    let close = chars_of("}}");
    proof {
        reveal_strlit("{{");
        reveal_strlit("}}");
    }
    let mut out: Vec<char> = Vec::new();
    let mut rest = body.clone();
    assert(rest@ =~= body@);
    loop
        invariant
            open@ == "{{"@,
            close@ == "}}"@,
            open@.len() == 2,
            close@.len() == 2,
            substituted(body@, values@) == out@ + substituted(rest@, values@),
        decreases rest@.len(),
    {
        let rl = rest.len();
        proof {
            lemma_find_some(rest@, open@);
        }
        match find_chars(&rest, &open) {
            None => {
                append_chars(&mut out, &rest);
                return out;
            },
            Some(start) => {
                let after = crate::text::slice_chars(&rest, start + 2, rl);
                assert(after@ =~= rest@.skip(start + 2));
                if after.len() > 0 && (after[0] == '#' || after[0] == '/') {
                    let head = crate::text::slice_chars(&rest, 0, start + 2);
                    assert(head@ =~= rest@.take(start + 2));
                    let ghost out0 = out@;
                    append_chars(&mut out, &head);
                    assert(out0 + (head@ + substituted(after@, values@)) =~= out@ + substituted(
                        after@,
                        values@,
                    ));
                    rest = after;
                } else {
                    let al = after.len();
                    proof {
                        lemma_find_some(after@, close@);
                    }
                    match find_chars(&after, &close) {
                        None => {
                            append_chars(&mut out, &rest);
                            return out;
                        },
                        Some(end) => {
                            let head = crate::text::slice_chars(&rest, 0, start);
                            assert(head@ =~= rest@.take(start as int));
                            let expr = crate::text::slice_chars(&after, 0, end);
                            assert(expr@ =~= after@.take(end as int));
                            let tail = crate::text::slice_chars(&after, end + 2, al);
                            assert(tail@ =~= after@.skip(end + 2));
                            let rendered = render_expr(&expr, values);
                            let ghost out0 = out@;
                            append_chars(&mut out, &head);
                            append_chars(&mut out, &rendered);
                            assert(out0 + (head@ + rendered@ + substituted(tail@, values@))
                                =~= out@ + substituted(tail@, values@));
                            rest = tail;
                        },
                    }
                }
            },
        }
    }
}

/// `body` with every `{{name | filters}}` placeholder replaced by the value given for
/// `name`, or by the value of its `default` filter; a placeholder without either is
/// shown as `{{name}}`. Block tags `{{#...}}` and `{{/...}}` are kept.
pub fn substitute(body: &str, values: &Values) -> (r: String)
    ensures
        r@ == substituted(body@, values@),
{
    let b = chars_of(body);
    let r = substitute_chars(&b, values);
    string_of(&r)
}

} // verus!
