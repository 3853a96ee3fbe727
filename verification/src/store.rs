//! Looking templates up, by slug, by category and by a search query.

use vstd::prelude::*;
use crate::models::template::{Category, Template, TemplateModel, template_views};
use crate::text::{chars_eq, chars_of, contains, contains_exec};

verus! {

/// What `str::to_lowercase` gives for a string: its lower-case form under Unicode's
/// case mapping. Nothing more is stated of it.
pub uninterp spec fn lowercased(s: Seq<char>) -> Seq<char>;

/// The lower-case form of `s`, by `str::to_lowercase`. Trusted, not proved: the contract
/// claims only that the result is `lowercased` of the argument, that is, that the call
/// depends on its argument alone; what the case mapping does is left unsaid.
#[verifier::external_body]
fn to_lowercase(s: &str) -> (r: String)
    ensures
        r@ == lowercased(s@),
{
    s.to_lowercase()
}

/// The templates of `ts` whose category is `c`, in their order.
pub open spec fn of_category(ts: Seq<TemplateModel>, c: Category) -> Seq<TemplateModel>
    decreases ts.len(),
{
    if ts.len() == 0 {
        Seq::empty()
    } else {
        of_category(ts.drop_last(), c) + if ts.last().category == c {
            seq![ts.last()]
        } else {
            Seq::empty()
        }
    }
}

/// A template matches the lower-case query `q` where its title, its description or one
/// of its tags, in lower case, contains `q`.
pub open spec fn template_matches(t: TemplateModel, q: Seq<char>) -> bool {
    ||| contains(lowercased(t.title), q)
    ||| contains(lowercased(t.description), q)
    ||| exists|i: int| 0 <= i < t.tags.len() && contains(lowercased(#[trigger] t.tags[i]), q)
}

/// The templates of `ts` that match the lower-case query `q`, in their order.
pub open spec fn matching(ts: Seq<TemplateModel>, q: Seq<char>) -> Seq<TemplateModel>
    decreases ts.len(),
{
    if ts.len() == 0 {
        Seq::empty()
    } else {
        matching(ts.drop_last(), q) + if template_matches(ts.last(), q) {
            seq![ts.last()]
        } else {
            Seq::empty()
        }
    }
}

/// What a search for `query` finds: every template for the empty query, otherwise the
/// templates that match the query in lower case.
pub open spec fn search_result(ts: Seq<TemplateModel>, query: Seq<char>) -> Seq<TemplateModel> {
    if query.len() == 0 {
        ts
    } else {
        matching(ts, lowercased(query))
    }
}

/// The template with the slug `slug`, if there is one (the first, where several have it).
pub fn get_template(templates: &[Template], slug: &str) -> (r: Option<Template>)
    ensures
        match r {
            Some(t) => exists|i: int|
                0 <= i < templates@.len() && templates@[i].slug@ == slug@ && t@ == templates@[i]@
                    && forall|j: int| 0 <= j < i ==> templates@[j].slug@ != slug@,
            None => forall|i: int| 0 <= i < templates@.len() ==> templates@[i].slug@ != slug@,
        },
{
    let s = chars_of(slug);
    let n = templates.len();
    let mut i: usize = 0;
    while i < n
        invariant
            n == templates@.len(),
            i <= n,
            s@ == slug@,
            forall|j: int| 0 <= j < i ==> templates@[j].slug@ != slug@,
        decreases n - i,
    {
        let t = chars_of(templates[i].slug.as_str());
        if chars_eq(&t, &s) {
            let found = templates[i].clone();
            return Some(found);
        }
        i = i + 1;
    }
    None
}

/// Appends a copy of `t` to `out`.
fn push_clone(out: &mut Vec<Template>, t: &Template)
    ensures
        template_views(final(out)@) == template_views(old(out)@).push(t@),
{
    let c = t.clone();
    let ghost o0 = out@;
    out.push(c);
    assert(template_views(out@) =~= template_views(o0).push(t@));
}

/// The templates of the category `category`, in their order.
pub fn filter_by_category(templates: &[Template], category: &Category) -> (r: Vec<Template>)
    ensures
        template_views(r@) == of_category(template_views(templates@), *category),
{
    let ghost tv = template_views(templates@);
    let mut out: Vec<Template> = Vec::new();
    let n = templates.len();
    let mut i: usize = 0;
    assert(tv.take(0) =~= Seq::<TemplateModel>::empty());
    while i < n
        invariant
            n == templates@.len(),
            i <= n,
            tv == template_views(templates@),
            template_views(out@) == of_category(tv.take(i as int), *category),
        decreases n - i,
    {
        assert(tv.take(i + 1).drop_last() =~= tv.take(i as int));
        assert(tv.take(i + 1).last() == templates@[i as int]@);
        if templates[i].category == *category {
            push_clone(&mut out, &templates[i]);
        }
        i = i + 1;
    }
    assert(tv.take(n as int) =~= tv);
    out
}

/// Whether the template matches the lower-case query `q`.
fn matches_query(t: &Template, q: &Vec<char>) -> (r: bool)
    ensures
        r == template_matches(t@, q@),
{
    let title = chars_of(to_lowercase(t.title.as_str()).as_str());
    if contains_exec(&title, q) {
        return true;
    }
    let description = chars_of(to_lowercase(t.description.as_str()).as_str());
    if contains_exec(&description, q) {
        return true;
    }
    let n = t.tags.len();
    let mut i: usize = 0;
    while i < n
        invariant
            n == t.tags@.len(),
            i <= n,
            !contains(lowercased(t@.title), q@),
            !contains(lowercased(t@.description), q@),
            forall|j: int| 0 <= j < i ==> !contains(lowercased(#[trigger] t@.tags[j]), q@),
        decreases n - i,
    {
        let tag = chars_of(to_lowercase(t.tags[i].as_str()).as_str());
        assert(t@.tags[i as int] == t.tags@[i as int]@);
        if contains_exec(&tag, q) {
            return true;
        }
        i = i + 1;
    }
    false
}

/// The templates whose title, description or one of whose tags contains the query,
/// compared in lower case; every template where the query is empty.
pub fn search_templates(templates: &[Template], query: &str) -> (r: Vec<Template>)
    ensures
        template_views(r@) == search_result(template_views(templates@), query@),
{
    let ghost tv = template_views(templates@);
    let n = templates.len();
    let mut out: Vec<Template> = Vec::new();
    let mut i: usize = 0;
    if query.is_empty() {
        while i < n
            invariant
                n == templates@.len(),
                i <= n,
                tv == template_views(templates@),
                template_views(out@) == tv.take(i as int),
            decreases n - i,
        {
            push_clone(&mut out, &templates[i]);
            assert(tv.take(i + 1) =~= tv.take(i as int).push(templates@[i as int]@));
            i = i + 1;
        }
        assert(tv.take(n as int) =~= tv);
        return out;
    }
    let q = chars_of(to_lowercase(query).as_str());
    assert(tv.take(0) =~= Seq::<TemplateModel>::empty());
    while i < n
        invariant
            n == templates@.len(),
            i <= n,
            tv == template_views(templates@),
            q@ == lowercased(query@),
            template_views(out@) == matching(tv.take(i as int), q@),
        decreases n - i,
    {
        assert(tv.take(i + 1).drop_last() =~= tv.take(i as int));
        assert(tv.take(i + 1).last() == templates@[i as int]@);
        if matches_query(&templates[i], &q) {
            push_clone(&mut out, &templates[i]);
        }
        i = i + 1;
    }
    assert(tv.take(n as int) =~= tv);
    out
}

/// `a` comes before `b`, or equals it, in the order of `str`: compared character by
/// character, a proper prefix first.
pub open spec fn chars_le(a: Seq<char>, b: Seq<char>) -> bool
    decreases a.len(),
{
    if a.len() == 0 {
        true
    } else if b.len() == 0 {
        false
    } else if a[0] != b[0] {
        a[0] < b[0]
    } else {
        chars_le(a.drop_first(), b.drop_first())
    }
}

/// Whether `a` comes before `b`, or equals it, in the order of `str`.
fn title_le(a: &str, b: &str) -> (r: bool)
    ensures
        r == chars_le(a@, b@),
{
    let x = chars_of(a);
    let y = chars_of(b);
    let n = x.len();
    let m = y.len();
    let mut i: usize = 0;
    assert(x@.skip(0) =~= x@);
    assert(y@.skip(0) =~= y@);
    while i < n && i < m && x[i] == y[i]
        invariant
            n == x@.len(),
            m == y@.len(),
            i <= n,
            i <= m,
            chars_le(x@, y@) == chars_le(x@.skip(i as int), y@.skip(i as int)),
        decreases n - i,
    {
        assert(x@.skip(i as int).drop_first() =~= x@.skip(i + 1));
        assert(y@.skip(i as int).drop_first() =~= y@.skip(i + 1));
        i = i + 1;
    }
    if i == n {
        true
    } else if i == m {
        false
    } else {
        x[i] < y[i]
    }
}

/// `ts` with `t` inserted after the last template, counted from the end, whose title does
/// not come after that of `t`: where `ts` is in title order, it stays so, and `t` comes
/// after the templates with the same title.
pub open spec fn insert_by_title(ts: Seq<TemplateModel>, t: TemplateModel) -> Seq<TemplateModel>
    decreases ts.len(),
{
    if ts.len() == 0 {
        seq![t]
    } else if chars_le(ts.last().title, t.title) {
        ts.push(t)
    } else {
        insert_by_title(ts.drop_last(), t).push(ts.last())
    }
}

/// `ts` in title order, templates with the same title keeping their order (the stable sort
/// of `slice::sort_by` on the titles).
pub open spec fn sorted_by_title(ts: Seq<TemplateModel>) -> Seq<TemplateModel>
    decreases ts.len(),
{
    if ts.len() == 0 {
        Seq::empty()
    } else {
        insert_by_title(sorted_by_title(ts.drop_last()), ts.last())
    }
}

proof fn lemma_insert_at(ts: Seq<TemplateModel>, t: TemplateModel, p: int)
    requires
        0 <= p <= ts.len(),
        p == 0 || chars_le(ts[p - 1].title, t.title),
        forall|j: int| p <= j < ts.len() ==> !chars_le(#[trigger] ts[j].title, t.title),
    ensures
        insert_by_title(ts, t) == ts.take(p).push(t) + ts.skip(p),
    decreases ts.len(),
{
    if p == ts.len() {
        if ts.len() > 0 {
            assert(ts.last() == ts[p - 1]);
        }
        assert(ts.take(p) =~= ts);
        assert(ts.take(p).push(t) + ts.skip(p) =~= ts.push(t));
    } else {
        assert(ts.last() == ts[ts.len() - 1]);
        let d = ts.drop_last();
        assert forall|j: int| p <= j < d.len() implies !chars_le(#[trigger] d[j].title, t.title) by {
            assert(d[j] == ts[j]);
        }
        if p > 0 {
            assert(d[p - 1] == ts[p - 1]);
        }
        lemma_insert_at(d, t, p);
        assert(d.take(p) =~= ts.take(p));
        assert((d.take(p).push(t) + d.skip(p)).push(ts.last()) =~= ts.take(p).push(t) + ts.skip(p));
    }
}

/// The templates in title order, those with the same title in their given order, as the
/// template index lists them.
pub fn sort_by_title(templates: &[Template]) -> (r: Vec<Template>)
    ensures
        template_views(r@) == sorted_by_title(template_views(templates@)),
{
    let ghost tv = template_views(templates@);
    let mut out: Vec<Template> = Vec::new();
    let n = templates.len();
    let mut i: usize = 0;
    assert(tv.take(0) =~= Seq::<TemplateModel>::empty());
    assert(template_views(out@) =~= Seq::<TemplateModel>::empty());
    while i < n
        invariant
            n == templates@.len(),
            i <= n,
            tv == template_views(templates@),
            template_views(out@) == sorted_by_title(tv.take(i as int)),
        decreases n - i,
    {
        assert(tv.take(i + 1).drop_last() =~= tv.take(i as int));
        assert(tv.take(i + 1).last() == templates@[i as int]@);
        let t = templates[i].clone();
        let ghost ov = template_views(out@);
        let mut p = out.len();
        while p > 0 && !title_le(out[p - 1].title.as_str(), t.title.as_str())
            invariant
                p <= out@.len(),
                ov == template_views(out@),
                forall|j: int| p <= j < ov.len() ==> !chars_le(#[trigger] ov[j].title, t@.title),
            decreases p,
        {
            assert(ov[p - 1] == out@[p - 1]@);
            p = p - 1;
        }
        proof {
            if p > 0 {
                assert(ov[p - 1] == out@[p - 1]@);
            }
            lemma_insert_at(ov, t@, p as int);
        }
        out.insert(p, t);
        assert(template_views(out@) =~= ov.take(p as int).push(t@) + ov.skip(p as int));
        i = i + 1;
    }
    assert(tv.take(n as int) =~= tv);
    out
}

} // verus!
