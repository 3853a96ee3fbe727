//! Properties of the library as a whole.

use vstd::prelude::*;
use crate::engine::{
    blocks_evaluated, condition_holds, eachs_evaluated, else_branch, else_position, if_branch,
    ifs_evaluated, item_count, lemma_branches_len, loop_expansion,
};
use crate::values::value_or_empty;
use crate::models::filter::{default_of, inline_filters, FilterModel};
use crate::models::section::{section_type_name_of, SectionType};
use crate::sections::{section_type_named, style_state};
use crate::form::has_required;
use crate::models::template::{label_of, Category, TemplateModel};
use crate::frontmatter::frontmatter_split;
use crate::preview::preview_text;
use crate::store::{
    chars_le, insert_by_title, matching, of_category, search_result, sorted_by_title,
    template_matches,
};
use crate::substitute::{rendered_expr, substituted};
use crate::text::{
    all_digits, contains, decimal, decimal_value, digit_char, digit_value, find, is_digit,
    ends_with, find_outside, is_whitespace, lemma_find_first, lemma_find_some, trim_end_pat, matches_at, parse_usize, scan_for, split, trim,
    trim_end, trim_start, trim_char, trim_start_char, trim_end_char, starts_with,
};

verus! {

/// Two different categories never share a label.
pub proof fn law_category_labels_distinct(a: Category, b: Category)
    requires
        label_of(a) == label_of(b),
    ensures
        a == b,
{
    reveal_strlit("Implementation Plan");
    reveal_strlit("Design Prompt");
    reveal_strlit("UI Component");
    reveal_strlit("Full-Stack Flow");
    reveal_strlit("Backend Pattern");
    let la = label_of(a);
    let lb = label_of(b);
    assert(la.len() == lb.len() && la[0] == lb[0]);
    match a {
        Category::ImplementationPlan => {},
        Category::DesignPrompt => {},
        Category::UiComponent => {},
        Category::FullStackFlow => {},
        Category::BackendPattern => {},
    }
    match b {
        Category::ImplementationPlan => {},
        Category::DesignPrompt => {},
        Category::UiComponent => {},
        Category::FullStackFlow => {},
        Category::BackendPattern => {},
    }
}

proof fn lemma_of_category_single(x: TemplateModel, c: Category)
    ensures
        of_category(seq![x], c) == if x.category == c {
            seq![x]
        } else {
            Seq::<TemplateModel>::empty()
        },
{
    let one = seq![x];
    assert(one.drop_last() =~= Seq::<TemplateModel>::empty());
    assert(of_category(one.drop_last(), c) == Seq::<TemplateModel>::empty());
    assert(one.last() == x);
    assert(of_category(one, c) =~= if x.category == c {
        seq![x]
    } else {
        Seq::<TemplateModel>::empty()
    });
}

proof fn lemma_matching_single(x: TemplateModel, q: Seq<char>)
    ensures
        matching(seq![x], q) == if template_matches(x, q) {
            seq![x]
        } else {
            Seq::<TemplateModel>::empty()
        },
{
    let one = seq![x];
    assert(one.drop_last() =~= Seq::<TemplateModel>::empty());
    assert(matching(one.drop_last(), q) == Seq::<TemplateModel>::empty());
    assert(one.last() == x);
    assert(matching(one, q) =~= if template_matches(x, q) {
        seq![x]
    } else {
        Seq::<TemplateModel>::empty()
    });
}

proof fn lemma_of_category_append(s: Seq<TemplateModel>, t: Seq<TemplateModel>, c: Category)
    ensures
        of_category(s + t, c) == of_category(s, c) + of_category(t, c),
    decreases t.len(),
{
    if t.len() == 0 {
        assert(s + t =~= s);
        assert(of_category(s, c) + of_category(t, c) =~= of_category(s, c));
    } else {
        assert((s + t).drop_last() =~= s + t.drop_last());
        assert((s + t).last() == t.last());
        lemma_of_category_append(s, t.drop_last(), c);
    }
}

proof fn lemma_matching_append(s: Seq<TemplateModel>, t: Seq<TemplateModel>, q: Seq<char>)
    ensures
        matching(s + t, q) == matching(s, q) + matching(t, q),
    decreases t.len(),
{
    if t.len() == 0 {
        assert(s + t =~= s);
        assert(matching(s, q) + matching(t, q) =~= matching(s, q));
    } else {
        assert((s + t).drop_last() =~= s + t.drop_last());
        assert((s + t).last() == t.last());
        lemma_matching_append(s, t.drop_last(), q);
    }
}

/// Every template that the category filter keeps has that category, and it keeps no more
/// templates than it was given.
pub proof fn law_filter_by_category_keeps_category(ts: Seq<TemplateModel>, c: Category)
    ensures
        of_category(ts, c).len() <= ts.len(),
        forall|i: int| 0 <= i < of_category(ts, c).len() ==> (#[trigger] of_category(ts, c)[i]).category
            == c,
    decreases ts.len(),
{
    if ts.len() > 0 {
        law_filter_by_category_keeps_category(ts.drop_last(), c);
        let a = of_category(ts.drop_last(), c);
        let b = if ts.last().category == c {
            seq![ts.last()]
        } else {
            Seq::<TemplateModel>::empty()
        };
        assert forall|i: int| 0 <= i < (a + b).len() implies (#[trigger] (a + b)[i]).category
            == c by {
            if i < a.len() {
                assert((a + b)[i] == a[i]);
            } else {
                assert((a + b)[i] == b[i - a.len()]);
            }
        }
    }
}

/// Filtering by a category a second time changes nothing.
pub proof fn law_filter_by_category_idempotent(ts: Seq<TemplateModel>, c: Category)
    ensures
        of_category(of_category(ts, c), c) == of_category(ts, c),
    decreases ts.len(),
{
    if ts.len() > 0 {
        law_filter_by_category_idempotent(ts.drop_last(), c);
        let a = of_category(ts.drop_last(), c);
        if ts.last().category == c {
            lemma_of_category_append(a, seq![ts.last()], c);
            lemma_of_category_single(ts.last(), c);
        } else {
            assert(of_category(ts, c) =~= a);
        }
    }
}

/// Searching again with the same query changes nothing.
pub proof fn law_search_idempotent(ts: Seq<TemplateModel>, query: Seq<char>)
    ensures
        search_result(search_result(ts, query), query) == search_result(ts, query),
{
    if query.len() > 0 {
        lemma_matching_idempotent(ts, crate::store::lowercased(query));
    }
}

proof fn lemma_matching_idempotent(ts: Seq<TemplateModel>, q: Seq<char>)
    ensures
        matching(matching(ts, q), q) == matching(ts, q),
    decreases ts.len(),
{
    if ts.len() > 0 {
        lemma_matching_idempotent(ts.drop_last(), q);
        let a = matching(ts.drop_last(), q);
        if template_matches(ts.last(), q) {
            lemma_matching_append(a, seq![ts.last()], q);
            lemma_matching_single(ts.last(), q);
        } else {
            assert(matching(ts, q) =~= a);
        }
    }
}

proof fn lemma_matching_of_category_commute(ts: Seq<TemplateModel>, q: Seq<char>, c: Category)
    ensures
        of_category(matching(ts, q), c) == matching(of_category(ts, c), q),
    decreases ts.len(),
{
    if ts.len() > 0 {
        lemma_matching_of_category_commute(ts.drop_last(), q, c);
        let x = ts.last();
        let one = seq![x];
        assert(one.drop_last() =~= Seq::<TemplateModel>::empty());
        assert(one.last() == x);
        let m = matching(ts.drop_last(), q);
        let k = of_category(ts.drop_last(), c);
        if template_matches(x, q) {
            lemma_of_category_append(m, one, c);
        } else {
            assert(matching(ts, q) =~= m);
        }
        if x.category == c {
            lemma_matching_append(k, one, q);
        } else {
            assert(of_category(ts, c) =~= k);
        }
        lemma_of_category_single(x, c);
        lemma_matching_single(x, q);
        if template_matches(x, q) && x.category == c {
            assert(of_category(matching(ts, q), c) =~= of_category(m, c) + one);
            assert(matching(of_category(ts, c), q) =~= matching(k, q) + one);
        } else if template_matches(x, q) {
            assert(of_category(matching(ts, q), c) =~= of_category(m, c));
        } else if x.category == c {
            assert(matching(of_category(ts, c), q) =~= matching(k, q));
        }
    }
}

/// The gallery may search first and filter by category second, or the other way round:
/// it shows the same templates in the same order.
pub proof fn law_search_and_category_commute(ts: Seq<TemplateModel>, query: Seq<char>, c: Category)
    ensures
        of_category(search_result(ts, query), c) == search_result(of_category(ts, c), query),
{
    if query.len() > 0 {
        lemma_matching_of_category_commute(ts, crate::store::lowercased(query), c);
    }
}

proof fn lemma_contains_prefix(s: Seq<char>, p: Seq<char>, q: Seq<char>)
    requires
        q.len() <= p.len(),
        p.take(q.len() as int) == q,
        contains(s, p),
    ensures
        contains(s, q),
{
    let i = choose|i: int| matches_at(s, p, i);
    assert(s.subrange(i, i + q.len()) =~= s.subrange(i, i + p.len()).take(q.len() as int));
    assert(matches_at(s, q, i));
}

/// Text without `{{` comes out of the substitution unchanged.
pub proof fn law_substitute_plain_text(s: Seq<char>, values: Map<Seq<char>, Seq<char>>)
    requires
        !contains(s, "{{"@),
    ensures
        substituted(s, values) == s,
{
    lemma_find_some(s, "{{"@);
}

/// Text without `{{` comes out of the block evaluation and of the whole preview unchanged.
pub proof fn law_preview_plain_text(s: Seq<char>, values: Map<Seq<char>, Seq<char>>)
    requires
        !contains(s, "{{"@),
    ensures
        blocks_evaluated(s, values) == s,
        preview_text(s, values) == s,
{
    reveal_strlit("{{");
    reveal_strlit("{{#if ");
    reveal_strlit("{{#each ");
    assert("{{#if "@.take(2) =~= "{{"@);
    assert("{{#each "@.take(2) =~= "{{"@);
    if contains(s, "{{#if "@) {
        lemma_contains_prefix(s, "{{#if "@, "{{"@);
    }
    if contains(s, "{{#each "@) {
        lemma_contains_prefix(s, "{{#each "@, "{{"@);
    }
    lemma_find_some(s, "{{#if "@);
    lemma_find_some(s, "{{#each "@);
    assert(ifs_evaluated(s, values) == s);
    assert(eachs_evaluated(s, values) == s);
    law_substitute_plain_text(s, values);
}

proof fn lemma_trim_start_shape(s: Seq<char>)
    ensures
        trim_start(s).len() == 0 || !is_whitespace(trim_start(s)[0]),
        trim_start(s).len() <= s.len(),
        trim_start(s) == s.skip(s.len() - trim_start(s).len()),
    decreases s.len(),
{
    if s.len() > 0 && is_whitespace(s[0]) {
        lemma_trim_start_shape(s.drop_first());
        assert(s.drop_first().skip(s.drop_first().len() - trim_start(s.drop_first()).len())
            =~= s.skip(s.len() - trim_start(s).len()));
    } else {
        assert(s.skip(0) =~= s);
    }
}

proof fn lemma_trim_end_shape(s: Seq<char>)
    ensures
        trim_end(s).len() == 0 || !is_whitespace(trim_end(s).last()),
        trim_end(s).len() <= s.len(),
        trim_end(s) == s.take(trim_end(s).len() as int),
    decreases s.len(),
{
    if s.len() > 0 && is_whitespace(s.last()) {
        lemma_trim_end_shape(s.drop_last());
        assert(s.drop_last().take(trim_end(s.drop_last()).len() as int) =~= s.take(
            trim_end(s).len() as int,
        ));
    } else {
        assert(s.take(s.len() as int) =~= s);
    }
}

/// Trimming trimmed text changes nothing.
pub proof fn law_trim_idempotent(s: Seq<char>)
    ensures
        trim(trim(s)) == trim(s),
{
    let a = trim_start(s);
    let t = trim_end(a);
    lemma_trim_start_shape(s);
    lemma_trim_end_shape(a);
    if t.len() > 0 {
        assert(t[0] == a[0]);
        assert(trim_start(t) == t);
    } else {
        assert(trim_start(t) == t);
    }
    lemma_trim_end_shape(t);
    assert(trim_end(t) == t);
}

/// The variable name of a placeholder expression is trimmed: it has no surrounding
/// whitespace, whatever the spacing around the `|` separators.
pub proof fn law_filter_name_trimmed(expr: Seq<char>)
    ensures
        trim(inline_filters(expr).0) == inline_filters(expr).0,
{
    crate::text::lemma_split_nonempty(expr, "|"@);
    law_trim_idempotent(split(expr, "|"@)[0]);
}

proof fn lemma_digit_char(k: int)
    requires
        0 <= k < 10,
    ensures
        is_digit(digit_char(k)),
        digit_value(digit_char(k)) == k,
{
}

proof fn lemma_decimal_digits(n: nat)
    ensures
        decimal(n).len() > 0,
        all_digits(decimal(n)),
        decimal_value(decimal(n)) == n,
    decreases n,
{
    if n < 10 {
        lemma_digit_char(n as int);
        let d = decimal(n);
        assert(d.drop_last() =~= Seq::<char>::empty());
        assert(decimal_value(d.drop_last()) == 0);
    } else {
        lemma_decimal_digits(n / 10);
        lemma_digit_char((n % 10) as int);
        let d = decimal(n);
        assert(d.drop_last() =~= decimal(n / 10));
        assert(d.last() == digit_char((n % 10) as int));
        assert forall|i: int| 0 <= i < d.len() implies is_digit(#[trigger] d[i]) by {
            if i < d.len() - 1 {
                assert(d[i] == decimal(n / 10)[i]);
            }
        }
        assert((n / 10) * 10 + n % 10 == n);
    }
}

/// Writing a number in decimal and reading it back, as a `max_length` filter and the
/// `maxlength` attribute do, gives the number back.
pub proof fn law_decimal_parse_roundtrip(n: usize)
    ensures
        parse_usize(decimal(n as nat)) == Some(n),
{
    lemma_decimal_digits(n as nat);
    let d = decimal(n as nat);
    assert(is_digit(d[0]));
}

proof fn lemma_no_char_subrange(s: Seq<char>, a: int, b: int, c: char)
    requires
        0 <= a <= b <= s.len(),
        forall|i: int| 0 <= i < s.len() ==> s[i] != c,
    ensures
        forall|i: int| 0 <= i < b - a ==> s.subrange(a, b)[i] != c,
{
    assert forall|i: int| 0 <= i < b - a implies s.subrange(a, b)[i] != c by {
        assert(s.subrange(a, b)[i] == s[a + i]);
    }
}

proof fn lemma_trim_keeps_absent_char(s: Seq<char>, c: char)
    requires
        forall|i: int| 0 <= i < s.len() ==> s[i] != c,
    ensures
        forall|i: int| 0 <= i < trim(s).len() ==> trim(s)[i] != c,
{
    let a = trim_start(s);
    lemma_trim_start_shape(s);
    lemma_no_char_subrange(s, s.len() - a.len(), s.len() as int, c);
    assert(a =~= s.subrange(s.len() - a.len(), s.len() as int));
    lemma_trim_end_shape(a);
    lemma_no_char_subrange(a, 0, trim_end(a).len() as int, c);
    assert(trim_end(a) =~= a.subrange(0, trim_end(a).len() as int));
}

proof fn lemma_first_piece_has_no_pipe(expr: Seq<char>)
    ensures
        forall|i: int| 0 <= i < split(expr, "|"@)[0].len() ==> split(expr, "|"@)[0][i] != '|',
{
    reveal_strlit("|");
    let p = "|"@;
    lemma_find_some(expr, p);
    match find(expr, p) {
        None => {
            assert forall|i: int| 0 <= i < expr.len() implies expr[i] != '|' by {
                if expr[i] == '|' {
                    assert(expr.subrange(i, i + 1) =~= p);
                    assert(matches_at(expr, p, i));
                }
            }
        },
        Some(k) => {
            assert(split(expr, p)[0] == expr.take(k));
            assert forall|i: int| 0 <= i < k implies expr.take(k)[i] != '|' by {
                if expr[i] == '|' {
                    assert(expr.subrange(i, i + 1) =~= p);
                    assert(matches_at(expr, p, i));
                }
            }
        },
    }
}

/// Filters other than `default` do not change what a placeholder turns into: an
/// expression without a `default` filter renders as its bare variable name would.
pub proof fn law_filters_do_not_change_rendering(expr: Seq<char>, values: Map<Seq<char>, Seq<char>>)
    requires
        default_of(inline_filters(expr).1) is None,
    ensures
        rendered_expr(expr, values) == rendered_expr(inline_filters(expr).0, values),
{
    reveal_strlit("|");
    let p = "|"@;
    let name = inline_filters(expr).0;
    crate::text::lemma_split_nonempty(expr, p);
    let first = split(expr, p)[0];
    assert(name == trim(first));
    lemma_first_piece_has_no_pipe(expr);
    lemma_trim_keeps_absent_char(first, '|');
    law_trim_idempotent(first);
    lemma_find_some(name, p);
    if find(name, p) is Some {
        let k = find(name, p)->0;
        assert(name.subrange(k, k + 1)[0] == name[k]);
    }
    assert(split(name, p) == seq![name]);
    assert(crate::models::filter::trimmed(seq![name]) =~= seq![trim(name)]);
    assert(seq![name].skip(1) =~= Seq::<Seq<char>>::empty());
    assert(inline_filters(name).0 == name);
    assert(inline_filters(name).1 == Seq::<crate::models::filter::FilterModel>::empty());
}

proof fn lemma_find_tag_after(pre: Seq<char>, tag: Seq<char>, rest: Seq<char>)
    requires
        tag.len() > 0,
        !contains(pre, tag),
        forall|j: int|
            0 <= j < pre.len() && pre.len() < j + tag.len() ==> #[trigger] pre.skip(j) + tag.take(
                j + tag.len() - pre.len(),
            ) != tag,
    ensures
        find(pre + tag + rest, tag) == Some(pre.len() as int),
{
    let s = pre + tag + rest;
    let k = pre.len() as int;
    let l = tag.len() as int;
    assert(s.subrange(k, k + l) =~= tag);
    assert forall|j: int| 0 <= j < k implies !matches_at(s, tag, j) by {
        if matches_at(s, tag, j) {
            if j + l <= k {
                assert(pre.subrange(j, j + l) =~= s.subrange(j, j + l));
                assert(matches_at(pre, tag, j));
            } else {
                assert(s.subrange(j, j + l) =~= pre.skip(j) + tag.take(j + l - k));
            }
        }
    }
    crate::text::lemma_find_first(s, tag, k);
}

/// `tag` begins with `{{` and has no other `{`.
pub open spec fn is_brace_tag(tag: Seq<char>) -> bool {
    &&& tag.len() >= 3
    &&& tag[0] == '{'
    &&& tag[1] == '{'
    &&& forall|i: int| 2 <= i < tag.len() ==> tag[i] != '{'
}

proof fn lemma_brace_tag_after(pre: Seq<char>, tag: Seq<char>, rest: Seq<char>)
    requires
        is_brace_tag(tag),
        !contains(pre, tag),
    ensures
        find(pre + tag + rest, tag) == Some(pre.len() as int),
{
    let l = tag.len() as int;
    assert forall|j: int| 0 <= j < pre.len() && pre.len() < j + l implies #[trigger] pre.skip(j)
        + tag.take(j + l - pre.len()) != tag by {
        let d = pre.len() - j;
        let w = pre.skip(j) + tag.take(j + l - pre.len());
        if w == tag {
            assert(w[d] == tag[0]);
            if d == 1 {
                assert(w[2] == tag[1]);
            }
        }
    }
    lemma_find_tag_after(pre, tag, rest);
}

proof fn lemma_double_after(pre: Seq<char>, c: char, rest: Seq<char>)
    requires
        !contains(pre, seq![c, c]),
        !(pre.len() > 0 && pre.last() == c),
    ensures
        find(pre + seq![c, c] + rest, seq![c, c]) == Some(pre.len() as int),
{
    let tag = seq![c, c];
    assert forall|j: int| 0 <= j < pre.len() && pre.len() < j + 2 implies #[trigger] pre.skip(j)
        + tag.take(j + 2 - pre.len()) != tag by {
        let w = pre.skip(j) + tag.take(j + 2 - pre.len());
        if w == tag {
            assert(w[0] == pre.last());
        }
    }
    lemma_find_tag_after(pre, tag, rest);
}

proof fn lemma_close_after(cond: Seq<char>, rest: Seq<char>)
    requires
        !contains(cond, "}}"@),
        !(cond.len() > 0 && cond.last() == '}'),
    ensures
        find(cond + "}}"@ + rest, "}}"@) == Some(cond.len() as int),
{
    reveal_strlit("}}");
    assert("}}"@ =~= seq!['}', '}']);
    lemma_double_after(cond, '}', rest);
}

proof fn lemma_matches_shift(p: Seq<char>, q: Seq<char>, t: Seq<char>, k: int)
    requires
        p.len() <= k,
    ensures
        matches_at(p + q, t, k) == matches_at(q, t, k - p.len()),
{
    let s = p + q;
    if k + t.len() <= s.len() {
        assert(s.subrange(k, k + t.len()) =~= q.subrange(k - p.len(), k - p.len() + t.len()));
    }
}

/// In `x + u`, where `u` begins with `{{`, no occurrence of a brace tag that `x` does not
/// contain begins inside `x`.
proof fn lemma_no_tag_in_prefix(x: Seq<char>, u: Seq<char>, t: Seq<char>)
    requires
        is_brace_tag(t),
        !contains(x, t),
        u.len() >= 2,
        u[0] == '{',
        u[1] == '{',
    ensures
        forall|k: int| 0 <= k < x.len() ==> !#[trigger] matches_at(x + u, t, k),
{
    let s = x + u;
    let l = t.len() as int;
    assert forall|k: int| 0 <= k < x.len() implies !#[trigger] matches_at(s, t, k) by {
        if matches_at(s, t, k) {
            if k + l <= x.len() {
                assert(x.subrange(k, k + l) =~= s.subrange(k, k + l));
                assert(matches_at(x, t, k));
            } else {
                let d = x.len() - k;
                assert(s.subrange(k, k + l)[d] == s[x.len() as int]);
                assert(s.subrange(k, k + l)[2] == s[k + 2]);
            }
        }
    }
}

/// The same, for the part `x` that follows `p` in `p + x + u`.
proof fn lemma_no_tag_in_middle(p: Seq<char>, x: Seq<char>, u: Seq<char>, t: Seq<char>)
    requires
        is_brace_tag(t),
        !contains(x, t),
        u.len() >= 2,
        u[0] == '{',
        u[1] == '{',
    ensures
        forall|k: int|
            p.len() <= k < p.len() + x.len() ==> !#[trigger] matches_at(p + (x + u), t, k),
{
    lemma_no_tag_in_prefix(x, u, t);
    assert forall|k: int| p.len() <= k < p.len() + x.len() implies !#[trigger] matches_at(
        p + (x + u),
        t,
        k,
    ) by {
        lemma_matches_shift(p, x + u, t, k);
    }
}

/// In `x + u + z`, where `u` is a brace tag, no other brace tag `t` begins inside `u`.
proof fn lemma_no_tag_in_tag(x: Seq<char>, u: Seq<char>, z: Seq<char>, t: Seq<char>)
    requires
        is_brace_tag(u),
        is_brace_tag(t),
        t[2] != u[2],
    ensures
        forall|k: int|
            x.len() <= k < x.len() + u.len() ==> !#[trigger] matches_at(x + u + z, t, k),
{
    let s = x + u + z;
    let l = t.len() as int;
    assert forall|k: int| x.len() <= k < x.len() + u.len() implies !#[trigger] matches_at(
        s,
        t,
        k,
    ) by {
        if matches_at(s, t, k) {
            let d = k - x.len();
            assert(s.subrange(k, k + l)[0] == s[k]);
            assert(s[k] == u[d]);
            if d == 0 {
                assert(s.subrange(k, k + l)[2] == s[k + 2]);
                assert(s[k + 2] == u[2]);
            } else if d == 1 {
                assert(s.subrange(k, k + l)[1] == s[k + 1]);
                assert(s[k + 1] == u[2]);
            }
        }
    }
}

/// Scanning over positions where none of the three tags begins changes nothing.
proof fn lemma_scan_skip(
    s: Seq<char>,
    i: int,
    j: int,
    depth: nat,
    open: Seq<char>,
    close: Seq<char>,
    target: Seq<char>,
)
    requires
        open.len() > 0,
        close.len() > 0,
        0 <= i <= j <= s.len(),
        forall|k: int|
            i <= k < j ==> !#[trigger] matches_at(s, open, k) && !matches_at(s, close, k)
                && !matches_at(s, target, k),
    ensures
        scan_for(s, i, depth, open, close, target) == scan_for(s, j, depth, open, close, target),
    decreases j - i,
{
    if i < j {
        assert(!matches_at(s, open, i) && !matches_at(s, close, i) && !matches_at(s, target, i));
        lemma_scan_skip(s, i + 1, j, depth, open, close, target);
    }
}

proof fn lemma_drop_first_no_tag(s: Seq<char>, t: Seq<char>)
    requires
        s.len() > 0,
        !contains(s, t),
    ensures
        !contains(s.drop_first(), t),
{
    let r = s.drop_first();
    assert forall|k: int| !matches_at(r, t, k) by {
        if matches_at(r, t, k) {
            assert(s.subrange(k + 1, k + 1 + t.len()) =~= r.subrange(k, k + t.len()));
            assert(matches_at(s, t, k + 1));
        }
    }
}

proof fn lemma_drop_last_no_tag(s: Seq<char>, t: Seq<char>)
    requires
        s.len() > 0,
        !contains(s, t),
    ensures
        !contains(s.drop_last(), t),
{
    let r = s.drop_last();
    assert forall|k: int| !matches_at(r, t, k) by {
        if matches_at(r, t, k) {
            assert(s.subrange(k, k + t.len()) =~= r.subrange(k, k + t.len()));
            assert(matches_at(s, t, k));
        }
    }
}

proof fn lemma_trim_start_no_tag(s: Seq<char>, t: Seq<char>)
    requires
        !contains(s, t),
    ensures
        !contains(trim_start(s), t),
    decreases s.len(),
{
    if s.len() > 0 && is_whitespace(s[0]) {
        lemma_drop_first_no_tag(s, t);
        lemma_trim_start_no_tag(s.drop_first(), t);
    }
}

proof fn lemma_trim_end_no_tag(s: Seq<char>, t: Seq<char>)
    requires
        !contains(s, t),
    ensures
        !contains(trim_end(s), t),
    decreases s.len(),
{
    if s.len() > 0 && is_whitespace(s.last()) {
        lemma_drop_last_no_tag(s, t);
        lemma_trim_end_no_tag(s.drop_last(), t);
    }
}

/// Trimming text that does not contain `t` gives text that does not contain it either.
proof fn lemma_trim_no_tag(s: Seq<char>, t: Seq<char>)
    requires
        !contains(s, t),
    ensures
        !contains(trim(s), t),
{
    lemma_trim_start_no_tag(s, t);
    lemma_trim_end_no_tag(trim_start(s), t);
}

/// A placeholder is replaced where it stands: in text made of a part without `{{` that
/// does not end in `{`, a placeholder `{{expr}}` whose expression has no `}}`, does not
/// end in `}` and does not start a block tag, and any rest, the substitution gives the
/// part, what the expression renders to, and the substitution of the rest.
pub proof fn law_placeholder_replaced_in_place(
    pre: Seq<char>,
    expr: Seq<char>,
    post: Seq<char>,
    values: Map<Seq<char>, Seq<char>>,
)
    requires
        !contains(pre, "{{"@),
        !(pre.len() > 0 && pre.last() == '{'),
        !contains(expr, "}}"@),
        !(expr.len() > 0 && expr.last() == '}'),
        expr.len() > 0 ==> expr[0] != '#' && expr[0] != '/',
    ensures
        substituted(pre + "{{"@ + expr + "}}"@ + post, values) == pre + rendered_expr(expr, values)
            + substituted(post, values),
{
    reveal_strlit("{{");
    reveal_strlit("}}");
    let open = "{{"@;
    let close = "}}"@;
    assert(open =~= seq!['{', '{']);
    let rest = expr + close + post;
    let s = pre + open + expr + close + post;
    assert(s =~= pre + open + rest);
    lemma_double_after(pre, '{', rest);
    let after = s.skip(pre.len() as int + 2);
    assert(after =~= rest);
    if expr.len() > 0 {
        assert(after[0] == expr[0]);
    } else {
        assert(after[0] == '}');
    }
    lemma_close_after(expr, post);
    let e = expr.len() as int;
    assert(after.take(e) =~= expr);
    assert(after.skip(e + 2) =~= post);
    assert(s.take(pre.len() as int) =~= pre);
}

/// Where the `{{#if}}` block that `a{{else}}b{{/if}}` ends, and where its `{{else}}` is.
proof fn lemma_if_else_ends(a: Seq<char>, b: Seq<char>, post: Seq<char>)
    requires
        !contains(a, "{{#if "@),
        !contains(a, "{{else}}"@),
        !contains(a, "{{/if}}"@),
        !contains(b, "{{#if "@),
        !contains(b, "{{/if}}"@),
    ensures
        find_outside(a + "{{else}}"@ + b + "{{/if}}"@ + post, "{{#if "@, "{{/if}}"@, "{{/if}}"@)
            == Some(a.len() + 8 + b.len() as int),
        else_position(a + "{{else}}"@ + b) == Some(a.len() as int),
{
    reveal_strlit("{{#if ");
    reveal_strlit("{{else}}");
    reveal_strlit("{{/if}}");
    let open = "{{#if "@;
    let els = "{{else}}"@;
    let endif = "{{/if}}"@;
    assert(is_brace_tag(open));
    assert(is_brace_tag(els));
    assert(is_brace_tag(endif));
    let rest = a + els + b + endif + post;
    let la = a.len() as int;
    let m = la + 8 + b.len();
    assert(rest =~= a + (els + b + endif + post));
    lemma_no_tag_in_prefix(a, els + b + endif + post, open);
    lemma_no_tag_in_prefix(a, els + b + endif + post, endif);
    assert(rest =~= a + els + (b + endif + post));
    lemma_no_tag_in_tag(a, els, b + endif + post, open);
    lemma_no_tag_in_tag(a, els, b + endif + post, endif);
    assert(rest =~= (a + els) + (b + (endif + post)));
    lemma_no_tag_in_middle(a + els, b, endif + post, open);
    lemma_no_tag_in_middle(a + els, b, endif + post, endif);
    assert forall|k: int| 0 <= k < m implies !#[trigger] matches_at(rest, open, k)
        && !matches_at(rest, endif, k) by {
        if k < la {
        } else if k < la + 8 {
        } else {
        }
    }
    lemma_scan_skip(rest, 0, m, 0, open, endif, endif);
    assert(rest.subrange(m, m + 7) =~= endif);
    let inner = a + els + b;
    assert(inner =~= a + (els + b));
    lemma_no_tag_in_prefix(a, els + b, open);
    lemma_no_tag_in_prefix(a, els + b, endif);
    lemma_no_tag_in_prefix(a, els + b, els);
    lemma_scan_skip(inner, 0, la, 0, open, endif, els);
    assert(inner.subrange(la, la + 8) =~= els);
}

/// Where the `{{#if}}` block that `a{{/if}}` ends; it has no `{{else}}`.
proof fn lemma_if_ends(a: Seq<char>, post: Seq<char>)
    requires
        !contains(a, "{{#if "@),
        !contains(a, "{{else}}"@),
        !contains(a, "{{/if}}"@),
    ensures
        find_outside(a + "{{/if}}"@ + post, "{{#if "@, "{{/if}}"@, "{{/if}}"@) == Some(
            a.len() as int,
        ),
        else_position(a) is None,
{
    reveal_strlit("{{#if ");
    reveal_strlit("{{else}}");
    reveal_strlit("{{/if}}");
    let open = "{{#if "@;
    let els = "{{else}}"@;
    let endif = "{{/if}}"@;
    assert(is_brace_tag(open));
    assert(is_brace_tag(endif));
    let rest = a + endif + post;
    let la = a.len() as int;
    lemma_no_tag_in_prefix(a, endif + post, open);
    lemma_no_tag_in_prefix(a, endif + post, endif);
    assert(rest =~= a + (endif + post));
    lemma_scan_skip(rest, 0, la, 0, open, endif, endif);
    assert(rest.subrange(la, la + 7) =~= endif);
    lemma_scan_skip(a, 0, la, 0, open, endif, els);
}

/// Where the `{{#each}}` block that `body{{/each}}` ends.
proof fn lemma_each_ends(body: Seq<char>, post: Seq<char>)
    requires
        !contains(body, "{{#each "@),
        !contains(body, "{{/each}}"@),
    ensures
        find_outside(body + "{{/each}}"@ + post, "{{#each "@, "{{/each}}"@, "{{/each}}"@) == Some(
            body.len() as int,
        ),
{
    reveal_strlit("{{#each ");
    reveal_strlit("{{/each}}");
    let open = "{{#each "@;
    let end_tag = "{{/each}}"@;
    assert(is_brace_tag(open));
    assert(is_brace_tag(end_tag));
    let rest = body + end_tag + post;
    let lb = body.len() as int;
    lemma_no_tag_in_prefix(body, end_tag + post, open);
    lemma_no_tag_in_prefix(body, end_tag + post, end_tag);
    assert(rest =~= body + (end_tag + post));
    lemma_scan_skip(rest, 0, lb, 0, open, end_tag, end_tag);
    assert(rest.subrange(lb, lb + 9) =~= end_tag);
}

/// An `{{#if cond}}a{{else}}b{{/if}}` block, after text without `{{#if `, with a
/// condition that has no `}}` and does not end in `}`, a first branch without `{{#if `,
/// `{{else}}` and `{{/if}}`, and a second branch without `{{#if ` and `{{/if}}`, becomes
/// the trimmed first branch where the condition holds and the trimmed second branch where
/// it does not; the evaluation goes on after the block.
#[verifier::rlimit(40)]
pub proof fn law_if_else_block(
    pre: Seq<char>,
    cond: Seq<char>,
    a: Seq<char>,
    b: Seq<char>,
    post: Seq<char>,
    values: Map<Seq<char>, Seq<char>>,
)
    requires
        !contains(pre, "{{#if "@),
        !contains(cond, "}}"@),
        !(cond.len() > 0 && cond.last() == '}'),
        !contains(a, "{{#if "@),
        !contains(a, "{{else}}"@),
        !contains(a, "{{/if}}"@),
        !contains(b, "{{#if "@),
        !contains(b, "{{/if}}"@),
    ensures
        ifs_evaluated(
            pre + "{{#if "@ + cond + "}}"@ + a + "{{else}}"@ + b + "{{/if}}"@ + post,
            values,
        ) == pre + (if condition_holds(trim(cond), values) {
            trim(a)
        } else {
            trim(b)
        }) + ifs_evaluated(post, values),
{
    reveal_strlit("{{#if ");
    reveal_strlit("}}");
    reveal_strlit("{{else}}");
    reveal_strlit("{{/if}}");
    let open = "{{#if "@;
    let close = "}}"@;
    let els = "{{else}}"@;
    let endif = "{{/if}}"@;
    assert(is_brace_tag(open));
    assert(is_brace_tag(els));
    assert(is_brace_tag(endif));
    let rest = a + els + b + endif + post;
    let tail = cond + close + rest;
    let s = pre + open + cond + close + a + els + b + endif + post;
    assert(s =~= pre + open + tail);
    lemma_brace_tag_after(pre, open, tail);
    let after_tag = s.skip(pre.len() as int + 6);
    assert(after_tag =~= tail);
    lemma_close_after(cond, rest);
    let c = cond.len() as int;
    assert(after_tag.take(c) =~= cond);
    assert(after_tag.skip(c + 2) =~= rest);
    let la = a.len() as int;
    let m = la + 8 + b.len();
    lemma_if_else_ends(a, b, post);
    let inner = rest.take(m);
    assert(inner =~= a + els + b);
    assert(inner.take(la) =~= a);
    assert(inner.skip(la + 8) =~= b);
    assert(if_branch(inner) == trim(a));
    assert(else_branch(inner) == trim(b));
    lemma_trim_no_tag(a, open);
    lemma_find_some(trim(a), open);
    lemma_trim_no_tag(b, open);
    lemma_find_some(trim(b), open);
    assert(ifs_evaluated(trim(a), values) == trim(a));
    assert(ifs_evaluated(trim(b), values) == trim(b));
    assert(rest.skip(m + 7) =~= post);
    assert(s.take(pre.len() as int) =~= pre);
    assert(find(s, open) == Some(pre.len() as int));
    assert(find(after_tag, close) == Some(c));
    assert(find_outside(rest, open, endif, endif) == Some(m));
}

/// An `{{#if cond}}a{{/if}}` block, after text without `{{#if `, with a condition that
/// has no `}}` and does not end in `}`, and a body without `{{#if `, `{{else}}` and
/// `{{/if}}`, becomes the trimmed body where the condition holds and nothing where it does
/// not.
#[verifier::rlimit(40)]
pub proof fn law_if_block(
    pre: Seq<char>,
    cond: Seq<char>,
    a: Seq<char>,
    post: Seq<char>,
    values: Map<Seq<char>, Seq<char>>,
)
    requires
        !contains(pre, "{{#if "@),
        !contains(cond, "}}"@),
        !(cond.len() > 0 && cond.last() == '}'),
        !contains(a, "{{#if "@),
        !contains(a, "{{else}}"@),
        !contains(a, "{{/if}}"@),
    ensures
        ifs_evaluated(pre + "{{#if "@ + cond + "}}"@ + a + "{{/if}}"@ + post, values) == pre + (
        if condition_holds(trim(cond), values) {
            trim(a)
        } else {
            Seq::empty()
        }) + ifs_evaluated(post, values),
{
    reveal_strlit("{{#if ");
    reveal_strlit("}}");
    reveal_strlit("{{else}}");
    reveal_strlit("{{/if}}");
    let open = "{{#if "@;
    let close = "}}"@;
    let els = "{{else}}"@;
    let endif = "{{/if}}"@;
    assert(is_brace_tag(open));
    assert(is_brace_tag(endif));
    let rest = a + endif + post;
    let tail = cond + close + rest;
    let s = pre + open + cond + close + a + endif + post;
    assert(s =~= pre + open + tail);
    lemma_brace_tag_after(pre, open, tail);
    let after_tag = s.skip(pre.len() as int + 6);
    assert(after_tag =~= tail);
    lemma_close_after(cond, rest);
    let c = cond.len() as int;
    assert(after_tag.take(c) =~= cond);
    assert(after_tag.skip(c + 2) =~= rest);
    let la = a.len() as int;
    lemma_if_ends(a, post);
    assert(rest.take(la) =~= a);
    assert(if_branch(a) == trim(a));
    assert(else_branch(a) == Seq::<char>::empty());
    lemma_trim_no_tag(a, open);
    lemma_find_some(trim(a), open);
    lemma_find_some(Seq::<char>::empty(), open);
    assert(ifs_evaluated(trim(a), values) == trim(a));
    assert(ifs_evaluated(Seq::<char>::empty(), values) == Seq::<char>::empty());
    assert(rest.skip(la + 7) =~= post);
    assert(s.take(pre.len() as int) =~= pre);
    assert(find(s, open) == Some(pre.len() as int));
    assert(find(after_tag, close) == Some(c));
    assert(find_outside(rest, open, endif, endif) == Some(la));
}

/// An `{{#each expr}}body{{/each}}` block, after text without `{{#each `, with a tag
/// expression that has no `}}` and does not end in `}`, and a body without `{{#each ` and
/// `{{/each}}`, becomes the loop's expansion; the evaluation goes on after the block.
#[verifier::rlimit(40)]
pub proof fn law_each_block(
    pre: Seq<char>,
    expr: Seq<char>,
    body: Seq<char>,
    post: Seq<char>,
    values: Map<Seq<char>, Seq<char>>,
)
    requires
        !contains(pre, "{{#each "@),
        !contains(expr, "}}"@),
        !(expr.len() > 0 && expr.last() == '}'),
        !contains(body, "{{#each "@),
        !contains(body, "{{/each}}"@),
    ensures
        eachs_evaluated(pre + "{{#each "@ + expr + "}}"@ + body + "{{/each}}"@ + post, values)
            == pre + loop_expansion(expr, body, values) + eachs_evaluated(post, values),
{
    reveal_strlit("{{#each ");
    reveal_strlit("}}");
    reveal_strlit("{{/each}}");
    let open = "{{#each "@;
    let close = "}}"@;
    let end_tag = "{{/each}}"@;
    assert(is_brace_tag(open));
    assert(is_brace_tag(end_tag));
    let rest = body + end_tag + post;
    let tail = expr + close + rest;
    let s = pre + open + expr + close + body + end_tag + post;
    assert(s =~= pre + open + tail);
    lemma_brace_tag_after(pre, open, tail);
    let after_tag = s.skip(pre.len() as int + 8);
    assert(after_tag =~= tail);
    lemma_close_after(expr, rest);
    let t = expr.len() as int;
    assert(after_tag.take(t) =~= expr);
    assert(after_tag.skip(t + 2) =~= rest);
    let lb = body.len() as int;
    lemma_each_ends(body, post);
    assert(rest.take(lb) =~= body);
    lemma_find_some(body, open);
    assert(eachs_evaluated(body, values) == body);
    assert(rest.skip(lb + 9) =~= post);
    assert(s.take(pre.len() as int) =~= pre);
    assert(find(s, open) == Some(pre.len() as int));
    assert(find(after_tag, close) == Some(t));
    assert(find_outside(rest, open, end_tag, end_tag) == Some(lb));
}

/// No brace tag begins at a position of `s` that does not hold `{`.
proof fn lemma_no_tag_without_brace(s: Seq<char>, t: Seq<char>, k: int)
    requires
        is_brace_tag(t),
        0 <= k < s.len(),
        s[k] != '{',
    ensures
        !matches_at(s, t, k),
{
    if matches_at(s, t, k) {
        assert(s.subrange(k, k + t.len())[0] == s[k]);
    }
}

/// Scanning for `target` runs over a whole `{{#if c}}y{{/if}}` block, whose condition has
/// no `{` and whose body has no tag, as over one step that leaves no block open.
proof fn lemma_scan_inner_if(
    p: Seq<char>,
    c: Seq<char>,
    y: Seq<char>,
    q: Seq<char>,
    target: Seq<char>,
)
    requires
        !contains(c, "{"@),
        !contains(y, "{{#if "@),
        !contains(y, "{{/if}}"@),
        !contains(y, target),
        is_brace_tag(target),
        target[2] != '#',
    ensures
        scan_for(
            p + ("{{#if "@ + c + "}}"@ + y + "{{/if}}"@) + q,
            p.len() as int,
            0,
            "{{#if "@,
            "{{/if}}"@,
            target,
        ) == scan_for(
            p + ("{{#if "@ + c + "}}"@ + y + "{{/if}}"@) + q,
            (p.len() + 6 + c.len() + 2 + y.len() + 7) as int,
            0,
            "{{#if "@,
            "{{/if}}"@,
            target,
        ),
{
    reveal_strlit("{");
    reveal_strlit("{{#if ");
    reveal_strlit("}}");
    reveal_strlit("{{/if}}");
    let open = "{{#if "@;
    let close = "}}"@;
    let endif = "{{/if}}"@;
    assert(is_brace_tag(open));
    assert(is_brace_tag(endif));
    let s = p + (open + c + close + y + endif) + q;
    let i0 = p.len() as int;
    let j0 = i0 + 6 + c.len() + 2;
    let e = j0 + y.len();
    assert(s =~= p + open + (c + close + y + endif + q));
    lemma_no_tag_in_tag(p, open, c + close + y + endif + q, target);
    assert(s.subrange(i0, i0 + 6) =~= open);
    assert(scan_for(s, i0, 0, open, endif, target) == scan_for(s, i0 + 6, 1, open, endif, target));
    assert forall|k: int| i0 + 6 <= k < j0 implies s[k] != '{' by {
        if k < i0 + 6 + c.len() {
            assert(s[k] == c[k - i0 - 6]);
            if c[k - i0 - 6] == '{' {
                assert(c.subrange(k - i0 - 6, k - i0 - 5) =~= "{"@);
                assert(matches_at(c, "{"@, k - i0 - 6));
            }
        } else {
            assert(s[k] == close[k - i0 - 6 - c.len()]);
        }
    }
    assert forall|k: int| i0 + 6 <= k < j0 implies !#[trigger] matches_at(s, open, k)
        && !matches_at(s, endif, k) && !matches_at(s, target, k) by {
        lemma_no_tag_without_brace(s, open, k);
        lemma_no_tag_without_brace(s, endif, k);
        lemma_no_tag_without_brace(s, target, k);
    }
    assert(s =~= (p + open + c + close) + (y + (endif + q)));
    lemma_no_tag_in_middle(p + open + c + close, y, endif + q, open);
    lemma_no_tag_in_middle(p + open + c + close, y, endif + q, endif);
    lemma_no_tag_in_middle(p + open + c + close, y, endif + q, target);
    assert forall|k: int| i0 + 6 <= k < e implies !#[trigger] matches_at(s, open, k)
        && !matches_at(s, endif, k) && !matches_at(s, target, k) by {
        if k < j0 {
        } else {
        }
    }
    lemma_scan_skip(s, i0 + 6, e, 1, open, endif, target);
    assert(s =~= (p + open + c + close + y) + endif + q);
    lemma_no_tag_in_tag(p + open + c + close + y, endif, q, open);
    assert(s.subrange(e, e + 7) =~= endif);
    assert(scan_for(s, e, 1, open, endif, target) == scan_for(s, e + 7, 0, open, endif, target));
}

/// Where the `{{#if}}` block that `x{{#if c}}y{{/if}}z{{/if}}` ends, past the block nested
/// in it; it has no `{{else}}` of its own.
proof fn lemma_nested_if_ends(
    x: Seq<char>,
    c: Seq<char>,
    y: Seq<char>,
    z: Seq<char>,
    post: Seq<char>,
)
    requires
        !contains(c, "{"@),
        !contains(x, "{{#if "@),
        !contains(x, "{{else}}"@),
        !contains(x, "{{/if}}"@),
        !contains(y, "{{#if "@),
        !contains(y, "{{else}}"@),
        !contains(y, "{{/if}}"@),
        !contains(z, "{{#if "@),
        !contains(z, "{{else}}"@),
        !contains(z, "{{/if}}"@),
    ensures
        find_outside(
            x + ("{{#if "@ + c + "}}"@ + y + "{{/if}}"@) + z + "{{/if}}"@ + post,
            "{{#if "@,
            "{{/if}}"@,
            "{{/if}}"@,
        ) == Some((x.len() + 6 + c.len() + 2 + y.len() + 7 + z.len()) as int),
        else_position(x + ("{{#if "@ + c + "}}"@ + y + "{{/if}}"@) + z) is None,
{
    reveal_strlit("{{#if ");
    reveal_strlit("}}");
    reveal_strlit("{{else}}");
    reveal_strlit("{{/if}}");
    let open = "{{#if "@;
    let close = "}}"@;
    let els = "{{else}}"@;
    let endif = "{{/if}}"@;
    assert(is_brace_tag(open));
    assert(is_brace_tag(els));
    assert(is_brace_tag(endif));
    let block = open + c + close + y + endif;
    let lx = x.len() as int;
    let lb = block.len() as int;
    let la = lx + lb + z.len();
    let s = x + block + z + endif + post;
    assert(s =~= x + (block + z + endif + post));
    lemma_no_tag_in_prefix(x, block + z + endif + post, open);
    lemma_no_tag_in_prefix(x, block + z + endif + post, endif);
    lemma_scan_skip(s, 0, lx, 0, open, endif, endif);
    assert(s =~= x + block + (z + endif + post));
    lemma_scan_inner_if(x, c, y, z + endif + post, endif);
    assert(s =~= (x + block) + (z + (endif + post)));
    lemma_no_tag_in_middle(x + block, z, endif + post, open);
    lemma_no_tag_in_middle(x + block, z, endif + post, endif);
    lemma_scan_skip(s, lx + lb, la, 0, open, endif, endif);
    assert(s.subrange(la, la + 7) =~= endif);
    let a = x + block + z;
    assert(a =~= x + (block + z));
    lemma_no_tag_in_prefix(x, block + z, open);
    lemma_no_tag_in_prefix(x, block + z, endif);
    lemma_no_tag_in_prefix(x, block + z, els);
    lemma_scan_skip(a, 0, lx, 0, open, endif, els);
    lemma_scan_inner_if(x, c, y, z, els);
    assert forall|k: int| lx + lb <= k < la implies !#[trigger] matches_at(a, open, k)
        && !matches_at(a, endif, k) && !matches_at(a, els, k) by {
        lemma_matches_shift(x + block, z, open, k);
        lemma_matches_shift(x + block, z, endif, k);
        lemma_matches_shift(x + block, z, els, k);
    }
    lemma_scan_skip(a, lx + lb, la, 0, open, endif, els);
}

/// The branch of the outer block of `x{{#if c}}y{{/if}}z`, and what it evaluates to.
proof fn lemma_nested_branch(
    x: Seq<char>,
    c: Seq<char>,
    y: Seq<char>,
    z: Seq<char>,
    values: Map<Seq<char>, Seq<char>>,
)
    requires
        !contains(c, "{"@),
        !contains(c, "}}"@),
        !(c.len() > 0 && c.last() == '}'),
        !contains(x, "{{#if "@),
        !contains(x, "{{else}}"@),
        !contains(x, "{{/if}}"@),
        !contains(y, "{{#if "@),
        !contains(y, "{{else}}"@),
        !contains(y, "{{/if}}"@),
        !contains(z, "{{#if "@),
        !contains(z, "{{else}}"@),
        !contains(z, "{{/if}}"@),
        x.len() > 0,
        !is_whitespace(x[0]),
        z.len() > 0,
        !is_whitespace(z.last()),
    ensures
        if_branch(x + ("{{#if "@ + c + "}}"@ + y + "{{/if}}"@) + z) == x + ("{{#if "@ + c + "}}"@
            + y + "{{/if}}"@) + z,
        else_branch(x + ("{{#if "@ + c + "}}"@ + y + "{{/if}}"@) + z) == Seq::<char>::empty(),
        ifs_evaluated(x + ("{{#if "@ + c + "}}"@ + y + "{{/if}}"@) + z, values) == x + (
        if condition_holds(trim(c), values) {
            trim(y)
        } else {
            Seq::empty()
        }) + z,
{
    let a = x + ("{{#if "@ + c + "}}"@ + y + "{{/if}}"@) + z;
    lemma_nested_if_ends(x, c, y, z, Seq::empty());
    assert(a[0] == x[0]);
    assert(trim_start(a) == a);
    assert(a.last() == z.last());
    assert(trim_end(a) == a);
    law_if_block(x, c, y, z, values);
    assert(a =~= x + "{{#if "@ + c + "}}"@ + y + "{{/if}}"@ + z);
    lemma_find_some(z, "{{#if "@);
    assert(ifs_evaluated(z, values) == z);
}

/// Blocks nest: an `{{#if c1}}x{{#if c2}}y{{/if}}z{{/if}}` block, after text without
/// `{{#if `, ends at its own `{{/if}}`, past the block nested in it. Where `c1` holds it
/// becomes `x`, the nested block evaluated, and `z`; where it does not, nothing; the
/// evaluation goes on after it. Here both conditions have no `}}` and do not end in `}`,
/// the nested one has no `{` either, `x`, `y` and `z` hold no `{{#if `, `{{else}}` or
/// `{{/if}}`, and `x` does not begin and `z` does not end with whitespace, which the
/// branch would lose to trimming.
#[verifier::rlimit(40)]
pub proof fn law_nested_if_block(
    pre: Seq<char>,
    c1: Seq<char>,
    x: Seq<char>,
    c2: Seq<char>,
    y: Seq<char>,
    z: Seq<char>,
    post: Seq<char>,
    values: Map<Seq<char>, Seq<char>>,
)
    requires
        !contains(pre, "{{#if "@),
        !contains(c1, "}}"@),
        !(c1.len() > 0 && c1.last() == '}'),
        !contains(c2, "{"@),
        !contains(c2, "}}"@),
        !(c2.len() > 0 && c2.last() == '}'),
        !contains(x, "{{#if "@),
        !contains(x, "{{else}}"@),
        !contains(x, "{{/if}}"@),
        !contains(y, "{{#if "@),
        !contains(y, "{{else}}"@),
        !contains(y, "{{/if}}"@),
        !contains(z, "{{#if "@),
        !contains(z, "{{else}}"@),
        !contains(z, "{{/if}}"@),
        x.len() > 0,
        !is_whitespace(x[0]),
        z.len() > 0,
        !is_whitespace(z.last()),
    ensures
        ifs_evaluated(
            pre + "{{#if "@ + c1 + "}}"@ + x + "{{#if "@ + c2 + "}}"@ + y + "{{/if}}"@ + z
                + "{{/if}}"@ + post,
            values,
        ) == pre + (if condition_holds(trim(c1), values) {
            x + (if condition_holds(trim(c2), values) {
                trim(y)
            } else {
                Seq::empty()
            }) + z
        } else {
            Seq::empty()
        }) + ifs_evaluated(post, values),
{
    reveal_strlit("{{#if ");
    reveal_strlit("}}");
    reveal_strlit("{{/if}}");
    let open = "{{#if "@;
    let close = "}}"@;
    let endif = "{{/if}}"@;
    assert(is_brace_tag(open));
    let block = open + c2 + close + y + endif;
    let a = x + block + z;
    let rest = a + endif + post;
    let tail = c1 + close + rest;
    let s = pre + open + c1 + close + x + open + c2 + close + y + endif + z + endif + post;
    assert(s =~= pre + open + tail);
    lemma_brace_tag_after(pre, open, tail);
    let after_tag = s.skip(pre.len() as int + 6);
    assert(after_tag =~= tail);
    lemma_close_after(c1, rest);
    let c = c1.len() as int;
    assert(after_tag.take(c) =~= c1);
    assert(after_tag.skip(c + 2) =~= rest);
    let la = a.len() as int;
    lemma_nested_if_ends(x, c2, y, z, post);
    assert(rest =~= x + block + z + endif + post);
    assert(find_outside(rest, open, endif, endif) == Some(la));
    assert(rest.take(la) =~= a);
    lemma_nested_branch(x, c2, y, z, values);
    lemma_find_some(Seq::<char>::empty(), open);
    assert(ifs_evaluated(Seq::<char>::empty(), values) == Seq::<char>::empty());
    assert(rest.skip(la + 7) =~= post);
    assert(s.take(pre.len() as int) =~= pre);
    assert(find(s, open) == Some(pre.len() as int));
    assert(find(after_tag, close) == Some(c));
}

/// Scanning for `target` runs over a whole `{{#each e}}y{{/each}}` block, whose tag
/// expression has no `{` and whose body has no loop tag, as over one step that leaves no
/// block open.
proof fn lemma_scan_inner_each(
    p: Seq<char>,
    e: Seq<char>,
    y: Seq<char>,
    q: Seq<char>,
    target: Seq<char>,
)
    requires
        !contains(e, "{"@),
        !contains(y, "{{#each "@),
        !contains(y, "{{/each}}"@),
        !contains(y, target),
        is_brace_tag(target),
        target[2] != '#',
    ensures
        scan_for(
            p + ("{{#each "@ + e + "}}"@ + y + "{{/each}}"@) + q,
            p.len() as int,
            0,
            "{{#each "@,
            "{{/each}}"@,
            target,
        ) == scan_for(
            p + ("{{#each "@ + e + "}}"@ + y + "{{/each}}"@) + q,
            (p.len() + 8 + e.len() + 2 + y.len() + 9) as int,
            0,
            "{{#each "@,
            "{{/each}}"@,
            target,
        ),
{
    reveal_strlit("{");
    reveal_strlit("{{#each ");
    reveal_strlit("}}");
    reveal_strlit("{{/each}}");
    let open = "{{#each "@;
    let close = "}}"@;
    let end_tag = "{{/each}}"@;
    assert(is_brace_tag(open));
    assert(is_brace_tag(end_tag));
    let s = p + (open + e + close + y + end_tag) + q;
    let i0 = p.len() as int;
    let j0 = i0 + 8 + e.len() + 2;
    let k0 = j0 + y.len();
    assert(s =~= p + open + (e + close + y + end_tag + q));
    lemma_no_tag_in_tag(p, open, e + close + y + end_tag + q, target);
    assert(s.subrange(i0, i0 + 8) =~= open);
    assert(scan_for(s, i0, 0, open, end_tag, target) == scan_for(
        s,
        i0 + 8,
        1,
        open,
        end_tag,
        target,
    ));
    assert forall|k: int| i0 + 8 <= k < j0 implies s[k] != '{' by {
        if k < i0 + 8 + e.len() {
            assert(s[k] == e[k - i0 - 8]);
            if e[k - i0 - 8] == '{' {
                assert(e.subrange(k - i0 - 8, k - i0 - 7) =~= "{"@);
                assert(matches_at(e, "{"@, k - i0 - 8));
            }
        } else {
            assert(s[k] == close[k - i0 - 8 - e.len()]);
        }
    }
    assert forall|k: int| i0 + 8 <= k < j0 implies !#[trigger] matches_at(s, open, k)
        && !matches_at(s, end_tag, k) && !matches_at(s, target, k) by {
        lemma_no_tag_without_brace(s, open, k);
        lemma_no_tag_without_brace(s, end_tag, k);
        lemma_no_tag_without_brace(s, target, k);
    }
    assert(s =~= (p + open + e + close) + (y + (end_tag + q)));
    lemma_no_tag_in_middle(p + open + e + close, y, end_tag + q, open);
    lemma_no_tag_in_middle(p + open + e + close, y, end_tag + q, end_tag);
    lemma_no_tag_in_middle(p + open + e + close, y, end_tag + q, target);
    assert forall|k: int| i0 + 8 <= k < k0 implies !#[trigger] matches_at(s, open, k)
        && !matches_at(s, end_tag, k) && !matches_at(s, target, k) by {
        if k < j0 {
        } else {
        }
    }
    lemma_scan_skip(s, i0 + 8, k0, 1, open, end_tag, target);
    assert(s =~= (p + open + e + close + y) + end_tag + q);
    lemma_no_tag_in_tag(p + open + e + close + y, end_tag, q, open);
    assert(s.subrange(k0, k0 + 9) =~= end_tag);
    assert(scan_for(s, k0, 1, open, end_tag, target) == scan_for(
        s,
        k0 + 9,
        0,
        open,
        end_tag,
        target,
    ));
}

/// Where the `{{#each}}` block that `x{{#each e}}y{{/each}}z{{/each}}` ends, past the
/// block nested in it.
proof fn lemma_nested_each_ends(
    x: Seq<char>,
    e: Seq<char>,
    y: Seq<char>,
    z: Seq<char>,
    post: Seq<char>,
)
    requires
        !contains(e, "{"@),
        !contains(x, "{{#each "@),
        !contains(x, "{{/each}}"@),
        !contains(y, "{{#each "@),
        !contains(y, "{{/each}}"@),
        !contains(z, "{{#each "@),
        !contains(z, "{{/each}}"@),
    ensures
        find_outside(
            x + ("{{#each "@ + e + "}}"@ + y + "{{/each}}"@) + z + "{{/each}}"@ + post,
            "{{#each "@,
            "{{/each}}"@,
            "{{/each}}"@,
        ) == Some((x.len() + 8 + e.len() + 2 + y.len() + 9 + z.len()) as int),
{
    reveal_strlit("{{#each ");
    reveal_strlit("}}");
    reveal_strlit("{{/each}}");
    let open = "{{#each "@;
    let close = "}}"@;
    let end_tag = "{{/each}}"@;
    assert(is_brace_tag(open));
    assert(is_brace_tag(end_tag));
    let block = open + e + close + y + end_tag;
    let lx = x.len() as int;
    let lb = block.len() as int;
    let la = lx + lb + z.len();
    let s = x + block + z + end_tag + post;
    assert(s =~= x + (block + z + end_tag + post));
    lemma_no_tag_in_prefix(x, block + z + end_tag + post, open);
    lemma_no_tag_in_prefix(x, block + z + end_tag + post, end_tag);
    lemma_scan_skip(s, 0, lx, 0, open, end_tag, end_tag);
    assert(s =~= x + block + (z + end_tag + post));
    lemma_scan_inner_each(x, e, y, z + end_tag + post, end_tag);
    assert(s =~= (x + block) + (z + (end_tag + post)));
    lemma_no_tag_in_middle(x + block, z, end_tag + post, open);
    lemma_no_tag_in_middle(x + block, z, end_tag + post, end_tag);
    lemma_scan_skip(s, lx + lb, la, 0, open, end_tag, end_tag);
    assert(s.subrange(la, la + 9) =~= end_tag);
}

/// What the body `x{{#each e}}y{{/each}}z` of an outer loop evaluates to.
proof fn lemma_nested_each_body(
    x: Seq<char>,
    e: Seq<char>,
    y: Seq<char>,
    z: Seq<char>,
    values: Map<Seq<char>, Seq<char>>,
)
    requires
        !contains(e, "}}"@),
        !(e.len() > 0 && e.last() == '}'),
        !contains(x, "{{#each "@),
        !contains(y, "{{#each "@),
        !contains(y, "{{/each}}"@),
        !contains(z, "{{#each "@),
    ensures
        eachs_evaluated(x + ("{{#each "@ + e + "}}"@ + y + "{{/each}}"@) + z, values) == x
            + loop_expansion(e, y, values) + z,
{
    law_each_block(x, e, y, z, values);
    assert(x + ("{{#each "@ + e + "}}"@ + y + "{{/each}}"@) + z =~= x + "{{#each "@ + e + "}}"@
        + y + "{{/each}}"@ + z);
    lemma_find_some(z, "{{#each "@);
}

/// Loop blocks nest: an `{{#each e1}}x{{#each e2}}y{{/each}}z{{/each}}` block, after text
/// without `{{#each `, ends at its own `{{/each}}`, past the block nested in it, and
/// expands to the loop of `e1` over `x`, the nested loop's expansion, and `z`; the
/// evaluation goes on after it. Here both tag expressions have no `}}` and do not end in
/// `}`, the nested one has no `{` either, and `x`, `y` and `z` hold no `{{#each ` or
/// `{{/each}}`.
#[verifier::rlimit(40)]
pub proof fn law_nested_each_block(
    pre: Seq<char>,
    e1: Seq<char>,
    x: Seq<char>,
    e2: Seq<char>,
    y: Seq<char>,
    z: Seq<char>,
    post: Seq<char>,
    values: Map<Seq<char>, Seq<char>>,
)
    requires
        !contains(pre, "{{#each "@),
        !contains(e1, "}}"@),
        !(e1.len() > 0 && e1.last() == '}'),
        !contains(e2, "{"@),
        !contains(e2, "}}"@),
        !(e2.len() > 0 && e2.last() == '}'),
        !contains(x, "{{#each "@),
        !contains(x, "{{/each}}"@),
        !contains(y, "{{#each "@),
        !contains(y, "{{/each}}"@),
        !contains(z, "{{#each "@),
        !contains(z, "{{/each}}"@),
    ensures
        eachs_evaluated(
            pre + "{{#each "@ + e1 + "}}"@ + x + "{{#each "@ + e2 + "}}"@ + y + "{{/each}}"@ + z
                + "{{/each}}"@ + post,
            values,
        ) == pre + loop_expansion(e1, x + loop_expansion(e2, y, values) + z, values)
            + eachs_evaluated(post, values),
{
    reveal_strlit("{{#each ");
    reveal_strlit("}}");
    reveal_strlit("{{/each}}");
    let open = "{{#each "@;
    let close = "}}"@;
    let end_tag = "{{/each}}"@;
    assert(is_brace_tag(open));
    let block = open + e2 + close + y + end_tag;
    let a = x + block + z;
    let rest = a + end_tag + post;
    let tail = e1 + close + rest;
    let s = pre + open + e1 + close + x + open + e2 + close + y + end_tag + z + end_tag + post;
    assert(s =~= pre + open + tail);
    lemma_brace_tag_after(pre, open, tail);
    let after_tag = s.skip(pre.len() as int + 8);
    assert(after_tag =~= tail);
    lemma_close_after(e1, rest);
    let t = e1.len() as int;
    assert(after_tag.take(t) =~= e1);
    assert(after_tag.skip(t + 2) =~= rest);
    let la = a.len() as int;
    lemma_nested_each_ends(x, e2, y, z, post);
    assert(rest =~= x + block + z + end_tag + post);
    assert(find_outside(rest, open, end_tag, end_tag) == Some(la));
    assert(rest.take(la) =~= a);
    lemma_nested_each_body(x, e2, y, z, values);
    assert(rest.skip(la + 9) =~= post);
    assert(s.take(pre.len() as int) =~= pre);
    assert(find(s, open) == Some(pre.len() as int));
    assert(find(after_tag, close) == Some(t));
}

/// An `{{#if ` tag, after text without `{{#if `, that is never closed by `}}` is left as
/// literal text, with everything after it.
pub proof fn law_unclosed_if_tag_kept(pre: Seq<char>, rest: Seq<char>, values: Map<Seq<char>, Seq<char>>)
    requires
        !contains(pre, "{{#if "@),
        !contains(rest, "}}"@),
    ensures
        ifs_evaluated(pre + "{{#if "@ + rest, values) == pre + "{{#if "@ + rest,
{
    reveal_strlit("{{#if ");
    let s = pre + "{{#if "@ + rest;
    assert(is_brace_tag("{{#if "@));
    lemma_brace_tag_after(pre, "{{#if "@, rest);
    assert(s.skip(pre.len() as int + 6) =~= rest);
    lemma_find_some(rest, "}}"@);
}

/// An `{{#each ` tag, after text without `{{#each `, that is never closed by `}}` is left
/// as literal text, with everything after it.
pub proof fn law_unclosed_each_tag_kept(
    pre: Seq<char>,
    rest: Seq<char>,
    values: Map<Seq<char>, Seq<char>>,
)
    requires
        !contains(pre, "{{#each "@),
        !contains(rest, "}}"@),
    ensures
        eachs_evaluated(pre + "{{#each "@ + rest, values) == pre + "{{#each "@ + rest,
{
    reveal_strlit("{{#each ");
    let s = pre + "{{#each "@ + rest;
    assert(is_brace_tag("{{#each "@));
    lemma_brace_tag_after(pre, "{{#each "@, rest);
    assert(s.skip(pre.len() as int + 8) =~= rest);
    lemma_find_some(rest, "}}"@);
}

/// A condition without `==` and `>` is a variable name, which holds where the variable
/// has a non-empty value.
pub proof fn law_bare_condition_truthiness(cond: Seq<char>, values: Map<Seq<char>, Seq<char>>)
    requires
        !contains(trim(cond), "=="@),
        !contains(trim(cond), ">"@),
    ensures
        condition_holds(cond, values) == (value_or_empty(values, trim(cond)).len() > 0),
{
    lemma_find_some(trim(cond), "=="@);
    lemma_find_some(trim(cond), ">"@);
}

/// The `{{#if}}` pass never makes a text longer: a block gives at most its own inside.
pub proof fn law_ifs_never_lengthen(s: Seq<char>, values: Map<Seq<char>, Seq<char>>)
    ensures
        ifs_evaluated(s, values).len() <= s.len(),
    decreases s.len(),
{
    match find(s, "{{#if "@) {
        None => {},
        Some(start) => {
            if 0 <= start && start + 6 <= s.len() {
                let after_tag = s.skip(start + 6);
                match find(after_tag, "}}"@) {
                    None => {},
                    Some(ce) => {
                        if 0 <= ce && ce + 2 <= after_tag.len() {
                            let cond = trim(after_tag.take(ce));
                            let rest = after_tag.skip(ce + 2);
                            match find_outside(rest, "{{#if "@, "{{/if}}"@, "{{/if}}"@) {
                                None => {},
                                Some(ep) => {
                                    if 0 <= ep && ep + 7 <= rest.len() {
                                        let inner = rest.take(ep);
                                        lemma_branches_len(inner);
                                        let chosen = if condition_holds(cond, values) {
                                            if_branch(inner)
                                        } else {
                                            else_branch(inner)
                                        };
                                        law_ifs_never_lengthen(chosen, values);
                                        law_ifs_never_lengthen(rest.skip(ep + 7), values);
                                    }
                                },
                            }
                        }
                    },
                }
            }
        },
    }
}

/// The characters of `v + ".length > " + d`, for a variable name `v` without `=` and `>`
/// and a decimal numeral `d`: none is `=`, and the only `>` is the one after `.length `.
proof fn lemma_length_condition_chars(v: Seq<char>, d: Seq<char>)
    requires
        forall|i: int| 0 <= i < v.len() ==> v[i] != '=' && v[i] != '>',
        all_digits(d),
    ensures
        forall|i: int|
            0 <= i < (v + ".length > "@ + d).len() ==> #[trigger] (v + ".length > "@ + d)[i] != '='
                && (i != v.len() + 8 ==> (v + ".length > "@ + d)[i] != '>'),
{
    reveal_strlit(".length > ");
    let c = v + ".length > "@ + d;
    assert forall|i: int| 0 <= i < c.len() implies #[trigger] c[i] != '=' && (i != v.len() + 8
        ==> c[i] != '>') by {
        if i < v.len() {
            assert(c[i] == v[i]);
        } else if i < v.len() + 10 {
            assert(c[i] == ".length > "@[i - v.len()]);
        } else {
            assert(c[i] == d[i - v.len() - 10]);
            assert(is_digit(d[i - v.len() - 10]));
        }
    }
}

/// A `name.length > n` condition, for a variable name that does not begin with
/// whitespace, has no `=` or `>` and does not itself end in `.length`, holds where the
/// value of `name` has more than `n` comma-separated items (none where it is empty or
/// missing).
pub proof fn law_length_condition(v: Seq<char>, n: usize, values: Map<Seq<char>, Seq<char>>)
    requires
        v.len() > 0,
        !is_whitespace(v[0]),
        forall|i: int| 0 <= i < v.len() ==> v[i] != '=' && v[i] != '>',
        !ends_with(v, ".length"@),
    ensures
        condition_holds(v + ".length > "@ + decimal(n as nat), values) == (item_count(
            value_or_empty(values, v),
        ) > n),
{
    reveal_strlit(".length > ");
    reveal_strlit(".length ");
    reveal_strlit(".length");
    reveal_strlit("==");
    reveal_strlit(">");
    let d = decimal(n as nat);
    lemma_decimal_digits(n as nat);
    law_decimal_parse_roundtrip(n);
    let c = v + ".length > "@ + d;
    let lv = v.len() as int;
    lemma_length_condition_chars(v, d);
    assert(c[0] == v[0]);
    assert(trim_start(c) == c);
    assert(c.last() == d.last());
    assert(is_digit(d[d.len() - 1]));
    assert(trim_end(c) == c);
    assert(trim(c) == c);
    assert forall|k: int| !matches_at(c, "=="@, k) by {
        if matches_at(c, "=="@, k) {
            assert(c.subrange(k, k + 2)[0] == c[k]);
        }
    }
    lemma_find_some(c, "=="@);
    assert forall|k: int| 0 <= k < lv + 8 implies !matches_at(c, ">"@, k) by {
        if matches_at(c, ">"@, k) {
            assert(c.subrange(k, k + 1)[0] == c[k]);
        }
    }
    assert(c[lv + 8] == '>');
    assert(c.subrange(lv + 8, lv + 9) =~= ">"@);
    lemma_find_first(c, ">"@, lv + 8);
    let before = c.take(lv + 8);
    let after = c.skip(lv + 9);
    assert(before =~= v + ".length "@);
    assert(after =~= seq![' '] + d);
    let left = v + ".length"@;
    assert(before.drop_last() =~= left);
    assert(before[0] == v[0]);
    assert(trim_start(before) == before);
    assert(left.last() == 'h');
    assert(trim_end(left) == left);
    assert(trim_end(before) == left);
    assert(left[0] == v[0]);
    assert(trim_start(left) == left);
    assert(trim(before) == left);
    assert(after.drop_first() =~= d);
    assert(is_digit(d[0]));
    assert(trim_start(d) == d);
    assert(trim_start(after) == d);
    assert(trim_end(d) == d);
    assert(trim(after) == d);
    assert(left.skip(left.len() - 7) =~= ".length"@);
    assert(left.take(left.len() - 7) =~= v);
    assert(ends_with(left, ".length"@));
    assert(trim_end_pat(v, ".length"@) == v);
    assert(trim_end_pat(left, ".length"@) == trim_end_pat(v, ".length"@));
}

proof fn lemma_contains_trans(x: Seq<char>, b: Seq<char>, a: Seq<char>)
    requires
        contains(x, b),
        contains(b, a),
    ensures
        contains(x, a),
{
    let i = choose|i: int| matches_at(x, b, i);
    let j = choose|j: int| matches_at(b, a, j);
    assert(x.subrange(i + j, i + j + a.len()) =~= b.subrange(j, j + a.len()));
    assert(matches_at(x, a, i + j));
}

proof fn lemma_matches_narrower(t: TemplateModel, a: Seq<char>, b: Seq<char>)
    requires
        contains(b, a),
        template_matches(t, b),
    ensures
        template_matches(t, a),
{
    if contains(crate::store::lowercased(t.title), b) {
        lemma_contains_trans(crate::store::lowercased(t.title), b, a);
    } else if contains(crate::store::lowercased(t.description), b) {
        lemma_contains_trans(crate::store::lowercased(t.description), b, a);
    } else {
        let i = choose|i: int|
            0 <= i < t.tags.len() && contains(crate::store::lowercased(#[trigger] t.tags[i]), b);
        lemma_contains_trans(crate::store::lowercased(t.tags[i]), b, a);
    }
}

proof fn lemma_matching_narrow(ts: Seq<TemplateModel>, a: Seq<char>, b: Seq<char>)
    requires
        contains(b, a),
    ensures
        matching(matching(ts, a), b) == matching(ts, b),
    decreases ts.len(),
{
    if ts.len() > 0 {
        lemma_matching_narrow(ts.drop_last(), a, b);
        let m = matching(ts.drop_last(), a);
        let x = ts.last();
        if template_matches(x, a) {
            lemma_matching_append(m, seq![x], b);
            lemma_matching_single(x, b);
        } else {
            if template_matches(x, b) {
                lemma_matches_narrower(x, a, b);
            }
            assert(matching(ts, a) =~= m);
        }
    }
}

/// A search for a longer query finds no more than one for a shorter query that it
/// contains: where the lower-case form of the query `q2` contains that of `q1` (or `q1` is
/// empty), searching for `q2` gives the results of the search for `q1`, narrowed to those
/// that match `q2`, in the same order.
pub proof fn law_longer_query_narrows(ts: Seq<TemplateModel>, q1: Seq<char>, q2: Seq<char>)
    requires
        q2.len() > 0,
        q1.len() > 0 ==> contains(crate::store::lowercased(q2), crate::store::lowercased(q1)),
    ensures
        search_result(ts, q2) == matching(search_result(ts, q1), crate::store::lowercased(q2)),
{
    if q1.len() > 0 {
        lemma_matching_narrow(ts, crate::store::lowercased(q1), crate::store::lowercased(q2));
    }
}

/// The title of the template at `i` does not come after that of the next one.
pub open spec fn titles_ordered_at(ts: Seq<TemplateModel>, i: int) -> bool {
    chars_le(ts[i].title, ts[i + 1].title)
}

/// Every two neighbouring templates of `ts` are in title order.
pub open spec fn title_sorted(ts: Seq<TemplateModel>) -> bool {
    forall|i: int| 0 <= i < ts.len() - 1 ==> #[trigger] titles_ordered_at(ts, i)
}

proof fn lemma_chars_le_total(a: Seq<char>, b: Seq<char>)
    ensures
        chars_le(a, b) || chars_le(b, a),
    decreases a.len(),
{
    if a.len() > 0 && b.len() > 0 && a[0] == b[0] {
        lemma_chars_le_total(a.drop_first(), b.drop_first());
    }
}

proof fn lemma_insert_by_title(s: Seq<TemplateModel>, t: TemplateModel)
    requires
        title_sorted(s),
    ensures
        insert_by_title(s, t).to_multiset() == s.to_multiset().insert(t),
        title_sorted(insert_by_title(s, t)),
        insert_by_title(s, t).len() == s.len() + 1,
        insert_by_title(s, t).last() == t || (s.len() > 0 && insert_by_title(s, t).last()
            == s.last()),
    decreases s.len(),
{
    broadcast use vstd::seq_lib::to_multiset_build;
    broadcast use vstd::multiset::group_multiset_axioms;

    if s.len() == 0 {
        assert(seq![t] =~= Seq::<TemplateModel>::empty().push(t));
        vstd::seq_lib::to_multiset_len(Seq::<TemplateModel>::empty());
        vstd::multiset::lemma_multiset_empty_len(Seq::<TemplateModel>::empty().to_multiset());
        assert(Seq::<TemplateModel>::empty().to_multiset() =~= vstd::multiset::Multiset::empty());
        assert(s =~= Seq::<TemplateModel>::empty());
        assert(Seq::<TemplateModel>::empty().push(t).to_multiset() =~= Seq::<TemplateModel>::empty(
        ).to_multiset().insert(t));
        assert(title_sorted(seq![t]));
    } else if chars_le(s.last().title, t.title) {
        let r = s.push(t);
        assert(r.to_multiset() =~= s.to_multiset().insert(t));
        assert forall|i: int| 0 <= i < r.len() - 1 implies #[trigger] titles_ordered_at(r, i) by {
            if i < s.len() - 1 {
                assert(titles_ordered_at(s, i));
            }
        }
    } else {
        let d = s.drop_last();
        assert forall|i: int| 0 <= i < d.len() - 1 implies #[trigger] titles_ordered_at(d, i) by {
            assert(titles_ordered_at(s, i));
        }
        lemma_insert_by_title(d, t);
        let m = insert_by_title(d, t);
        assert(s =~= d.push(s.last()));
        lemma_chars_le_total(s.last().title, t.title);
        if m.last() != t {
            assert(titles_ordered_at(s, s.len() - 2));
        }
        let r = m.push(s.last());
        assert(r.to_multiset() =~= m.to_multiset().insert(s.last()));
        assert(d.push(s.last()).to_multiset() =~= d.to_multiset().insert(s.last()));
        assert(r.to_multiset() =~= s.to_multiset().insert(t));
        assert forall|i: int| 0 <= i < r.len() - 1 implies #[trigger] titles_ordered_at(r, i) by {
            if i < m.len() - 1 {
                assert(titles_ordered_at(m, i));
            }
        }
    }
}

/// The template index lists the templates of `sort_by_title` in title order, and the
/// same templates, each as often as it was given.
pub proof fn law_sorted_by_title(ts: Seq<TemplateModel>)
    ensures
        sorted_by_title(ts).to_multiset() == ts.to_multiset(),
        title_sorted(sorted_by_title(ts)),
    decreases ts.len(),
{
    broadcast use vstd::seq_lib::to_multiset_build;

    if ts.len() == 0 {
        assert(ts =~= Seq::<TemplateModel>::empty());
        assert(title_sorted(Seq::<TemplateModel>::empty()));
    } else {
        law_sorted_by_title(ts.drop_last());
        lemma_insert_by_title(sorted_by_title(ts.drop_last()), ts.last());
        assert(ts =~= ts.drop_last().push(ts.last()));
        assert(ts.drop_last().push(ts.last()).to_multiset() =~= ts.drop_last().to_multiset().insert(
            ts.last(),
        ));
    }
}

/// A source written as `---`, a header, `---` and a body splits into that header and the
/// trimmed body, for a header that has no `---` and does not end in `-`, and a body that
/// does not end in whitespace.
pub proof fn law_frontmatter_roundtrip(header: Seq<char>, body: Seq<char>)
    requires
        !contains(header, "---"@),
        !(header.len() > 0 && header.last() == '-'),
        !(body.len() > 0 && is_whitespace(body.last())),
    ensures
        frontmatter_split("---"@ + header + "---"@ + body) == Some((header, trim(body))),
{
    reveal_strlit("---");
    let dashes = "---"@;
    let src = dashes + header + dashes + body;
    assert(src[0] == '-');
    assert(trim_start(src) == src);
    if body.len() > 0 {
        assert(src.last() == body.last());
    } else {
        assert(src.last() == '-');
    }
    assert(trim_end(src) == src);
    assert(trim(src) == src);
    assert(src.take(3) =~= dashes);
    let rest = src.skip(3);
    assert(rest =~= header + dashes + body);
    assert forall|j: int|
        0 <= j < header.len() && header.len() < j + dashes.len() implies #[trigger] header.skip(j)
        + dashes.take(j + dashes.len() - header.len()) != dashes by {
        let w = header.skip(j) + dashes.take(j + dashes.len() - header.len());
        if w == dashes {
            assert(w[header.len() - 1 - j] == header.last());
        }
    }
    lemma_find_tag_after(header, dashes, body);
    let k = header.len() as int;
    assert(rest.take(k) =~= header);
    assert(rest.skip(k + 3) =~= body);
}

/// An equality condition `left == "text"`, for a variable name that does not begin with
/// whitespace and has no `=`, and a text that neither begins nor ends with `"`, holds
/// exactly when the value of the trimmed name (empty where it has none) is that text,
/// character for character: a value that only begins with the text, or is only part of
/// it, does not satisfy it.
pub proof fn law_equality_condition(
    left: Seq<char>,
    text: Seq<char>,
    values: Map<Seq<char>, Seq<char>>,
)
    requires
        left.len() > 0,
        !is_whitespace(left[0]),
        forall|i: int| 0 <= i < left.len() ==> left[i] != '=',
        !(text.len() > 0 && (text[0] == '"' || text.last() == '"')),
    ensures
        condition_holds(left + "==\""@ + text + "\""@, values) == (value_or_empty(
            values,
            trim(left),
        ) == text),
{
    reveal_strlit("==\"");
    reveal_strlit("\"");
    reveal_strlit("==");
    let c = left + "==\""@ + text + "\""@;
    let l = left.len() as int;
    assert(c[0] == left[0]);
    assert(trim_start(c) == c);
    assert(c.last() == '"');
    assert(trim_end(c) == c);
    assert(trim(c) == c);
    assert forall|k: int| 0 <= k < l implies !matches_at(c, "=="@, k) by {
        if matches_at(c, "=="@, k) {
            assert(c.subrange(k, k + 2)[0] == c[k]);
            assert(c[k] == left[k]);
        }
    }
    assert(c.subrange(l, l + 2) =~= "=="@);
    lemma_find_first(c, "=="@, l);
    let q = seq!['"'] + text + seq!['"'];
    assert(c.take(l) =~= left);
    assert(c.skip(l + 2) =~= q);
    assert(trim_start(q) == q);
    assert(q.last() == '"');
    assert(trim_end(q) == q);
    assert(trim(q) == q);
    let r = text + seq!['"'];
    assert(q.drop_first() =~= r);
    if text.len() == 0 {
        assert(r.drop_first() =~= text);
        assert(trim_start_char(text, '"') == text);
        assert(trim_start_char(r, '"') == text);
        assert(trim_end_char(text, '"') == text);
    } else {
        assert(r[0] == text[0]);
        assert(trim_start_char(r, '"') == r);
        assert(r.drop_last() =~= text);
        assert(trim_end_char(text, '"') == text);
        assert(trim_end_char(r, '"') == text);
    }
    assert(trim_start_char(q, '"') == trim_start_char(r, '"'));
    assert(trim_char(q, '"') == text);
}

proof fn lemma_push_contains(s: Seq<TemplateModel>, a: TemplateModel, t: TemplateModel)
    ensures
        s.push(a).contains(t) <==> (s.contains(t) || a == t),
{
    if s.contains(t) {
        let i = choose|i: int| 0 <= i < s.len() && s[i] == t;
        assert(s.push(a)[i] == t);
    }
    if a == t {
        assert(s.push(a)[s.len() as int] == t);
    }
    if s.push(a).contains(t) {
        let i = choose|i: int| 0 <= i < s.push(a).len() && s.push(a)[i] == t;
        if i < s.len() {
            assert(s[i] == t);
        }
    }
}

proof fn lemma_matching_contains(ts: Seq<TemplateModel>, q: Seq<char>, t: TemplateModel)
    ensures
        matching(ts, q).contains(t) <==> (ts.contains(t) && template_matches(t, q)),
    decreases ts.len(),
{
    if ts.len() == 0 {
        assert(!matching(ts, q).contains(t));
    } else {
        lemma_matching_contains(ts.drop_last(), q, t);
        let m = matching(ts.drop_last(), q);
        let x = ts.last();
        assert(ts =~= ts.drop_last().push(x));
        lemma_push_contains(ts.drop_last(), x, t);
        if template_matches(x, q) {
            assert(matching(ts, q) =~= m.push(x));
            lemma_push_contains(m, x, t);
        } else {
            assert(matching(ts, q) =~= m);
        }
    }
}

/// A search for a non-empty query finds exactly the given templates whose title, whose
/// description or one of whose tags, at any position, contains the query, both compared
/// in lower case.
pub proof fn law_search_finds_matching_templates(
    ts: Seq<TemplateModel>,
    query: Seq<char>,
    t: TemplateModel,
)
    requires
        query.len() > 0,
    ensures
        search_result(ts, query).contains(t) <==> (ts.contains(t) && (contains(
            crate::store::lowercased(t.title),
            crate::store::lowercased(query),
        ) || contains(crate::store::lowercased(t.description), crate::store::lowercased(query))
            || exists|j: int|
            0 <= j < t.tags.len() && contains(
                crate::store::lowercased(#[trigger] t.tags[j]),
                crate::store::lowercased(query),
            ))),
{
    lemma_matching_contains(ts, crate::store::lowercased(query), t);
}

/// Every section type is named by its lower-case name, as its badge shows it, so a
/// `type: <name>` property line gives a section that type.
pub proof fn law_section_type_names(t: SectionType)
    ensures
        section_type_named(section_type_name_of(t)) == Some(t),
{
    reveal_strlit("component");
    reveal_strlit("layout");
    reveal_strlit("logic");
    reveal_strlit("data");
    reveal_strlit("style");
    match t {
        SectionType::Component => {},
        SectionType::Layout => {
            assert("layout"@ != "component"@) by {
                assert("layout"@.len() != "component"@.len());
            }
        },
        SectionType::Logic => {
            assert("logic"@.len() != "component"@.len());
            assert("logic"@.len() != "layout"@.len());
        },
        SectionType::Data => {
            assert("data"@.len() != "component"@.len());
            assert("data"@.len() != "layout"@.len());
            assert("data"@.len() != "logic"@.len());
        },
        SectionType::Style => {
            assert("style"@.len() != "component"@.len());
            assert("style"@.len() != "layout"@.len());
            assert("style"@[0] != "logic"@[0]);
            assert("style"@.len() != "data"@.len());
        },
    }
}

/// The five names of section types are `component`, `layout`, `logic`, `data` and
/// `style`, and each names a different type.
pub proof fn law_section_type_name_list(t: SectionType)
    ensures
        section_type_name_of(t) == "component"@ || section_type_name_of(t) == "layout"@
            || section_type_name_of(t) == "logic"@ || section_type_name_of(t) == "data"@
            || section_type_name_of(t) == "style"@,
        forall|u: SectionType| section_type_name_of(u) == section_type_name_of(t) ==> u == t,
{
    reveal_strlit("component");
    reveal_strlit("layout");
    reveal_strlit("logic");
    reveal_strlit("data");
    reveal_strlit("style");
    assert forall|u: SectionType| section_type_name_of(u) == section_type_name_of(t) implies u
        == t by {
        let a = section_type_name_of(u);
        let b = section_type_name_of(t);
        assert(a.len() == b.len());
        if a.len() > 0 {
            assert(a[0] == b[0]);
        }
    }
}

proof fn lemma_style_state_same(a: Seq<Seq<char>>, b: Seq<Seq<char>>, from: int, to: int)
    requires
        forall|i: int| from <= i < to ==> a[i] == b[i],
    ensures
        style_state(a, from, to) == style_state(b, from, to),
    decreases to - from,
{
    if to > from {
        lemma_style_state_same(a, b, from, to - 1);
        assert(a[to - 1] == b[to - 1]);
    }
}

/// A line of a styling specification that is neither a `### Colors`, `### Typography` or
/// `### Effects` heading nor a `- key: value` line, such as a blank line, changes nothing:
/// inserting it anywhere among the lines `from..to` leaves the subsection that the
/// following property lines go into, and the colors, typography and effects, as they are.
pub proof fn law_style_ignores_other_lines(
    ls: Seq<Seq<char>>,
    x: Seq<char>,
    k: int,
    from: int,
    to: int,
)
    requires
        0 <= from <= k <= to <= ls.len(),
        !starts_with(x, "### Colors"@),
        !starts_with(x, "### Typography"@),
        !starts_with(x, "### Effects"@),
        !starts_with(x, "- "@),
    ensures
        style_state(ls.take(k).push(x) + ls.skip(k), from, to + 1) == style_state(ls, from, to),
    decreases to - k,
{
    let ins = ls.take(k).push(x) + ls.skip(k);
    if to == k {
        assert(ins[k] == x);
        assert forall|i: int| from <= i < k implies ins[i] == ls[i] by {
            assert(ins[i] == ls.take(k)[i]);
        }
        lemma_style_state_same(ins, ls, from, k);
    } else {
        law_style_ignores_other_lines(ls, x, k, from, to - 1);
        assert(ins[to] == ls[to - 1]);
    }
}

/// Whether a field is required depends on every one of its filters: it is required
/// exactly where some filter, at any position, is `required`; a list of filters is
/// required where either of its parts is.
pub proof fn law_required_anywhere(fs: Seq<FilterModel>, gs: Seq<FilterModel>)
    ensures
        has_required(fs) <==> exists|i: int| 0 <= i < fs.len() && fs[i] == FilterModel::Required,
        has_required(fs + gs) <==> (has_required(fs) || has_required(gs)),
        has_required(fs.push(FilterModel::Required)),
{
    let h = fs + gs;
    if has_required(fs) {
        let i = choose|i: int| 0 <= i < fs.len() && fs[i] is Required;
        assert(h[i] == fs[i]);
    }
    if has_required(gs) {
        let i = choose|i: int| 0 <= i < gs.len() && gs[i] is Required;
        assert(h[fs.len() + i] == gs[i]);
    }
    if has_required(h) {
        let i = choose|i: int| 0 <= i < h.len() && h[i] is Required;
        if i < fs.len() {
            assert(fs[i] == h[i]);
        } else {
            assert(gs[i - fs.len()] == h[i]);
        }
    }
    assert(fs.push(FilterModel::Required)[fs.len() as int] is Required);
}

} // verus!
