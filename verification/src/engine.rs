//! Conditional and loop blocks: `{{#if}}`/`{{else}}`/`{{/if}}` and
//! `{{#each collection as item}}`/`{{/each}}`.

use vstd::prelude::*;
use crate::text::{
    append_chars, chars_of, ends_with, ends_with_exec, find, find_chars, find_outside,
    find_outside_exec, lemma_find_some, lemma_scan_for_found, lemma_trim_len, parse_usize,
    parse_usize_exec, replace_all, replace_all_exec, slice_chars, split, split_exec, split_once,
    split_once_exec, string_of, trim, trim_char, trim_char_exec, trim_end_pat, trim_end_pat_exec,
    trim_exec, views,
};
use crate::values::{value_or_empty, Values};

verus! {

/// The part of `s` before the first `sep`.
pub open spec fn before(s: Seq<char>, sep: Seq<char>) -> Seq<char> {
    match split_once(s, sep) {
        Some(parts) => parts.0,
        None => s,
    }
}

/// The part of `s` after the first `sep`.
pub open spec fn after(s: Seq<char>, sep: Seq<char>) -> Seq<char> {
    match split_once(s, sep) {
        Some(parts) => parts.1,
        None => Seq::empty(),
    }
}

/// The number of comma-separated items of a value: none where the value is empty.
pub open spec fn item_count(value: Seq<char>) -> int {
    if value.len() == 0 {
        0
    } else {
        split(value, ","@).len() as int
    }
}

/// Whether the condition of an `{{#if ...}}` block holds.
/// `left == "text"` compares the value of `left` (empty where it has none) with `text`.
/// `left > n`, for a decimal number `n`, compares with `n` the number of comma-separated
/// items of `name` where `left` is `name.length`, and otherwise the value of `left` read as
/// a decimal number, which fails where that value is not one.
/// Anything else is a variable name, which holds where its value is not empty.
pub open spec fn condition_holds(condition: Seq<char>, values: Map<Seq<char>, Seq<char>>) -> bool {
    let c = trim(condition);
    if split_once(c, "=="@) is Some {
        let parts = split_once(c, "=="@)->0;
        value_or_empty(values, trim(parts.0)) == trim_char(trim(parts.1), '"')
    } else if split_once(c, ">"@) is Some && parse_usize(trim(after(c, ">"@))) is Some {
        let left = trim(before(c, ">"@));
        let n = parse_usize(trim(after(c, ">"@)))->0;
        if ends_with(left, ".length"@) {
            item_count(value_or_empty(values, trim_end_pat(left, ".length"@))) > n
        } else {
            match parse_usize(trim(value_or_empty(values, left))) {
                Some(v) => v > n,
                None => false,
            }
        }
    } else {
        value_or_empty(values, c).len() > 0
    }
}

/// Whether the condition of an `{{#if ...}}` block holds.
pub fn evaluate_condition(condition: &Vec<char>, values: &Values) -> (r: bool)
    ensures
        r == condition_holds(condition@, values@),
{
    let c = trim_exec(condition);
    let eq = chars_of("==");
    if let Some((left, right)) = split_once_exec(&c, &eq) {
        let l = trim_exec(&left);
        let r0 = trim_exec(&right);
        let r = trim_char_exec(&r0, '"');
        let val = values.value_or_empty(&l);
        return crate::text::chars_eq(&val, &r);
    }
    let gt = chars_of(">");
    if let Some((left, right)) = split_once_exec(&c, &gt) {
        let l = trim_exec(&left);
        let r = trim_exec(&right);
        if let Some(n) = parse_usize_exec(&r) {
            let suffix = chars_of(".length");
            if ends_with_exec(&l, &suffix) {
                let name = trim_end_pat_exec(&l, &suffix);
                let val = values.value_or_empty(&name);
                let count: usize = if val.len() == 0 {
                    0
                } else {
                    let comma = chars_of(",");
                    proof {
                        reveal_strlit(",");
                    }
                    split_exec(&val, &comma).len()
                };
                return count > n;
            }
            let val = values.value_or_empty(&l);
            let number = trim_exec(&val);
            return match parse_usize_exec(&number) {
                Some(v) => v > n,
                None => false,
            };
        }
    }
    let val = values.value_or_empty(&c);
    val.len() > 0
}

/// The position of the `{{else}}` that belongs to an `{{#if}}` block whose inside is
/// `inner`: the first one outside the `{{#if}}` blocks nested in it.
pub open spec fn else_position(inner: Seq<char>) -> Option<int> {
    find_outside(inner, "{{#if "@, "{{/if}}"@, "{{else}}"@)
}

/// The text of an `{{#if}}` block shown where its condition holds: the part before its
/// own `{{else}}` (the whole block where there is none), trimmed.
pub open spec fn if_branch(inner: Seq<char>) -> Seq<char> {
    match else_position(inner) {
        Some(e) => trim(inner.take(e)),
        None => trim(inner),
    }
}

/// The text of an `{{#if}}` block shown where its condition does not hold: the part after
/// its own `{{else}}`, trimmed, or nothing where there is none.
pub open spec fn else_branch(inner: Seq<char>) -> Seq<char> {
    match else_position(inner) {
        Some(e) => trim(inner.skip(e + 8)),
        None => Seq::empty(),
    }
}

/// Neither branch of an `{{#if}}` block is longer than its inside.
pub proof fn lemma_branches_len(inner: Seq<char>)
    ensures
        if_branch(inner).len() <= inner.len(),
        else_branch(inner).len() <= inner.len(),
{
    reveal_strlit("{{else}}");
    lemma_scan_for_found(inner, 0, 0, "{{#if "@, "{{/if}}"@, "{{else}}"@);
    match else_position(inner) {
        Some(e) => {
            lemma_trim_len(inner.take(e));
            lemma_trim_len(inner.skip(e + 8));
        },
        None => {
            lemma_trim_len(inner);
        },
    }
}

/// `s` with its `{{#if cond}}...{{/if}}` blocks, from left to right, replaced by the branch
/// that the condition selects, in which the nested blocks are evaluated in turn. A block
/// ends at the `{{/if}}` that matches its own tag, past the blocks nested in it. A block
/// tag without its `}}` or its `{{/if}}` ends the evaluation, and the rest of the text is
/// kept as it is.
pub open spec fn ifs_evaluated(s: Seq<char>, values: Map<Seq<char>, Seq<char>>) -> Seq<char>
    decreases s.len(),
{
    match find(s, "{{#if "@) {
        None => s,
        Some(start) => {
            if 0 <= start && start + 6 <= s.len() {
                let after_tag = s.skip(start + 6);
                match find(after_tag, "}}"@) {
                    None => s,
                    Some(ce) => {
                        if 0 <= ce && ce + 2 <= after_tag.len() {
                            let cond = trim(after_tag.take(ce));
                            let rest = after_tag.skip(ce + 2);
                            match find_outside(rest, "{{#if "@, "{{/if}}"@, "{{/if}}"@) {
                                None => s,
                                Some(ep) => {
                                    if 0 <= ep && ep + 7 <= rest.len() {
                                        let inner = rest.take(ep);
                                        let chosen = if condition_holds(cond, values) {
                                            if_branch(inner)
                                        } else {
                                            else_branch(inner)
                                        };
                                        proof {
                                            lemma_branches_len(inner);
                                        }
                                        s.take(start) + ifs_evaluated(chosen, values)
                                            + ifs_evaluated(rest.skip(ep + 7), values)
                                    } else {
                                        s
                                    }
                                },
                            }
                        } else {
                            s
                        }
                    },
                }
            } else {
                s
            }
        },
    }
}

/// The two branches of the inside of an `{{#if}}` block.
fn branches(inner: &Vec<char>) -> (r: (Vec<char>, Vec<char>))
    ensures
        r.0@ == if_branch(inner@),
        r.1@ == else_branch(inner@),
{
    let open = chars_of("{{#if ");
    let endif = chars_of("{{/if}}");
    let else_tag = chars_of("{{else}}");
    proof {
        reveal_strlit("{{#if ");
        reveal_strlit("{{/if}}");
        reveal_strlit("{{else}}");
        lemma_scan_for_found(inner@, 0, 0, open@, endif@, else_tag@);
    }
    let n = inner.len();
    match find_outside_exec(inner, &open, &endif, &else_tag) {
        Some(e) => {
            let a = slice_chars(inner, 0, e);
            let b = slice_chars(inner, e + 8, n);
            assert(a@ =~= inner@.take(e as int));
            assert(b@ =~= inner@.skip(e + 8));
            (trim_exec(&a), trim_exec(&b))
        },
        None => (trim_exec(inner), Vec::new()),
    }
}

/// `body` with its `{{#if}}` blocks evaluated, as character vectors.
pub fn evaluate_ifs(body: &Vec<char>, values: &Values) -> (r: Vec<char>)
    ensures
        r@ == ifs_evaluated(body@, values@),
    decreases body@.len(),
{
    let open = chars_of("{{#if ");
    let close = chars_of("}}");
    let endif = chars_of("{{/if}}");
    proof {
        reveal_strlit("{{#if ");
        reveal_strlit("}}");
        reveal_strlit("{{/if}}");
        lemma_find_some(body@, open@);
    }
    let n = body.len();
    let unchanged = slice_chars(body, 0, n);
    assert(unchanged@ =~= body@);
    let start = match find_chars(body, &open) {
        None => return unchanged,
        Some(start) => start,
    };
    let after_tag = slice_chars(body, start + 6, n);
    assert(after_tag@ =~= body@.skip(start + 6));
    let al = after_tag.len();
    proof {
        lemma_find_some(after_tag@, close@);
    }
    let ce = match find_chars(&after_tag, &close) {
        None => return unchanged,
        Some(ce) => ce,
    };
    let cond_raw = slice_chars(&after_tag, 0, ce);
    assert(cond_raw@ =~= after_tag@.take(ce as int));
    let cond = trim_exec(&cond_raw);
    let block = slice_chars(&after_tag, ce + 2, al);
    assert(block@ =~= after_tag@.skip(ce + 2));
    let bl = block.len();
    proof {
        lemma_scan_for_found(block@, 0, 0, open@, endif@, endif@);
    }
    let ep = match find_outside_exec(&block, &open, &endif, &endif) {
        None => return unchanged,
        Some(ep) => ep,
    };
    let inner = slice_chars(&block, 0, ep);
    assert(inner@ =~= block@.take(ep as int));
    let (if_part, else_part) = branches(&inner);
    let chosen = if evaluate_condition(&cond, values) {
        if_part
    } else {
        else_part
    };
    proof {
        lemma_branches_len(inner@);
    }
    let mut out = slice_chars(body, 0, start);
    assert(out@ =~= body@.take(start as int));
    let tail = slice_chars(&block, ep + 7, bl);
    assert(tail@ =~= block@.skip(ep + 7));
    let chosen_evaluated = evaluate_ifs(&chosen, values);
    append_chars(&mut out, &chosen_evaluated);
    let tail_evaluated = evaluate_ifs(&tail, values);
    append_chars(&mut out, &tail_evaluated);
    out
}

/// The loop body repeated once per item, with the item's placeholder replaced by the
/// trimmed item each time.
pub open spec fn expand_items(items: Seq<Seq<char>>, body: Seq<char>, placeholder: Seq<char>) -> Seq<
    char,
>
    decreases items.len(),
{
    if items.len() == 0 {
        Seq::empty()
    } else {
        expand_items(items.drop_last(), body, placeholder) + replace_all(
            body,
            placeholder,
            trim(items.last()),
        )
    }
}

/// The item name of an `{{#each collection as item}}` tag (`item` where it has no `as`).
pub open spec fn each_item_name(expr: Seq<char>) -> Seq<char> {
    let parts = split(expr, " as "@);
    if parts.len() > 1 {
        trim(parts[1])
    } else {
        "item"@
    }
}

/// The collection name of an `{{#each collection as item}}` tag.
pub open spec fn each_collection_name(expr: Seq<char>) -> Seq<char> {
    trim(split(expr, " as "@)[0])
}

/// What an `{{#each expr}}` block with the body `body` expands to: the body once for every
/// comma-separated item of the collection's value, with `{{item}}` replaced by the item;
/// nothing where the collection has no value or an empty one.
pub open spec fn loop_expansion(
    expr: Seq<char>,
    body: Seq<char>,
    values: Map<Seq<char>, Seq<char>>,
) -> Seq<char> {
    let items = value_or_empty(values, each_collection_name(expr));
    if items.len() == 0 {
        Seq::empty()
    } else {
        expand_items(split(items, ","@), body, "{{"@ + each_item_name(expr) + "}}"@)
    }
}

/// `s` with its `{{#each}}...{{/each}}` blocks, from left to right, expanded, each body
/// with the blocks nested in it expanded first. A block ends at the `{{/each}}` that
/// matches its own tag, past the blocks nested in it. A block tag without its `}}` or its
/// `{{/each}}` ends the evaluation, and the rest of the text is kept as it is.
pub open spec fn eachs_evaluated(s: Seq<char>, values: Map<Seq<char>, Seq<char>>) -> Seq<char>
    decreases s.len(),
{
    match find(s, "{{#each "@) {
        None => s,
        Some(start) => {
            if 0 <= start && start + 8 <= s.len() {
                let after_tag = s.skip(start + 8);
                match find(after_tag, "}}"@) {
                    None => s,
                    Some(te) => {
                        if 0 <= te && te + 2 <= after_tag.len() {
                            let rest = after_tag.skip(te + 2);
                            match find_outside(rest, "{{#each "@, "{{/each}}"@, "{{/each}}"@) {
                                None => s,
                                Some(ep) => {
                                    if 0 <= ep && ep + 9 <= rest.len() {
                                        s.take(start) + loop_expansion(
                                            after_tag.take(te),
                                            eachs_evaluated(rest.take(ep), values),
                                            values,
                                        ) + eachs_evaluated(rest.skip(ep + 9), values)
                                    } else {
                                        s
                                    }
                                },
                            }
                        } else {
                            s
                        }
                    },
                }
            } else {
                s
            }
        },
    }
}

/// What an `{{#each expr}}` block with the body `body` expands to.
fn expand_loop(expr: &Vec<char>, body: &Vec<char>, values: &Values) -> (r: Vec<char>)
    ensures
        r@ == loop_expansion(expr@, body@, values@),
{
    let as_tag = chars_of(" as ");
    let comma = chars_of(",");
    proof {
        reveal_strlit(" as ");
        reveal_strlit(",");
        reveal_strlit("{{");
        reveal_strlit("}}");
        crate::text::lemma_split_nonempty(expr@, as_tag@);
    }
    let parts = split_exec(expr, &as_tag);
    assert(views(parts@)[0] == parts@[0]@);
    let collection = trim_exec(&parts[0]);
    let item = if parts.len() > 1 {
        assert(views(parts@)[1] == parts@[1]@);
        trim_exec(&parts[1])
    } else {
        chars_of("item")
    };
    let items = values.value_or_empty(&collection);
    if items.len() == 0 {
        return Vec::new();
    }
    let mut placeholder = chars_of("{{");
    append_chars(&mut placeholder, &item);
    let close = chars_of("}}");
    append_chars(&mut placeholder, &close);
    let pieces = split_exec(&items, &comma);
    let ghost ps = views(pieces@);
    let mut out: Vec<char> = Vec::new();
    let n = pieces.len();
    let mut i: usize = 0;
    assert(ps.take(0) =~= Seq::<Seq<char>>::empty());
    while i < n
        invariant
            n == pieces@.len(),
            i <= n,
            ps == views(pieces@),
            placeholder@.len() >= 4,
            out@ == expand_items(ps.take(i as int), body@, placeholder@),
        decreases n - i,
    {
        let it = trim_exec(&pieces[i]);
        let expanded = replace_all_exec(body, &placeholder, &it);
        append_chars(&mut out, &expanded);
        assert(ps.take(i + 1).drop_last() =~= ps.take(i as int));
        assert(ps.take(i + 1).last() == pieces@[i as int]@);
        i = i + 1;
    }
    assert(ps.take(n as int) =~= ps);
    out
}

/// `body` with its `{{#each}}` blocks expanded, as character vectors.
pub fn evaluate_eachs(body: &Vec<char>, values: &Values) -> (r: Vec<char>)
    ensures
        r@ == eachs_evaluated(body@, values@),
    decreases body@.len(),
{
    let open = chars_of("{{#each ");
    let close = chars_of("}}");
    let end_tag = chars_of("{{/each}}");
    proof {
        reveal_strlit("{{#each ");
        reveal_strlit("}}");
        reveal_strlit("{{/each}}");
        lemma_find_some(body@, open@);
    }
    let n = body.len();
    let unchanged = slice_chars(body, 0, n);
    assert(unchanged@ =~= body@);
    let start = match find_chars(body, &open) {
        None => return unchanged,
        Some(start) => start,
    };
    let after_tag = slice_chars(body, start + 8, n);
    assert(after_tag@ =~= body@.skip(start + 8));
    let al = after_tag.len();
    proof {
        lemma_find_some(after_tag@, close@);
    }
    let te = match find_chars(&after_tag, &close) {
        None => return unchanged,
        Some(te) => te,
    };
    let expr = slice_chars(&after_tag, 0, te);
    assert(expr@ =~= after_tag@.take(te as int));
    let block = slice_chars(&after_tag, te + 2, al);
    assert(block@ =~= after_tag@.skip(te + 2));
    let bl = block.len();
    proof {
        lemma_scan_for_found(block@, 0, 0, open@, end_tag@, end_tag@);
    }
    let ep = match find_outside_exec(&block, &open, &end_tag, &end_tag) {
        None => return unchanged,
        Some(ep) => ep,
    };
    let loop_body = slice_chars(&block, 0, ep);
    assert(loop_body@ =~= block@.take(ep as int));
    let body_evaluated = evaluate_eachs(&loop_body, values);
    let expansion = expand_loop(&expr, &body_evaluated, values);
    let mut out = slice_chars(body, 0, start);
    assert(out@ =~= body@.take(start as int));
    let tail = slice_chars(&block, ep + 9, bl);
    assert(tail@ =~= block@.skip(ep + 9));
    append_chars(&mut out, &expansion);
    let tail_evaluated = evaluate_eachs(&tail, values);
    append_chars(&mut out, &tail_evaluated);
    out
}

/// The text that conditional and loop blocks of `body` leave: first every `{{#if}}` block
/// is replaced by the branch its condition selects, then every `{{#each}}` block is
/// expanded.
pub open spec fn blocks_evaluated(body: Seq<char>, values: Map<Seq<char>, Seq<char>>) -> Seq<char> {
    eachs_evaluated(ifs_evaluated(body, values), values)
}

/// Evaluates the conditional (`{{#if}}`/`{{else}}`/`{{/if}}`) and loop (`{{#each}}`)
/// blocks of a template body: the `{{#if}}` blocks first, then the `{{#each}}` blocks.
pub fn evaluate_blocks(body: &str, values: &Values) -> (r: String)
    ensures
        r@ == blocks_evaluated(body@, values@),
{
    let b = chars_of(body);
    let after_ifs = evaluate_ifs(&b, values);
    let r = evaluate_eachs(&after_ifs, values);
    string_of(&r)
}

} // verus!
