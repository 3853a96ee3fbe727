//! The frontmatter of a template source: the YAML header between a leading `---` and the
//! next `---`, and the markdown body after it.

use vstd::prelude::*;
use crate::models::filter::{filter_views, inline_filters, inline_filters_exec, string_views, Filter, FilterModel};
use crate::models::placeholder::clone_filters;
use crate::text::{
    chars_eq, chars_of, find, find_chars, lemma_find_some, slice_chars, starts_with, starts_with_exec,
    string_of, trim, trim_exec,
};

verus! {

/// The frontmatter and the body of a template source: after trimming, the source must
/// begin with `---`; the frontmatter is the text up to the next `---`, as it stands, and
/// the body is the text after that `---`, trimmed. A source without a leading `---` or
/// without a closing one has none.
pub open spec fn frontmatter_split(content: Seq<char>) -> Option<(Seq<char>, Seq<char>)> {
    let c = trim(content);
    if !starts_with(c, "---"@) {
        None
    } else {
        match find(c.skip(3), "---"@) {
            Some(k) => Some((c.skip(3).take(k), trim(c.skip(3).skip(k + 3)))),
            None => None,
        }
    }
}

/// Splits a template source into its frontmatter and its body; `None` where the source
/// has no frontmatter, and the template is then skipped.
pub fn split_frontmatter(content: &str) -> (r: Option<(String, String)>)
    ensures
        match r {
            Some(p) => frontmatter_split(content@) == Some((p.0@, p.1@)),
            None => frontmatter_split(content@) is None,
        },
{
    let all = chars_of(content);
    let c = trim_exec(&all);
    let dashes = chars_of("---");
    proof {
        reveal_strlit("---");
    }
    if !starts_with_exec(&c, &dashes) {
        return None;
    }
    let n = c.len();
    let after_first = slice_chars(&c, 3, n);
    assert(after_first@ =~= c@.skip(3));
    proof {
        lemma_find_some(after_first@, dashes@);
    }
    match find_chars(&after_first, &dashes) {
        None => None,
        Some(k) => {
            let m = after_first.len();
            let yaml = slice_chars(&after_first, 0, k);
            assert(yaml@ =~= after_first@.take(k as int));
            let rest = slice_chars(&after_first, k + 3, m);
            assert(rest@ =~= after_first@.skip(k + 3));
            let body = trim_exec(&rest);
            Some((string_of(&yaml), string_of(&body)))
        },
    }
}

/// The argument of a filter in the frontmatter, as the YAML gives it: nothing, a string,
/// a whole number that fits a `usize`, a list of strings, or anything else.
pub enum FilterArg {
    Null,
    Text(String),
    Number(usize),
    List(Vec<String>),
    Other,
}

/// What a filter argument says, over character sequences.
pub enum FilterArgModel {
    Null,
    Text(Seq<char>),
    Number(usize),
    List(Seq<Seq<char>>),
    Other,
}

impl View for FilterArg {
    type V = FilterArgModel;

    open spec fn view(&self) -> FilterArgModel {
        match self {
            FilterArg::Null => FilterArgModel::Null,
            FilterArg::Text(s) => FilterArgModel::Text(s@),
            FilterArg::Number(n) => FilterArgModel::Number(*n),
            FilterArg::List(v) => FilterArgModel::List(string_views(v@)),
            FilterArg::Other => FilterArgModel::Other,
        }
    }
}

/// A filter in the frontmatter: a bare word such as `required`, or a map from filter
/// names to arguments such as `{max_length: 100}`, given as its entries.
pub enum FilterInput {
    Flag(String),
    Entries(Vec<(String, FilterArg)>),
}

/// What a frontmatter filter says, over character sequences.
pub enum FilterInputModel {
    Flag(Seq<char>),
    Entries(Seq<(Seq<char>, FilterArgModel)>),
}

/// The views of the entries of a frontmatter filter map.
pub open spec fn entry_views(v: Seq<(String, FilterArg)>) -> Seq<(Seq<char>, FilterArgModel)> {
    v.map_values(|e: (String, FilterArg)| (e.0@, e.1@))
}

impl View for FilterInput {
    type V = FilterInputModel;

    open spec fn view(&self) -> FilterInputModel {
        match self {
            FilterInput::Flag(s) => FilterInputModel::Flag(s@),
            FilterInput::Entries(v) => FilterInputModel::Entries(entry_views(v@)),
        }
    }
}

/// The views of a sequence of frontmatter filters.
pub open spec fn filter_input_views(v: Seq<FilterInput>) -> Seq<FilterInputModel> {
    v.map_values(|f: FilterInput| f@)
}

/// The argument that a filter map gives `key`, if it has that key (the last entry with it,
/// as a map keeps it).
pub open spec fn entry_arg(entries: Seq<(Seq<char>, FilterArgModel)>, key: Seq<char>) -> Option<
    FilterArgModel,
>
    decreases entries.len(),
{
    if entries.len() == 0 {
        None
    } else if entries.last().0 == key {
        Some(entries.last().1)
    } else {
        entry_arg(entries.drop_last(), key)
    }
}

/// The filter that one frontmatter filter becomes: `Some(Some(f))` for the filter `f`,
/// `Some(None)` where it is dropped, and `None` where it cannot be read.
/// A bare word counts only if it is `required`. In a map, the first of the names
/// `max_length`, `default`, `options` and `required` that it has decides; `max_length`
/// needs a number, `default` a string and `options` a list of strings, and with another
/// argument the filter cannot be read; `required` takes any argument. A map with none of
/// these names is dropped.
pub open spec fn converted_filter(input: FilterInputModel) -> Option<Option<FilterModel>> {
    match input {
        FilterInputModel::Flag(s) => if s == "required"@ {
            Some(Some(FilterModel::Required))
        } else {
            Some(None)
        },
        FilterInputModel::Entries(es) => {
            if entry_arg(es, "max_length"@) is Some {
                match entry_arg(es, "max_length"@)->0 {
                    FilterArgModel::Number(n) => Some(Some(FilterModel::MaxLength(n))),
                    _ => None,
                }
            } else if entry_arg(es, "default"@) is Some {
                match entry_arg(es, "default"@)->0 {
                    FilterArgModel::Text(t) => Some(Some(FilterModel::Default(t))),
                    _ => None,
                }
            } else if entry_arg(es, "options"@) is Some {
                match entry_arg(es, "options"@)->0 {
                    FilterArgModel::List(l) => Some(Some(FilterModel::Options(l))),
                    _ => None,
                }
            } else if entry_arg(es, "required"@) is Some {
                Some(Some(FilterModel::Required))
            } else {
                Some(None)
            }
        },
    }
}

/// The filters of a placeholder's frontmatter, in their order, without the dropped ones;
/// `None` where one of them cannot be read.
pub open spec fn converted_filters(inputs: Seq<FilterInputModel>) -> Option<Seq<FilterModel>>
    decreases inputs.len(),
{
    if inputs.len() == 0 {
        Some(Seq::empty())
    } else {
        match converted_filters(inputs.drop_last()) {
            None => None,
            Some(fs) => match converted_filter(inputs.last()) {
                None => None,
                Some(None) => Some(fs),
                Some(Some(f)) => Some(fs.push(f)),
            },
        }
    }
}

/// A filter that cannot be read makes the whole list unreadable, whatever follows it.
proof fn lemma_unreadable_stays(ins: Seq<FilterInputModel>, i: int)
    requires
        0 <= i <= ins.len(),
        converted_filters(ins.take(i)) is None,
    ensures
        converted_filters(ins) is None,
    decreases ins.len() - i,
{
    if i < ins.len() {
        assert(ins.take(i + 1).drop_last() =~= ins.take(i));
        lemma_unreadable_stays(ins, i + 1);
    } else {
        assert(ins.take(i) =~= ins);
    }
}

/// The position of the entry that gives `key` its argument in a filter map.
fn entry_position(entries: &Vec<(String, FilterArg)>, key: &str) -> (r: Option<usize>)
    ensures
        match r {
            Some(k) => k < entries@.len() && entry_arg(entry_views(entries@), key@) == Some(
                entries@[k as int].1@,
            ),
            None => entry_arg(entry_views(entries@), key@) is None,
        },
{
    let ghost es = entry_views(entries@);
    let kc = chars_of(key);
    let mut i = entries.len();
    assert(es.take(i as int) =~= es);
    while i > 0
        invariant
            i <= entries@.len(),
            es == entry_views(entries@),
            kc@ == key@,
            entry_arg(es, key@) == entry_arg(es.take(i as int), key@),
        decreases i,
    {
        let name = chars_of(entries[i - 1].0.as_str());
        assert(es.take(i as int).drop_last() =~= es.take(i - 1));
        assert(es.take(i as int).last() == (entries@[i - 1].0@, entries@[i - 1].1@));
        if chars_eq(&name, &kc) {
            return Some(i - 1);
        }
        i = i - 1;
    }
    None
}

fn clone_strings_of(v: &Vec<String>) -> (r: Vec<String>)
    ensures
        string_views(r@) == string_views(v@),
{
    let c = v.clone();
    assert forall|i: int| 0 <= i < v@.len() implies c@[i] == v@[i] by {
        assert(cloned::<String>(v[i], c[i]));
    }
    assert(c@ =~= v@);
    c
}

/// The filter that one frontmatter filter becomes: `Ok(Some(f))`, `Ok(None)` where it is
/// dropped, `Err(())` where it cannot be read.
fn convert_filter(input: &FilterInput) -> (r: Result<Option<Filter>, ()>)
    ensures
        match r {
            Ok(Some(f)) => converted_filter(input@) == Some(Some(f@)),
            Ok(None) => converted_filter(input@) == Some(None::<FilterModel>),
            Err(_) => converted_filter(input@) is None,
        },
{
    proof {
        reveal_strlit("required");
        reveal_strlit("max_length");
        reveal_strlit("default");
        reveal_strlit("options");
    }
    match input {
        FilterInput::Flag(s) => {
            let sc = chars_of(s.as_str());
            let req = chars_of("required");
            if chars_eq(&sc, &req) {
                Ok(Some(Filter::Required))
            } else {
                Ok(None)
            }
        },
        FilterInput::Entries(es) => {
            if let Some(k) = entry_position(es, "max_length") {
                return match &es[k].1 {
                    FilterArg::Number(n) => Ok(Some(Filter::MaxLength(*n))),
                    _ => Err(()),
                };
            }
            if let Some(k) = entry_position(es, "default") {
                return match &es[k].1 {
                    FilterArg::Text(t) => Ok(Some(Filter::Default(t.clone()))),
                    _ => Err(()),
                };
            }
            if let Some(k) = entry_position(es, "options") {
                return match &es[k].1 {
                    FilterArg::List(l) => Ok(Some(Filter::Options(clone_strings_of(l)))),
                    _ => Err(()),
                };
            }
            if let Some(_k) = entry_position(es, "required") {
                return Ok(Some(Filter::Required));
            }
            Ok(None)
        },
    }
}

/// Converts the filters of a placeholder's frontmatter to the library's filters, in their
/// order: a bare `required` and the maps that name a known filter are kept, other entries
/// are dropped. `None` where a filter's argument has the wrong kind, and the template is
/// then skipped.
pub fn convert_filters(inputs: &Vec<FilterInput>) -> (r: Option<Vec<Filter>>)
    ensures
        match r {
            Some(fs) => converted_filters(filter_input_views(inputs@)) == Some(filter_views(fs@)),
            None => converted_filters(filter_input_views(inputs@)) is None,
        },
{
    let ghost ins = filter_input_views(inputs@);
    let mut out: Vec<Filter> = Vec::new();
    let n = inputs.len();
    let mut i: usize = 0;
    assert(ins.take(0) =~= Seq::<FilterInputModel>::empty());
    assert(filter_views(out@) =~= Seq::<FilterModel>::empty());
    while i < n
        invariant
            n == inputs@.len(),
            i <= n,
            ins == filter_input_views(inputs@),
            converted_filters(ins.take(i as int)) == Some(filter_views(out@)),
        decreases n - i,
    {
        assert(ins.take(i + 1).drop_last() =~= ins.take(i as int));
        assert(ins.take(i + 1).last() == inputs@[i as int]@);
        match convert_filter(&inputs[i]) {
            Err(_) => {
                proof {
                    lemma_unreadable_stays(ins, i + 1);
                }
                return None;
            },
            Ok(None) => {},
            Ok(Some(f)) => {
                let ghost o0 = out@;
                out.push(f);
                assert(filter_views(out@) =~= filter_views(o0).push(out@[o0.len() as int]@));
            },
        }
        i = i + 1;
    }
    assert(ins.take(n as int) =~= ins);
    Some(out)
}

/// The filters written inline for the variable `key` in `s`, in their order: those of
/// every placeholder `{{key | ...}}`, found from left to right as the substitution finds
/// placeholders (block tags are passed over, and a `{{` without a later `}}` ends the
/// search).
pub open spec fn inline_filters_for(s: Seq<char>, key: Seq<char>) -> Seq<FilterModel>
    decreases s.len(),
{
    match find(s, "{{"@) {
        None => Seq::empty(),
        Some(start) => {
            if 0 <= start && start + 2 <= s.len() {
                let after = s.skip(start + 2);
                if after.len() > 0 && (after[0] == '#' || after[0] == '/') {
                    inline_filters_for(after, key)
                } else {
                    match find(after, "}}"@) {
                        None => Seq::empty(),
                        Some(end) => {
                            if 0 <= end && end + 2 <= after.len() {
                                let expr = after.take(end);
                                (if inline_filters(expr).0 == key {
                                    inline_filters(expr).1
                                } else {
                                    Seq::empty()
                                }) + inline_filters_for(after.skip(end + 2), key)
                            } else {
                                Seq::empty()
                            }
                        },
                    }
                }
            } else {
                Seq::empty()
            }
        },
    }
}

fn inline_filters_chars(s: &Vec<char>, key: &Vec<char>) -> (r: Vec<Filter>)
    ensures
        filter_views(r@) == inline_filters_for(s@, key@),
    decreases s@.len(),
{
    let open = chars_of("{{");
    let close = chars_of("}}");
    proof {
        reveal_strlit("{{");
        reveal_strlit("}}");
        lemma_find_some(s@, open@);
    }
    let n = s.len();
    let start = match find_chars(s, &open) {
        None => {
            let r: Vec<Filter> = Vec::new();
            assert(filter_views(r@) =~= Seq::<FilterModel>::empty());
            return r;
        },
        Some(start) => start,
    };
    let after = slice_chars(s, start + 2, n);
    assert(after@ =~= s@.skip(start + 2));
    if after.len() > 0 && (after[0] == '#' || after[0] == '/') {
        return inline_filters_chars(&after, key);
    }
    let al = after.len();
    proof {
        lemma_find_some(after@, close@);
    }
    let end = match find_chars(&after, &close) {
        None => {
            let r: Vec<Filter> = Vec::new();
            assert(filter_views(r@) =~= Seq::<FilterModel>::empty());
            return r;
        },
        Some(end) => end,
    };
    let expr = slice_chars(&after, 0, end);
    assert(expr@ =~= after@.take(end as int));
    let tail = slice_chars(&after, end + 2, al);
    assert(tail@ =~= after@.skip(end + 2));
    let (name, fs) = inline_filters_exec(&expr);
    let mut out = if chars_eq(&name, key) {
        fs
    } else {
        let r: Vec<Filter> = Vec::new();
        assert(filter_views(r@) =~= Seq::<FilterModel>::empty());
        r
    };
    let mut rest = inline_filters_chars(&tail, key);
    let ghost o0 = out@;
    let ghost r0 = rest@;
    out.append(&mut rest);
    assert(out@ =~= o0 + r0);
    assert(filter_views(out@) =~= filter_views(o0) + filter_views(r0));
    out
}

/// The filters written inline for the variable `key` in a template body.
pub fn inline_filters_in(body: &str, key: &str) -> (r: Vec<Filter>)
    ensures
        filter_views(r@) == inline_filters_for(body@, key@),
{
    let b = chars_of(body);
    let k = chars_of(key);
    inline_filters_chars(&b, &k)
}

/// `a` and `b` are filters of the same kind.
pub open spec fn same_kind(a: FilterModel, b: FilterModel) -> bool {
    match a {
        FilterModel::Required => b is Required,
        FilterModel::Default(_) => b is Default,
        FilterModel::MaxLength(_) => b is MaxLength,
        FilterModel::Options(_) => b is Options,
    }
}

/// Some filter of `fs` is of the kind of `f`.
pub open spec fn sets_kind(fs: Seq<FilterModel>, f: FilterModel) -> bool {
    exists|i: int| 0 <= i < fs.len() && #[trigger] same_kind(fs[i], f)
}

/// The filters of a placeholder: those of its frontmatter, then, in their order, the
/// inline ones of a kind that the frontmatter does not set; on a conflict the frontmatter
/// wins.
pub open spec fn merged_filters(front: Seq<FilterModel>, inline: Seq<FilterModel>) -> Seq<
    FilterModel,
>
    decreases inline.len(),
{
    if inline.len() == 0 {
        front
    } else {
        merged_filters(front, inline.drop_last()) + if sets_kind(front, inline.last()) {
            Seq::empty()
        } else {
            seq![inline.last()]
        }
    }
}

fn kind_set(fs: &Vec<Filter>, f: &Filter) -> (r: bool)
    ensures
        r == sets_kind(filter_views(fs@), f@),
{
    let ghost fv = filter_views(fs@);
    let n = fs.len();
    let mut i: usize = 0;
    while i < n
        invariant
            n == fs@.len(),
            i <= n,
            fv == filter_views(fs@),
            forall|j: int| 0 <= j < i ==> !#[trigger] same_kind(fv[j], f@),
        decreases n - i,
    {
        assert(fv[i as int] == fs@[i as int]@);
        let same = match (&fs[i], f) {
            (Filter::Required, Filter::Required) => true,
            (Filter::Default(_), Filter::Default(_)) => true,
            (Filter::MaxLength(_), Filter::MaxLength(_)) => true,
            (Filter::Options(_), Filter::Options(_)) => true,
            _ => false,
        };
        if same {
            assert(same_kind(fv[i as int], f@));
            return true;
        }
        i = i + 1;
    }
    false
}

/// The filters of a placeholder: its frontmatter filters, then the filters written inline
/// for it in the body whose kind the frontmatter does not set.
pub fn placeholder_filters(front: &Vec<Filter>, body: &str, key: &str) -> (r: Vec<Filter>)
    ensures
        filter_views(r@) == merged_filters(filter_views(front@), inline_filters_for(body@, key@)),
{
    let inline = inline_filters_in(body, key);
    let ghost iv = filter_views(inline@);
    let ghost fv = filter_views(front@);
    let mut out = clone_filters(front);
    let n = inline.len();
    let mut i: usize = 0;
    assert(iv.take(0) =~= Seq::<FilterModel>::empty());
    while i < n
        invariant
            n == inline@.len(),
            i <= n,
            iv == filter_views(inline@),
            fv == filter_views(front@),
            filter_views(out@) == merged_filters(fv, iv.take(i as int)),
        decreases n - i,
    {
        assert(iv.take(i + 1).drop_last() =~= iv.take(i as int));
        assert(iv.take(i + 1).last() == inline@[i as int]@);
        if !kind_set(front, &inline[i]) {
            let c = inline[i].clone();
            let ghost o0 = out@;
            out.push(c);
            assert(filter_views(out@) =~= filter_views(o0).push(inline@[i as int]@));
        } else {
            assert(merged_filters(fv, iv.take(i + 1)) =~= merged_filters(fv, iv.take(i as int)));
        }
        i = i + 1;
    }
    assert(iv.take(n as int) =~= iv);
    out
}

} // verus!
