//! Inline filters of a placeholder expression, as in
//! `{{project_name | required | max_length: 100 | default: "My Project"}}`.

use vstd::prelude::*;
use crate::text::{
    chars_of, chars_eq, lemma_split_nonempty, parse_usize_exec, split_exec, string_of, strip_prefix_exec,
    trim_all, trim_char_exec, trim_end_char_exec, trim_exec, trim_start_char_exec, views, parse_usize, split, strip_prefix, trim, trim_char, trim_end_char, trim_start_char};

verus! {

/// A constraint or a default attached to a placeholder.
#[derive(Debug, PartialEq)]
pub enum Filter {
    Required,
    Default(String),
    MaxLength(usize),
    Options(Vec<String>),
}

/// What a filter says, over character sequences.
pub enum FilterModel {
    Required,
    Default(Seq<char>),
    MaxLength(usize),
    Options(Seq<Seq<char>>),
}

/// The views of a sequence of strings.
pub open spec fn string_views(v: Seq<String>) -> Seq<Seq<char>> {
    v.map_values(|s: String| s@)
}

impl View for Filter {
    type V = FilterModel;

    open spec fn view(&self) -> FilterModel {
        match self {
            Filter::Required => FilterModel::Required,
            Filter::Default(s) => FilterModel::Default(s@),
            Filter::MaxLength(n) => FilterModel::MaxLength(*n),
            Filter::Options(v) => FilterModel::Options(string_views(v@)),
        }
    }
}

impl Clone for Filter {
    fn clone(&self) -> (r: Filter)
        ensures
            r@ == self@,
    {
        match self {
            Filter::Required => Filter::Required,
            Filter::Default(s) => Filter::Default(s.clone()),
            Filter::MaxLength(n) => Filter::MaxLength(*n),
            Filter::Options(v) => {
                let c = v.clone();
                assert forall|i: int| 0 <= i < v@.len() implies c@[i] == v@[i] by {
                    assert(cloned::<String>(v[i], c[i]));
                }
                assert(c@ =~= v@);
                Filter::Options(c)
            },
        }
    }
}

/// The views of a sequence of filters.
pub open spec fn filter_views(v: Seq<Filter>) -> Seq<FilterModel> {
    v.map_values(|f: Filter| f@)
}

/// The filter that one `|`-separated part of an expression names, if it names one.
/// Parts that name no known filter, and `max_length` with no valid number, give none.
pub open spec fn parse_filter(part: Seq<char>) -> Option<FilterModel> {
    if part == "required"@ {
        Some(FilterModel::Required)
    } else if strip_prefix(part, "default:"@) is Some {
        let v = strip_prefix(part, "default:"@)->0;
        Some(FilterModel::Default(trim_char(trim(v), '"')))
    } else if strip_prefix(part, "max_length:"@) is Some {
        let v = strip_prefix(part, "max_length:"@)->0;
        match parse_usize(trim(v)) {
            Some(n) => Some(FilterModel::MaxLength(n)),
            None => None,
        }
    } else if strip_prefix(part, "options:"@) is Some {
        let v = strip_prefix(part, "options:"@)->0;
        let inner = trim_end_char(trim_start_char(trim(v), '['), ']');
        Some(FilterModel::Options(trimmed(split(inner, ","@))))
    } else {
        None
    }
}

/// Each piece of `v`, trimmed.
pub open spec fn trimmed(v: Seq<Seq<char>>) -> Seq<Seq<char>> {
    v.map_values(|p: Seq<char>| trim(p))
}

/// The filters that the parts name, in order.
pub open spec fn filters_of(parts: Seq<Seq<char>>) -> Seq<FilterModel>
    decreases parts.len(),
{
    if parts.len() == 0 {
        Seq::empty()
    } else {
        filters_of(parts.drop_last()) + match parse_filter(trim(parts.last())) {
            Some(f) => seq![f],
            None => Seq::empty(),
        }
    }
}

/// The variable name and the filters of a placeholder expression: the expression is cut
/// at each `|`, every part trimmed; the first part is the name, the others are filters.
pub open spec fn inline_filters(expr: Seq<char>) -> (Seq<char>, Seq<FilterModel>) {
    let parts = trimmed(split(expr, "|"@));
    (parts[0], filters_of(parts.skip(1)))
}

/// The value of the first `default` filter, if there is one.
pub open spec fn default_of(fs: Seq<FilterModel>) -> Option<Seq<char>>
    decreases fs.len(),
{
    if fs.len() == 0 {
        None
    } else {
        match fs[0] {
            FilterModel::Default(v) => Some(v),
            _ => default_of(fs.drop_first()),
        }
    }
}

/// The filter that one part of a placeholder expression names, if it names one.
pub fn parse_filter_exec(part: &Vec<char>) -> (r: Option<Filter>)
    ensures
        match r {
            Some(f) => parse_filter(part@) == Some(f@),
            None => parse_filter(part@) is None,
        },
{
    let required = chars_of("required");
    if chars_eq(part, &required) {
        return Some(Filter::Required);
    }
    let default_tag = chars_of("default:");
    if let Some(v) = strip_prefix_exec(part, &default_tag) {
        let t = trim_exec(&v);
        let d = trim_char_exec(&t, '"');
        return Some(Filter::Default(string_of(&d)));
    }
    let max_tag = chars_of("max_length:");
    if let Some(v) = strip_prefix_exec(part, &max_tag) {
        let t = trim_exec(&v);
        return match parse_usize_exec(&t) {
            Some(n) => Some(Filter::MaxLength(n)),
            None => None,
        };
    }
    let options_tag = chars_of("options:");
    if let Some(v) = strip_prefix_exec(part, &options_tag) {
        let t = trim_exec(&v);
        let a = trim_start_char_exec(&t, '[');
        let inner = trim_end_char_exec(&a, ']');
        let comma = chars_of(",");
        proof {
            reveal_strlit(",");
        }
        let pieces = split_exec(&inner, &comma);
        let trimmed_pieces = trim_all(&pieces);
        let mut options: Vec<String> = Vec::new();
        let n = trimmed_pieces.len();
        let mut i: usize = 0;
        while i < n
            invariant
                n == trimmed_pieces@.len(),
                i <= n,
                string_views(options@) =~= views(trimmed_pieces@).take(i as int),
            decreases n - i,
        {
            let o = string_of(&trimmed_pieces[i]);
            let ghost o0 = options@;
            options.push(o);
            assert(string_views(options@) =~= string_views(o0).push(o@));
            assert(views(trimmed_pieces@)[i as int] == trimmed_pieces@[i as int]@);
            i = i + 1;
        }
        assert(views(trimmed_pieces@).take(n as int) =~= views(trimmed_pieces@));
        return Some(Filter::Options(options));
    }
    None
}

/// The variable name and the filters of a placeholder expression, as character vectors.
pub fn inline_filters_exec(expr: &Vec<char>) -> (r: (Vec<char>, Vec<Filter>))
    ensures
        r.0@ == inline_filters(expr@).0,
        filter_views(r.1@) == inline_filters(expr@).1,
{
    let pipe = chars_of("|");
    proof {
        reveal_strlit("|");
    }
    let raw = split_exec(expr, &pipe);
    proof {
        lemma_split_nonempty(expr@, "|"@);
    }
    let parts = trim_all(&raw);
    let ghost ps = views(parts@);
    assert(ps == trimmed(split(expr@, "|"@)));
    let name = parts[0].clone();
    let mut filters: Vec<Filter> = Vec::new();
    let n = parts.len();
    let mut i: usize = 1;
    assert(ps.skip(1).take(0) =~= Seq::<Seq<char>>::empty());
    while i < n
        invariant
            n == parts@.len(),
            n >= 1,
            1 <= i <= n,
            ps == views(parts@),
            filter_views(filters@) =~= filters_of(ps.skip(1).take(i - 1)),
        decreases n - i,
    {
        let t = trim_exec(&parts[i]);
        let ghost q = ps.skip(1);
        assert(q.take(i as int).drop_last() =~= q.take(i - 1));
        assert(q.take(i as int).last() == ps[i as int]);
        match parse_filter_exec(&t) {
            Some(f) => {
                filters.push(f);
            },
            None => {},
        }
        i = i + 1;
    }
    assert(ps.skip(1).take(n - 1) =~= ps.skip(1));
    (name, filters)
}

/// Parses a placeholder expression such as
/// `project_name | required | max_length: 100 | default: "My Project"` into the variable
/// name and its filters.
pub fn parse_inline_filters(expr: &str) -> (r: (String, Vec<Filter>))
    ensures
        r.0@ == inline_filters(expr@).0,
        filter_views(r.1@) == inline_filters(expr@).1,
{
    let e = chars_of(expr);
    let (name, filters) = inline_filters_exec(&e);
    (string_of(&name), filters)
}


/// Whether two lists of strings are equal.
pub fn string_lists_same(a: &Vec<String>, b: &Vec<String>) -> (r: bool)
    ensures
        r == (string_views(a@) == string_views(b@)),
{
    if a.len() != b.len() {
        assert(string_views(a@).len() != string_views(b@).len());
        return false;
    }
    let n = a.len();
    let mut i: usize = 0;
    while i < n
        invariant
            n == a@.len(),
            n == b@.len(),
            i <= n,
            forall|k: int| 0 <= k < i ==> a@[k]@ == b@[k]@,
        decreases n - i,
    {
        if !crate::text::str_same(a[i].as_str(), b[i].as_str()) {
            assert(string_views(a@)[i as int] != string_views(b@)[i as int]);
            return false;
        }
        i = i + 1;
    }
    assert(string_views(a@) =~= string_views(b@));
    true
}

impl Filter {
    /// Whether two filters are the same filter with the same argument.
    pub fn same_as(&self, other: &Filter) -> (r: bool)
        ensures
            r == (self@ == other@),
    {
        match (self, other) {
            (Filter::Required, Filter::Required) => true,
            (Filter::Default(a), Filter::Default(b)) => crate::text::str_same(a.as_str(), b.as_str()),
            (Filter::MaxLength(a), Filter::MaxLength(b)) => *a == *b,
            (Filter::Options(a), Filter::Options(b)) => string_lists_same(a, b),
            _ => false,
        }
    }
}

/// Whether two lists of filters are equal.
pub fn filter_lists_same(a: &Vec<Filter>, b: &Vec<Filter>) -> (r: bool)
    ensures
        r == (filter_views(a@) == filter_views(b@)),
{
    if a.len() != b.len() {
        assert(filter_views(a@).len() != filter_views(b@).len());
        return false;
    }
    let n = a.len();
    let mut i: usize = 0;
    while i < n
        invariant
            n == a@.len(),
            n == b@.len(),
            i <= n,
            forall|k: int| 0 <= k < i ==> a@[k]@ == b@[k]@,
        decreases n - i,
    {
        if !a[i].same_as(&b[i]) {
            assert(filter_views(a@)[i as int] != filter_views(b@)[i as int]);
            return false;
        }
        i = i + 1;
    }
    assert(filter_views(a@) =~= filter_views(b@));
    true
}

} // verus!
