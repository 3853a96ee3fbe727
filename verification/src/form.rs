//! What the form field of a placeholder shows: its label, hint, options, counter and
//! classes.

use vstd::prelude::*;
use crate::models::filter::{filter_views, string_views, Filter, FilterModel};
use crate::models::placeholder::{clone_strings, Placeholder, PlaceholderModel};
use crate::text::{append_chars, chars_of, concat, decimal, decimal_exec, string_of};

verus! {

/// Some filter is `required`.
pub open spec fn has_required(fs: Seq<FilterModel>) -> bool {
    exists|i: int| 0 <= i < fs.len() && fs[i] is Required
}

/// Whether some filter is `required`.
pub fn is_required(filters: &Vec<Filter>) -> (r: bool)
    ensures
        r == has_required(filter_views(filters@)),
        r == exists|i: int| 0 <= i < filters@.len() && filters@[i] is Required,
{
    let ghost fv = filter_views(filters@);
    let n = filters.len();
    let mut i: usize = 0;
    while i < n
        invariant
            n == filters@.len(),
            i <= n,
            fv == filter_views(filters@),
            forall|j: int| 0 <= j < i ==> !(fv[j] is Required),
            forall|j: int| 0 <= j < i ==> !(filters@[j] is Required),
        decreases n - i,
    {
        assert(fv[i as int] == filters@[i as int]@);
        match &filters[i] {
            Filter::Required => {
                return true;
            },
            _ => {},
        }
        i = i + 1;
    }
    false
}

/// The limit of the first `max_length` filter, if there is one.
pub open spec fn max_length_of(fs: Seq<FilterModel>) -> Option<usize>
    decreases fs.len(),
{
    if fs.len() == 0 {
        None
    } else {
        match fs[0] {
            FilterModel::MaxLength(n) => Some(n),
            _ => max_length_of(fs.drop_first()),
        }
    }
}

/// The limit of the first `max_length` filter, if there is one.
pub fn max_length(filters: &Vec<Filter>) -> (r: Option<usize>)
    ensures
        r == max_length_of(filter_views(filters@)),
{
    let ghost fv = filter_views(filters@);
    let n = filters.len();
    let mut i: usize = 0;
    assert(fv.skip(0) =~= fv);
    while i < n
        invariant
            n == filters@.len(),
            i <= n,
            fv == filter_views(filters@),
            max_length_of(fv) == max_length_of(fv.skip(i as int)),
        decreases n - i,
    {
        assert(fv.skip(i as int).drop_first() =~= fv.skip(i + 1));
        assert(fv.skip(i as int)[0] == filters@[i as int]@);
        match &filters[i] {
            Filter::MaxLength(m) => {
                return Some(*m);
            },
            _ => {},
        }
        i = i + 1;
    }
    None
}

/// The options of the first `options` filter, if there is one.
pub open spec fn options_filter_of(fs: Seq<FilterModel>) -> Option<Seq<Seq<char>>>
    decreases fs.len(),
{
    if fs.len() == 0 {
        None
    } else {
        match fs[0] {
            FilterModel::Options(o) => Some(o),
            _ => options_filter_of(fs.drop_first()),
        }
    }
}

/// The choices a select field offers: those of the first `options` filter, else the
/// placeholder's own options, else none.
pub open spec fn select_options_of(p: PlaceholderModel) -> Seq<Seq<char>> {
    match options_filter_of(p.filters) {
        Some(o) => o,
        None => match p.options {
            Some(o) => o,
            None => Seq::empty(),
        },
    }
}

/// The choices a select field offers.
pub fn select_options(p: &Placeholder) -> (r: Vec<String>)
    ensures
        string_views(r@) == select_options_of(p@),
{
    let ghost fv = filter_views(p.filters@);
    let n = p.filters.len();
    let mut i: usize = 0;
    assert(fv.skip(0) =~= fv);
    while i < n
        invariant
            n == p.filters@.len(),
            i <= n,
            fv == filter_views(p.filters@),
            options_filter_of(fv) == options_filter_of(fv.skip(i as int)),
        decreases n - i,
    {
        assert(fv.skip(i as int).drop_first() =~= fv.skip(i + 1));
        assert(fv.skip(i as int)[0] == p.filters@[i as int]@);
        match &p.filters[i] {
            Filter::Options(o) => {
                return clone_strings(o);
            },
            _ => {},
        }
        i = i + 1;
    }
    match &p.options {
        Some(o) => clone_strings(o),
        None => {
            let r: Vec<String> = Vec::new();
            assert(string_views(r@) =~= Seq::<Seq<char>>::empty());
            r
        },
    }
}

/// The label of a field: the placeholder's label, followed by ` *` where it is required.
pub fn field_label(label: &str, required: bool) -> (r: String)
    ensures
        r@ == label@ + if required {
            " *"@
        } else {
            Seq::empty()
        },
{
    let suffix = if required {
        " *"
    } else {
        ""
    };
    proof {
        reveal_strlit("");
    }
    concat(label, suffix)
}

/// The hint an empty text field shows: `Enter <label>...`.
pub fn input_hint(label: &str) -> (r: String)
    ensures
        r@ == "Enter "@ + label@ + "..."@,
{
    let a = concat("Enter ", label);
    concat(a.as_str(), "...")
}

/// The character counter of a field with a `max_length` filter: the number of
/// characters of the value, a slash and the limit, such as `12/100`.
pub fn char_counter(value: &str, max: usize) -> (r: String)
    ensures
        r@ == decimal(value@.len()) + "/"@ + decimal(max as nat),
{
    let chars = chars_of(value);
    let mut v = decimal_exec(chars.len());
    let slash = chars_of("/");
    append_chars(&mut v, &slash);
    let m = decimal_exec(max);
    append_chars(&mut v, &m);
    string_of(&v)
}

/// The `maxlength` attribute of an input: the limit in decimal, or empty where there is
/// none.
pub fn max_length_attr(limit: Option<usize>) -> (r: String)
    ensures
        r@ == match limit {
            Some(n) => decimal(n as nat),
            None => Seq::empty(),
        },
{
    match limit {
        Some(n) => string_of(&decimal_exec(n)),
        None => String::new(),
    }
}

/// The value a boolean field stores: `Yes` where it is checked, `No` where it is not.
pub fn toggle_value(checked: bool) -> (r: &'static str)
    ensures
        r@ == if checked {
            "Yes"@
        } else {
            "No"@
        },
{
    if checked {
        "Yes"
    } else {
        "No"
    }
}

/// The class of a field's container, marked `required` where the field is.
pub fn field_class(required: bool) -> (r: &'static str)
    ensures
        r@ == if required {
            "form-field required"@
        } else {
            "form-field"@
        },
{
    if required {
        "form-field required"
    } else {
        "form-field"
    }
}

/// The class of a choice button of a select field, marked `selected` where it is the
/// current value.
pub fn option_class(selected: bool) -> (r: &'static str)
    ensures
        r@ == if selected {
            "select-mobile-option selected"@
        } else {
            "select-mobile-option"@
        },
{
    if selected {
        "select-mobile-option selected"
    } else {
        "select-mobile-option"
    }
}

/// The labels of the required fields whose value is empty, in the order of the fields,
/// for fields given as their placeholder and current value.
pub open spec fn missing_fields(fields: Seq<(PlaceholderModel, Seq<char>)>) -> Seq<Seq<char>>
    decreases fields.len(),
{
    if fields.len() == 0 {
        Seq::empty()
    } else {
        let f = fields.last();
        missing_fields(fields.drop_last()) + if has_required(f.0.filters) && f.1.len() == 0 {
            seq![f.0.label]
        } else {
            Seq::empty()
        }
    }
}

/// The views of fields given as their placeholder and current value.
pub open spec fn field_views(fields: Seq<(Placeholder, String)>) -> Seq<(PlaceholderModel, Seq<char>)> {
    fields.map_values(|f: (Placeholder, String)| (f.0@, f.1@))
}

/// The labels of the required fields that are still empty; the export is blocked while
/// there is one.
pub fn missing_required(fields: &Vec<(Placeholder, String)>) -> (r: Vec<String>)
    ensures
        string_views(r@) == missing_fields(field_views(fields@)),
{
    let ghost fv = field_views(fields@);
    let mut out: Vec<String> = Vec::new();
    let n = fields.len();
    let mut i: usize = 0;
    assert(fv.take(0) =~= Seq::<(PlaceholderModel, Seq<char>)>::empty());
    assert(string_views(out@) =~= Seq::<Seq<char>>::empty());
    while i < n
        invariant
            n == fields@.len(),
            i <= n,
            fv == field_views(fields@),
            string_views(out@) == missing_fields(fv.take(i as int)),
        decreases n - i,
    {
        assert(fv.take(i + 1).drop_last() =~= fv.take(i as int));
        assert(fv.take(i + 1).last() == (fields@[i as int].0@, fields@[i as int].1@));
        if is_required(&fields[i].0.filters) && fields[i].1.as_str().is_empty() {
            let ghost o0 = out@;
            out.push(fields[i].0.label.clone());
            assert(string_views(out@) =~= string_views(o0).push(fields@[i as int].0.label@));
        } else {
            assert(missing_fields(fv.take(i + 1)) =~= missing_fields(fv.take(i as int)));
        }
        i = i + 1;
    }
    assert(fv.take(n as int) =~= fv);
    out
}

/// `labels` joined with `, `.
pub open spec fn joined(labels: Seq<Seq<char>>) -> Seq<char>
    decreases labels.len(),
{
    if labels.len() == 0 {
        Seq::empty()
    } else if labels.len() == 1 {
        labels[0]
    } else {
        joined(labels.drop_last()) + ", "@ + labels.last()
    }
}

/// The message shown while the export is blocked: `Fill in the required fields: ` and the
/// labels of the empty ones, joined with `, `; nothing where none is missing.
pub fn missing_message(labels: &Vec<String>) -> (r: Option<String>)
    ensures
        match r {
            Some(m) => labels@.len() > 0 && m@ == "Fill in the required fields: "@ + joined(
                string_views(labels@),
            ),
            None => labels@.len() == 0,
        },
{
    let n = labels.len();
    if n == 0 {
        return None;
    }
    let ghost ls = string_views(labels@);
    let mut out = chars_of("Fill in the required fields: ");
    let ghost prefix = out@;
    let sep = chars_of(", ");
    let first = chars_of(labels[0].as_str());
    append_chars(&mut out, &first);
    assert(ls.take(1).drop_last() =~= Seq::<Seq<char>>::empty());
    assert(joined(ls.take(1)) == ls[0]);
    let mut i: usize = 1;
    while i < n
        invariant
            n == labels@.len(),
            1 <= i <= n,
            ls == string_views(labels@),
            sep@ == ", "@,
            out@ == prefix + joined(ls.take(i as int)),
        decreases n - i,
    {
        let next = chars_of(labels[i].as_str());
        append_chars(&mut out, &sep);
        append_chars(&mut out, &next);
        assert(ls.take(i + 1).drop_last() =~= ls.take(i as int));
        assert(ls.take(i + 1).last() == labels@[i as int]@);
        assert(out@ =~= prefix + joined(ls.take(i + 1)));
        i = i + 1;
    }
    assert(ls.take(n as int) =~= ls);
    Some(string_of(&out))
}

} // verus!
