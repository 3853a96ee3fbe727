//! What a template's page computes: the initial value of each field, the values that
//! the preview uses, and the filled-in text itself.

use vstd::prelude::*;
use crate::engine::{blocks_evaluated, evaluate_blocks};
use crate::models::filter::default_of;
use crate::models::placeholder::Placeholder;
use crate::substitute::{get_default, substituted, substitute};
use crate::text::concat;
use crate::values::Values;

verus! {

/// The value a field starts with: that of the placeholder's first `default` filter, or
/// the empty string.
pub fn initial_value(p: &Placeholder) -> (r: String)
    ensures
        r@ == match default_of(p@.filters) {
            Some(d) => d,
            None => Seq::empty(),
        },
{
    match get_default(&p.filters) {
        Some(d) => d,
        None => String::new(),
    }
}

/// The values that fields with the given keys and current values give to the preview:
/// each non-empty value under its key, a later field replacing an earlier one with the
/// same key.
pub open spec fn values_of_fields(fields: Seq<(String, String)>) -> Map<Seq<char>, Seq<char>>
    decreases fields.len(),
{
    if fields.len() == 0 {
        Map::empty()
    } else {
        let m = values_of_fields(fields.drop_last());
        if fields.last().1@.len() > 0 {
            m.insert(fields.last().0@, fields.last().1@)
        } else {
            m
        }
    }
}

/// The values the preview uses, from the (key, current value) pairs of the fields.
pub fn preview_values(fields: &Vec<(String, String)>) -> (r: Values)
    ensures
        r@ == values_of_fields(fields@),
{
    let mut values = Values::new();
    let n = fields.len();
    let mut i: usize = 0;
    while i < n
        invariant
            n == fields@.len(),
            i <= n,
            values@ == values_of_fields(fields@.take(i as int)),
        decreases n - i,
    {
        assert(fields@.take(i + 1).drop_last() =~= fields@.take(i as int));
        assert(fields@.take(i + 1).last() == fields@[i as int]);
        if !fields[i].1.as_str().is_empty() {
            values.insert(fields[i].0.clone(), fields[i].1.clone());
        }
        i = i + 1;
    }
    assert(fields@.take(n as int) =~= fields@);
    values
}

/// The filled-in text of a template: the blocks of `body` evaluated, then its
/// placeholders replaced.
pub open spec fn preview_text(body: Seq<char>, values: Map<Seq<char>, Seq<char>>) -> Seq<char> {
    substituted(blocks_evaluated(body, values), values)
}

/// The filled-in text of a template body, as the preview shows it and the export buttons
/// copy it: conditional and loop blocks first, then placeholders.
pub fn render_preview(body: &str, values: &Values) -> (r: String)
    ensures
        r@ == preview_text(body@, values@),
{
    let after_blocks = evaluate_blocks(body, values);
    substitute(after_blocks.as_str(), values)
}

/// The image of a template's page, where it has a preview: `<base>/previews/<preview>`.
pub fn detail_preview_src(base: &str, preview: &Option<String>) -> (r: Option<String>)
    ensures
        match r {
            Some(s) => preview.is_some() && s@ == base@ + "/previews/"@ + preview->0@,
            None => preview.is_none(),
        },
{
    match preview {
        Some(p) => {
            let a = concat(base, "/previews/");
            Some(concat(a.as_str(), p.as_str()))
        },
        None => None,
    }
}

/// The link back to the gallery: `<base>/`.
pub fn back_href(base: &str) -> (r: String)
    ensures
        r@ == base@ + "/"@,
{
    concat(base, "/")
}

} // verus!
