//! The structure of a template body: typed sections (`## Section: Name`) with their
//! properties and content, and the styling specification (`## Styling: Name`).

use vstd::prelude::*;
use crate::models::section::{Section, SectionModel, SectionType};
use crate::models::style::{StyleSpec, StyleSpecModel};
use crate::text::{
    append_chars, chars_eq, chars_of, lines, lines_exec, split_once, split_once_exec, starts_with,
    starts_with_exec, string_of, trim, trim_exec, trim_start_pat, trim_start_pat_exec, views,
};
use crate::values::Values;

verus! {

/// The first line at or after `i` that is not a property line (one that starts with `- `),
/// or the number of lines.
pub open spec fn props_end(ls: Seq<Seq<char>>, i: int) -> int
    decreases ls.len() - i,
{
    if 0 <= i < ls.len() && starts_with(ls[i], "- "@) {
        props_end(ls, i + 1)
    } else {
        i
    }
}

/// The first line at or after `i` that starts a heading (`## `), or the number of lines.
pub open spec fn content_end(ls: Seq<Seq<char>>, i: int) -> int
    decreases ls.len() - i,
{
    if 0 <= i < ls.len() && !starts_with(ls[i], "## "@) {
        content_end(ls, i + 1)
    } else {
        i
    }
}

pub proof fn lemma_props_end(ls: Seq<Seq<char>>, i: int)
    requires
        0 <= i <= ls.len(),
    ensures
        i <= props_end(ls, i) <= ls.len(),
    decreases ls.len() - i,
{
    if i < ls.len() && starts_with(ls[i], "- "@) {
        lemma_props_end(ls, i + 1);
    }
}

pub proof fn lemma_content_end(ls: Seq<Seq<char>>, i: int)
    requires
        0 <= i <= ls.len(),
    ensures
        i <= content_end(ls, i) <= ls.len(),
    decreases ls.len() - i,
{
    if i < ls.len() && !starts_with(ls[i], "## "@) {
        lemma_content_end(ls, i + 1);
    }
}

/// The key and value of a property line `- key: value`, both trimmed, where the line has
/// a `:`.
pub open spec fn property_of(line: Seq<char>) -> Option<(Seq<char>, Seq<char>)> {
    match split_once(trim_start_pat(line, "- "@), ":"@) {
        Some(kv) => Some((trim(kv.0), trim(kv.1))),
        None => None,
    }
}

/// The type (`component` where no `type` property says otherwise; the last one where
/// several do) and the other properties of the property lines `from..to`.
pub open spec fn section_props(ls: Seq<Seq<char>>, from: int, to: int) -> (Seq<char>, Map<
    Seq<char>,
    Seq<char>,
>)
    decreases to - from,
{
    if to <= from {
        ("component"@, Map::empty())
    } else {
        let prev = section_props(ls, from, to - 1);
        match property_of(ls[to - 1]) {
            Some(kv) => if kv.0 == "type"@ {
                (kv.1, prev.1)
            } else {
                (prev.0, prev.1.insert(kv.0, kv.1))
            },
            None => prev,
        }
    }
}

/// The lines `from..to`, each followed by a newline.
pub open spec fn content_of(ls: Seq<Seq<char>>, from: int, to: int) -> Seq<char>
    decreases to - from,
{
    if to <= from {
        Seq::empty()
    } else {
        content_of(ls, from, to - 1) + ls[to - 1] + "\n"@
    }
}

/// The section type a `type` property names, if it names one.
pub open spec fn section_type_named(t: Seq<char>) -> Option<SectionType> {
    if t == "component"@ {
        Some(SectionType::Component)
    } else if t == "layout"@ {
        Some(SectionType::Layout)
    } else if t == "logic"@ {
        Some(SectionType::Logic)
    } else if t == "data"@ {
        Some(SectionType::Data)
    } else if t == "style"@ {
        Some(SectionType::Style)
    } else {
        None
    }
}

/// The sections that start at or after line `i`. A section starts at a `## Section: Name`
/// line; the property lines (`- key: value`) that follow it give its type and properties;
/// the lines after them, up to the next `## ` heading, are its content, trimmed. A
/// section whose type is unknown is left as plain text.
pub open spec fn sections_from(ls: Seq<Seq<char>>, i: int) -> Seq<SectionModel>
    decreases ls.len() - i,
{
    if i < 0 || i >= ls.len() {
        Seq::empty()
    } else if starts_with(ls[i], "## Section:"@) {
        let j = props_end(ls, i + 1);
        let k = content_end(ls, j);
        proof {
            lemma_props_end(ls, i + 1);
            lemma_content_end(ls, j);
        }
        let props = section_props(ls, i + 1, j);
        match section_type_named(props.0) {
            Some(st) => seq![
                SectionModel {
                    name: trim(trim_start_pat(ls[i], "## Section:"@)),
                    section_type: st,
                    properties: props.1,
                    content: trim(content_of(ls, j, k)),
                },
            ] + sections_from(ls, k),
            None => sections_from(ls, k),
        }
    } else {
        sections_from(ls, i + 1)
    }
}

/// The sections of a template body.
pub open spec fn sections_of(body: Seq<char>) -> Seq<SectionModel> {
    sections_from(lines(body), 0)
}

/// The section type a `type` property names, if it names one.
fn section_type_exec(t: &Vec<char>) -> (r: Option<SectionType>)
    ensures
        r == section_type_named(t@),
{
    if chars_eq(t, &chars_of("component")) {
        Some(SectionType::Component)
    } else if chars_eq(t, &chars_of("layout")) {
        Some(SectionType::Layout)
    } else if chars_eq(t, &chars_of("logic")) {
        Some(SectionType::Logic)
    } else if chars_eq(t, &chars_of("data")) {
        Some(SectionType::Data)
    } else if chars_eq(t, &chars_of("style")) {
        Some(SectionType::Style)
    } else {
        None
    }
}

/// The key and value of a property line, where it has a `:`.
fn property_exec(line: &Vec<char>) -> (r: Option<(Vec<char>, Vec<char>)>)
    ensures
        match r {
            Some(kv) => property_of(line@) == Some((kv.0@, kv.1@)),
            None => property_of(line@) is None,
        },
{
    let dash = chars_of("- ");
    let colon = chars_of(":");
    let prop = trim_start_pat_exec(line, &dash);
    match split_once_exec(&prop, &colon) {
        Some((k, v)) => Some((trim_exec(&k), trim_exec(&v))),
        None => None,
    }
}

/// The sections of a template body: each `## Section: Name` heading with the property
/// lines (`- key: value`) under it, of which `type` gives its type, and its content up
/// to the next `## ` heading, trimmed. A section whose type is none of `component`,
/// `layout`, `logic`, `data` and `style` is left as plain text.
pub fn parse_sections(body: &str) -> (r: Vec<Section>)
    ensures
        r@.map_values(|s: Section| s@) == sections_of(body@),
{
    let b = chars_of(body);
    let ls = lines_exec(&b);
    let ghost lv = views(ls@);
    let heading = chars_of("## Section:");
    let dash = chars_of("- ");
    let any_heading = chars_of("## ");
    let type_key = chars_of("type");
    let n = ls.len();
    let mut out: Vec<Section> = Vec::new();
    let mut i: usize = 0;
    while i < n
        invariant
            n == ls@.len(),
            i <= n,
            lv == views(ls@),
            lv == lines(body@),
            heading@ == "## Section:"@,
            dash@ == "- "@,
            any_heading@ == "## "@,
            type_key@ == "type"@,
            sections_of(body@) == out@.map_values(|s: Section| s@) + sections_from(lv, i as int),
        decreases n - i,
    {
        assert(lv[i as int] == ls@[i as int]@);
        if !starts_with_exec(&ls[i], &heading) {
            i = i + 1;
        } else {
            let name = trim_exec(&trim_start_pat_exec(&ls[i], &heading));
            let mut j = i + 1;
            let mut props = Values::new();
            let mut section_type = chars_of("component");
            assert(section_props(lv, i + 1, i + 1) == (section_type@, props@));
            while j < n && starts_with_exec(&ls[j], &dash)
                invariant
                    n == ls@.len(),
                    i < j <= n,
                    lv == views(ls@),
                    dash@ == "- "@,
                    type_key@ == "type"@,
                    props_end(lv, i + 1) == props_end(lv, j as int),
                    section_props(lv, i + 1, j as int) == (section_type@, props@),
                decreases n - j,
            {
                assert(lv[j as int] == ls@[j as int]@);
                match property_exec(&ls[j]) {
                    Some((k, v)) => {
                        if chars_eq(&k, &type_key) {
                            section_type = v;
                        } else {
                            props.insert(string_of(&k), string_of(&v));
                        }
                    },
                    None => {},
                }
                j = j + 1;
            }
            let mut k = j;
            let mut content: Vec<char> = Vec::new();
            let nl = chars_of("\n");
            assert(content_of(lv, j as int, j as int) == content@);
            while k < n && !starts_with_exec(&ls[k], &any_heading)
                invariant
                    n == ls@.len(),
                    j <= k <= n,
                    lv == views(ls@),
                    any_heading@ == "## "@,
                    nl@ == "\n"@,
                    content_end(lv, j as int) == content_end(lv, k as int),
                    content_of(lv, j as int, k as int) == content@,
                decreases n - k,
            {
                assert(lv[k as int] == ls@[k as int]@);
                append_chars(&mut content, &ls[k]);
                append_chars(&mut content, &nl);
                assert(content_of(lv, j as int, k + 1) =~= content_of(lv, j as int, k as int)
                    + lv[k as int] + "\n"@);
                k = k + 1;
            }
            assert(props_end(lv, i + 1) == j);
            assert(content_end(lv, j as int) == k);
            let ghost o0 = out@;
            match section_type_exec(&section_type) {
                Some(st) => {
                    let trimmed = trim_exec(&content);
                    out.push(
                        Section {
                            name: string_of(&name),
                            section_type: st,
                            properties: props,
                            content: string_of(&trimmed),
                        },
                    );
                    assert(out@.map_values(|s: Section| s@) =~= o0.map_values(|s: Section| s@)
                        + seq![out@.last()@]);
                },
                None => {},
            }
            i = k;
        }
    }
    assert(sections_from(lv, n as int) == Seq::<SectionModel>::empty());
    assert(out@.map_values(|s: Section| s@) + Seq::<SectionModel>::empty() =~= out@.map_values(
        |s: Section| s@,
    ));
    out
}

/// The first line at or after `i` that starts a styling specification (`## Styling:`).
pub open spec fn styling_heading(ls: Seq<Seq<char>>, i: int) -> Option<int>
    decreases ls.len() - i,
{
    if i < 0 || i >= ls.len() {
        None
    } else if starts_with(ls[i], "## Styling:"@) {
        Some(i)
    } else {
        styling_heading(ls, i + 1)
    }
}

/// The value of the last `approach` property among the property lines `from..to`.
pub open spec fn approach_of(ls: Seq<Seq<char>>, from: int, to: int) -> Option<Seq<char>>
    decreases to - from,
{
    if to <= from {
        None
    } else {
        match property_of(ls[to - 1]) {
            Some(kv) => if kv.0 == "approach"@ {
                Some(kv.1)
            } else {
                approach_of(ls, from, to - 1)
            },
            None => approach_of(ls, from, to - 1),
        }
    }
}

/// Where the lines of a styling specification have got to: the subsection being read
/// (0 before any, then 1 for colors, 2 for typography, 3 for effects) and the three maps.
pub struct StyleState {
    pub current: int,
    pub colors: Map<Seq<char>, Seq<char>>,
    pub typography: Map<Seq<char>, Seq<char>>,
    pub effects: Map<Seq<char>, Seq<char>>,
}

/// What the lines `from..to` of a styling specification give: `### Colors`,
/// `### Typography` and `### Effects` lines select the map that the following property
/// lines go into; property lines before any of them are ignored.
pub open spec fn style_state(ls: Seq<Seq<char>>, from: int, to: int) -> StyleState
    decreases to - from,
{
    if to <= from {
        StyleState { current: 0, colors: Map::empty(), typography: Map::empty(), effects: Map::empty() }
    } else {
        let st = style_state(ls, from, to - 1);
        let line = ls[to - 1];
        if starts_with(line, "### Colors"@) {
            StyleState { current: 1, ..st }
        } else if starts_with(line, "### Typography"@) {
            StyleState { current: 2, ..st }
        } else if starts_with(line, "### Effects"@) {
            StyleState { current: 3, ..st }
        } else if starts_with(line, "- "@) && st.current != 0 && property_of(line) is Some {
            let kv = property_of(line)->0;
            if st.current == 1 {
                StyleState { colors: st.colors.insert(kv.0, kv.1), ..st }
            } else if st.current == 2 {
                StyleState { typography: st.typography.insert(kv.0, kv.1), ..st }
            } else {
                StyleState { effects: st.effects.insert(kv.0, kv.1), ..st }
            }
        } else {
            st
        }
    }
}

/// The styling specification of a template body, if it has one: the first
/// `## Styling: Name` heading, the `approach` among the property lines under it, and the
/// colors, typography and effects of its subsections, up to the next `## ` heading.
pub open spec fn style_spec_of(body: Seq<char>) -> Option<StyleSpecModel> {
    let ls = lines(body);
    match styling_heading(ls, 0) {
        None => None,
        Some(h) => {
            let j = props_end(ls, h + 1);
            let k = content_end(ls, j);
            let st = style_state(ls, j, k);
            Some(
                StyleSpecModel {
                    name: trim(trim_start_pat(ls[h], "## Styling:"@)),
                    approach: approach_of(ls, h + 1, j),
                    colors: st.colors,
                    typography: st.typography,
                    effects: st.effects,
                },
            )
        },
    }
}

/// The styling specification of a template body, if it has a `## Styling: Name`
/// heading: its name, the `approach` among the property lines under the heading, and the
/// `- key: value` lines of its `### Colors`, `### Typography` and `### Effects`
/// subsections, up to the next `## ` heading.
pub fn parse_style_spec(body: &str) -> (r: Option<StyleSpec>)
    ensures
        match r {
            Some(st) => style_spec_of(body@) == Some(st@),
            None => style_spec_of(body@) is None,
        },
{
    let b = chars_of(body);
    let ls = lines_exec(&b);
    let ghost lv = views(ls@);
    let heading = chars_of("## Styling:");
    let n = ls.len();
    let mut h: usize = 0;
    while h < n && !starts_with_exec(&ls[h], &heading)
        invariant
            n == ls@.len(),
            h <= n,
            lv == views(ls@),
            heading@ == "## Styling:"@,
            styling_heading(lv, 0) == styling_heading(lv, h as int),
        decreases n - h,
    {
        assert(lv[h as int] == ls@[h as int]@);
        h = h + 1;
    }
    if h >= n {
        return None;
    }
    assert(lv[h as int] == ls@[h as int]@);
    assert(styling_heading(lv, h as int) == Some(h as int));
    let name = trim_exec(&trim_start_pat_exec(&ls[h], &heading));
    let dash = chars_of("- ");
    let approach_key = chars_of("approach");
    let mut approach: Option<Vec<char>> = None;
    let mut j = h + 1;
    while j < n && starts_with_exec(&ls[j], &dash)
        invariant
            n == ls@.len(),
            h < j <= n,
            lv == views(ls@),
            dash@ == "- "@,
            approach_key@ == "approach"@,
            props_end(lv, h + 1) == props_end(lv, j as int),
            approach_of(lv, h + 1, j as int) == match approach {
                Some(a) => Some(a@),
                None => None,
            },
        decreases n - j,
    {
        assert(lv[j as int] == ls@[j as int]@);
        match property_exec(&ls[j]) {
            Some((k, v)) => {
                if chars_eq(&k, &approach_key) {
                    approach = Some(v);
                }
            },
            None => {},
        }
        j = j + 1;
    }
    assert(props_end(lv, h + 1) == j);
    let colors_tag = chars_of("### Colors");
    let typography_tag = chars_of("### Typography");
    let effects_tag = chars_of("### Effects");
    let any_heading = chars_of("## ");
    let mut current: u8 = 0;
    let mut colors = Values::new();
    let mut typography = Values::new();
    let mut effects = Values::new();
    let mut k = j;
    while k < n && !starts_with_exec(&ls[k], &any_heading)
        invariant
            n == ls@.len(),
            j <= k <= n,
            lv == views(ls@),
            dash@ == "- "@,
            any_heading@ == "## "@,
            colors_tag@ == "### Colors"@,
            typography_tag@ == "### Typography"@,
            effects_tag@ == "### Effects"@,
            content_end(lv, j as int) == content_end(lv, k as int),
            style_state(lv, j as int, k as int) == (StyleState {
                current: current as int,
                colors: colors@,
                typography: typography@,
                effects: effects@,
            }),
        decreases n - k,
    {
        assert(lv[k as int] == ls@[k as int]@);
        let line = &ls[k];
        if starts_with_exec(line, &colors_tag) {
            current = 1;
        } else if starts_with_exec(line, &typography_tag) {
            current = 2;
        } else if starts_with_exec(line, &effects_tag) {
            current = 3;
        } else if starts_with_exec(line, &dash) && current != 0 {
            match property_exec(line) {
                Some((key, value)) => {
                    if current == 1 {
                        colors.insert(string_of(&key), string_of(&value));
                    } else if current == 2 {
                        typography.insert(string_of(&key), string_of(&value));
                    } else {
                        effects.insert(string_of(&key), string_of(&value));
                    }
                },
                None => {},
            }
        }
        k = k + 1;
    }
    assert(content_end(lv, j as int) == k);
    let approach_string = match approach {
        Some(a) => Some(string_of(&a)),
        None => None,
    };
    Some(
        StyleSpec {
            name: string_of(&name),
            approach: approach_string,
            colors,
            typography,
            effects,
        },
    )
}

} // verus!
