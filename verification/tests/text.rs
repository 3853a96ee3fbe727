use markdown_boxes::text::{chars_of, parse_usize_exec, replace_all_exec, split_exec, string_of, trim_exec};

fn parse(s: &str) -> Option<usize> {
    parse_usize_exec(&chars_of(s))
}

#[test]
fn parse_usize_like_std() {
    for s in ["0", "42", "+7", "007", "", "+", "-1", "1a", " 1", "99999999999999999999999", "١"] {
        assert_eq!(parse(s), s.parse::<usize>().ok(), "input {:?}", s);
    }
    assert_eq!(parse(&usize::MAX.to_string()), Some(usize::MAX));
}

#[test]
fn trim_like_std() {
    for s in ["  a b  ", "\t\n x\u{3000}", "", "   ", "\u{85}y\u{a0}", "z"] {
        assert_eq!(string_of(&trim_exec(&chars_of(s))), s.trim(), "input {:?}", s);
    }
}

#[test]
fn split_like_std() {
    for (s, sep) in [("a,b,,c", ","), ("", ","), ("x as y as z", " as "), ("abc", "|"), (",", ",")] {
        let pieces: Vec<String> = split_exec(&chars_of(s), &chars_of(sep))
            .iter()
            .map(|p| string_of(p))
            .collect();
        let expected: Vec<String> = s.split(sep).map(|p| p.to_string()).collect();
        assert_eq!(pieces, expected);
    }
}

#[test]
fn replace_like_std() {
    for (s, from, to) in [("{{i}} and {{i}}", "{{i}}", "x"), ("aaa", "aa", "b"), ("none", "zz", "q")] {
        let r = replace_all_exec(&chars_of(s), &chars_of(from), &chars_of(to));
        assert_eq!(string_of(&r), s.replace(from, to));
    }
}
