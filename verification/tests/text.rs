use noogle::sections::{find_header, skip_white};
use noogle::text::{
    chars_of, find_newline, join_strings, push_decimal, replace_chars, split_lines, string_from,
    strip_leading_chars, trim_chars, white_space,
};
use regex::Regex;
use noogle::details::render_doc;
use noogle::model::{ContentSource, Document, DocumentFrontmatter};

fn s(v: &[char]) -> String {
    v.iter().collect()
}

#[test]
fn white_space_agrees_with_std_on_every_char() {
    for n in 0u32..=0x10ffff {
        if let Some(c) = char::from_u32(n) {
            assert_eq!(white_space(c), c.is_whitespace(), "at {:#x}", n);
        }
    }
}

#[test]
fn trim_agrees_with_std() {
    for t in ["", "  ", " a ", "\u{a0}x y\u{3000}", "\n\tab\r\n", "a"] {
        let v = chars_of(t);
        assert_eq!(s(&trim_chars(&v)), t.trim());
    }
}

#[test]
fn lines_agree_with_std() {
    for t in ["", "a", "a\n", "a\nb", "a\r\nb\r\n", "\n\n", "a\rb\r", "x\r", "\r\n"] {
        let v = chars_of(t);
        let got: Vec<String> = split_lines(&v).iter().map(|l| s(l)).collect();
        let want: Vec<String> = t.lines().map(|l| l.to_string()).collect();
        assert_eq!(got, want, "for {:?}", t);
    }
}

#[test]
fn replace_agrees_with_std() {
    for (t, p, r) in [
        ("a```b", "```", ""),
        ("``````", "```", ""),
        ("````", "```", ""),
        ("1\\. x\\.", "\\.", "."),
        ("aaa", "aa", "b"),
        ("", "x", "y"),
    ] {
        let got = replace_chars(&chars_of(t), &chars_of(p), &chars_of(r));
        assert_eq!(s(&got), t.replace(p, r));
    }
}

#[test]
fn strip_and_join() {
    assert_eq!(s(&strip_leading_chars(&chars_of("### x#"), '#')), " x#");
    let parts = vec!["a".to_string(), "bc".to_string(), "".to_string()];
    assert_eq!(s(&join_strings(&parts, &chars_of(", "))), parts.join(", "));
    assert_eq!(s(&join_strings(&[], &chars_of("."))), "");
    assert_eq!(string_from(&chars_of("héllo")), "héllo");
}

#[test]
fn decimal_notation() {
    for n in [0usize, 7, 10, 42, 1000, 987654321, usize::MAX] {
        let mut v = chars_of("#");
        push_decimal(&mut v, n);
        assert_eq!(s(&v), format!("#{}", n));
    }
}

/// The headers of `text` as the section grammar finds them: for each, where
/// it begins, where its name begins and ends (character indices).
fn headers(text: &str) -> Vec<(usize, usize, usize)> {
    let v = chars_of(text);
    let mut out = Vec::new();
    let mut pos = 0;
    loop {
        let k = find_header(&v, pos);
        if k == v.len() {
            break;
        }
        let j = skip_white(&v, k + 1);
        let e = find_newline(&v, j);
        out.push((k, j, e));
        pos = e;
    }
    out
}

/// The headers of `text` as the regular expression `(?m)^#\s+(.*)$` finds them.
fn regex_headers(text: &str) -> Vec<(usize, usize, usize)> {
    let re = Regex::new(r"(?m)^#\s+(.*)$").unwrap();
    let ci = |b: usize| text[..b].chars().count();
    re.captures_iter(text)
        .map(|c| {
            let m = c.get(0).unwrap();
            let g = c.get(1).unwrap();
            assert_eq!(m.end(), g.end());
            (ci(m.start()), ci(g.start()), ci(g.end()))
        })
        .collect()
}

#[test]
fn header_grammar_agrees_with_regex() {
    let samples = [
        "Desc\n\n# Inputs\n\nInp\n\n# Type\n\nTyp\n\n# Examples\n\nEx",
        "# A\n# B",
        "#A\n #B\n# \n\n C \nx",
        "x # y\n#\ty\u{3000}z\n",
        "# \u{2003}é\r\nbody",
        "#",
        "# ",
        "#\n#\n",
        "",
        "## not\n# yes\n",
    ];
    for t in samples {
        assert_eq!(headers(t), regex_headers(t), "for {:?}", t);
    }
}

#[test]
fn input_line_rules_agree_with_regex() {
    let arg = Regex::new(r"^`([^`]+)`$").unwrap();
    let desc = Regex::new(r"^:\s*(.*)$").unwrap();
    for line in ["`a`", "``", "`a`b`", "`x y`", ": d\\.e", ":", ":   ", "plain", " `t` ", "`\u{e9}`"] {
        let doc = Document {
            meta: DocumentFrontmatter {
                title: "t".to_string(),
                path: vec![],
                aliases: None,
                signature: None,
                is_primop: None,
                primop_meta: None,
                is_functor: None,
                attr_position: None,
                attr_expr: None,
                lambda_position: None,
                lambda_expr: None,
                count_applied: None,
                content_meta: None,
            },
            content: Some(ContentSource {
                content: Some(format!("# Inputs\n{}\nend", line)),
                source: None,
            }),
        };
        let (text, _) = render_doc(&doc);
        let shown = &text.lines[4].content;
        let l = line.trim();
        let want = if let Some(c) = arg.captures(l) {
            c.get(1).unwrap().as_str().to_string()
        } else if let Some(c) = desc.captures(l) {
            format!("  {}", c.get(1).unwrap().as_str().replace(r"\.", "."))
        } else {
            l.to_string()
        };
        assert_eq!(shown, &want, "for {:?}", line);
    }
}
