use noogle::details::{parse_doc, render_doc, format_code_block, Color, StyledLine, TextStyle};
use noogle::model::{ContentSource, DocItem, DocumentFrontmatter, FilePosition, PrimopMatter};

fn mock_doc(title: &str, content: Option<&str>, primop: bool) -> DocItem {
    DocItem {
        meta: DocumentFrontmatter {
            title: title.to_string(),
            path: vec![],
            aliases: None,
            signature: Some("test :: a -> b".to_string()),
            is_primop: Some(primop),
            primop_meta: if primop {
                Some(PrimopMatter {
                    name: Some("test".to_string()),
                    args: Some(vec!["a".to_string(), "b".to_string()]),
                    experimental: None,
                    arity: Some(2),
                })
            } else {
                None
            },
            is_functor: None,
            attr_position: None,
            attr_expr: Some("impl = ...\nline 2".to_string()),
            lambda_position: None,
            lambda_expr: None,
            count_applied: None,
            content_meta: None,
        },
        content: Some(ContentSource { content: content.map(|s| s.to_string()), source: None }),
    }
}

fn texts(lines: &[StyledLine]) -> Vec<String> {
    lines.iter().map(|l| l.content.clone()).collect()
}

fn plain() -> TextStyle {
    TextStyle { fg: None, bg: None, bold: false, italic: false, underlined: false }
}

#[test]
fn test_parse_simple() {
    let content = "Desc\n\n# Inputs\n\nInp\n\n# Type\n\nTyp\n\n# Examples\n\nEx";
    let doc = mock_doc("test", Some(content), false);
    let parsed = parse_doc(&doc);
    assert_eq!(parsed.description, "Desc");
    assert_eq!(parsed.inputs[0], "Inp");
    assert_eq!(parsed.type_info, Some("Typ".to_string()));
    assert_eq!(parsed.examples, Some("Ex".to_string()));
}

#[test]
fn test_render_inputs_formatting() {
    let content = "Desc\n\n# Inputs\n\n`arg`\n: 1\\. Desc";
    let doc = mock_doc("test", Some(content), false);
    let (text, _) = render_doc(&doc);
    let output = format!("{:?}", text);
    assert!(output.contains("1. Desc"));
    assert!(!output.contains("1\\. Desc"));
}

#[test]
fn test_render_multiline_impl() {
    let doc = mock_doc("test", None, false);
    let (text, _) = render_doc(&doc);
    let output = format!("{:?}", text);
    assert!(output.contains("impl = ..."));
    assert!(output.contains("line 2"));
}

#[test]
fn parse_without_content_falls_back_to_signature() {
    let doc = mock_doc("test", None, false);
    let parsed = parse_doc(&doc);
    assert_eq!(parsed.description, "");
    assert!(parsed.inputs.is_empty());
    assert_eq!(parsed.type_info, Some("test :: a -> b".to_string()));
    assert_eq!(parsed.examples, None);
}

#[test]
fn parse_primop_summarises_arguments() {
    let doc = mock_doc("test", Some("Just text"), true);
    let parsed = parse_doc(&doc);
    assert_eq!(parsed.description, "Just text");
    assert_eq!(parsed.inputs, vec!["Takes 2 arguments\n\na, b".to_string()]);
}

#[test]
fn parse_type_section_loses_fences_and_later_sections_win() {
    let content = "# Type\n\n```\nmap :: (a -> b) -> [a] -> [b]\n```\n# Other\nignored\n# Type\n```nix\nx :: int\n```";
    let doc = mock_doc("test", Some(content), false);
    let parsed = parse_doc(&doc);
    assert_eq!(parsed.type_info, Some("nix\nx :: int".to_string()));
    assert_eq!(parsed.description, "");
}

#[test]
fn parse_header_needs_white_space_after_hash_at_line_start() {
    let content = "intro #  Inputs\n#Inputs\n  # Inputs\n# \t Examples  \nbody ";
    let doc = mock_doc("test", Some(content), false);
    let parsed = parse_doc(&doc);
    assert_eq!(parsed.description, "intro #  Inputs\n#Inputs\n  # Inputs");
    assert_eq!(parsed.examples, Some("body".to_string()));
    assert!(parsed.inputs.is_empty());
}

#[test]
fn parse_header_white_space_may_span_lines() {
    let content = "before\n# \n\nInputs\nafter";
    let doc = mock_doc("test", Some(content), false);
    let parsed = parse_doc(&doc);
    assert_eq!(parsed.description, "before");
    assert_eq!(parsed.inputs, vec!["after".to_string()]);
}

#[test]
fn render_full_layout() {
    let content = "Desc\n\n# Inputs\n\n`f`\n: the function\nplain\n\n# Examples\n\n## Example\n```nix\nmap f [1]\n```\nafter";
    let mut doc = mock_doc("lib.map", Some(content), false);
    doc.meta.aliases = Some(vec![vec!["lib".to_string(), "lists".to_string(), "map".to_string()]]);
    doc.meta.attr_position = Some(FilePosition { file: "/nix/lib.nix".to_string(), line: 3, column: 1 });
    let (text, url) = render_doc(&doc);
    let expected: Vec<&str> = vec![
        "lib.map", "", "Desc", "", "Inputs", "", "f", "  the function", "plain", "", "Type", "",
        " test :: a -> b ", "", "Examples", "", "Example", " map f [1] ", "after", "", "Aliases", "",
        "• lib.lists.map", "", "Implementation", "", "Tip", "",
        "The following is the current implementation of this function.", "", " impl = ... ",
        " line 2 ", "",
    ];
    assert_eq!(texts(&text.lines), expected);
    assert_eq!(url, Some("file:///nix/lib.nix".to_string()));
    assert_eq!(text.lines[0].style.fg, Some(Color::Magenta));
    assert!(text.lines[0].style.bold && text.lines[0].style.underlined);
    assert_eq!(text.lines[4].style.fg, Some(Color::Blue));
    assert_eq!(text.lines[6].style.fg, Some(Color::Cyan));
    assert!(text.lines[6].style.italic);
    assert_eq!(text.lines[7].style, plain());
    assert_eq!(text.lines[12].style.bg, Some(Color::Rgb(30, 30, 30)));
    assert!(text.lines[16].style.bold && text.lines[16].style.underlined);
    assert_eq!(text.lines[17].style.bg, Some(Color::Rgb(30, 30, 30)));
    assert_eq!(text.lines[18].style, plain());
    assert_eq!(text.lines[26].style.fg, Some(Color::Green));
}

#[test]
fn render_primop() {
    let doc = mock_doc("builtins.test", None, true);
    let (text, url) = render_doc(&doc);
    let expected: Vec<&str> = vec![
        "builtins.test", "", "Inputs", "", "Takes 2 arguments", "", "a, b", "", "Type", "",
        " test :: a -> b ", "", "Implementation", "", "Tip", "",
        "This function is implemented in c++ and is part of the native nix runtime.", "",
    ];
    assert_eq!(texts(&text.lines), expected);
    assert_eq!(url, None);
    assert!(text.lines[16].style.italic);
}

#[test]
fn render_without_anything_optional() {
    let mut doc = mock_doc("x", None, false);
    doc.meta.signature = None;
    doc.meta.attr_expr = None;
    doc.meta.is_primop = None;
    doc.meta.aliases = Some(vec![]);
    let (text, _) = render_doc(&doc);
    assert_eq!(texts(&text.lines), vec!["x", "", "Implementation", "", ""]);
}

#[test]
fn code_block_frames_each_line() {
    let lines = format_code_block("a\r\nb\n\nc\n");
    assert_eq!(texts(&lines), vec![" a ", " b ", "  ", " c "]);
    assert!(format_code_block("").is_empty());
}
