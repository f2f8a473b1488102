use vstd::prelude::*;
use crate::model::Document;
use crate::sections::{
    Section, description_section, examples_section, find_header, inputs_section,
    lemma_header_bounds, lemma_next_header, section_text, sections, sections_from, skip_white,
    type_section,
};
use crate::sections::{lemma_white_run_end, white_run_end};
use crate::text::{
    chars_eq, chars_of, decimal, find_newline, join, join_strings, lines, occurs_at, push_all,
    push_decimal, replace_all, replace_chars, replace_from, lemma_trim_is_subrange, split_lines, starts_with, starts_with_exec, string_from,
    string_views, strip_leading, strip_leading_chars, trim, trim_chars, trim_range, views,
};

verus! {

broadcast use vstd::string::group_string_axioms;

// ---------------------------------------------------------------------------
// Parsing a document into its parts
// ---------------------------------------------------------------------------

/// The parts of a document that the detail view shows.
#[derive(Debug, PartialEq)]
pub struct ParsedDoc {
    pub description: String,
    pub inputs: Vec<String>,
    pub type_info: Option<String>,
    pub examples: Option<String>,
}

/// A `ParsedDoc` as character sequences.
pub struct ParsedView {
    pub description: Seq<char>,
    pub inputs: Seq<Seq<char>>,
    pub type_info: Option<Seq<char>>,
    pub examples: Option<Seq<char>>,
}

/// The characters of an optional string.
pub open spec fn opt_view(s: Option<String>) -> Option<Seq<char>> {
    match s {
        Some(t) => Some(t@),
        None => None,
    }
}

impl View for ParsedDoc {
    type V = ParsedView;

    open spec fn view(&self) -> ParsedView {
        ParsedView {
            description: self.description@,
            inputs: string_views(self.inputs@),
            type_info: opt_view(self.type_info),
            examples: opt_view(self.examples),
        }
    }
}

/// The text of a document, or nothing where it has none.
pub open spec fn doc_text(d: Document) -> Seq<char> {
    match d.content_view() {
        Some(c) => c,
        None => seq![],
    }
}

/// The argument names of a builtin, where the document records them.
pub open spec fn primop_args(d: Document) -> Option<Seq<Seq<char>>> {
    match d.meta.primop_meta {
        Some(m) => match m.args {
            Some(a) => Some(string_views(a@)),
            None => None,
        },
        None => None,
    }
}

pub open spec fn takes_word() -> Seq<char> {
    seq!['T', 'a', 'k', 'e', 's', ' ']
}

pub open spec fn arguments_word() -> Seq<char> {
    seq![' ', 'a', 'r', 'g', 'u', 'm', 'e', 'n', 't', 's']
}

pub open spec fn blank_line() -> Seq<char> {
    seq!['\n', '\n']
}

pub open spec fn comma_sep() -> Seq<char> {
    seq![',', ' ']
}

pub open spec fn code_fence() -> Seq<char> {
    seq!['`', '`', '`']
}

/// "Takes N arguments", where N is the number of arguments.
pub open spec fn arg_count_line(n: nat) -> Seq<char> {
    takes_word() + decimal(n) + arguments_word()
}

/// The summary of a builtin's arguments: their count, a blank line, and
/// their names separated by commas.
pub open spec fn args_summary(args: Seq<Seq<char>>) -> Seq<char> {
    arg_count_line(args.len()) + blank_line() + join(args, comma_sep())
}

/// What `parse_doc` gives for `d`.
///
/// The description, inputs, type and examples are the texts of the last
/// sections of those names. Without an inputs section the inputs fall back
/// to the builtin's argument summary; without a type section the type falls
/// back to the trimmed signature, and a type section loses its code fences.
pub open spec fn parsed_view(d: Document) -> ParsedView {
    let secs = sections(doc_text(d));
    let inputs_text = section_text(secs, inputs_section());
    let type_text = section_text(secs, type_section());
    let examples_text = section_text(secs, examples_section());
    ParsedView {
        description: section_text(secs, description_section()),
        inputs: if inputs_text.len() > 0 {
            seq![inputs_text]
        } else {
            match primop_args(d) {
                Some(a) => seq![args_summary(a)],
                None => seq![],
            }
        },
        type_info: if type_text.len() > 0 {
            Some(trim(replace_all(type_text, code_fence(), seq![])))
        } else {
            match d.meta.signature {
                Some(sig) => Some(trim(sig@)),
                None => None,
            }
        },
        examples: if examples_text.len() > 0 {
            Some(examples_text)
        } else {
            None
        },
    }
}

/// The texts of the four sections that the detail view knows.
struct SectionTexts {
    description: Vec<char>,
    inputs: Vec<char>,
    type_text: Vec<char>,
    examples: Vec<char>,
}

impl SectionTexts {
    spec fn holds(&self, secs: Seq<Section>) -> bool {
        &&& self.description@ == section_text(secs, description_section())
        &&& self.inputs@ == section_text(secs, inputs_section())
        &&& self.type_text@ == section_text(secs, type_section())
        &&& self.examples@ == section_text(secs, examples_section())
    }

    /// Records the text of a section called `name`.
    fn record(&mut self, name: &Vec<char>, text: Vec<char>, Ghost(secs): Ghost<Seq<Section>>)
        requires
            old(self).holds(secs),
        ensures
            final(self).holds(secs.push((name@, text@))),
    {
        let ghost next = secs.push((name@, text@));
        assert(next.drop_last() == secs);
        let d = vec!['D', 'e', 's', 'c', 'r', 'i', 'p', 't', 'i', 'o', 'n'];
        let i = vec!['I', 'n', 'p', 'u', 't', 's'];
        let t = vec!['T', 'y', 'p', 'e'];
        let e = vec!['E', 'x', 'a', 'm', 'p', 'l', 'e', 's'];
        assert(d@ == description_section());
        assert(i@ == inputs_section());
        assert(t@ == type_section());
        assert(e@ == examples_section());
        if chars_eq(name, &d) {
            self.description = text;
        } else if chars_eq(name, &i) {
            self.inputs = text;
        } else if chars_eq(name, &t) {
            self.type_text = text;
        } else if chars_eq(name, &e) {
            self.examples = text;
        }
    }
}

/// The texts of the description, inputs, type and examples sections of `v`.
fn split_sections(v: &Vec<char>) -> (r: SectionTexts)
    ensures
        r.holds(sections(v@)),
{
    let mut texts = SectionTexts {
        description: Vec::new(),
        inputs: Vec::new(),
        type_text: Vec::new(),
        examples: Vec::new(),
    };
    let mut cur: Vec<char> = vec!['D', 'e', 's', 'c', 'r', 'i', 'p', 't', 'i', 'o', 'n'];
    assert(cur@ == description_section());
    let mut pos: usize = 0;
    let ghost mut done: Seq<Section> = seq![];
    loop
        invariant
            pos <= v@.len(),
            sections(v@) == done + sections_from(v@, pos as int, cur@),
            texts.holds(done),
        decreases v@.len() - pos,
    {
        let k = find_header(v, pos);
        proof {
            lemma_next_header(v@, pos as int);
        }
        let text = trim_range(v, pos, k);
        let ghost entry = (cur@, text@);
        texts.record(&cur, text, Ghost(done));
        if k == v.len() {
            proof {
                assert(sections_from(v@, pos as int, cur@) == seq![entry]);
                assert(done + seq![entry] == done.push(entry));
                done = done.push(entry);
            }
            return texts;
        }
        proof {
            lemma_header_bounds(v@, k as int);
        }
        let j = skip_white(v, k + 1);
        let e = find_newline(v, j);
        let name = trim_range(v, j, e);
        proof {
            assert(sections_from(v@, pos as int, cur@) == seq![entry] + sections_from(
                v@,
                e as int,
                name@,
            ));
            assert(done + (seq![entry] + sections_from(v@, e as int, name@)) == done.push(entry)
                + sections_from(v@, e as int, name@));
            done = done.push(entry);
        }
        cur = name;
        pos = e;
    }
}

/// The summary of a builtin's arguments.
fn args_summary_exec(args: &Vec<String>) -> (r: Vec<char>)
    ensures
        r@ == args_summary(string_views(args@)),
{
    let mut r = vec!['T', 'a', 'k', 'e', 's', ' '];
    assert(r@ == takes_word());
    push_decimal(&mut r, args.len());
    let tail = vec![' ', 'a', 'r', 'g', 'u', 'm', 'e', 'n', 't', 's', '\n', '\n'];
    assert(tail@ == arguments_word() + blank_line());
    push_all(&mut r, &tail);
    let sep = vec![',', ' '];
    assert(sep@ == comma_sep());
    let joined = join_strings(args.as_slice(), &sep);
    push_all(&mut r, &joined);
    assert(string_views(args@).len() == args@.len());
    r
}

/// Splits a document's text into the parts that the detail view shows.
pub fn parse_doc(item: &Document) -> (p: ParsedDoc)
    ensures
        p@ == parsed_view(*item),
{
    let content = match item.content() {
        Some(s) => chars_of(s.as_str()),
        None => Vec::new(),
    };
    assert(content@ == doc_text(*item));
    let texts = split_sections(&content);

    let mut inputs: Vec<String> = Vec::new();
    if texts.inputs.len() > 0 {
        inputs.push(string_from(&texts.inputs));
        assert(string_views(inputs@) == seq![texts.inputs@]);
    } else {
        match &item.meta.primop_meta {
            Some(m) => match &m.args {
                Some(args) => {
                    inputs.push(string_from(&args_summary_exec(args)));
                    assert(string_views(inputs@) == seq![args_summary(string_views(args@))]);
                },
                None => {},
            },
            None => {},
        }
        assert(string_views(inputs@) == parsed_view(*item).inputs);
    }

    let type_info = if texts.type_text.len() > 0 {
        let fence = vec!['`', '`', '`'];
        assert(fence@ == code_fence());
        let none: Vec<char> = Vec::new();
        let stripped = replace_chars(&texts.type_text, &fence, &none);
        Some(string_from(&trim_chars(&stripped)))
    } else {
        match &item.meta.signature {
            Some(sig) => Some(string_from(&trim_chars(&chars_of(sig.as_str())))),
            None => None,
        }
    };

    let examples = if texts.examples.len() > 0 {
        Some(string_from(&texts.examples))
    } else {
        None
    };

    ParsedDoc { description: string_from(&texts.description), inputs, type_info, examples }
}

// ---------------------------------------------------------------------------
// Styled lines
// ---------------------------------------------------------------------------

/// A colour of text or of its background.
#[derive(Debug, Clone, Copy, PartialEq, Eq)]
pub enum Color {
    Magenta,
    Blue,
    Cyan,
    Green,
    Rgb(u8, u8, u8),
}

/// How a line of text is drawn.
#[derive(Debug, Clone, Copy, PartialEq, Eq)]
pub struct TextStyle {
    pub fg: Option<Color>,
    pub bg: Option<Color>,
    pub bold: bool,
    pub italic: bool,
    pub underlined: bool,
}

/// One line of the detail view: its text and its style.
#[derive(Debug, Clone)]
pub struct StyledLine {
    pub content: String,
    pub style: TextStyle,
}

/// A line as its characters and its style.
pub type LineView = (Seq<char>, TextStyle);

impl View for StyledLine {
    type V = LineView;

    open spec fn view(&self) -> LineView {
        (self.content@, self.style)
    }
}

/// The lines of the detail view, top to bottom.
#[derive(Debug, Clone)]
pub struct StyledText {
    pub lines: Vec<StyledLine>,
}

/// The views of a sequence of lines.
pub open spec fn line_views(v: Seq<StyledLine>) -> Seq<LineView> {
    v.map_values(|l: StyledLine| l@)
}

pub open spec fn style_of(
    fg: Option<Color>,
    bg: Option<Color>,
    bold: bool,
    italic: bool,
    underlined: bool,
) -> TextStyle {
    TextStyle { fg, bg, bold, italic, underlined }
}

/// Text as it comes.
pub open spec fn plain_style() -> TextStyle {
    style_of(None, None, false, false, false)
}

/// The document's title.
pub open spec fn title_style() -> TextStyle {
    style_of(Some(Color::Magenta), None, true, false, true)
}

/// The heading of a part of the view.
pub open spec fn header_style() -> TextStyle {
    style_of(Some(Color::Blue), None, true, false, true)
}

/// The name of an input.
pub open spec fn arg_style() -> TextStyle {
    style_of(Some(Color::Cyan), None, false, true, false)
}

/// A line of code.
pub open spec fn code_style() -> TextStyle {
    style_of(None, Some(Color::Rgb(30, 30, 30)), false, false, false)
}

/// Bold text.
pub open spec fn bold_style() -> TextStyle {
    style_of(None, None, true, false, false)
}

/// A heading inside the examples.
pub open spec fn subheading_style() -> TextStyle {
    style_of(None, None, true, false, true)
}

/// The word "Tip".
pub open spec fn tip_style() -> TextStyle {
    style_of(Some(Color::Green), None, true, false, false)
}

/// The sentence after "Tip".
pub open spec fn tip_text_style() -> TextStyle {
    style_of(Some(Color::Green), None, false, true, false)
}

fn make_style(
    fg: Option<Color>,
    bg: Option<Color>,
    bold: bool,
    italic: bool,
    underlined: bool,
) -> (s: TextStyle)
    ensures
        s == style_of(fg, bg, bold, italic, underlined),
{
    TextStyle { fg, bg, bold, italic, underlined }
}

/// A line of text as it comes.
pub open spec fn plain(t: Seq<char>) -> LineView {
    (t, plain_style())
}

/// An empty line.
pub open spec fn blank() -> LineView {
    plain(seq![])
}

// ---------------------------------------------------------------------------
// The parts of the detail view
// ---------------------------------------------------------------------------

/// The lines of `text`, each framed by a space on either side, drawn as code.
pub open spec fn code_block(text: Seq<char>) -> Seq<LineView> {
    lines(text).map_values(|l: Seq<char>| (seq![' '] + l + seq![' '], code_style()))
}

/// Whether a (trimmed) line names an input: a name in backquotes, with no
/// backquote inside.
pub open spec fn is_arg_line(l: Seq<char>) -> bool {
    &&& l.len() >= 3
    &&& l[0] == '`'
    &&& l.last() == '`'
    &&& forall|k: int| 1 <= k < l.len() - 1 ==> l[k] != '`'
}

/// Whether a (trimmed) line describes an input: a colon, then white space,
/// then the description up to the end of the line.
pub open spec fn is_arg_description(l: Seq<char>) -> bool {
    &&& l.len() > 0
    &&& l[0] == ':'
    &&& forall|k: int| white_run_end(l, 1) <= k < l.len() ==> l[k] != '\n'
}

/// How a trimmed line of the inputs is shown: an input's name in its own
/// style, a description indented with its escaped dots restored, anything
/// else as it is.
pub open spec fn input_line(l: Seq<char>) -> LineView {
    if is_arg_line(l) {
        (l.subrange(1, l.len() - 1), arg_style())
    } else if is_arg_description(l) {
        plain(
            "  "@ + replace_all(l.subrange(white_run_end(l, 1), l.len() as int), "\\."@, "."@),
        )
    } else {
        plain(l)
    }
}

/// The lines that show one input text.
pub open spec fn input_lines(text: Seq<char>) -> Seq<LineView> {
    lines(text).map_values(|l: Seq<char>| input_line(trim(l)))
}

/// The lines that show all the input texts, in order.
pub open spec fn all_input_lines(inputs: Seq<Seq<char>>) -> Seq<LineView>
    decreases inputs.len(),
{
    if inputs.len() == 0 {
        seq![]
    } else {
        all_input_lines(inputs.drop_last()) + input_lines(inputs.last())
    }
}

/// The inputs part: the parsed inputs where there are any, else the
/// builtin's argument count and names where the document records them.
pub open spec fn inputs_part(d: Document, p: ParsedView) -> Seq<LineView> {
    if p.inputs.len() > 0 {
        seq![("Inputs"@, header_style()), blank()] + all_input_lines(p.inputs) + seq![blank()]
    } else {
        match primop_args(d) {
            Some(args) => seq![
                ("Inputs"@, header_style()),
                blank(),
                plain(arg_count_line(args.len())),
                blank(),
                (join(args, comma_sep()), bold_style()),
                blank(),
            ],
            None => seq![],
        }
    }
}

/// The lines that show the examples from line `ls[0]` on, where `in_code`
/// tells whether a code block is open. A fence line opens or closes a code
/// block and is not shown; a line that starts with `##` is a heading.
pub open spec fn example_lines(ls: Seq<Seq<char>>, in_code: bool) -> Seq<LineView>
    decreases ls.len(),
{
    if ls.len() == 0 {
        seq![]
    } else {
        let l = ls[0];
        let rest = ls.drop_first();
        if starts_with(l, "```"@) || starts_with(l, ":::"@) {
            example_lines(rest, !in_code)
        } else if starts_with(l, "##"@) {
            seq![(trim(strip_leading(l, '#')), subheading_style())] + example_lines(rest, in_code)
        } else if in_code {
            seq![(seq![' '] + l + seq![' '], code_style())] + example_lines(rest, in_code)
        } else {
            seq![plain(l)] + example_lines(rest, in_code)
        }
    }
}

/// The aliases of a document as dotted paths.
pub open spec fn alias_views(al: Seq<Vec<String>>) -> Seq<Seq<Seq<char>>> {
    al.map_values(|a: Vec<String>| string_views(a@))
}

/// The aliases part: one bulleted dotted path per alias.
pub open spec fn aliases_part(d: Document) -> Seq<LineView> {
    match d.meta.aliases {
        Some(al) => if al@.len() > 0 {
            seq![("Aliases"@, header_style()), blank()] + alias_views(al@).map_values(
                |a: Seq<Seq<char>>| plain("• "@ + join(a, "."@)),
            ) + seq![blank()]
        } else {
            seq![]
        },
        None => seq![],
    }
}

pub open spec fn native_note() -> Seq<char> {
    "This function is implemented in c++ and is part of the native nix runtime."@
}

pub open spec fn source_note() -> Seq<char> {
    "The following is the current implementation of this function."@
}

/// The implementation part: a note for a builtin, else the implementation's
/// source where the document records it.
pub open spec fn implementation_part(d: Document) -> Seq<LineView> {
    seq![("Implementation"@, header_style()), blank()] + (if d.meta.is_primop == Some(true) {
        seq![("Tip"@, tip_style()), blank(), (native_note(), tip_text_style())]
    } else {
        match d.meta.attr_expr {
            Some(expr) => seq![("Tip"@, tip_style()), blank(), (source_note(), tip_text_style()), blank()]
                + code_block(expr@),
            None => seq![],
        }
    }) + seq![blank()]
}

/// The description part: the description where there is one.
pub open spec fn description_part(p: ParsedView) -> Seq<LineView> {
    if p.description.len() > 0 {
        seq![plain(p.description), blank()]
    } else {
        seq![]
    }
}

/// The type part: the type drawn as code where there is one.
pub open spec fn type_part(p: ParsedView) -> Seq<LineView> {
    match p.type_info {
        Some(t) => seq![("Type"@, header_style()), blank()] + code_block(t) + seq![blank()],
        None => seq![],
    }
}

/// The examples part, where there are examples.
pub open spec fn examples_part(p: ParsedView) -> Seq<LineView> {
    match p.examples {
        Some(ex) => seq![("Examples"@, header_style()), blank()] + example_lines(lines(ex), false)
            + seq![blank()],
        None => seq![],
    }
}

/// The lines of the detail view of `d`, top to bottom: title, description,
/// inputs, type, examples, aliases and implementation.
pub open spec fn rendered_lines(d: Document) -> Seq<LineView> {
    let p = parsed_view(d);
    seq![(d.title_view(), title_style()), blank()] + description_part(p) + inputs_part(d, p)
        + type_part(p) + examples_part(p) + aliases_part(d) + implementation_part(d)
}

/// The link to the document's source file, where its position is known.
pub open spec fn source_link(d: Document) -> Option<Seq<char>> {
    match d.meta.attr_position {
        Some(pos) => Some("file://"@ + pos.file@),
        None => None,
    }
}

// ---------------------------------------------------------------------------
// Building the detail view
// ---------------------------------------------------------------------------

fn push_line(out: &mut Vec<StyledLine>, content: String, style: TextStyle)
    ensures
        line_views(final(out)@) == line_views(old(out)@).push((content@, style)),
{
    let ghost before = out@;
    out.push(StyledLine { content, style });
    assert(line_views(out@) == line_views(before).push((content@, style)));
}

fn push_chars(out: &mut Vec<StyledLine>, content: &[char], style: TextStyle)
    ensures
        line_views(final(out)@) == line_views(old(out)@).push((content@, style)),
{
    push_line(out, string_from(content), style);
}

fn push_blank(out: &mut Vec<StyledLine>)
    ensures
        line_views(final(out)@) == line_views(old(out)@).push(blank()),
{
    push_line(out, String::new(), make_style(None, None, false, false, false));
}

fn push_header(out: &mut Vec<StyledLine>, word: &str)
    ensures
        line_views(final(out)@) == line_views(old(out)@) + seq![(word@, header_style()), blank()],
{
    let ghost before = line_views(out@);
    push_line(out, word.to_string(), make_style(Some(Color::Blue), None, true, false, true));
    push_blank(out);
    assert(line_views(out@) == before + seq![(word@, header_style()), blank()]);
}

/// `l` framed by a space on either side.
fn framed(l: &[char]) -> (r: Vec<char>)
    ensures
        r@ == seq![' '] + l@ + seq![' '],
{
    let mut r: Vec<char> = Vec::new();
    r.push(' ');
    push_all(&mut r, l);
    r.push(' ');
    r
}

/// Appends the lines of `text` as code.
fn push_code_block(out: &mut Vec<StyledLine>, text: &[char])
    ensures
        line_views(final(out)@) == line_views(old(out)@) + code_block(text@),
{
    let ls = split_lines(text);
    let ghost base = line_views(out@);
    let ghost target = code_block(text@);
    let mut j: usize = 0;
    while j < ls.len()
        invariant
            views(ls@) == lines(text@),
            target == code_block(text@),
            0 <= j <= ls@.len(),
            line_views(out@) == base + target.subrange(0, j as int),
        decreases ls@.len() - j,
    {
        assert(ls@[j as int]@ == lines(text@)[j as int]);
        let f = framed(ls[j].as_slice());
        push_chars(out, &f, make_style(None, Some(Color::Rgb(30, 30, 30)), false, false, false));
        assert(target.subrange(0, j + 1) == target.subrange(0, j as int).push(target[j as int]));
        j = j + 1;
    }
    assert(target.subrange(0, ls@.len() as int) == target);
}

/// The lines of `text` drawn as code, each framed by a space on either side.
pub fn format_code_block(text: &str) -> (r: Vec<StyledLine>)
    ensures
        line_views(r@) == code_block(text@),
{
    let mut r: Vec<StyledLine> = Vec::new();
    assert(line_views(r@) == Seq::<LineView>::empty());
    let chars = chars_of(text);
    push_code_block(&mut r, &chars);
    assert(line_views(r@) == Seq::<LineView>::empty() + code_block(text@));
    r
}

/// Whether a trimmed line names an input.
fn arg_line_exec(l: &[char]) -> (r: bool)
    ensures
        r == is_arg_line(l@),
{
    if l.len() < 3 || l[0] != '`' || l[l.len() - 1] != '`' {
        return false;
    }
    let mut k: usize = 1;
    while k < l.len() - 1
        invariant
            l@.len() >= 3,
            1 <= k <= l@.len() - 1,
            forall|j: int| 1 <= j < k ==> l@[j] != '`',
        decreases l@.len() - k,
    {
        if l[k] == '`' {
            return false;
        }
        k = k + 1;
    }
    true
}

/// Whether a trimmed line describes an input, and where its description begins.
fn arg_description_exec(l: &[char]) -> (r: (bool, usize))
    ensures
        r.0 == is_arg_description(l@),
        r.0 ==> r.1 == white_run_end(l@, 1) && r.1 <= l@.len(),
{
    if l.len() == 0 || l[0] != ':' {
        return (false, 0);
    }
    let w = skip_white(l, 1);
    proof {
        lemma_white_run_end(l@, 1);
    }
    let mut k = w;
    while k < l.len()
        invariant
            w == white_run_end(l@, 1),
            1 <= w <= k <= l@.len(),
            forall|j: int| w <= j < k ==> l@[j] != '\n',
        decreases l@.len() - k,
    {
        if l[k] == '\n' {
            return (false, 0);
        }
        k = k + 1;
    }
    (true, w)
}

/// The line that shows a trimmed line of the inputs.
fn render_input_line(l: &[char]) -> (r: (Vec<char>, TextStyle))
    ensures
        (r.0@, r.1) == input_line(l@),
{
    if arg_line_exec(l) {
        (crate::text::slice_chars(l, 1, l.len() - 1), make_style(Some(Color::Cyan), None, false, true, false))
    } else {
        let (is_desc, w) = arg_description_exec(l);
        if is_desc {
            let mut r = chars_of("  ");
            let pat = chars_of("\\.");
            let rep = chars_of(".");
            let rest = crate::text::slice_chars(l, w, l.len());
            let replaced = replace_chars(&rest, &pat, &rep);
            push_all(&mut r, &replaced);
            (r, make_style(None, None, false, false, false))
        } else {
            (crate::text::slice_chars(l, 0, l.len()), make_style(None, None, false, false, false))
        }
    }
}

/// Appends the lines that show the parsed inputs.
fn push_input_lines(out: &mut Vec<StyledLine>, inputs: &Vec<String>)
    ensures
        line_views(final(out)@) == line_views(old(out)@) + all_input_lines(string_views(inputs@)),
{
    let ghost base = line_views(out@);
    let mut i: usize = 0;
    while i < inputs.len()
        invariant
            0 <= i <= inputs@.len(),
            line_views(out@) == base + all_input_lines(string_views(inputs@.subrange(0, i as int))),
        decreases inputs@.len() - i,
    {
        let text = chars_of(inputs[i].as_str());
        let ls = split_lines(&text);
        let ghost mid = line_views(out@);
        let ghost target = input_lines(text@);
        let mut j: usize = 0;
        while j < ls.len()
            invariant
                views(ls@) == lines(text@),
                target == input_lines(text@),
                0 <= j <= ls@.len(),
                line_views(out@) == mid + target.subrange(0, j as int),
            decreases ls@.len() - j,
        {
            assert(ls@[j as int]@ == lines(text@)[j as int]);
            let t = trim_chars(ls[j].as_slice());
            let (c, st) = render_input_line(&t);
            push_chars(out, &c, st);
            assert(target.subrange(0, j + 1) == target.subrange(0, j as int).push(target[j as int]));
            j = j + 1;
        }
        proof {
            assert(target.subrange(0, ls@.len() as int) == target);
            let prev = string_views(inputs@.subrange(0, i as int));
            let next = string_views(inputs@.subrange(0, i + 1));
            assert(next.drop_last() == prev);
            assert(next.last() == text@);
        }
        i = i + 1;
    }
    assert(inputs@.subrange(0, inputs@.len() as int) == inputs@);
}

/// Appends the lines that show the examples.
fn push_example_lines(out: &mut Vec<StyledLine>, ex: &[char])
    ensures
        line_views(final(out)@) == line_views(old(out)@) + example_lines(lines(ex@), false),
{
    let ls = split_lines(ex);
    let fence = chars_of("```");
    let colons = chars_of(":::");
    let hashes = chars_of("##");
    let ghost base = line_views(out@);
    let mut in_code = false;
    let mut j: usize = 0;
    assert(views(ls@).subrange(0, ls@.len() as int) == views(ls@));
    while j < ls.len()
        invariant
            views(ls@) == lines(ex@),
            fence@ == "```"@,
            colons@ == ":::"@,
            hashes@ == "##"@,
            0 <= j <= ls@.len(),
            base + example_lines(lines(ex@), false) == line_views(out@) + example_lines(
                views(ls@).subrange(j as int, ls@.len() as int),
                in_code,
            ),
        decreases ls@.len() - j,
    {
        let ghost rest = views(ls@).subrange(j as int, ls@.len() as int);
        assert(rest[0] == ls@[j as int]@);
        assert(rest.drop_first() == views(ls@).subrange(j + 1, ls@.len() as int));
        let l = &ls[j];
        if starts_with_exec(l, &fence) || starts_with_exec(l, &colons) {
            in_code = !in_code;
        } else if starts_with_exec(l, &hashes) {
            let h = trim_chars(&strip_leading_chars(l, '#'));
            let ghost before = line_views(out@);
            push_chars(out, &h, make_style(None, None, true, false, true));
            assert(before.push((h@, subheading_style())) + example_lines(rest.drop_first(), in_code)
                == before + (seq![(h@, subheading_style())] + example_lines(rest.drop_first(), in_code)));
        } else if in_code {
            let f = framed(l);
            let ghost before = line_views(out@);
            push_chars(out, &f, make_style(None, Some(Color::Rgb(30, 30, 30)), false, false, false));
            assert(before.push((f@, code_style())) + example_lines(rest.drop_first(), in_code)
                == before + (seq![(f@, code_style())] + example_lines(rest.drop_first(), in_code)));
        } else {
            let ghost before = line_views(out@);
            push_chars(out, l, make_style(None, None, false, false, false));
            assert(before.push(plain(l@)) + example_lines(rest.drop_first(), in_code)
                == before + (seq![plain(l@)] + example_lines(rest.drop_first(), in_code)));
        }
        j = j + 1;
    }
    assert(views(ls@).subrange(ls@.len() as int, ls@.len() as int).len() == 0);
}

/// Appends the aliases part.
fn push_aliases(out: &mut Vec<StyledLine>, d: &Document)
    ensures
        line_views(final(out)@) == line_views(old(out)@) + aliases_part(*d),
{
    match &d.meta.aliases {
        Some(al) => {
            if al.len() > 0 {
                let ghost base = line_views(out@);
                push_header(out, "Aliases");
                let ghost mid = line_views(out@);
                let ghost target = alias_views(al@).map_values(
                    |a: Seq<Seq<char>>| plain("• "@ + join(a, "."@)),
                );
                let dot = chars_of(".");
                let mut i: usize = 0;
                while i < al.len()
                    invariant
                        dot@ == "."@,
                        target == alias_views(al@).map_values(
                            |a: Seq<Seq<char>>| plain("• "@ + join(a, "."@)),
                        ),
                        0 <= i <= al@.len(),
                        line_views(out@) == mid + target.subrange(0, i as int),
                    decreases al@.len() - i,
                {
                    let mut line = chars_of("• ");
                    let joined = join_strings(al[i].as_slice(), &dot);
                    push_all(&mut line, &joined);
                    push_chars(out, &line, make_style(None, None, false, false, false));
                    assert(target.subrange(0, i + 1) == target.subrange(0, i as int).push(
                        target[i as int],
                    ));
                    i = i + 1;
                }
                assert(target.subrange(0, al@.len() as int) == target);
                push_blank(out);
                assert(line_views(out@) == base + aliases_part(*d));
            }
        },
        None => {},
    }
}

/// Appends the implementation part.
fn push_implementation(out: &mut Vec<StyledLine>, d: &Document)
    ensures
        line_views(final(out)@) == line_views(old(out)@) + implementation_part(*d),
{
    let ghost base = line_views(out@);
    push_header(out, "Implementation");
    let ghost mid = line_views(out@);
    let is_primop = match d.meta.is_primop {
        Some(b) => b,
        None => false,
    };
    if is_primop {
        push_line(out, "Tip".to_string(), make_style(Some(Color::Green), None, true, false, false));
        push_blank(out);
        push_line(
            out,
            "This function is implemented in c++ and is part of the native nix runtime.".to_string(),
            make_style(Some(Color::Green), None, false, true, false),
        );
        assert(line_views(out@) == mid + seq![("Tip"@, tip_style()), blank(), (native_note(), tip_text_style())]);
    } else {
        match &d.meta.attr_expr {
            Some(expr) => {
                push_line(out, "Tip".to_string(), make_style(Some(Color::Green), None, true, false, false));
                push_blank(out);
                push_line(
                    out,
                    "The following is the current implementation of this function.".to_string(),
                    make_style(Some(Color::Green), None, false, true, false),
                );
                push_blank(out);
                let ghost head = line_views(out@);
                assert(head == mid + seq![("Tip"@, tip_style()), blank(), (source_note(), tip_text_style()), blank()]);
                let code = chars_of(expr.as_str());
                push_code_block(out, &code);
            },
            None => {},
        }
    }
    push_blank(out);
    assert(line_views(out@) == base + implementation_part(*d));
}

/// Appends the description part.
fn push_description(out: &mut Vec<StyledLine>, parsed: &ParsedDoc)
    ensures
        line_views(final(out)@) == line_views(old(out)@) + description_part(parsed@),
{
    let ghost base = line_views(out@);
    if !parsed.description.as_str().is_empty() {
        let desc = chars_of(parsed.description.as_str());
        push_chars(out, &desc, make_style(None, None, false, false, false));
        push_blank(out);
        assert(line_views(out@) == base + description_part(parsed@));
    } else {
        assert(line_views(out@) == base + description_part(parsed@));
    }
}

/// Appends the inputs part.
fn push_inputs(out: &mut Vec<StyledLine>, item: &Document, parsed: &ParsedDoc)
    ensures
        line_views(final(out)@) == line_views(old(out)@) + inputs_part(*item, parsed@),
{
    let ghost base = line_views(out@);
    assert(parsed@.inputs.len() == parsed.inputs@.len());
    if parsed.inputs.len() > 0 {
        push_header(out, "Inputs");
        push_input_lines(out, &parsed.inputs);
        push_blank(out);
    } else {
        match &item.meta.primop_meta {
            Some(m) => match &m.args {
                Some(args) => {
                    push_header(out, "Inputs");
                    let mut count = vec!['T', 'a', 'k', 'e', 's', ' '];
                    assert(count@ == takes_word());
                    push_decimal(&mut count, args.len());
                    let word = vec![' ', 'a', 'r', 'g', 'u', 'm', 'e', 'n', 't', 's'];
                    assert(word@ == arguments_word());
                    push_all(&mut count, &word);
                    assert(count@ == arg_count_line(args@.len()));
                    push_chars(out, &count, make_style(None, None, false, false, false));
                    push_blank(out);
                    let sep = vec![',', ' '];
                    assert(sep@ == comma_sep());
                    let joined = join_strings(args.as_slice(), &sep);
                    push_chars(out, &joined, make_style(None, None, true, false, false));
                    push_blank(out);
                    assert(string_views(args@).len() == args@.len());
                    assert(primop_args(*item) == Some(string_views(args@)));
                    assert(line_views(out@) == base + inputs_part(*item, parsed@));
                },
                None => {},
            },
            None => {},
        }
    }
    assert(line_views(out@) == base + inputs_part(*item, parsed@));
}

/// Appends the type part.
fn push_type(out: &mut Vec<StyledLine>, parsed: &ParsedDoc)
    ensures
        line_views(final(out)@) == line_views(old(out)@) + type_part(parsed@),
{
    let ghost base = line_views(out@);
    match &parsed.type_info {
        Some(t) => {
            push_header(out, "Type");
            let tc = chars_of(t.as_str());
            push_code_block(out, &tc);
            push_blank(out);
        },
        None => {},
    }
    assert(line_views(out@) == base + type_part(parsed@));
}

/// Appends the examples part.
fn push_examples(out: &mut Vec<StyledLine>, parsed: &ParsedDoc)
    ensures
        line_views(final(out)@) == line_views(old(out)@) + examples_part(parsed@),
{
    let ghost base = line_views(out@);
    match &parsed.examples {
        Some(ex) => {
            push_header(out, "Examples");
            let ec = chars_of(ex.as_str());
            push_example_lines(out, &ec);
            push_blank(out);
        },
        None => {},
    }
    assert(line_views(out@) == base + examples_part(parsed@));
}

/// The link to a document's source file.
fn source_link_exec(item: &Document) -> (r: Option<String>)
    ensures
        opt_view(r) == source_link(*item),
{
    match &item.meta.attr_position {
        Some(pos) => {
            let mut link = chars_of("file://");
            let file = chars_of(pos.file.as_str());
            push_all(&mut link, &file);
            Some(string_from(&link))
        },
        None => None,
    }
}

/// Builds the detail view of a document: its styled lines, and the link to
/// its source file where the document records the position.
pub fn render_doc(item: &Document) -> (r: (StyledText, Option<String>))
    ensures
        line_views(r.0.lines@) == rendered_lines(*item),
        opt_view(r.1) == source_link(*item),
{
    let parsed = parse_doc(item);
    let ghost p = parsed@;
    let mut out: Vec<StyledLine> = Vec::new();
    assert(line_views(out@) == Seq::<LineView>::empty());

    push_line(&mut out, item.title().to_string(), make_style(Some(Color::Magenta), None, true, false, true));
    push_blank(&mut out);
    let ghost s1 = line_views(out@);
    assert(s1 == seq![(item.title_view(), title_style()), blank()]);
    push_description(&mut out, &parsed);
    push_inputs(&mut out, item, &parsed);
    push_type(&mut out, &parsed);
    push_examples(&mut out, &parsed);
    push_aliases(&mut out, item);
    push_implementation(&mut out, item);
    assert(line_views(out@) == s1 + description_part(p) + inputs_part(*item, p) + type_part(p) + examples_part(p)
        + aliases_part(*item) + implementation_part(*item));
    let url = source_link_exec(item);
    (StyledText { lines: out }, url)
}

// ---------------------------------------------------------------------------
// Laws of parsing
// ---------------------------------------------------------------------------

/// Whether `t` holds no code fence.
pub open spec fn fence_free(t: Seq<char>) -> bool {
    forall|i: int| !occurs_at(t, i, code_fence())
}

/// Past an index that holds no backquote, removing fences keeps that character first.
proof fn lemma_removal_starts_with(s: Seq<char>, j: int)
    requires
        0 <= j < s.len(),
        s[j] != '`',
    ensures
        replace_from(s, j, code_fence(), seq![]).len() > 0,
        replace_from(s, j, code_fence(), seq![])[0] == s[j],
{
    assert(!occurs_at(s, j, code_fence())) by {
        if occurs_at(s, j, code_fence()) {
            assert(s.subrange(j, j + 3)[0] == s[j]);
        }
    }
    let r = replace_from(s, j, code_fence(), seq![]);
    assert(r == seq![s[j]] + replace_from(s, j + 1, code_fence(), seq![]));
}

/// Removing the fences from index `i` on leaves no fence.
proof fn lemma_removal_fence_free(s: Seq<char>, i: int)
    requires
        0 <= i,
    ensures
        fence_free(replace_from(s, i, code_fence(), seq![])),
    decreases s.len() - i,
{
    let f = code_fence();
    let r = replace_from(s, i, f, seq![]);
    if i < s.len() {
        if occurs_at(s, i, f) {
            lemma_removal_fence_free(s, i + 3);
            assert(r == seq![] + replace_from(s, i + 3, f, seq![]));
            assert(r == replace_from(s, i + 3, f, seq![]));
        } else {
            lemma_removal_fence_free(s, i + 1);
            let rest = replace_from(s, i + 1, f, seq![]);
            assert(r == seq![s[i]] + rest);
            assert forall|k: int| !occurs_at(r, k, f) by {
                if occurs_at(r, k, f) {
                    if k > 0 {
                        assert(r.subrange(k, k + 3) == rest.subrange(k - 1, k + 2));
                        assert(occurs_at(rest, k - 1, f));
                    } else {
                        // r begins with three backquotes, so s[i] is one and
                        // `rest` begins with two.
                        assert(r.subrange(0, 3)[0] == s[i]);
                        assert(r.subrange(0, 3)[1] == rest[0]);
                        assert(r.subrange(0, 3)[2] == rest[1]);
                        if i + 1 < s.len() && s[i + 1] != '`' {
                            lemma_removal_starts_with(s, i + 1);
                        } else if i + 1 < s.len() {
                            // s[i] and s[i + 1] are backquotes; as no fence is at i,
                            // s[i + 2] is none, and no fence is at i + 1.
                            if i + 2 < s.len() {
                                assert(s[i + 2] != '`') by {
                                    if s[i + 2] == '`' {
                                        assert(s.subrange(i, i + 3) =~= f);
                                    }
                                }
                                assert(!occurs_at(s, i + 1, f)) by {
                                    if occurs_at(s, i + 1, f) {
                                        assert(s.subrange(i + 1, i + 4)[1] == s[i + 2]);
                                    }
                                }
                                assert(rest == seq![s[i + 1]] + replace_from(s, i + 2, f, seq![]));
                                lemma_removal_starts_with(s, i + 2);
                            } else {
                                assert(!occurs_at(s, i + 1, f));
                                assert(rest == seq![s[i + 1]] + replace_from(s, i + 2, f, seq![]));
                            }
                        }
                    }
                }
            }
        }
    }
}

/// A type taken from a type section shows no code fence: the fences are
/// removed and trimming keeps none.
pub proof fn law_type_section_loses_fences(d: Document)
    requires
        section_text(sections(doc_text(d)), type_section()).len() > 0,
    ensures
        parsed_view(d).type_info matches Some(t) && fence_free(t),
{
    let r = replace_all(section_text(sections(doc_text(d)), type_section()), code_fence(), seq![]);
    lemma_removal_fence_free(section_text(sections(doc_text(d)), type_section()), 0);
    lemma_trim_is_subrange(r);
    let (a, b) = choose|a: int, b: int| 0 <= a <= b <= r.len() && trim(r) == r.subrange(a, b);
    let t = trim(r);
    assert forall|i: int| !occurs_at(t, i, code_fence()) by {
        if occurs_at(t, i, code_fence()) {
            assert(t.subrange(i, i + 3) == r.subrange(a + i, a + i + 3));
            assert(occurs_at(r, a + i, code_fence()));
        }
    }
}

/// A document's own inputs section is what the detail view shows as its
/// inputs, whatever builtin metadata the document carries: where the last
/// section named "Inputs" has text, the inputs are exactly that text. The
/// builtin's argument summary stands in only where that text is empty.
pub proof fn law_inputs_section_wins(d: Document)
    ensures
        section_text(sections(doc_text(d)), inputs_section()).len() > 0 ==> parsed_view(d).inputs
            == seq![section_text(sections(doc_text(d)), inputs_section())],
        section_text(sections(doc_text(d)), inputs_section()).len() == 0 ==> parsed_view(
            d,
        ).inputs == match primop_args(d) {
            Some(a) => seq![args_summary(a)],
            None => Seq::<Seq<char>>::empty(),
        },
{
}

/// The detail view opens with the title in its own style and a blank line;
/// a non-empty description follows whole, on the next line, then a blank
/// line.
pub proof fn law_title_and_description_shown_whole(d: Document)
    ensures
        rendered_lines(d).len() >= 2,
        rendered_lines(d)[0] == (d.title_view(), title_style()),
        rendered_lines(d)[1] == (Seq::<char>::empty(), plain_style()),
        parsed_view(d).description.len() > 0 ==> rendered_lines(d).len() >= 4 && rendered_lines(d)[2]
            == (parsed_view(d).description, plain_style()) && rendered_lines(d)[3] == (
            Seq::<char>::empty(),
            plain_style(),
        ),
{
    let p = parsed_view(d);
    let head = seq![(d.title_view(), title_style()), blank()] + description_part(p);
    let tail = inputs_part(d, p) + type_part(p) + examples_part(p) + aliases_part(d)
        + implementation_part(d);
    assert(rendered_lines(d) == head + inputs_part(d, p) + type_part(p) + examples_part(p)
        + aliases_part(d) + implementation_part(d));
    let r = rendered_lines(d);
    assert(r.len() >= head.len());
    assert forall|k: int| 0 <= k < head.len() implies r[k] == head[k] by {
        let a1 = head + inputs_part(d, p);
        let a2 = a1 + type_part(p);
        let a3 = a2 + examples_part(p);
        let a4 = a3 + aliases_part(d);
        assert(r == a4 + implementation_part(d));
        assert(r[k] == a4[k]);
        assert(a4[k] == a3[k]);
        assert(a3[k] == a2[k]);
        assert(a2[k] == a1[k]);
        assert(a1[k] == head[k]);
    }
    assert(r[0] == head[0]);
    assert(r[1] == head[1]);
    if p.description.len() > 0 {
        assert(r[2] == head[2]);
        assert(r[3] == head[3]);
    }
}

/// The aliases part of a document with `n > 0` aliases has `n + 3` lines:
/// the heading, a blank line, one bullet per alias in order (the alias
/// joined with dots), and a blank line.
pub proof fn law_one_bullet_per_alias(d: Document)
    ensures
        match d.meta.aliases {
            Some(al) => if al@.len() > 0 {
                let part = aliases_part(d);
                let n = al@.len() as int;
                &&& part.len() == n + 3
                &&& part[0] == ("Aliases"@, header_style())
                &&& part[1] == (Seq::<char>::empty(), plain_style())
                &&& part[n + 2] == (Seq::<char>::empty(), plain_style())
                &&& forall|k: int|
                    0 <= k < n ==> #[trigger] part[k + 2] == ("• "@ + join(
                        string_views(al@[k]@),
                        "."@,
                    ), plain_style())
            } else {
                aliases_part(d).len() == 0
            },
            None => aliases_part(d).len() == 0,
        },
{
    match d.meta.aliases {
        Some(al) => {
            if al@.len() > 0 {
                let part = aliases_part(d);
                let n = al@.len() as int;
                let bullets = alias_views(al@).map_values(
                    |a: Seq<Seq<char>>| plain("• "@ + join(a, "."@)),
                );
                assert(part == seq![("Aliases"@, header_style()), blank()] + bullets + seq![blank()]);
                assert forall|k: int| 0 <= k < n implies #[trigger] part[k + 2] == ("• "@ + join(
                    string_views(al@[k]@),
                    "."@,
                ), plain_style()) by {
                    assert(part[k + 2] == bullets[k]);
                    assert(alias_views(al@)[k] == string_views(al@[k]@));
                }
            }
        },
        None => {},
    }
}

/// Whether a line of the examples opens or closes a code block.
pub open spec fn is_fence_line(l: Seq<char>) -> bool {
    starts_with(l, "```"@) || starts_with(l, ":::"@)
}

/// Whether a line of the examples is a heading.
pub open spec fn is_heading_line(l: Seq<char>) -> bool {
    starts_with(l, "##"@)
}

/// The shown examples hold one line per line of the examples text that is
/// not a fence (a line beginning with "```" or ":::"), and none of them shows
/// a fence line as text: every line shown as plain text is a line of the
/// examples that is neither a fence nor a heading.
pub proof fn law_examples_hide_fences(ls: Seq<Seq<char>>, in_code: bool)
    ensures
        example_lines(ls, in_code).len() == ls.filter(|l: Seq<char>| !is_fence_line(l)).len(),
        forall|k: int|
            0 <= k < example_lines(ls, in_code).len() && (#[trigger] example_lines(ls, in_code)[k]).1
                == plain_style() ==> {
                &&& !is_fence_line(example_lines(ls, in_code)[k].0)
                &&& !is_heading_line(example_lines(ls, in_code)[k].0)
                &&& ls.contains(example_lines(ls, in_code)[k].0)
            },
    decreases ls.len(),
{
    reveal_with_fuel(Seq::filter, 1);
    if ls.len() > 0 {
        let l = ls[0];
        let rest = ls.drop_first();
        law_examples_hide_fences(rest, !in_code);
        law_examples_hide_fences(rest, in_code);
        assert(ls == seq![l] + rest);
        lemma_filter_cons(l, rest, |x: Seq<char>| !is_fence_line(x));
        let e = example_lines(ls, in_code);
        if is_fence_line(l) {
            assert(e == example_lines(rest, !in_code));
            assert forall|k: int|
                0 <= k < e.len() && (#[trigger] e[k]).1 == plain_style() implies ls.contains(e[k].0) by {
                assert(rest.contains(e[k].0));
                let m = choose|m: int| 0 <= m < rest.len() && rest[m] == e[k].0;
                assert(ls[m + 1] == e[k].0);
            }
        } else {
            let er = example_lines(rest, in_code);
            let first = if is_heading_line(l) {
                (trim(strip_leading(l, '#')), subheading_style())
            } else if in_code {
                (seq![' '] + l + seq![' '], code_style())
            } else {
                plain(l)
            };
            assert(e == seq![first] + er);
            assert forall|k: int|
                0 <= k < e.len() && (#[trigger] e[k]).1 == plain_style() implies {
                &&& !is_fence_line(e[k].0)
                &&& !is_heading_line(e[k].0)
                &&& ls.contains(e[k].0)
            } by {
                if k == 0 {
                    assert(ls[0] == l);
                } else {
                    assert(e[k] == er[k - 1]);
                    assert(rest.contains(e[k].0));
                    let m = choose|m: int| 0 <= m < rest.len() && rest[m] == e[k].0;
                    assert(ls[m + 1] == e[k].0);
                }
            }
        }
    }
}

/// Filtering a sequence that begins with `a`.
proof fn lemma_filter_cons(a: Seq<char>, rest: Seq<Seq<char>>, f: spec_fn(Seq<char>) -> bool)
    ensures
        (seq![a] + rest).filter(f).len() == rest.filter(f).len() + if f(a) { 1int } else { 0 },
    decreases rest.len(),
{
    reveal_with_fuel(Seq::filter, 1);
    let s = seq![a] + rest;
    if rest.len() == 0 {
        assert(s.drop_last() == Seq::<Seq<char>>::empty());
        assert(rest.filter(f) == Seq::<Seq<char>>::empty());
    } else {
        lemma_filter_cons(a, rest.drop_last(), f);
        assert(s.drop_last() == seq![a] + rest.drop_last());
        assert(s.last() == rest.last());
    }
}

/// The lines of `mid` drawn as code.
pub open spec fn code_lines(mid: Seq<Seq<char>>) -> Seq<LineView> {
    mid.map_values(|l: Seq<char>| (seq![' '] + l + seq![' '], code_style()))
}

proof fn lemma_code_run(mid: Seq<Seq<char>>, rest: Seq<Seq<char>>)
    requires
        forall|k: int| 0 <= k < mid.len() ==> !is_fence_line(#[trigger] mid[k]) && !is_heading_line(mid[k]),
    ensures
        example_lines(mid + rest, true) == code_lines(mid) + example_lines(rest, true),
    decreases mid.len(),
{
    if mid.len() > 0 {
        let tail = mid.drop_first();
        assert forall|k: int| 0 <= k < tail.len() implies !is_fence_line(#[trigger] tail[k])
            && !is_heading_line(tail[k]) by {
            assert(tail[k] == mid[k + 1]);
        }
        lemma_code_run(tail, rest);
        assert(!is_fence_line(mid[0]) && !is_heading_line(mid[0]));
        assert((mid + rest)[0] == mid[0]);
        assert((mid + rest).drop_first() == tail + rest);
        assert(code_lines(mid) == seq![(seq![' '] + mid[0] + seq![' '], code_style())] + code_lines(tail));
    } else {
        assert(mid + rest == rest);
        assert(code_lines(mid) == Seq::<LineView>::empty());
    }
}

/// A block opened by a fence line (one beginning with "```" or ":::") and
/// closed by another shows exactly the lines between them, each framed by a
/// space on either side and drawn as code, where none of them is a fence or
/// a heading.
pub proof fn law_fenced_block_is_code(
    opener: Seq<char>,
    mid: Seq<Seq<char>>,
    closer: Seq<char>,
)
    requires
        is_fence_line(opener),
        is_fence_line(closer),
        forall|k: int| 0 <= k < mid.len() ==> !is_fence_line(#[trigger] mid[k]) && !is_heading_line(mid[k]),
    ensures
        example_lines(seq![opener] + mid + seq![closer], false) == code_lines(mid),
{
    let ls = seq![opener] + mid + seq![closer];
    assert(ls[0] == opener);
    assert(ls.drop_first() == mid + seq![closer]);
    lemma_code_run(mid, seq![closer]);
    let c = seq![closer];
    assert(c[0] == closer);
    assert(c.drop_first() == Seq::<Seq<char>>::empty());
    assert(example_lines(c, true) == example_lines(Seq::<Seq<char>>::empty(), false));
    assert(code_lines(mid) + Seq::<LineView>::empty() == code_lines(mid));
}

/// The description is the text of the last section named "Description"; the
/// examples are given exactly when their section has text, and then are
/// that text.
pub proof fn law_description_and_examples(d: Document)
    ensures
        parsed_view(d).description == section_text(sections(doc_text(d)), description_section()),
        parsed_view(d).examples is Some <==> section_text(sections(doc_text(d)), examples_section()).len() > 0,
        parsed_view(d).examples matches Some(ex) ==> ex == section_text(
            sections(doc_text(d)),
            examples_section(),
        ),
{
}

/// A type section with text wins over the signature, and what it gives
/// holds no code fence; without one, the type is the trimmed signature, and
/// is absent where the document has no signature.
pub proof fn law_type_section_wins(d: Document)
    ensures
        section_text(sections(doc_text(d)), type_section()).len() > 0 ==> parsed_view(
            d,
        ).type_info == Some(
            trim(replace_all(section_text(sections(doc_text(d)), type_section()), code_fence(), seq![])),
        ),
        section_text(sections(doc_text(d)), type_section()).len() > 0 ==> (parsed_view(
            d,
        ).type_info matches Some(t) && fence_free(t)),
        section_text(sections(doc_text(d)), type_section()).len() == 0 ==> parsed_view(d).type_info
            == match d.meta.signature {
            Some(sig) => Some(trim(sig@)),
            None => None::<Seq<char>>,
        },
{
    if section_text(sections(doc_text(d)), type_section()).len() > 0 {
        law_type_section_loses_fences(d);
    }
}

/// A code block shows one line per line of its text, in order, each framed
/// by a space on either side and drawn as code.
pub proof fn law_code_block_frames_lines(text: Seq<char>)
    ensures
        code_block(text).len() == lines(text).len(),
        forall|k: int|
            0 <= k < lines(text).len() ==> #[trigger] code_block(text)[k] == (seq![' '] + lines(
                text,
            )[k] + seq![' '], code_style()),
{
}

/// A line of the inputs that is a name in backquotes shows the name alone, in
/// the name's style.
pub proof fn law_input_name_line(name: Seq<char>)
    requires
        name.len() > 0,
        forall|k: int| 0 <= k < name.len() ==> name[k] != '`',
    ensures
        input_line(seq!['`'] + name + seq!['`']) == (name, arg_style()),
{
    let l = seq!['`'] + name + seq!['`'];
    assert(l.subrange(1, l.len() - 1) == name);
    assert forall|k: int| 1 <= k < l.len() - 1 implies l[k] != '`' by {
        assert(l[k] == name[k - 1]);
    }
}

/// A line of the inputs that begins with a colon (and is no name in
/// backquotes) shows, indented by two spaces, what follows the colon and
/// the white space after it, with each escaped dot `\.` shown as a dot.
pub proof fn law_input_description_line(l: Seq<char>)
    requires
        l.len() > 0,
        l[0] == ':',
        forall|k: int| 0 <= k < l.len() ==> l[k] != '\n',
    ensures
        input_line(l) == ("  "@ + replace_all(
            l.subrange(white_run_end(l, 1), l.len() as int),
            "\\."@,
            "."@,
        ), plain_style()),
{
    lemma_white_run_end(l, 1);
}

/// The implementation part: a heading and a blank line, then for a builtin
/// the note that it is native, else the implementation's source as code
/// where the document records it, and a blank line at the end.
pub proof fn law_implementation_part(d: Document)
    ensures
        implementation_part(d).len() >= 3,
        implementation_part(d)[0] == ("Implementation"@, header_style()),
        implementation_part(d)[1] == (Seq::<char>::empty(), plain_style()),
        implementation_part(d).last() == (Seq::<char>::empty(), plain_style()),
        d.meta.is_primop == Some(true) ==> implementation_part(d) == seq![
            ("Implementation"@, header_style()),
            blank(),
            ("Tip"@, tip_style()),
            blank(),
            (native_note(), tip_text_style()),
            blank(),
        ],
        d.meta.is_primop != Some(true) && d.meta.attr_expr is Some ==> implementation_part(d)
            == seq![
            ("Implementation"@, header_style()),
            blank(),
            ("Tip"@, tip_style()),
            blank(),
            (source_note(), tip_text_style()),
            blank(),
        ] + code_block(d.meta.attr_expr->0@) + seq![blank()],
        d.meta.is_primop != Some(true) && d.meta.attr_expr is None ==> implementation_part(d)
            == seq![("Implementation"@, header_style()), blank(), blank()],
{
    let part = implementation_part(d);
    if d.meta.is_primop == Some(true) {
        assert(part =~= seq![
            ("Implementation"@, header_style()),
            blank(),
            ("Tip"@, tip_style()),
            blank(),
            (native_note(), tip_text_style()),
            blank(),
        ]);
    } else if d.meta.attr_expr is Some {
        assert(part =~= seq![
            ("Implementation"@, header_style()),
            blank(),
            ("Tip"@, tip_style()),
            blank(),
            (source_note(), tip_text_style()),
            blank(),
        ] + code_block(d.meta.attr_expr->0@) + seq![blank()]);
    } else {
        assert(part =~= seq![("Implementation"@, header_style()), blank(), blank()]);
    }
}

} // verus!
