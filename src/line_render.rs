use vstd::prelude::*;
use vstd::utf8::{decode_utf8, valid_utf8};

use crate::render::{decimal, push_decimal, utf8_str, RenderStep};
use crate::traversal::Step;
use crate::tree::{has_named_child, NodeInfo, SyntaxTree};

verus! {

/// `ESC[38;2;r;g;bm`, the text, then `ESC[0m`: text in a 24-bit colour.
pub open spec fn painted(r: u8, g: u8, b: u8, s: Seq<char>) -> Seq<char> {
    "\x1b[38;2;"@ + decimal(r as nat) + ";"@ + decimal(g as nat) + ";"@ + decimal(b as nat) + "m"@
        + s + "\x1b[0m"@
}

/// Relies on ansi_term: a string painted with `Colour::RGB(r, g, b)` prints as
/// the foreground code `ESC[38;2;r;g;bm`, the string, and the reset `ESC[0m`.
#[verifier::external_body]
fn paint(r: u8, g: u8, b: u8, s: &str) -> (out: String)
    ensures
        out@ == painted(r, g, b, s@),
{
    ansi_term::Colour::RGB(r, g, b).paint(s).to_string()
}

/// Relies on String::push: it appends one character.
#[verifier::external_body]
fn push_char(s: &mut String, c: char)
    ensures
        final(s)@ == old(s)@.push(c),
{
    s.push(c)
}

/// How a kind of punctuation is shown between double quotes.
pub open spec fn escape_char(c: char) -> Seq<char> {
    if c == '\\' {
        "\\\\"@
    } else if c == '\t' {
        "\\t"@
    } else if c == '\n' {
        "\\n"@
    } else if c == '\r' {
        "\\r"@
    } else if c == '"' {
        "\\\""@
    } else {
        seq![c]
    }
}

pub open spec fn escaped(s: Seq<char>) -> Seq<char>
    decreases s.len(),
{
    if s.len() == 0 {
        Seq::empty()
    } else {
        escaped(s.drop_last()) + escape_char(s.last())
    }
}

pub open spec fn spaces(k: nat) -> Seq<char> {
    Seq::new(k, |i: int| ' ')
}

/// A numeral padded with spaces to at least two characters.
pub open spec fn pad2(s: Seq<char>) -> Seq<char> {
    if s.len() < 2 {
        s + spaces((2 - s.len()) as nat)
    } else {
        s
    }
}

/// `row:column - row:column ` with each column padded to two characters.
pub open spec fn num_range(n: NodeInfo) -> Seq<char> {
    decimal(n.start_position.row as nat) + ":"@ + pad2(decimal(n.start_position.column as nat))
        + " - "@ + decimal(n.end_position.row as nat) + ":"@ + pad2(
        decimal(n.end_position.column as nat),
    ) + " "@
}

/// The spaces after a range: the line's indentation (two per level past a
/// margin of fourteen) less what the range already took.
pub open spec fn pad_width(indent_level: usize, used: int) -> nat {
    let w = if indent_level * 2 + 14 > usize::MAX {
        usize::MAX as int
    } else {
        indent_level * 2 + 14
    };
    if w > used {
        (w - used) as nat
    } else {
        0
    }
}

/// One line per node: its range, greener where a new source row starts,
/// then its kind, and for a named node on one line without named children
/// the source text it spans.
pub struct NodeTreeWithRangesLine<'a> {
    pub dquote_unnamed: bool,
    pub source_code: Option<&'a [u8]>,
    pub last_line_no: usize,
}

impl<'a> NodeTreeWithRangesLine<'a> {
    pub open spec fn line_rgb() -> (u8, u8, u8) {
        (122, 209, 143)
    }

    pub open spec fn field_rgb() -> (u8, u8, u8) {
        (177, 220, 253)
    }

    pub open spec fn comment_rgb() -> (u8, u8, u8) {
        (118, 118, 118)
    }

    pub open spec fn nonterm_rgb() -> (u8, u8, u8) {
        (117, 187, 253)
    }

    pub open spec fn term_rgb() -> (u8, u8, u8) {
        (219, 219, 173)
    }

    pub open spec fn paint_in(c: (u8, u8, u8), s: Seq<char>) -> Seq<char> {
        painted(c.0, c.1, c.2, s)
    }

    /// A strategy with no source text, punctuation shown bare, and no row
    /// seen yet.
    pub fn new() -> (r: Self)
        ensures
            r.dquote_unnamed == false,
            r.source_code is None,
            r.last_line_no == usize::MAX,
    {
        NodeTreeWithRangesLine {
            dquote_unnamed: false,
            source_code: None,
            last_line_no: usize::MAX,
        }
    }

    /// Whether punctuation kinds are shown escaped between double quotes.
    pub fn dquote_unnamed(self, flag: bool) -> (r: Self)
        ensures
            r == (NodeTreeWithRangesLine { dquote_unnamed: flag, ..self }),
    {
        NodeTreeWithRangesLine { dquote_unnamed: flag, ..self }
    }

    /// The source text that nodes' values are taken from, if any.
    pub fn show_node_values(self, source_code: Option<&'a [u8]>) -> (r: Self)
        ensures
            r == (NodeTreeWithRangesLine { source_code, ..self }),
    {
        NodeTreeWithRangesLine { source_code, ..self }
    }

    /// Whether the source text of node `i` follows its kind.
    pub open spec fn shows_value(&self, t: &SyntaxTree, i: int) -> bool {
        let n = t.nodes@[i];
        &&& self.source_code is Some
        &&& n.is_named
        &&& !has_named_child(t, i)
        &&& n.start_position.row == n.end_position.row
    }

    pub open spec fn node_text(&self, t: &SyntaxTree, i: int) -> Seq<char> {
        let n = t.nodes@[i];
        let field = match n.field_name {
            Some(name) => Self::paint_in(Self::field_rgb(), name@ + ": "@),
            None => Seq::empty(),
        };
        let kind = if self.dquote_unnamed && !n.is_named {
            Self::paint_in(Self::term_rgb(), "\""@ + escaped(n.kind@) + "\""@)
        } else {
            Self::paint_in(Self::nonterm_rgb(), n.kind@)
        };
        let value = if self.shows_value(t, i) {
            " `"@ + Self::paint_in(
                Self::comment_rgb(),
                decode_utf8(
                    self.source_code->0@.subrange(n.start_byte as int, n.end_byte as int),
                ),
            ) + "`"@
        } else {
            Seq::empty()
        };
        field + kind + value
    }

    pub open spec fn indent_text(&self, t: &SyntaxTree, i: int, indent_level: usize) -> Seq<char> {
        let n = t.nodes@[i];
        let r = num_range(n);
        (if self.last_line_no != n.start_position.row {
            Self::paint_in(Self::line_rgb(), r)
        } else {
            r
        }) + spaces(pad_width(indent_level, r.len() as int))
    }
}

fn push_escaped(out: &mut String, s: &str)
    ensures
        final(out)@ == old(out)@ + escaped(s@),
{
    let n = s.unicode_len();
    let mut i: usize = 0;
    while i < n
        invariant
            i <= n == s@.len(),
            out@ == old(out)@ + escaped(s@.take(i as int)),
        decreases n - i,
    {
        let c = s.get_char(i);
        if c == '\\' {
            out.append("\\\\");
        } else if c == '\t' {
            out.append("\\t");
        } else if c == '\n' {
            out.append("\\n");
        } else if c == '\r' {
            out.append("\\r");
        } else if c == '"' {
            out.append("\\\"");
        } else {
            push_char(out, c);
        }
        proof {
            assert(s@.take(i as int + 1).drop_last() =~= s@.take(i as int));
            assert(out@ =~= old(out)@ + escaped(s@.take(i as int + 1)));
        }
        i = i + 1;
    }
    proof {
        assert(s@.take(n as int) =~= s@);
    }
}

fn push_padded(out: &mut String, n: usize)
    ensures
        final(out)@ == old(out)@ + pad2(decimal(n as nat)),
{
    let mut num = String::new();
    push_decimal(&mut num, n);
    let len = num.as_str().unicode_len();
    out.append(num.as_str());
    if len < 2 {
        let mut k = len;
        while k < 2
            invariant
                len <= k <= 2,
                len == decimal(n as nat).len(),
                out@ == old(out)@ + decimal(n as nat) + spaces((k - len) as nat),
            decreases 2 - k,
        {
            push_char(out, ' ');
            k = k + 1;
            assert(out@ =~= old(out)@ + decimal(n as nat) + spaces((k - len) as nat));
        }
    } else {
        assert(out@ =~= old(out)@ + pad2(decimal(n as nat)));
    }
}

fn push_spaces(out: &mut String, k: usize)
    ensures
        final(out)@ == old(out)@ + spaces(k as nat),
{
    let mut i: usize = 0;
    while i < k
        invariant
            i <= k,
            out@ == old(out)@ + spaces(i as nat),
        decreases k - i,
    {
        push_char(out, ' ');
        i = i + 1;
        assert(out@ =~= old(out)@ + spaces(i as nat));
    }
}

impl<'a> RenderStep for NodeTreeWithRangesLine<'a> {
    /// Where source text is given, every one-line named node spans valid
    /// UTF-8 inside it.
    open spec fn fits(&self, t: &SyntaxTree) -> bool {
        self.source_code matches Some(src) ==> forall|i: int|
            0 <= i < t.len() && #[trigger] t.nodes@[i].is_named
                && t.nodes@[i].start_position.row == t.nodes@[i].end_position.row ==> {
                &&& t.nodes@[i].start_byte <= t.nodes@[i].end_byte <= src@.len()
                &&& valid_utf8(src@.subrange(t.nodes@[i].start_byte as int, t.nodes@[i].end_byte as int))
            }
    }

    open spec fn step_text(&self, t: &SyntaxTree, step: Step) -> Seq<char> {
        match step {
            Step::LineFeed => "\n"@,
            Step::Indent { node, indent_level } => self.indent_text(t, node as int, indent_level),
            Step::Node { node, .. } => self.node_text(t, node as int),
            Step::AfterChildren { .. } => Seq::empty(),
        }
    }

    open spec fn after_step(&self, t: &SyntaxTree, step: Step) -> Self {
        match step {
            Step::LineFeed => *self,
            Step::Indent { node, .. } => NodeTreeWithRangesLine {
                last_line_no: t.nodes@[node as int].start_position.row,
                ..*self
            },
            Step::Node { .. } => *self,
            Step::AfterChildren { .. } => *self,
        }
    }

    fn render_step(&mut self, t: &SyntaxTree, step: Step) -> (r: String) {
        match step {
            Step::LineFeed => {
                let mut out = String::new();
                out.append("\n");
                out
            },
            Step::Indent { node, indent_level } => {
                let out = self.indent_string(t, node, indent_level);
                self.last_line_no = t.nodes[node].start_position.row;
                out
            },
            Step::Node { node, .. } => {
                let out = self.node_string(t, node);
                out
            },
            Step::AfterChildren { .. } => String::new(),
        }
    }
}

impl<'a> NodeTreeWithRangesLine<'a> {
    fn indent_string(&self, t: &SyntaxTree, node: usize, indent_level: usize) -> (out: String)
        requires
            node < t.len(),
        ensures
            out@ == self.indent_text(t, node as int, indent_level),
    {
        let n = &t.nodes[node];
        let mut range = String::new();
        push_decimal(&mut range, n.start_position.row);
        range.append(":");
        push_padded(&mut range, n.start_position.column);
        range.append(" - ");
        push_decimal(&mut range, n.end_position.row);
        range.append(":");
        push_padded(&mut range, n.end_position.column);
        range.append(" ");
        assert(range@ =~= num_range(*n));
        let used = range.as_str().unicode_len();
        let margin: usize = if indent_level > (usize::MAX - 14) / 2 {
            usize::MAX
        } else {
            indent_level * 2 + 14
        };
        let width = margin.saturating_sub(used);
        let mut out = if self.last_line_no != n.start_position.row {
            paint(122, 209, 143, range.as_str())
        } else {
            range
        };
        push_spaces(&mut out, width);
        out
    }

    fn value_string(&self, t: &SyntaxTree, node: usize) -> (out: String)
        requires
            t.well_formed(),
            self.fits(t),
            node < t.len(),
        ensures
            self.shows_value(t, node as int) ==> out@ == " `"@ + Self::paint_in(
                Self::comment_rgb(),
                decode_utf8(
                    self.source_code->0@.subrange(
                        t.nodes@[node as int].start_byte as int,
                        t.nodes@[node as int].end_byte as int,
                    ),
                ),
            ) + "`"@,
            !self.shows_value(t, node as int) ==> out@ == Seq::<char>::empty(),
    {
        let mut out = String::new();
        let n = &t.nodes[node];
        proof {
            t.lemma_end_bounds(node as int);
        }
        if let Some(src) = self.source_code {
            if n.is_named && !t.node_has_named_child(node) {
                if n.start_position.row == n.end_position.row {
                    assert(t.nodes@[node as int].is_named);
                    let span = vstd::slice::slice_subrange(src, n.start_byte, n.end_byte);
                    match utf8_str(span) {
                        Some(value) => {
                            out.append(" `");
                            let v = paint(118, 118, 118, value);
                            out.append(v.as_str());
                            out.append("`");
                        },
                        None => {},
                    }
                }
            }
        }
        out
    }

    fn node_string(&self, t: &SyntaxTree, node: usize) -> (out: String)
        requires
            t.well_formed(),
            self.fits(t),
            node < t.len(),
        ensures
            out@ == self.node_text(t, node as int),
    {
        let n = &t.nodes[node];
        let mut out = String::new();
        if let Some(name) = &n.field_name {
            let mut label = name.clone();
            label.append(": ");
            out = paint(177, 220, 253, label.as_str());
        }
        if self.dquote_unnamed && !n.is_named {
            let mut quoted = String::new();
            quoted.append("\"");
            push_escaped(&mut quoted, n.kind.as_str());
            quoted.append("\"");
            let kind = paint(219, 219, 173, quoted.as_str());
            out.append(kind.as_str());
        } else {
            let kind = paint(117, 187, 253, n.kind.as_str());
            out.append(kind.as_str());
        }
        let value = self.value_string(t, node);
        out.append(value.as_str());
        assert(out@ =~= self.node_text(t, node as int));
        out
    }
}

} // verus!
