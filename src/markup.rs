use vstd::prelude::*;
use vstd::utf8::{decode_utf8, valid_utf8};

use crate::render::{indentation, utf8_str, RenderStep};
use crate::traversal::Step;
use crate::tree::SyntaxTree;

verus! {

/// How one character of text content is written in markup.
pub open spec fn markup_char(c: char) -> Seq<char> {
    if c == '&' {
        "&amp;"@
    } else if c == '<' {
        "&lt;"@
    } else if c == '>' {
        "&gt;"@
    } else {
        seq![c]
    }
}

/// Text with `&`, `<` and `>` written as character references.
pub open spec fn markup_text(s: Seq<char>) -> Seq<char>
    decreases s.len(),
{
    if s.len() == 0 {
        Seq::empty()
    } else {
        markup_text(s.drop_last()) + markup_char(s.last())
    }
}

/// Relies on html_escape::encode_text, which replaces every `&`, `<` and `>`
/// of the text by `&amp;`, `&lt;` and `&gt;` and leaves the rest as it is.
#[verifier::external_body]
fn encode_text(s: &str) -> (r: String)
    ensures
        r@ == markup_text(s@),
{
    html_escape::encode_text(s).into_owned()
}

/// Nested tags, one per named node, with the field name as a `type`
/// attribute and the source text of each leaf, escaped, as content. Meant for
/// a walk that shows every node, so that the text of unnamed leaves is kept.
pub struct TagMarkup<'a> {
    pub source_code: &'a [u8],
    pub needs_newline: bool,
}

impl<'a> TagMarkup<'a> {
    /// A strategy over `source_code` that has written nothing yet.
    pub fn new(source_code: &'a [u8]) -> (r: Self)
        ensures
            r.source_code == source_code,
            !r.needs_newline,
    {
        TagMarkup { source_code, needs_newline: false }
    }

    pub open spec fn is_leaf(t: &SyntaxTree, i: int) -> bool {
        i + 1 == t.end_of(i)
    }

    /// The escaped source text of leaf `i`.
    pub open spec fn leaf_text(&self, t: &SyntaxTree, i: int) -> Seq<char> {
        markup_text(
            decode_utf8(
                self.source_code@.subrange(
                    t.nodes@[i].start_byte as int,
                    t.nodes@[i].end_byte as int,
                ),
            ),
        )
    }

    pub open spec fn open_tag(t: &SyntaxTree, i: int) -> Seq<char> {
        let n = t.nodes@[i];
        "<"@ + n.kind@ + match n.field_name {
            Some(f) => " type=\""@ + f@ + "\""@,
            None => Seq::empty(),
        } + ">"@
    }
}

impl<'a> RenderStep for TagMarkup<'a> {
    /// Every leaf spans valid UTF-8 inside the source.
    open spec fn fits(&self, t: &SyntaxTree) -> bool {
        forall|i: int|
            0 <= i < t.len() && #[trigger] t.end_of(i) == i + 1 ==> {
                &&& t.nodes@[i].start_byte <= t.nodes@[i].end_byte <= self.source_code@.len()
                &&& valid_utf8(
                    self.source_code@.subrange(
                        t.nodes@[i].start_byte as int,
                        t.nodes@[i].end_byte as int,
                    ),
                )
            }
    }

    open spec fn step_text(&self, t: &SyntaxTree, step: Step) -> Seq<char> {
        match step {
            Step::Indent { node, indent_level } => if t.nodes@[node as int].is_named {
                (if self.needs_newline {
                    "\n"@
                } else {
                    Seq::empty()
                }) + indentation(indent_level as nat)
            } else {
                Seq::empty()
            },
            Step::Node { node, .. } => if t.nodes@[node as int].is_named {
                Self::open_tag(t, node as int)
            } else {
                Seq::empty()
            },
            Step::AfterChildren { node } => (if Self::is_leaf(t, node as int) {
                self.leaf_text(t, node as int)
            } else {
                Seq::empty()
            }) + if t.nodes@[node as int].is_named {
                "</"@ + t.nodes@[node as int].kind@ + ">\n"@
            } else {
                Seq::empty()
            },
            Step::LineFeed => Seq::empty(),
        }
    }

    open spec fn after_step(&self, t: &SyntaxTree, step: Step) -> Self {
        match step {
            Step::Node { node, .. } => if t.nodes@[node as int].is_named {
                TagMarkup { needs_newline: true, ..*self }
            } else {
                *self
            },
            Step::AfterChildren { node } => if t.nodes@[node as int].is_named {
                TagMarkup { needs_newline: true, ..*self }
            } else {
                *self
            },
            _ => *self,
        }
    }

    fn render_step(&mut self, t: &SyntaxTree, step: Step) -> (r: String) {
        let mut out = String::new();
        match step {
            Step::Indent { node, indent_level } => {
                if t.nodes[node].is_named {
                    if self.needs_newline {
                        out.append("\n");
                    }
                    let mut i: usize = 0;
                    while i < indent_level
                        invariant
                            i <= indent_level,
                            out@ == (if self.needs_newline {
                                "\n"@
                            } else {
                                Seq::<char>::empty()
                            }) + indentation(i as nat),
                        decreases indent_level - i,
                    {
                        out.append("  ");
                        proof {
                            reveal_strlit("  ");
                        }
                        i = i + 1;
                        assert(out@ =~= (if self.needs_newline {
                            "\n"@
                        } else {
                            Seq::<char>::empty()
                        }) + indentation(i as nat));
                    }
                }
                assert(out@ =~= self.step_text(t, step));
            },
            Step::Node { node, .. } => {
                let n = &t.nodes[node];
                if n.is_named {
                    out.append("<");
                    out.append(n.kind.as_str());
                    if let Some(f) = &n.field_name {
                        out.append(" type=\"");
                        out.append(f.as_str());
                        out.append("\"");
                    }
                    out.append(">");
                    self.needs_newline = true;
                }
                assert(out@ =~= self.step_text(t, step));
            },
            Step::AfterChildren { node } => {
                let n = &t.nodes[node];
                if node + 1 == n.subtree_end {
                    assert(t.end_of(node as int) == node + 1);
                    let span = vstd::slice::slice_subrange(self.source_code, n.start_byte, n.end_byte);
                    if let Some(text) = utf8_str(span) {
                        let escaped = encode_text(text);
                        out.append(escaped.as_str());
                    }
                }
                if n.is_named {
                    out.append("</");
                    out.append(n.kind.as_str());
                    out.append(">\n");
                    self.needs_newline = true;
                }
                assert(out@ =~= old(self).step_text(t, step));
            },
            Step::LineFeed => {},
        }
        out
    }
}

} // verus!
