use vstd::prelude::*;
use vstd::utf8::{decode_utf8, valid_utf8};

use crate::traversal::{entered, left_count, qualifying_before, traversal_steps, well_shaped, Step};
use crate::tree::{NodeInfo, SyntaxTree};

verus! {

/// Relies on std::str::from_utf8: it accepts exactly the valid UTF-8 byte
/// strings, and gives the characters they encode.
#[verifier::external_body]
pub(crate) fn utf8_str(b: &[u8]) -> (r: Option<&str>)
    ensures
        r is Some <==> valid_utf8(b@),
        r matches Some(s) ==> s@ == decode_utf8(b@),
{
    std::str::from_utf8(b).ok()
}

pub open spec fn digit_text(d: nat) -> Seq<char> {
    if d == 0 {
        "0"@
    } else if d == 1 {
        "1"@
    } else if d == 2 {
        "2"@
    } else if d == 3 {
        "3"@
    } else if d == 4 {
        "4"@
    } else if d == 5 {
        "5"@
    } else if d == 6 {
        "6"@
    } else if d == 7 {
        "7"@
    } else if d == 8 {
        "8"@
    } else {
        "9"@
    }
}

/// The decimal numeral of `n`, without leading zeros.
pub open spec fn decimal(n: nat) -> Seq<char>
    decreases n,
{
    if n < 10 {
        digit_text(n)
    } else {
        decimal(n / 10) + digit_text(n % 10)
    }
}

fn digit_str(d: usize) -> (r: &'static str)
    requires
        d < 10,
    ensures
        r@ == digit_text(d as nat),
{
    match d {
        0 => "0",
        1 => "1",
        2 => "2",
        3 => "3",
        4 => "4",
        5 => "5",
        6 => "6",
        7 => "7",
        8 => "8",
        _ => "9",
    }
}

/// Appends the decimal numeral of `n` to `out`.
pub fn push_decimal(out: &mut String, n: usize)
    ensures
        final(out)@ == old(out)@ + decimal(n as nat),
    decreases n,
{
    if n >= 10 {
        push_decimal(out, n / 10);
    }
    out.append(digit_str(n % 10));
    proof {
        if n >= 10 {
            assert(final(out)@ =~= old(out)@ + decimal(n as nat));
        }
    }
}

/// `k` levels of two-space indentation.
pub open spec fn indentation(k: nat) -> Seq<char> {
    Seq::new(2 * k, |i: int| ' ')
}

/// `name: ` for a node with a field name, else nothing.
pub open spec fn field_prefix(f: Option<String>) -> Seq<char> {
    match f {
        Some(name) => name@ + ": "@,
        None => Seq::empty(),
    }
}

/// `[row, column] - [row, column]` for the node's start and end.
pub open spec fn range_text(n: NodeInfo) -> Seq<char> {
    "["@ + decimal(n.start_position.row as nat) + ", "@ + decimal(n.start_position.column as nat)
        + "] - ["@ + decimal(n.end_position.row as nat) + ", "@ + decimal(
        n.end_position.column as nat,
    ) + "]"@
}

/// Whether a step names a node of `t`.
pub open spec fn step_in(t: &SyntaxTree, s: Step) -> bool {
    match s {
        Step::LineFeed => true,
        Step::Indent { node, .. } => node < t.len(),
        Step::Node { node, .. } => node < t.len(),
        Step::AfterChildren { node } => node < t.len(),
    }
}

/// An output encoding: turns each step of a walk into a piece of text.
pub trait RenderStep: Sized {
    /// The strategy can render every step of `t`.
    spec fn fits(&self, t: &SyntaxTree) -> bool;

    /// The text for `step`.
    spec fn step_text(&self, t: &SyntaxTree, step: Step) -> Seq<char>;

    /// The strategy as `step` leaves it.
    spec fn after_step(&self, t: &SyntaxTree, step: Step) -> Self;

    fn render_step(&mut self, t: &SyntaxTree, step: Step) -> (r: String)
        requires
            t.well_formed(),
            old(self).fits(t),
            step_in(t, step),
        ensures
            r@ == old(self).step_text(t, step),
            *final(self) == old(self).after_step(t, step),
            final(self).fits(t),
    ;
}

/// The text that `r` gives for `steps`, each step handled by the strategy as
/// the steps before it left it.
pub open spec fn rendered<R: RenderStep>(r: R, t: &SyntaxTree, steps: Seq<Step>) -> Seq<char>
    decreases steps.len(),
{
    if steps.len() == 0 {
        Seq::empty()
    } else {
        r.step_text(t, steps[0]) + rendered(r.after_step(t, steps[0]), t, steps.drop_first())
    }
}

fn push_indentation(out: &mut String, k: usize)
    ensures
        final(out)@ == old(out)@ + indentation(k as nat),
{
    let mut i: usize = 0;
    while i < k
        invariant
            i <= k,
            out@ == old(out)@ + indentation(i as nat),
        decreases k - i,
    {
        out.append("  ");
        proof {
            reveal_strlit("  ");
        }
        i = i + 1;
        assert(out@ =~= old(out)@ + indentation(i as nat));
    }
}

fn push_field_prefix(out: &mut String, f: &Option<String>)
    ensures
        final(out)@ == old(out)@ + field_prefix(*f),
{
    if let Some(name) = f {
        out.append(name.as_str());
        out.append(": ");
        assert(out@ =~= old(out)@ + field_prefix(*f));
    } else {
        assert(out@ =~= old(out)@ + field_prefix(*f));
    }
}

fn push_range(out: &mut String, n: &NodeInfo)
    ensures
        final(out)@ == old(out)@ + range_text(*n),
{
    out.append("[");
    push_decimal(out, n.start_position.row);
    out.append(", ");
    push_decimal(out, n.start_position.column);
    out.append("] - [");
    push_decimal(out, n.end_position.row);
    out.append(", ");
    push_decimal(out, n.end_position.column);
    out.append("]");
    assert(out@ =~= old(out)@ + range_text(*n));
}

/// Kind names only, each after its field name; with `0` set, each followed by
/// its range. Nothing marks where a node ends.
pub struct NodeTree(pub bool);

impl RenderStep for NodeTree {
    open spec fn fits(&self, t: &SyntaxTree) -> bool {
        true
    }

    open spec fn step_text(&self, t: &SyntaxTree, step: Step) -> Seq<char> {
        match step {
            Step::LineFeed => "\n"@,
            Step::Indent { indent_level, .. } => indentation(indent_level as nat),
            Step::Node { node, .. } => {
                let n = t.nodes@[node as int];
                field_prefix(n.field_name) + n.kind@ + if self.0 {
                    " "@ + range_text(n)
                } else {
                    Seq::empty()
                }
            },
            Step::AfterChildren { .. } => Seq::empty(),
        }
    }

    open spec fn after_step(&self, t: &SyntaxTree, step: Step) -> Self {
        *self
    }

    fn render_step(&mut self, t: &SyntaxTree, step: Step) -> (r: String) {
        let mut out = String::new();
        match step {
            Step::LineFeed => {
                out.append("\n");
            },
            Step::Indent { indent_level, .. } => {
                push_indentation(&mut out, indent_level);
            },
            Step::Node { node, .. } => {
                let n = &t.nodes[node];
                push_field_prefix(&mut out, &n.field_name);
                out.append(n.kind.as_str());
                if self.0 {
                    out.append(" ");
                    push_range(&mut out, n);
                }
                assert(out@ =~= self.step_text(t, step));
            },
            Step::AfterChildren { .. } => {},
        }
        out
    }
}

/// An s-expression: each node opens a parenthesis with its kind and range,
/// which closes when the walk leaves it.
pub struct NodeTreeWithRanges;

impl RenderStep for NodeTreeWithRanges {
    open spec fn fits(&self, t: &SyntaxTree) -> bool {
        true
    }

    open spec fn step_text(&self, t: &SyntaxTree, step: Step) -> Seq<char> {
        match step {
            Step::LineFeed => "\n"@,
            Step::Indent { indent_level, .. } => indentation(indent_level as nat),
            Step::Node { node, .. } => {
                let n = t.nodes@[node as int];
                field_prefix(n.field_name) + "("@ + n.kind@ + " "@ + range_text(n)
            },
            Step::AfterChildren { .. } => ")"@,
        }
    }

    open spec fn after_step(&self, t: &SyntaxTree, step: Step) -> Self {
        *self
    }

    fn render_step(&mut self, t: &SyntaxTree, step: Step) -> (r: String) {
        let mut out = String::new();
        match step {
            Step::LineFeed => {
                out.append("\n");
            },
            Step::Indent { indent_level, .. } => {
                push_indentation(&mut out, indent_level);
            },
            Step::Node { node, .. } => {
                let n = &t.nodes[node];
                push_field_prefix(&mut out, &n.field_name);
                out.append("(");
                out.append(n.kind.as_str());
                out.append(" ");
                push_range(&mut out, n);
                assert(out@ =~= self.step_text(t, step));
            },
            Step::AfterChildren { .. } => {
                out.append(")");
            },
        }
        out
    }
}

/// Hands each step to `strategy` in order and joins the pieces.
pub fn render_steps<R: RenderStep>(t: &SyntaxTree, strategy: &mut R, steps: &Vec<Step>) -> (out: String)
    requires
        t.well_formed(),
        old(strategy).fits(t),
        forall|k: int| 0 <= k < steps@.len() ==> step_in(t, #[trigger] steps@[k]),
    ensures
        out@ == rendered(*old(strategy), t, steps@),
        final(strategy).fits(t),
{
    let mut out = String::new();
    let mut i: usize = 0;
    proof {
        assert(steps@.skip(0) =~= steps@);
        assert(out@ + rendered(*strategy, t, steps@) =~= rendered(*strategy, t, steps@));
    }
    while i < steps.len()
        invariant
            i <= steps@.len(),
            t.well_formed(),
            strategy.fits(t),
            forall|k: int| 0 <= k < steps@.len() ==> step_in(t, #[trigger] steps@[k]),
            out@ + rendered(*strategy, t, steps@.skip(i as int)) == rendered(
                *old(strategy),
                t,
                steps@,
            ),
        decreases steps.len() - i,
    {
        let ghost s = *strategy;
        let piece = strategy.render_step(t, steps[i]);
        proof {
            let rest = steps@.skip(i as int);
            assert(rest[0] == steps@[i as int]);
            assert(rest.drop_first() =~= steps@.skip(i as int + 1));
            assert(out@ + piece@ + rendered(*strategy, t, steps@.skip(i as int + 1)) =~= out@
                + rendered(s, t, rest));
        }
        out.append(piece.as_str());
        i = i + 1;
    }
    proof {
        assert(steps@.skip(i as int).len() == 0);
        assert(out@ + rendered(*strategy, t, steps@.skip(i as int)) =~= out@);
    }
    out
}

/// One rendering set-up: a strategy, and whether unnamed nodes take part.
pub struct StepRender<R: RenderStep> {
    pub render: R,
    pub show_all: bool,
}

impl<R: RenderStep> StepRender<R> {
    /// Renders with `render`, named nodes only.
    pub fn new(render: R) -> (r: Self)
        ensures
            r.render == render,
            !r.show_all,
    {
        StepRender { render, show_all: false }
    }

    /// Whether every node, named or not, takes part.
    pub fn show_all(self, flag: bool) -> (r: Self)
        ensures
            r.render == self.render,
            r.show_all == flag,
    {
        StepRender { render: self.render, show_all: flag }
    }

    /// Renders the whole tree: one walk, each of its steps handed to the
    /// strategy in turn, the pieces joined in order.
    pub fn render(&mut self, t: &SyntaxTree) -> (out: String)
        requires
            t.well_formed(),
            old(self).render.fits(t),
        ensures
            final(self).show_all == old(self).show_all,
            final(self).render.fits(t),
            exists|s: Seq<Step>|
                #![trigger rendered(old(self).render, t, s)]
                {
                    &&& entered(s) == qualifying_before(t, old(self).show_all, t.len())
                    &&& left_count(s) == qualifying_before(t, old(self).show_all, t.len()).len()
                    &&& well_shaped(s)
                    &&& s.len() <= 4 * t.len()
                    &&& out@ == rendered(old(self).render, t, s)
                },
    {
        let steps = traversal_steps(t, self.show_all);
        render_steps(t, &mut self.render, &steps)
    }
}

} // verus!
