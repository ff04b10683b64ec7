//! AST types produced by the parser, with their mathematical values.

use vstd::prelude::*;

use crate::lexer::Span;

verus! {

#[derive(Debug)]
pub struct Document {
    pub body: Vec<Node>,
}

impl Clone for Document {
    fn clone(&self) -> (r: Self)
        ensures
            nodes_model(r.body@) == nodes_model(self.body@),
    {
        Document { body: clone_nodes(&self.body) }
    }
}

#[derive(Debug)]
pub enum Node {
    Text(String, Span),
    ParagraphBreak(Span),
    /// A control sequence with its arguments; the span runs from the
    /// backslash over the last argument, its closing bracket included.
    Command { name: String, args: Vec<Arg>, span: Span },
    Group(Vec<Node>, Span),
    /// Inline math: `$ ... $`. The span covers both `$` delimiters.
    Math(Vec<Node>, Span),
    /// Display math: `\[ ... \]`. The span covers both delimiters.
    DisplayMath(Vec<Node>, Span),
    /// A `% ...` line comment. The string is the body without the leading
    /// `%` and without the trailing newline; the span covers the whole run.
    Comment(String, Span),
    /// A `&` column separator.
    AlignTab(Span),
    /// A `~`: a non-breaking space.
    Tilde(Span),
    /// `\begin{name} ... \end{name}`. `args` is everything after the
    /// environment name; `body` holds the parsed children; the span covers
    /// the entire construct.
    Environment { name: String, args: Vec<Arg>, body: Vec<Node>, span: Span },
}

#[derive(Debug)]
pub enum Arg {
    Mandatory(Vec<Node>),
    Optional(Vec<Node>),
}

/// Mathematical value of a `Node`.
pub enum NodeModel {
    Text(Seq<char>, Span),
    ParagraphBreak(Span),
    Command { name: Seq<char>, args: Seq<ArgModel>, span: Span },
    Group(Seq<NodeModel>, Span),
    Math(Seq<NodeModel>, Span),
    DisplayMath(Seq<NodeModel>, Span),
    Comment(Seq<char>, Span),
    AlignTab(Span),
    Tilde(Span),
    Environment { name: Seq<char>, args: Seq<ArgModel>, body: Seq<NodeModel>, span: Span },
}

/// Mathematical value of an `Arg`.
pub enum ArgModel {
    Mandatory(Seq<NodeModel>),
    Optional(Seq<NodeModel>),
}

pub open spec fn node_model(n: Node) -> NodeModel
    decreases n,
{
    match n {
        Node::Text(t, s) => NodeModel::Text(t@, s),
        Node::ParagraphBreak(s) => NodeModel::ParagraphBreak(s),
        Node::Command { name, args, span } => NodeModel::Command {
            name: name@,
            args: args_model(args@),
            span,
        },
        Node::Group(c, s) => NodeModel::Group(nodes_model(c@), s),
        Node::Math(c, s) => NodeModel::Math(nodes_model(c@), s),
        Node::DisplayMath(c, s) => NodeModel::DisplayMath(nodes_model(c@), s),
        Node::Comment(t, s) => NodeModel::Comment(t@, s),
        Node::AlignTab(s) => NodeModel::AlignTab(s),
        Node::Tilde(s) => NodeModel::Tilde(s),
        Node::Environment { name, args, body, span } => NodeModel::Environment {
            name: name@,
            args: args_model(args@),
            body: nodes_model(body@),
            span,
        },
    }
}

pub open spec fn nodes_model(s: Seq<Node>) -> Seq<NodeModel>
    decreases s,
{
    if s.len() == 0 {
        Seq::empty()
    } else {
        seq![node_model(s[0])] + nodes_model(s.drop_first())
    }
}

pub open spec fn arg_model(a: Arg) -> ArgModel
    decreases a,
{
    match a {
        Arg::Mandatory(c) => ArgModel::Mandatory(nodes_model(c@)),
        Arg::Optional(c) => ArgModel::Optional(nodes_model(c@)),
    }
}

pub open spec fn args_model(s: Seq<Arg>) -> Seq<ArgModel>
    decreases s,
{
    if s.len() == 0 {
        Seq::empty()
    } else {
        seq![arg_model(s[0])] + args_model(s.drop_first())
    }
}

impl View for Node {
    type V = NodeModel;

    open spec fn view(&self) -> NodeModel {
        node_model(*self)
    }
}

impl View for Arg {
    type V = ArgModel;

    open spec fn view(&self) -> ArgModel {
        arg_model(*self)
    }
}

pub broadcast proof fn lemma_nodes_model(s: Seq<Node>)
    ensures
        #[trigger] nodes_model(s) == s.map_values(|n: Node| node_model(n)),
    decreases s.len(),
{
    if s.len() > 0 {
        lemma_nodes_model(s.drop_first());
        assert(nodes_model(s) =~= s.map_values(|n: Node| node_model(n)));
    } else {
        assert(nodes_model(s) =~= s.map_values(|n: Node| node_model(n)));
    }
}

pub broadcast proof fn lemma_args_model(s: Seq<Arg>)
    ensures
        #[trigger] args_model(s) == s.map_values(|a: Arg| arg_model(a)),
    decreases s.len(),
{
    if s.len() > 0 {
        lemma_args_model(s.drop_first());
        assert(args_model(s) =~= s.map_values(|a: Arg| arg_model(a)));
    } else {
        assert(args_model(s) =~= s.map_values(|a: Arg| arg_model(a)));
    }
}

/// The span of a node.
pub open spec fn node_span(n: NodeModel) -> Span {
    match n {
        NodeModel::Text(_, s) => s,
        NodeModel::ParagraphBreak(s) => s,
        NodeModel::Command { span, .. } => span,
        NodeModel::Group(_, s) => s,
        NodeModel::Math(_, s) => s,
        NodeModel::DisplayMath(_, s) => s,
        NodeModel::Comment(_, s) => s,
        NodeModel::AlignTab(s) => s,
        NodeModel::Tilde(s) => s,
        NodeModel::Environment { span, .. } => span,
    }
}

impl Node {
    pub fn span(&self) -> (r: Span)
        ensures
            r == node_span(self@),
    {
        match self {
            Node::Text(_, s) => *s,
            Node::ParagraphBreak(s) => *s,
            Node::Command { span, .. } => *span,
            Node::Group(_, s) => *s,
            Node::Math(_, s) => *s,
            Node::DisplayMath(_, s) => *s,
            Node::Comment(_, s) => *s,
            Node::AlignTab(s) => *s,
            Node::Tilde(s) => *s,
            Node::Environment { span, .. } => *span,
        }
    }
}

impl Node {
    /// A copy of the whole subtree.
    fn deep_clone(&self) -> (r: Node)
        ensures
            r@ == self@,
        decreases self,
    {
        match self {
            Node::Text(t, s) => Node::Text(t.clone(), *s),
            Node::ParagraphBreak(s) => Node::ParagraphBreak(*s),
            Node::Command { name, args, span } => Node::Command {
                name: name.clone(),
                args: clone_args(args),
                span: *span,
            },
            Node::Group(c, s) => Node::Group(clone_nodes(c), *s),
            Node::Math(c, s) => Node::Math(clone_nodes(c), *s),
            Node::DisplayMath(c, s) => Node::DisplayMath(clone_nodes(c), *s),
            Node::Comment(t, s) => Node::Comment(t.clone(), *s),
            Node::AlignTab(s) => Node::AlignTab(*s),
            Node::Tilde(s) => Node::Tilde(*s),
            Node::Environment { name, args, body, span } => Node::Environment {
                name: name.clone(),
                args: clone_args(args),
                body: clone_nodes(body),
                span: *span,
            },
        }
    }
}

impl Arg {
    /// A copy of the argument and everything under it.
    fn deep_clone(&self) -> (r: Arg)
        ensures
            r@ == self@,
        decreases self,
    {
        match self {
            Arg::Mandatory(c) => Arg::Mandatory(clone_nodes(c)),
            Arg::Optional(c) => Arg::Optional(clone_nodes(c)),
        }
    }
}

/// A copy of a sequence of nodes.
fn clone_nodes(v: &Vec<Node>) -> (r: Vec<Node>)
    ensures
        nodes_model(r@) == nodes_model(v@),
    decreases v,
{
    broadcast use lemma_nodes_model;
    let mut out: Vec<Node> = Vec::new();
    let mut i: usize = 0;
    while i < v.len()
        invariant
            i <= v@.len(),
            out@.len() == i,
            forall|k: int| 0 <= k < i ==> node_model(#[trigger] out@[k]) == node_model(v@[k]),
        decreases v@.len() - i,
    {
        proof {
            assert(decreases_to!(v => v@[i as int]));
        }
        let n = v[i].deep_clone();
        out.push(n);
        i = i + 1;
    }
    proof {
        assert(nodes_model(out@) =~= nodes_model(v@));
    }
    out
}

/// A copy of a sequence of arguments.
fn clone_args(v: &Vec<Arg>) -> (r: Vec<Arg>)
    ensures
        args_model(r@) == args_model(v@),
    decreases v,
{
    broadcast use lemma_args_model;
    let mut out: Vec<Arg> = Vec::new();
    let mut i: usize = 0;
    while i < v.len()
        invariant
            i <= v@.len(),
            out@.len() == i,
            forall|k: int| 0 <= k < i ==> arg_model(#[trigger] out@[k]) == arg_model(v@[k]),
        decreases v@.len() - i,
    {
        proof {
            assert(decreases_to!(v => v@[i as int]));
        }
        let a = v[i].deep_clone();
        out.push(a);
        i = i + 1;
    }
    proof {
        assert(args_model(out@) =~= args_model(v@));
    }
    out
}

impl Clone for Node {
    fn clone(&self) -> (r: Self)
        ensures
            r@ == self@,
    {
        self.deep_clone()
    }
}

impl Clone for Arg {
    fn clone(&self) -> (r: Self)
        ensures
            r@ == self@,
    {
        self.deep_clone()
    }
}

} // verus!
