//! Small functions used by the parser.

use vstd::prelude::*;

use crate::ast::{args_model, lemma_args_model, lemma_nodes_model, nodes_model, Arg, ArgModel, Node, NodeModel};
use crate::diagnostics::DiagSpan;
use crate::lexer::{Span, TokenKind};
use crate::parser::spec::{all_text, diag_span_of, env_name, env_name_from, is_control_seq, text_concat};
use crate::text::{str_eq, trim_string};

verus! {

broadcast use {lemma_args_model, lemma_nodes_model};

pub fn diag_span(s: Span) -> (r: DiagSpan)
    ensures
        r == diag_span_of(s),
{
    DiagSpan::new(s.start, s.end)
}

/// Stop predicate for the body of `\[ ... \]`.
pub fn is_display_math_close(k: &TokenKind) -> (r: bool)
    ensures
        r == is_control_seq(k@, "]"@),
{
    match k {
        TokenKind::ControlSeq(s) => str_eq(s.as_str(), "]"),
        _ => false,
    }
}

/// Stop predicate for the body of an environment.
pub fn is_end_control_seq(k: &TokenKind) -> (r: bool)
    ensures
        r == is_control_seq(k@, "end"@),
{
    match k {
        TokenKind::ControlSeq(s) => str_eq(s.as_str(), "end"),
        _ => false,
    }
}

/// Find the first mandatory argument whose children are all text and whose
/// concatenated, trimmed text is non-empty: its index and that text.
/// Arguments holding anything but text are passed over.
pub fn find_env_name(args: &Vec<Arg>) -> (r: Option<(usize, String)>)
    ensures
        match r {
            Some((i, n)) => env_name(args_model(args@)) == Some((i as int, n@)),
            None => env_name(args_model(args@)) is None,
        },
{
    let ghost am = args_model(args@);
    let mut i: usize = 0;
    while i < args.len()
        invariant
            i <= args@.len(),
            am == args_model(args@),
            env_name_from(am, i as int) == env_name(am),
        decreases args@.len() - i,
    {
        match &args[i] {
            Arg::Mandatory(children) => {
                let ghost cm = nodes_model(children@);
                proof {
                    lemma_nodes_model(children@);
                    lemma_args_model(args@);
                    assert(cm.len() == children@.len());
                    assert(am[i as int] == ArgModel::Mandatory(cm));
                }
                let mut name = String::new();
                let mut k: usize = 0;
                let mut ok = true;
                while k < children.len()
                    invariant
                        k <= children@.len(),
                        cm == nodes_model(children@),
                        cm.len() == children@.len(),
                        i < args@.len(),
                        am == args_model(args@),
                        am[i as int] == ArgModel::Mandatory(cm),
                        env_name_from(am, i as int) == env_name(am),
                        ok ==> name@ == text_concat(cm.take(k as int)),
                        ok ==> all_text(cm.take(k as int)),
                        !ok ==> !all_text(cm),
                    decreases children@.len() - k,
                {
                    match &children[k] {
                        Node::Text(t, _) => {
                            proof {
                                assert(cm.take(k + 1).drop_last() =~= cm.take(k as int));
                            }
                            name.append(t.as_str());
                            proof {
                                if ok {
                                    assert(all_text(cm.take(k + 1))) by {
                                        assert forall|j: int| 0 <= j < k + 1 implies #[trigger] cm.take(k + 1)[j] is Text by {
                                            if j < k {
                                                assert(cm.take(k + 1)[j] == cm.take(k as int)[j]);
                                            }
                                        }
                                    }
                                }
                            }
                            k = k + 1;
                        },
                        _ => {
                            proof {
                                assert(!(cm[k as int] is Text));
                                assert(!all_text(cm));
                            }
                            ok = false;
                            k = children.len();
                        },
                    }
                }
                if ok {
                    proof {
                        assert(cm.take(k as int) =~= cm);
                    }
                    let trimmed = trim_string(&name);
                    if !trimmed.as_str().is_empty() {
                        return Some((i, trimmed));
                    }
                }
            },
            Arg::Optional(_) => {},
        }
        i = i + 1;
    }
    None
}

} // verus!
