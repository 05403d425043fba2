//! The outline of a document: its `part` blocks as a tree of symbols, for
//! editors that show a table of contents.

use vstd::prelude::*;

use crate::ast::{lemma_nodes_view, nodes_view, Block, Node, NodeView, Span, SpanView};
use crate::backend::{lemma_nodes_step, part_title, part_title_text};
use crate::text::str_eq;

verus! {

/// One `part` block of the outline, with the parts below it.
#[derive(Debug, PartialEq, Eq)]
pub struct PartSymbol {
    /// The title of the part.
    pub name: String,
    /// The span of the part's header.
    pub span: Span,
    /// The parts inside this one.
    pub children: Vec<PartSymbol>,
}

/// The mathematical value of a [`PartSymbol`].
pub struct PartSymbolView {
    pub name: Seq<char>,
    pub span: SpanView,
    pub children: Seq<PartSymbolView>,
}

/// The view of a symbol, children included.
pub open spec fn symbol_view(p: PartSymbol) -> PartSymbolView
    decreases p,
{
    PartSymbolView { name: p.name@, span: p.span@, children: symbols_view(p.children@) }
}

/// The views of a sequence of symbols, element by element.
pub open spec fn symbols_view(s: Seq<PartSymbol>) -> Seq<PartSymbolView>
    decreases s,
{
    if s.len() == 0 {
        Seq::empty()
    } else {
        symbols_view(s.drop_last()).push(symbol_view(s.last()))
    }
}

impl View for PartSymbol {
    type V = PartSymbolView;

    open spec fn view(&self) -> PartSymbolView {
        symbol_view(*self)
    }
}

/// The views of two sequences put together are the views of the whole.
pub proof fn lemma_symbols_view_concat(a: Seq<PartSymbol>, b: Seq<PartSymbol>)
    ensures
        symbols_view(a + b) == symbols_view(a) + symbols_view(b),
    decreases b.len(),
{
    if b.len() == 0 {
        assert(a + b == a);
    } else {
        assert((a + b).drop_last() == a + b.drop_last());
        lemma_symbols_view_concat(a, b.drop_last());
    }
}

/// The outline of a node: a `part` block is one symbol, titled as in the
/// renderers, over the outline of its children; any other block gives way to
/// the outline of its children; text has none.
pub open spec fn node_symbols(n: NodeView) -> Seq<PartSymbolView>
    decreases n, 0int,
{
    match n {
        NodeView::Text(_) => Seq::empty(),
        NodeView::Block(b) => if b.name == "part"@ {
            seq![
                PartSymbolView {
                    name: part_title(b.args),
                    span: b.span,
                    children: part_symbols(b.nodes),
                },
            ]
        } else {
            part_symbols(b.nodes)
        },
    }
}

/// The outline of a sequence of nodes, in document order.
pub open spec fn part_symbols(nodes: Seq<NodeView>) -> Seq<PartSymbolView>
    decreases nodes, 1int,
{
    if nodes.len() == 0 {
        Seq::empty()
    } else {
        part_symbols(nodes.drop_last()) + node_symbols(nodes.last())
    }
}

/// Collects the outline of a sequence of nodes.
pub fn collect_part_symbols(nodes: &[Node]) -> (symbols: Vec<PartSymbol>)
    ensures
        symbols_view(symbols@) == part_symbols(nodes_view(nodes@)),
    decreases nodes@,
{
    let ghost all = nodes_view(nodes@);
    let mut symbols: Vec<PartSymbol> = Vec::new();
    let mut i: usize = 0;
    proof {
        lemma_nodes_view(nodes@);
    }
    while i < nodes.len()
        invariant
            i <= nodes@.len(),
            all == nodes_view(nodes@),
            all.len() == nodes@.len(),
            symbols_view(symbols@) == part_symbols(all.take(i as int)),
        decreases nodes@.len() - i,
    {
        proof {
            lemma_nodes_step(nodes@, i as int);
        }
        match &nodes[i] {
            Node::Block(block) => {
                let ghost before = part_symbols(all.take(i as int));
                assert(all[i as int] == NodeView::Block(block@));
                assert(part_symbols(all.take(i + 1)) == before + node_symbols(all[i as int]));
                let mut children = collect_part_symbols(block.nodes.as_slice());
                if str_eq(block.name.as_str(), "part") {
                    let symbol = PartSymbol {
                        name: part_title_text(block),
                        span: block.span,
                        children,
                    };
                    proof {
                        assert(symbols@.push(symbol).drop_last() == symbols@);
                        assert(symbols_view(symbols@.push(symbol)) == symbols_view(symbols@)
                            + seq![symbol_view(symbol)]);
                        assert(node_symbols(all[i as int]) == seq![symbol_view(symbol)]);
                    }
                    symbols.push(symbol);
                } else {
                    proof {
                        lemma_symbols_view_concat(symbols@, children@);
                        assert(node_symbols(all[i as int]) == symbols_view(children@));
                    }
                    symbols.append(&mut children);
                }
            },
            Node::Text(_) => {
                assert(node_symbols(all[i as int]) == Seq::<PartSymbolView>::empty());
                assert(part_symbols(all.take(i + 1)) == part_symbols(all.take(i as int))
                    + node_symbols(all[i as int]));
            },
        }
        i += 1;
    }
    proof {
        assert(all.take(all.len() as int) == all);
    }
    symbols
}

} // verus!
