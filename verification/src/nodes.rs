//! The token stream: a flattening of the lexed lines into a linear node
//! sequence, the seam between the lexer and the typed decoder.

use vstd::prelude::*;
use vstd::string::*;
use crate::lexer::{
    Attribute, AttributeModel, AttributeValue, AttrValueModel, FloatLit, Manifest, RawLine,
    RawLineModel, TagArgs, TagArgsModel,
};

verus! {

/// One element of the token stream.
#[derive(Debug, Clone, PartialEq, Eq)]
pub enum Node {
    AttributeName(String),
    AttributesEnd,
    AttributesStart,
    AttributeValue(AttributeValue),
    Integer(u64),
    Float(FloatLit),
    ManifestEnd,
    ManifestStart,
    Str(String),
    TagName(String),
    TagStart,
    Uri(String),
}

/// The mathematical shape of a node.
pub enum NodeModel {
    AttributeName(Seq<char>),
    AttributesEnd,
    AttributesStart,
    AttributeValue(AttrValueModel),
    Integer(u64),
    Float(Seq<char>),
    ManifestEnd,
    ManifestStart,
    Str(Seq<char>),
    TagName(Seq<char>),
    TagStart,
    Uri(Seq<char>),
}

impl View for Node {
    type V = NodeModel;

    open spec fn view(&self) -> NodeModel {
        match self {
            Node::AttributeName(s) => NodeModel::AttributeName(s@),
            Node::AttributesEnd => NodeModel::AttributesEnd,
            Node::AttributesStart => NodeModel::AttributesStart,
            Node::AttributeValue(v) => NodeModel::AttributeValue(v@),
            Node::Integer(n) => NodeModel::Integer(*n),
            Node::Float(f) => NodeModel::Float(f@),
            Node::ManifestEnd => NodeModel::ManifestEnd,
            Node::ManifestStart => NodeModel::ManifestStart,
            Node::Str(s) => NodeModel::Str(s@),
            Node::TagName(s) => NodeModel::TagName(s@),
            Node::TagStart => NodeModel::TagStart,
            Node::Uri(s) => NodeModel::Uri(s@),
        }
    }
}

/// The nodes of one attribute list, in order: a name and a value for each
/// attribute.
pub open spec fn nodes_of_attrs(attrs: Seq<AttributeModel>) -> Seq<NodeModel>
    decreases attrs.len(),
{
    if attrs.len() == 0 {
        Seq::empty()
    } else {
        seq![
            NodeModel::AttributeName(attrs[0].name),
            NodeModel::AttributeValue(attrs[0].value),
        ] + nodes_of_attrs(attrs.skip(1))
    }
}

/// The nodes of one tag's arguments.
pub open spec fn nodes_of_args(args: TagArgsModel) -> Seq<NodeModel> {
    match args {
        TagArgsModel::Attributes(attrs) => seq![NodeModel::AttributesStart] + nodes_of_attrs(attrs)
            + seq![NodeModel::AttributesEnd],
        TagArgsModel::Integer(n) => seq![NodeModel::Integer(n)],
        TagArgsModel::Float(t) => seq![NodeModel::Float(t)],
        TagArgsModel::Str(t) => seq![NodeModel::Str(t)],
        TagArgsModel::Empty => Seq::empty(),
    }
}

/// The nodes of one line.
pub open spec fn nodes_of_line(l: RawLineModel) -> Seq<NodeModel> {
    match l {
        RawLineModel::Tag { name, args } => seq![NodeModel::TagStart, NodeModel::TagName(name)]
            + nodes_of_args(args),
        RawLineModel::Uri(u) => seq![NodeModel::Uri(u)],
    }
}

pub open spec fn nodes_of_lines(ls: Seq<RawLineModel>) -> Seq<NodeModel>
    decreases ls.len(),
{
    if ls.len() == 0 {
        Seq::empty()
    } else {
        nodes_of_line(ls[0]) + nodes_of_lines(ls.skip(1))
    }
}

/// The whole token stream of a manifest: the lines' nodes between
/// `ManifestStart` and `ManifestEnd`.
pub open spec fn manifest_nodes(ls: Seq<RawLineModel>) -> Seq<NodeModel> {
    seq![NodeModel::ManifestStart] + nodes_of_lines(ls) + seq![NodeModel::ManifestEnd]
}

proof fn lemma_nodes_of_attrs_snoc(attrs: Seq<AttributeModel>, a: AttributeModel)
    ensures
        nodes_of_attrs(attrs.push(a)) =~= nodes_of_attrs(attrs) + seq![
            NodeModel::AttributeName(a.name),
            NodeModel::AttributeValue(a.value),
        ],
    decreases attrs.len(),
{
    let p = attrs.push(a);
    if attrs.len() == 0 {
        assert(p.skip(1) =~= Seq::<AttributeModel>::empty());
        assert(p[0] == a);
        assert(nodes_of_attrs(p.skip(1)) =~= Seq::<NodeModel>::empty());
        assert(nodes_of_attrs(p) =~= seq![
            NodeModel::AttributeName(a.name),
            NodeModel::AttributeValue(a.value),
        ]);
        assert(nodes_of_attrs(attrs) =~= Seq::<NodeModel>::empty());
    } else {
        assert(p.skip(1) =~= attrs.skip(1).push(a));
        lemma_nodes_of_attrs_snoc(attrs.skip(1), a);
        assert(p[0] == attrs[0]);
        assert(nodes_of_attrs(p) =~= seq![
            NodeModel::AttributeName(attrs[0].name),
            NodeModel::AttributeValue(attrs[0].value),
        ] + nodes_of_attrs(attrs.skip(1).push(a)));
    }
}

proof fn lemma_nodes_of_lines_snoc(ls: Seq<RawLineModel>, l: RawLineModel)
    ensures
        nodes_of_lines(ls.push(l)) =~= nodes_of_lines(ls) + nodes_of_line(l),
    decreases ls.len(),
{
    let p = ls.push(l);
    if ls.len() == 0 {
        assert(p.skip(1) =~= Seq::<RawLineModel>::empty());
        assert(p[0] == l);
        assert(nodes_of_lines(p.skip(1)) =~= Seq::<NodeModel>::empty());
        assert(nodes_of_lines(p) =~= nodes_of_line(l) + Seq::<NodeModel>::empty());
        assert(nodes_of_lines(ls) =~= Seq::<NodeModel>::empty());
    } else {
        assert(p.skip(1) =~= ls.skip(1).push(l));
        lemma_nodes_of_lines_snoc(ls.skip(1), l);
        assert(p[0] == ls[0]);
        assert(nodes_of_lines(p) =~= nodes_of_line(ls[0]) + nodes_of_lines(ls.skip(1).push(l)));
    }
}

impl Manifest {
    /// Flatten the lexed lines into the token stream the decoder reads.
    pub fn nodes(&self) -> (r: Vec<Node>)
        ensures
            r@.map_values(|n: Node| n@) == manifest_nodes(self@),
    {
        let lines = self.lines();
        let ghost line_views = lines@.map_values(|l: RawLine| l@);
        let mut out: Vec<Node> = Vec::new();
        out.push(Node::ManifestStart);
        proof {
            assert(out@.map_values(|n: Node| n@) =~= seq![NodeModel::ManifestStart]
                + nodes_of_lines(line_views.take(0)));
        }
        let mut i: usize = 0;
        while i < lines.len()
            invariant
                i <= lines@.len(),
                line_views == lines@.map_values(|l: RawLine| l@),
                out@.map_values(|n: Node| n@) =~= seq![NodeModel::ManifestStart] + nodes_of_lines(
                    line_views.take(i as int),
                ),
            decreases lines@.len() - i,
        {
            let ghost out_pre = out@.map_values(|n: Node| n@);
            let line = &lines[i];
            proof {
                assert(line@ == line_views[i as int]);
            }
            match line {
                RawLine::Tag { name, args } => {
                    out.push(Node::TagStart);
                    out.push(Node::TagName(name.clone()));
                    let ghost out_head = out@.map_values(|n: Node| n@);
                    proof {
                        assert(out_head =~= out_pre + seq![
                            NodeModel::TagStart,
                            NodeModel::TagName(name@),
                        ]);
                    }
                    match args {
                        TagArgs::Attributes(attrs) => {
                            out.push(Node::AttributesStart);
                            let ghost attr_views = attrs@.map_values(|a: Attribute| a@);
                            let ghost out_mid = out@.map_values(|n: Node| n@);
                            proof {
                                assert(out_mid =~= out_head + seq![NodeModel::AttributesStart]);
                                assert(nodes_of_attrs(attr_views.take(0))
                                    =~= Seq::<NodeModel>::empty());
                            }
                            let mut k: usize = 0;
                            while k < attrs.len()
                                invariant
                                    k <= attrs@.len(),
                                    attr_views == attrs@.map_values(|a: Attribute| a@),
                                    out@.map_values(|n: Node| n@) =~= out_mid + nodes_of_attrs(
                                        attr_views.take(k as int),
                                    ),
                                decreases attrs@.len() - k,
                            {
                                let ghost out_k = out@.map_values(|n: Node| n@);
                                let a = &attrs[k];
                                proof {
                                    assert(a@ == attr_views[k as int]);
                                }
                                out.push(Node::AttributeName(a.name.clone()));
                                out.push(Node::AttributeValue(a.value.duplicate()));
                                proof {
                                    assert(out@.map_values(|n: Node| n@) =~= out_k + seq![
                                        NodeModel::AttributeName(attr_views[k as int].name),
                                        NodeModel::AttributeValue(attr_views[k as int].value),
                                    ]);
                                    lemma_nodes_of_attrs_snoc(
                                        attr_views.take(k as int),
                                        attr_views[k as int],
                                    );
                                    assert(attr_views.take(k as int + 1) =~= attr_views.take(
                                        k as int,
                                    ).push(attr_views[k as int]));
                                    assert(out@.map_values(|n: Node| n@) =~= out_mid
                                        + nodes_of_attrs(attr_views.take(k as int + 1)));
                                }
                                k += 1;
                            }
                            let ghost out_attrs = out@.map_values(|n: Node| n@);
                            out.push(Node::AttributesEnd);
                            proof {
                                assert(attr_views.take(attr_views.len() as int) =~= attr_views);
                                assert(out@.map_values(|n: Node| n@) =~= out_attrs + seq![
                                    NodeModel::AttributesEnd,
                                ]);
                                assert(out@.map_values(|n: Node| n@) =~= out_pre + nodes_of_line(
                                    line_views[i as int],
                                ));
                            }
                        },
                        TagArgs::Integer(n) => {
                            out.push(Node::Integer(*n));
                            proof {
                                assert(out@.map_values(|x: Node| x@) =~= out_pre + nodes_of_line(
                                    line_views[i as int],
                                ));
                            }
                        },
                        TagArgs::Float(f) => {
                            out.push(Node::Float(FloatLit { text: f.text.clone() }));
                            proof {
                                assert(out@.map_values(|n: Node| n@) =~= out_pre + nodes_of_line(
                                    line_views[i as int],
                                ));
                            }
                        },
                        TagArgs::Str(t) => {
                            out.push(Node::Str(t.clone()));
                            proof {
                                assert(out@.map_values(|n: Node| n@) =~= out_pre + nodes_of_line(
                                    line_views[i as int],
                                ));
                            }
                        },
                        TagArgs::Empty => {
                            proof {
                                assert(out@.map_values(|n: Node| n@) =~= out_pre + nodes_of_line(
                                    line_views[i as int],
                                ));
                            }
                        },
                    }
                },
                RawLine::Uri(u) => {
                    out.push(Node::Uri(u.clone()));
                    proof {
                        assert(out@.map_values(|n: Node| n@) =~= out_pre + nodes_of_line(
                            line_views[i as int],
                        ));
                    }
                },
            }
            proof {
                lemma_nodes_of_lines_snoc(line_views.take(i as int), line_views[i as int]);
                assert(line_views.take(i as int + 1) =~= line_views.take(i as int).push(
                    line_views[i as int],
                ));
            }
            i += 1;
        }
        out.push(Node::ManifestEnd);
        proof {
            assert(line_views.take(line_views.len() as int) =~= line_views);
            assert(out@.map_values(|n: Node| n@) =~= manifest_nodes(self@));
        }
        out
    }
}

} // verus!
