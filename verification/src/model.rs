//! The mathematical model of a SCAD object tree.
//!
//! Every executable tree type in this crate has a view into [`ScadModel`],
//! and all contracts — dimension typing, well-formedness, and the rendered
//! text — are stated over this model.

use vstd::prelude::*;
use crate::ScadObjectDimensionType;
use crate::text::indent_spec;
use crate::text::indent_tail_spec;
use crate::text::spaces;

verus! {

/// A CSG boolean operation.
#[derive(Clone, Copy, Debug, PartialEq, Eq, Structural)]
pub enum CsgOp {
    /// `union()` in SCAD, built by `+`.
    Union,
    /// `difference()` in SCAD, built by `-`.
    Difference,
    /// `intersection()` in SCAD, built by `*`.
    Intersection,
}

/// The model of a modifier head: either one of the CSG operations or a
/// leaf-layer sentence with its expected child dimension.
#[verifier::ext_equal]
pub enum ScadModifierModel {
    /// A CSG boolean operation; its expected child dimension is the
    /// modifier's own dimension.
    Csg(CsgOp),
    /// Any other modifier sentence, as formatted text plus the dimension it
    /// expects of its child.
    Sentence { body: Seq<char>, children_type: ScadObjectDimensionType },
}

/// The model of one node body.
#[allow(inconsistent_fields)]
#[verifier::ext_equal]
pub enum ScadNodeModel {
    /// A terminal statement.
    Primitive { dim: ScadObjectDimensionType, body: Seq<char> },
    /// A modifier applied to one child tree.
    Modifier { dim: ScadObjectDimensionType, body: ScadModifierModel, child: Box<ScadModel> },
    /// A brace-wrapped sequence of sibling trees.
    Block { dim: ScadObjectDimensionType, objects: Seq<ScadModel> },
}

/// The model of a SCAD object: a node body plus an optional comment.
#[verifier::ext_equal]
pub struct ScadModel {
    /// The comment shown above the node, if any.
    pub comment: Option<Seq<char>>,
    /// The node itself.
    pub node: ScadNodeModel,
}

impl ScadModel {
    /// The dimension type of the modeled object.
    pub open spec fn dim(self) -> ScadObjectDimensionType {
        match self.node {
            ScadNodeModel::Primitive { dim, .. } => dim,
            ScadNodeModel::Modifier { dim, .. } => dim,
            ScadNodeModel::Block { dim, .. } => dim,
        }
    }
}

/// The rendered head of a modifier.
pub open spec fn modifier_body_repr(m: ScadModifierModel) -> Seq<char> {
    match m {
        ScadModifierModel::Csg(CsgOp::Union) => "union()"@,
        ScadModifierModel::Csg(CsgOp::Difference) => "difference()"@,
        ScadModifierModel::Csg(CsgOp::Intersection) => "intersection()"@,
        ScadModifierModel::Sentence { body, .. } => body,
    }
}

/// The dimension a modifier expects of its child, given the modifier's own
/// dimension.
pub open spec fn modifier_children_type(
    m: ScadModifierModel,
    own: ScadObjectDimensionType,
) -> ScadObjectDimensionType {
    match m {
        ScadModifierModel::Csg(_) => own,
        ScadModifierModel::Sentence { children_type, .. } => children_type,
    }
}

/// Whether a child of dimension `actual` may stand under an expectation of
/// `expected`: a Mixed expectation is dimension-agnostic and accepts
/// anything, otherwise the dimensions must be equal.
pub open spec fn dim_ok(
    expected: ScadObjectDimensionType,
    actual: ScadObjectDimensionType,
) -> bool {
    expected == ScadObjectDimensionType::ObjectMixed || expected == actual
}

/// Well-formedness of a model tree: every modifier's child has the dimension
/// the modifier expects, and every block's elements have the block's own
/// dimension, recursively.
pub open spec fn wf_model(m: ScadModel) -> bool
    decreases m,
{
    wf_node(m.node)
}

/// Well-formedness of a node body; see [`wf_model`].
pub open spec fn wf_node(n: ScadNodeModel) -> bool
    decreases n,
{
    match n {
        ScadNodeModel::Primitive { .. } => true,
        ScadNodeModel::Modifier { dim, body, child } => dim_ok(
            modifier_children_type(body, dim),
            child.dim(),
        ) && wf_model(*child),
        ScadNodeModel::Block { dim, objects } => wf_seq(dim, objects),
    }
}

/// Well-formedness of a block's elements: each has dimension `dim` (or `dim`
/// is Mixed), and each is well-formed itself.
pub open spec fn wf_seq(dim: ScadObjectDimensionType, objects: Seq<ScadModel>) -> bool
    decreases objects,
{
    if objects.len() == 0 {
        true
    } else {
        dim_ok(dim, objects[0].dim()) && wf_model(objects[0]) && wf_seq(dim, objects.drop_first())
    }
}

/// The rendered text of a modeled object: its comment line, if any,
/// followed by the rendering of the node.
pub open spec fn render(m: ScadModel) -> Seq<char>
    decreases m,
{
    match m.comment {
        Some(c) => "/* "@ + c + " */\n"@ + render_node(m.node),
        None => render_node(m.node),
    }
}

/// The rendered text of a node body.
///
/// A primitive is its body followed by `;` and a newline.  A block renders
/// its children in order, indents the concatenation one level, and wraps it
/// in braces.  A modifier whose child's rendering opens with `{` (the child
/// is an uncommented block) shares the child's first line; any other child
/// is placed on the following lines, indented one level.
pub open spec fn render_node(n: ScadNodeModel) -> Seq<char>
    decreases n,
{
    match n {
        ScadNodeModel::Primitive { body, .. } => body + ";\n"@,
        ScadNodeModel::Modifier { body, child, .. } => modifier_repr_spec(
            modifier_body_repr(body),
            render(*child),
        ),
        ScadNodeModel::Block { objects, .. } => block_repr_spec(render_seq(objects)),
    }
}

/// The concatenated renderings of a sequence of trees.
pub open spec fn render_seq(objects: Seq<ScadModel>) -> Seq<char>
    decreases objects,
{
    if objects.len() == 0 {
        Seq::empty()
    } else {
        render(objects[0]) + render_seq(objects.drop_first())
    }
}

/// How a modifier head joins its rendered child; see [`render_node`].
pub open spec fn modifier_repr_spec(body: Seq<char>, child: Seq<char>) -> Seq<char> {
    if child.len() > 0 && child[0] == '{' {
        body + seq![' '] + child
    } else {
        body + seq!['\n'] + indent_spec(child, 2)
    }
}

/// A brace-wrapped block around already-concatenated child renderings; see
/// [`render_node`].
pub open spec fn block_repr_spec(children: Seq<char>) -> Seq<char> {
    "{\n"@ + indent_spec(children, 2) + "}\n"@
}

/// The model of an uncommented primitive node.
pub open spec fn primitive_model(dim: ScadObjectDimensionType, body: Seq<char>) -> ScadModel {
    ScadModel { comment: None, node: ScadNodeModel::Primitive { dim, body } }
}

/// The model of an uncommented modifier node.
pub open spec fn modifier_model(
    dim: ScadObjectDimensionType,
    body: ScadModifierModel,
    child: ScadModel,
) -> ScadModel {
    ScadModel { comment: None, node: ScadNodeModel::Modifier { dim, body, child: Box::new(child) } }
}

/// The model of an uncommented block node.
pub open spec fn block_model(
    dim: ScadObjectDimensionType,
    objects: Seq<ScadModel>,
) -> ScadModel {
    ScadModel { comment: None, node: ScadNodeModel::Block { dim, objects } }
}

/// The model of a CSG node: the operation's modifier wrapping a block of
/// the operands, all of dimension `dim`.
pub open spec fn csg_model(
    dim: ScadObjectDimensionType,
    op: CsgOp,
    children: Seq<ScadModel>,
) -> ScadModel {
    modifier_model(dim, ScadModifierModel::Csg(op), block_model(dim, children))
}

/// The model `m` with its comment replaced by `c`.
pub open spec fn commented_model(m: ScadModel, c: Seq<char>) -> ScadModel {
    ScadModel { comment: Some(c), node: m.node }
}

/// Every element's dimension is accepted under the expectation `expected`.
pub open spec fn dims_all(
    expected: ScadObjectDimensionType,
    objects: Seq<ScadModel>,
) -> bool {
    forall|i: int| 0 <= i < objects.len() ==> dim_ok(expected, (#[trigger] objects[i]).dim())
}

/// An indented tail keeps a final newline final.
proof fn lemma_indent_tail_last(s: Seq<char>, n: nat)
    requires
        s.len() > 0,
        s.last() == '\n',
    ensures
        indent_tail_spec(s, n).len() > 0,
        indent_tail_spec(s, n).last() == '\n',
    decreases s.len(),
{
    if s.len() == 1 {
    } else {
        lemma_indent_tail_last(s.drop_first(), n);
        assert(s.drop_first().last() == s.last());
        let rest = indent_tail_spec(s.drop_first(), n);
        if s[0] == '\n' {
            assert((seq!['\n'] + spaces(n) + rest).last() == rest.last());
        } else {
            assert((seq![s[0]] + rest).last() == rest.last());
        }
    }
}

/// Every rendering is a non-empty text that ends with a newline.
pub proof fn lemma_render_ends_newline(m: ScadModel)
    ensures
        render(m).len() > 0,
        render(m).last() == '\n',
    decreases m,
{
    lemma_render_node_ends_newline(m.node);
    match m.comment {
        Some(c) => {
            assert(render(m).last() == render_node(m.node).last());
        },
        None => {},
    }
}

/// Every rendered node body is a non-empty text that ends with a newline.
pub proof fn lemma_render_node_ends_newline(n: ScadNodeModel)
    ensures
        render_node(n).len() > 0,
        render_node(n).last() == '\n',
    decreases n,
{
    match n {
        ScadNodeModel::Primitive { body, .. } => {
            reveal_strlit(";\n");
            assert((body + ";\n"@).last() == ";\n"@.last());
        },
        ScadNodeModel::Modifier { body, child, .. } => {
            lemma_render_ends_newline(*child);
            let head = modifier_body_repr(body);
            let c = render(*child);
            if c.len() > 0 && c[0] == '{' {
                assert((head + seq![' '] + c).last() == c.last());
            } else {
                lemma_indent_tail_last(c, 2);
                assert(indent_spec(c, 2).last() == indent_tail_spec(c, 2).last());
                assert((head + seq!['\n'] + indent_spec(c, 2)).last() == indent_spec(
                    c,
                    2,
                ).last());
            }
        },
        ScadNodeModel::Block { .. } => {
            reveal_strlit("}\n");
            assert(render_node(n).last() == "}\n"@.last());
        },
    }
}

/// A block's element-wise well-formedness, spelled out: `wf_seq` holds
/// exactly when every element matches the dimension and is well-formed.
pub proof fn lemma_wf_seq_forall(dim: ScadObjectDimensionType, objects: Seq<ScadModel>)
    ensures
        wf_seq(dim, objects) <==> (forall|i: int|
            0 <= i < objects.len() ==> dim_ok(dim, #[trigger] objects[i].dim()) && wf_model(
                objects[i],
            )),
    decreases objects.len(),
{
    if objects.len() > 0 {
        lemma_wf_seq_forall(dim, objects.drop_first());
        assert forall|i: int|
            0 <= i < objects.len() && wf_seq(dim, objects) implies dim_ok(
            dim,
            #[trigger] objects[i].dim(),
        ) && wf_model(objects[i]) by {
            if i > 0 {
                assert(objects.drop_first()[i - 1] == objects[i]);
            }
        }
        if forall|i: int|
            0 <= i < objects.len() ==> dim_ok(dim, #[trigger] objects[i].dim()) && wf_model(
                objects[i],
            ) {
            assert forall|i: int| 0 <= i < objects.drop_first().len() implies dim_ok(
                dim,
                #[trigger] objects.drop_first()[i].dim(),
            ) && wf_model(objects.drop_first()[i]) by {
                assert(objects.drop_first()[i] == objects[i + 1]);
            }
        }
    }
}

/// `wf_seq` splits over concatenation.
pub proof fn lemma_wf_seq_concat(
    dim: ScadObjectDimensionType,
    a: Seq<ScadModel>,
    b: Seq<ScadModel>,
)
    ensures
        wf_seq(dim, a + b) <==> (wf_seq(dim, a) && wf_seq(dim, b)),
    decreases a.len(),
{
    if a.len() == 0 {
        assert(a + b =~= b);
    } else {
        lemma_wf_seq_concat(dim, a.drop_first(), b);
        assert((a + b).drop_first() =~= a.drop_first() + b);
        assert((a + b)[0] == a[0]);
    }
}

/// `render_seq` splits over concatenation.
pub proof fn lemma_render_seq_concat(a: Seq<ScadModel>, b: Seq<ScadModel>)
    ensures
        render_seq(a + b) == render_seq(a) + render_seq(b),
    decreases a.len(),
{
    if a.len() == 0 {
        assert(a + b =~= b);
        assert(render_seq(a) + render_seq(b) =~= render_seq(b));
    } else {
        lemma_render_seq_concat(a.drop_first(), b);
        assert((a + b).drop_first() =~= a.drop_first() + b);
        assert((a + b)[0] == a[0]);
        assert(render(a[0]) + (render_seq(a.drop_first()) + render_seq(b)) =~= (render(a[0])
            + render_seq(a.drop_first())) + render_seq(b));
    }
}

} // verus!
