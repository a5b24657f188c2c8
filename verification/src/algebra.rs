//! The CSG algebra: `+`, `-` and `*` over [`ScadObject`]s build Union,
//! Difference and Intersection nodes, splicing same-operator operands so
//! that repeated applications stay one block wide instead of nesting.

use vstd::prelude::*;

use crate::ScadObjectDimensionType;
use crate::model::CsgOp;
use crate::model::ScadModel;
use crate::model::ScadModifierModel;
use crate::model::ScadNodeModel;
use crate::model::csg_model;
use crate::model::dim_ok;
use crate::model::lemma_wf_seq_concat;
use crate::model::wf_model;
use crate::model::wf_node;
use crate::model::wf_seq;
use crate::object::ScadBlock;
use crate::object::ScadModifier;
use crate::object::ScadModifierBody;
use crate::object::ScadObject;
use crate::object::ScadObjectBody;
use crate::object::ScadObjectTrait;
use crate::object::lemma_view_seq_concat;
use crate::object::view_obj;
use crate::object::view_seq;

verus! {

/// What one operand contributes to a CSG node's child list: an operand that
/// is itself a modifier of the same operation wrapping a block is spliced
/// into its block's elements; one wrapping a single non-block child yields
/// that child; any other operand stands as it is.  Only the operand's own
/// top level is inspected.
pub open spec fn flatten_operand(o: ScadModel, op: CsgOp) -> Seq<ScadModel> {
    match o.node {
        ScadNodeModel::Modifier { body, child, .. } => match body {
            ScadModifierModel::Csg(k) => if k == op {
                match child.node {
                    ScadNodeModel::Block { objects, .. } => objects,
                    _ => seq![*child],
                }
            } else {
                seq![o]
            },
            _ => seq![o],
        },
        _ => seq![o],
    }
}

/// An operand that contributes exactly itself under `op`: it is not a
/// modifier of that same operation.
pub open spec fn single_operand(o: ScadModel, op: CsgOp) -> bool {
    flatten_operand(o, op) == seq![o]
}

/// The result of one CSG operation: a modifier of `op`, of the left
/// operand's dimension, over a block of the flattened operands.  The right
/// operand of a Difference is never flattened, since splicing it would
/// change the subtraction's meaning.
pub open spec fn csg_combine(op: CsgOp, a: ScadModel, b: ScadModel) -> ScadModel {
    let children = if op == CsgOp::Difference {
        flatten_operand(a, op) + seq![b]
    } else {
        flatten_operand(a, op) + flatten_operand(b, op)
    };
    csg_model(a.dim(), op, children)
}

/// The operands of a CSG operation must share one dimension, and a Mixed
/// operand is not allowed.
pub open spec fn csg_req(a: ScadModel, b: ScadModel) -> bool {
    &&& wf_model(a)
    &&& wf_model(b)
    &&& a.dim() == b.dim()
    &&& a.dim() != ScadObjectDimensionType::ObjectMixed
}

/// A well-formed non-Mixed operand flattens to a well-formed child list of
/// its own dimension.
proof fn lemma_flatten_wf(o: ScadModel, op: CsgOp)
    requires
        wf_model(o),
        o.dim() != ScadObjectDimensionType::ObjectMixed,
    ensures
        wf_seq(o.dim(), flatten_operand(o, op)),
{
    match o.node {
        ScadNodeModel::Modifier { dim, body, child } => match body {
            ScadModifierModel::Csg(k) => {
                if k == op {
                    assert(wf_model(*child));
                    assert(wf_node(child.node));
                    match child.node {
                        ScadNodeModel::Block { dim: bdim, objects } => {
                            assert(bdim == o.dim());
                            assert(wf_seq(bdim, objects));
                        },
                        _ => {
                            assert(child.dim() == o.dim());
                            assert(wf_seq(o.dim(), seq![*child].drop_first()));
                        },
                    }
                } else {
                    assert(wf_seq(o.dim(), seq![o].drop_first()));
                }
            },
            _ => {
                assert(wf_seq(o.dim(), seq![o].drop_first()));
            },
        },
        _ => {
            assert(wf_seq(o.dim(), seq![o].drop_first()));
        },
    }
}

/// The result of a CSG operation on acceptable operands is well-formed and
/// keeps the operands' dimension.
pub proof fn lemma_csg_combine_wf(op: CsgOp, a: ScadModel, b: ScadModel)
    requires
        csg_req(a, b),
    ensures
        wf_model(csg_combine(op, a, b)),
        csg_combine(op, a, b).dim() == a.dim(),
    decreases a,
{
    lemma_flatten_wf(a, op);
    let children = if op == CsgOp::Difference {
        flatten_operand(a, op) + seq![b]
    } else {
        flatten_operand(a, op) + flatten_operand(b, op)
    };
    if op == CsgOp::Difference {
        assert(wf_seq(a.dim(), seq![b].drop_first()));
        lemma_wf_seq_concat(a.dim(), flatten_operand(a, op), seq![b]);
    } else {
        lemma_flatten_wf(b, op);
        lemma_wf_seq_concat(a.dim(), flatten_operand(a, op), flatten_operand(b, op));
    }
    assert(wf_seq(a.dim(), children));
    let blk = crate::model::block_model(a.dim(), children);
    assert(wf_node(blk.node));
    assert(wf_model(blk));
    let result = csg_combine(op, a, b);
    assert(result.node == ScadNodeModel::Modifier {
        dim: a.dim(),
        body: ScadModifierModel::Csg(op),
        child: Box::new(blk),
    });
    assert(wf_node(result.node));
}

/// Pushing an object's models onto a sequence of views, one per element.
proof fn lemma_view_seq_push(s: Seq<ScadObject>, x: ScadObject)
    ensures
        view_seq(s.push(x)) == view_seq(s) + seq![view_obj(x)],
{
    assert(s.push(x) =~= s + seq![x]);
    lemma_view_seq_concat(s, seq![x]);
    assert(view_seq(seq![x].drop_first()) == Seq::<ScadModel>::empty());
    assert(view_seq(seq![x]) =~= seq![view_obj(x)]);
}

/// Appends what the operand `o` contributes to a CSG node of operation `op`
/// onto `children`; see [`flatten_operand`].
fn push_flattened(children: &mut Vec<ScadObject>, o: ScadObject, op: CsgOp)
    ensures
        view_seq(final(children)@) == view_seq(old(children)@) + flatten_operand(o@, op),
{
    let ghost children0 = children@;
    let ghost om = o@;
    let ScadObject { body, comment } = o;
    proof {
        assert(om.node == crate::object::view_body(body));
    }
    match body {
        ScadObjectBody::Modifier(m) => {
            let ScadModifier { dim, body: mbody, child } = m;
            match mbody {
                ScadModifierBody::Csg(k) => {
                    if k == op {
                        let c: ScadObject = *child;
                        let ghost cm = c@;
                        let ScadObject { body: cbody, comment: ccomment } = c;
                        proof {
                            assert(cm.node == crate::object::view_body(cbody));
                        }
                        match cbody {
                            ScadObjectBody::Block(bl) => {
                                let ScadBlock { dim: _, objects: mut elems } = bl;
                                proof {
                                    assert(flatten_operand(om, op) == view_seq(elems@));
                                    lemma_view_seq_concat(children0, elems@);
                                }
                                children.append(&mut elems);
                            },
                            other => {
                                let orphan = ScadObject { body: other, comment: ccomment };
                                proof {
                                    assert(view_obj(orphan) == cm);
                                    assert(flatten_operand(om, op) == seq![cm]);
                                    lemma_view_seq_push(children0, orphan);
                                }
                                children.push(orphan);
                            },
                        }
                    } else {
                        let back = ScadObject {
                            body: ScadObjectBody::Modifier(
                                ScadModifier { dim, body: ScadModifierBody::Csg(k), child },
                            ),
                            comment,
                        };
                        proof {
                            assert(view_obj(back) =~= om);
                            assert(flatten_operand(om, op) == seq![om]);
                            lemma_view_seq_push(children0, back);
                        }
                        children.push(back);
                    }
                },
                sentence => {
                    let back = ScadObject {
                        body: ScadObjectBody::Modifier(
                            ScadModifier { dim, body: sentence, child },
                        ),
                        comment,
                    };
                    proof {
                        assert(view_obj(back) =~= om);
                        assert(flatten_operand(om, op) == seq![om]);
                        lemma_view_seq_push(children0, back);
                    }
                    children.push(back);
                },
            }
        },
        other => {
            let back = ScadObject { body: other, comment };
            proof {
                assert(view_obj(back) =~= om);
                assert(flatten_operand(om, op) == seq![om]);
                lemma_view_seq_push(children0, back);
            }
            children.push(back);
        },
    }
}

/// Builds the CSG node of operation `op` over the collected children, of
/// dimension `dim`.
fn csg_node(dim: ScadObjectDimensionType, op: CsgOp, children: Vec<ScadObject>) -> (r: ScadObject)
    ensures
        r@ == csg_model(dim, op, view_seq(children@)),
{
    let ghost cseq = children@;
    let block = ScadObject {
        body: ScadObjectBody::Block(ScadBlock { dim, objects: children }),
        comment: None,
    };
    proof {
        assert(view_obj(block) == crate::model::block_model(dim, view_seq(cseq)));
    }
    let r = ScadObject {
        body: ScadObjectBody::Modifier(
            ScadModifier { dim, body: ScadModifierBody::Csg(op), child: Box::new(block) },
        ),
        comment: None,
    };
    proof {
        assert(view_obj(r) =~= csg_model(dim, op, view_seq(cseq)));
    }
    r
}

impl vstd::std_specs::ops::AddSpecImpl for ScadObject {
    open spec fn obeys_add_spec() -> bool {
        false
    }

    open spec fn add_req(self, rhs: ScadObject) -> bool {
        csg_req(self@, rhs@)
    }

    open spec fn add_spec(self, rhs: ScadObject) -> ScadObject {
        arbitrary()
    }
}

impl core::ops::Add for ScadObject {
    type Output = ScadObject;

    /// The union of two objects of one non-Mixed dimension: a `union()`
    /// node whose block splices both operands' own unions.
    fn add(self, rhs: ScadObject) -> (r: ScadObject)
        ensures
            r@ == csg_combine(CsgOp::Union, self@, rhs@),
            wf_model(r@),
            r@.dim() == self@.dim(),
    {
        proof {
            lemma_csg_combine_wf(CsgOp::Union, self@, rhs@);
        }
        let dim = self.get_type();
        let mut children: Vec<ScadObject> = Vec::new();
        push_flattened(&mut children, self, CsgOp::Union);
        push_flattened(&mut children, rhs, CsgOp::Union);
        csg_node(dim, CsgOp::Union, children)
    }
}

impl vstd::std_specs::ops::SubSpecImpl for ScadObject {
    open spec fn obeys_sub_spec() -> bool {
        false
    }

    open spec fn sub_req(self, rhs: ScadObject) -> bool {
        csg_req(self@, rhs@)
    }

    open spec fn sub_spec(self, rhs: ScadObject) -> ScadObject {
        arbitrary()
    }
}

impl core::ops::Sub for ScadObject {
    type Output = ScadObject;

    /// The difference of two objects of one non-Mixed dimension: a
    /// `difference()` node; only the left operand's own difference is
    /// spliced, the right operand always stands whole.
    fn sub(self, rhs: ScadObject) -> (r: ScadObject)
        ensures
            r@ == csg_combine(CsgOp::Difference, self@, rhs@),
            wf_model(r@),
            r@.dim() == self@.dim(),
    {
        proof {
            lemma_csg_combine_wf(CsgOp::Difference, self@, rhs@);
        }
        let dim = self.get_type();
        let mut children: Vec<ScadObject> = Vec::new();
        push_flattened(&mut children, self, CsgOp::Difference);
        proof {
            lemma_view_seq_push(children@, rhs);
        }
        children.push(rhs);
        csg_node(dim, CsgOp::Difference, children)
    }
}

impl vstd::std_specs::ops::MulSpecImpl for ScadObject {
    open spec fn obeys_mul_spec() -> bool {
        false
    }

    open spec fn mul_req(self, rhs: ScadObject) -> bool {
        csg_req(self@, rhs@)
    }

    open spec fn mul_spec(self, rhs: ScadObject) -> ScadObject {
        arbitrary()
    }
}

impl core::ops::Mul for ScadObject {
    type Output = ScadObject;

    /// The intersection of two objects of one non-Mixed dimension: an
    /// `intersection()` node whose block splices both operands' own
    /// intersections.
    fn mul(self, rhs: ScadObject) -> (r: ScadObject)
        ensures
            r@ == csg_combine(CsgOp::Intersection, self@, rhs@),
            wf_model(r@),
            r@.dim() == self@.dim(),
    {
        proof {
            lemma_csg_combine_wf(CsgOp::Intersection, self@, rhs@);
        }
        let dim = self.get_type();
        let mut children: Vec<ScadObject> = Vec::new();
        push_flattened(&mut children, self, CsgOp::Intersection);
        push_flattened(&mut children, rhs, CsgOp::Intersection);
        csg_node(dim, CsgOp::Intersection, children)
    }
}

/// How a CSG node renders: its block always opens with a brace, so the
/// operation's head shares the block's first line, and the operands'
/// renderings stand inside, indented one level.
pub proof fn lemma_csg_model_render(
    dim: ScadObjectDimensionType,
    op: CsgOp,
    children: Seq<ScadModel>,
)
    ensures
        crate::model::render(csg_model(dim, op, children)) == crate::model::modifier_body_repr(
            ScadModifierModel::Csg(op),
        ) + seq![' '] + crate::model::block_repr_spec(crate::model::render_seq(children)),
{
    reveal_strlit("{\n");
    let blk = crate::model::block_model(dim, children);
    let blockrender = crate::model::render(blk);
    assert(blockrender == crate::model::block_repr_spec(crate::model::render_seq(children)));
    assert(blockrender[0] == '{');
}

/// Chaining a commutative operation flattens: for operands that are not
/// themselves nodes of that operation, `(a op b) op c` is one node with the
/// three of them as direct siblings, never a nested pair.
pub proof fn lemma_csg_chain_flattens(op: CsgOp, a: ScadModel, b: ScadModel, c: ScadModel)
    requires
        op != CsgOp::Difference,
        single_operand(a, op),
        single_operand(b, op),
        single_operand(c, op),
    ensures
        csg_combine(op, csg_combine(op, a, b), c) == csg_model(a.dim(), op, seq![a, b, c]),
{
    let u = csg_combine(op, a, b);
    assert(flatten_operand(u, op) == seq![a] + seq![b]);
    assert((seq![a] + seq![b]) + seq![c] =~= seq![a, b, c]);
}

/// Flattening correctness at the text level: a chained commutative
/// operation renders as one operation head over one block holding all
/// three operands' renderings as direct siblings.
pub proof fn lemma_csg_chain_renders_flat(op: CsgOp, a: ScadModel, b: ScadModel, c: ScadModel)
    requires
        op != CsgOp::Difference,
        single_operand(a, op),
        single_operand(b, op),
        single_operand(c, op),
    ensures
        crate::model::render(csg_combine(op, csg_combine(op, a, b), c))
            == crate::model::modifier_body_repr(ScadModifierModel::Csg(op)) + seq![' ']
            + crate::model::block_repr_spec(crate::model::render_seq(seq![a, b, c])),
{
    lemma_csg_chain_flattens(op, a, b, c);
    lemma_csg_model_render(a.dim(), op, seq![a, b, c]);
}

/// The right operand of a difference is never spliced: `a - (b - c)` keeps
/// the whole nested difference as its one right sibling.
pub proof fn lemma_difference_right_nested(a: ScadModel, b: ScadModel, c: ScadModel)
    requires
        single_operand(a, CsgOp::Difference),
    ensures
        csg_combine(CsgOp::Difference, a, csg_combine(CsgOp::Difference, b, c)) == csg_model(
            a.dim(),
            CsgOp::Difference,
            seq![a, csg_combine(CsgOp::Difference, b, c)],
        ),
{
    let inner = csg_combine(CsgOp::Difference, b, c);
    assert(seq![a] + seq![inner] =~= seq![a, inner]);
}

/// The left operand of a difference is spliced: `(a - b) - c` is one
/// difference node with the three operands as direct siblings.
pub proof fn lemma_difference_left_flattens(a: ScadModel, b: ScadModel, c: ScadModel)
    requires
        single_operand(a, CsgOp::Difference),
    ensures
        csg_combine(CsgOp::Difference, csg_combine(CsgOp::Difference, a, b), c) == csg_model(
            a.dim(),
            CsgOp::Difference,
            seq![a, b, c],
        ),
{
    let inner = csg_combine(CsgOp::Difference, a, b);
    assert(flatten_operand(inner, CsgOp::Difference) == seq![a] + seq![b]);
    assert((seq![a] + seq![b]) + seq![c] =~= seq![a, b, c]);
}

/// Commutative-operator symmetry: a union node combined with a plain
/// operand flattens to the same three siblings from either side, differing
/// only in order.
pub proof fn lemma_union_symmetry(
    dim: ScadObjectDimensionType,
    a: ScadModel,
    b: ScadModel,
    c: ScadModel,
)
    requires
        single_operand(c, CsgOp::Union),
        c.dim() == dim,
    ensures
        csg_combine(CsgOp::Union, csg_model(dim, CsgOp::Union, seq![a, b]), c) == csg_model(
            dim,
            CsgOp::Union,
            seq![a, b, c],
        ),
        csg_combine(CsgOp::Union, c, csg_model(dim, CsgOp::Union, seq![a, b])) == csg_model(
            dim,
            CsgOp::Union,
            seq![c, a, b],
        ),
{
    let u = csg_model(dim, CsgOp::Union, seq![a, b]);
    assert(flatten_operand(u, CsgOp::Union) == seq![a, b]);
    assert(seq![a, b] + seq![c] =~= seq![a, b, c]);
    assert(seq![c] + seq![a, b] =~= seq![c, a, b]);
}

} // verus!
