//! The SCAD object tree: primitives, modifiers and blocks with
//! dimension-checked construction, and the renderer that turns a tree into
//! SCAD source text.

use vstd::prelude::*;
use vstd::string::StrSliceExecFns;
use vstd::string::StringExecFns;

use crate::ScadObjectDimensionType;
use crate::display::ScadDisplay;
use crate::model::CsgOp;
use crate::model::ScadModel;
use crate::model::ScadModifierModel;
use crate::model::ScadNodeModel;
use crate::model::block_repr_spec;
use crate::model::modifier_body_repr;
use crate::model::modifier_repr_spec;
use crate::model::block_model;
use crate::model::commented_model;
use crate::model::dim_ok;
use crate::model::dims_all;
use crate::model::modifier_children_type;
use crate::model::modifier_model;
use crate::model::primitive_model;
use crate::model::render;
use crate::model::render_node;
use crate::model::render_seq;
use crate::text::INDENT;
use crate::text::indent_str;

verus! {

/// A SCAD object: a node body and an optional comment shown above it.
#[derive(Debug)]
pub struct ScadObject {
    /// The body of the object.
    pub body: ScadObjectBody,
    /// An optional comment for the object.
    pub comment: Option<String>,
}

/// The body of a SCAD object.
#[derive(Debug)]
pub enum ScadObjectBody {
    /// A terminal statement with a pre-formatted sentence.
    Primitive(ScadPrimitive),
    /// A modifier applied to one child object.
    Modifier(ScadModifier),
    /// A brace-wrapped sequence of sibling objects.
    Block(ScadBlock),
}

/// A terminal SCAD statement: a formatted sentence and its dimension.
#[derive(Debug)]
pub struct ScadPrimitive {
    /// The dimension of the primitive.
    pub dim: ScadObjectDimensionType,
    /// The sentence text, without the trailing semicolon.
    pub body: String,
}

/// A SCAD modifier applied to one child object.
#[derive(Debug)]
pub struct ScadModifier {
    /// The dimension of the modifier itself.
    pub dim: ScadObjectDimensionType,
    /// The head of the modifier.
    pub body: ScadModifierBody,
    /// The child object the modifier applies to.
    pub child: Box<ScadObject>,
}

/// A block of sibling SCAD objects.
#[derive(Debug)]
pub struct ScadBlock {
    /// The dimension of the block.
    pub dim: ScadObjectDimensionType,
    /// The objects in the block.
    pub objects: Vec<ScadObject>,
}

/// The head of a modifier: a CSG operation, or any other sentence supplied
/// by a shape layer together with the dimension it expects of its child.
#[derive(Debug)]
pub enum ScadModifierBody {
    /// One of the CSG boolean operations.
    Csg(CsgOp),
    /// Any other modifier sentence.
    Sentence(ScadModifierSentence),
}

/// A pre-formatted modifier sentence and the dimension it expects of its
/// child; a Mixed expectation accepts children of any dimension.
#[derive(Debug)]
pub struct ScadModifierSentence {
    /// The sentence text, e.g. `translate([8, -4])`.
    pub body: String,
    /// The dimension the modifier expects of its child.
    pub children_type: ScadObjectDimensionType,
}

impl Clone for ScadPrimitive {
    fn clone(&self) -> (r: Self)
        ensures
            r == *self,
    {
        ScadPrimitive { dim: self.dim, body: self.body.clone() }
    }
}

impl Clone for ScadModifierSentence {
    fn clone(&self) -> (r: Self)
        ensures
            r == *self,
    {
        ScadModifierSentence { body: self.body.clone(), children_type: self.children_type }
    }
}

impl Clone for ScadModifierBody {
    fn clone(&self) -> (r: Self)
        ensures
            r == *self,
    {
        match self {
            ScadModifierBody::Csg(op) => ScadModifierBody::Csg(*op),
            ScadModifierBody::Sentence(s) => ScadModifierBody::Sentence(s.clone()),
        }
    }
}

/// The model of a modifier head.
pub open spec fn view_modbody(m: ScadModifierBody) -> ScadModifierModel {
    match m {
        ScadModifierBody::Csg(op) => ScadModifierModel::Csg(op),
        ScadModifierBody::Sentence(s) => ScadModifierModel::Sentence {
            body: s.body@,
            children_type: s.children_type,
        },
    }
}

/// The model of a SCAD object.
pub open spec fn view_obj(o: ScadObject) -> ScadModel
    decreases o,
{
    ScadModel {
        comment: match o.comment {
            Some(c) => Some(c@),
            None => None,
        },
        node: view_body(o.body),
    }
}

/// The model of a node body.
pub open spec fn view_body(b: ScadObjectBody) -> ScadNodeModel
    decreases b,
{
    match b {
        ScadObjectBody::Primitive(p) => ScadNodeModel::Primitive { dim: p.dim, body: p.body@ },
        ScadObjectBody::Modifier(m) => ScadNodeModel::Modifier {
            dim: m.dim,
            body: view_modbody(m.body),
            child: Box::new(view_obj(*m.child)),
        },
        ScadObjectBody::Block(bl) => ScadNodeModel::Block {
            dim: bl.dim,
            objects: view_seq(bl.objects@),
        },
    }
}

/// The models of a sequence of SCAD objects, element-wise.
pub open spec fn view_seq(s: Seq<ScadObject>) -> Seq<ScadModel>
    decreases s,
{
    if s.len() == 0 {
        Seq::empty()
    } else {
        seq![view_obj(s[0])] + view_seq(s.drop_first())
    }
}

impl View for ScadObject {
    type V = ScadModel;

    open spec fn view(&self) -> ScadModel {
        view_obj(*self)
    }
}

/// `view_seq` is the element-wise image of `view_obj`.
pub proof fn lemma_view_seq(s: Seq<ScadObject>)
    ensures
        view_seq(s).len() == s.len(),
        forall|i: int| 0 <= i < s.len() ==> view_seq(s)[i] == view_obj(#[trigger] s[i]),
    decreases s,
{
    if s.len() > 0 {
        lemma_view_seq(s.drop_first());
        assert forall|i: int| 0 <= i < s.len() implies view_seq(s)[i] == view_obj(
            #[trigger] s[i],
        ) by {
            if i > 0 {
                assert(view_seq(s)[i] == view_seq(s.drop_first())[i - 1]);
                assert(s.drop_first()[i - 1] == s[i]);
            }
        }
    }
}

/// `view_seq` splits over concatenation.
pub proof fn lemma_view_seq_concat(a: Seq<ScadObject>, b: Seq<ScadObject>)
    ensures
        view_seq(a + b) == view_seq(a) + view_seq(b),
    decreases a,
{
    if a.len() == 0 {
        assert(a + b =~= b);
        assert(view_seq(a) + view_seq(b) =~= view_seq(b));
    } else {
        lemma_view_seq_concat(a.drop_first(), b);
        assert((a + b).drop_first() =~= a.drop_first() + b);
        assert((a + b)[0] == a[0]);
        assert(seq![view_obj(a[0])] + (view_seq(a.drop_first()) + view_seq(b)) =~= (seq![
            view_obj(a[0]),
        ] + view_seq(a.drop_first())) + view_seq(b));
    }
}

/// Objects of the SCAD tree: they know their rendered code and their
/// dimension type.
pub trait ScadObjectTrait {
    /// The rendered SCAD code of the object.
    spec fn code_spec(&self) -> Seq<char>;

    /// The dimension type of the object.
    spec fn type_spec(&self) -> ScadObjectDimensionType;

    /// Returns the rendered SCAD code of the object, ending with a newline.
    fn to_code(&self) -> (r: String)
        ensures
            r@ == self.code_spec(),
    ;

    /// Returns the dimension type of the object.
    fn get_type(&self) -> (t: ScadObjectDimensionType)
        ensures
            t == self.type_spec(),
    ;
}

/// Joins a rendered modifier head with its rendered child; see
/// [`crate::model::modifier_repr_spec`].
fn combine_modifier(body_code: String, child_code: String) -> (r: String)
    ensures
        r@ == modifier_repr_spec(body_code@, child_code@),
{
    let clen = child_code.unicode_len();
    let mut r = body_code;
    if clen > 0 && child_code.as_str().get_char(0) == '{' {
        r.push(' ');
        r.append(child_code.as_str());
        proof {
            assert(r@ =~= modifier_repr_spec(body_code@, child_code@));
        }
    } else {
        r.push('\n');
        let ind = indent_str(child_code.as_str(), INDENT);
        r.append(ind.as_str());
        proof {
            assert(r@ =~= modifier_repr_spec(body_code@, child_code@));
        }
    }
    r
}

/// Wraps already-concatenated child renderings in an indented brace block;
/// see [`crate::model::block_repr_spec`].
fn combine_block(children: String) -> (r: String)
    ensures
        r@ == block_repr_spec(children@),
{
    let mut r = "{\n".to_owned();
    let ind = indent_str(children.as_str(), INDENT);
    r.append(ind.as_str());
    r.append("}\n");
    proof {
        assert(r@ =~= block_repr_spec(children@));
    }
    r
}

impl ScadModifierBody {
    /// The rendered head of this modifier.
    pub fn repr_head(&self) -> (r: String)
        ensures
            r@ == modifier_body_repr(view_modbody(*self)),
    {
        match self {
            ScadModifierBody::Csg(op) => match op {
                CsgOp::Union => "union()".to_owned(),
                CsgOp::Difference => "difference()".to_owned(),
                CsgOp::Intersection => "intersection()".to_owned(),
            },
            ScadModifierBody::Sentence(s) => s.body.clone(),
        }
    }

    /// The dimension this modifier expects of its child, given the
    /// modifier's own dimension `own`.
    pub fn get_children_type(&self, own: ScadObjectDimensionType) -> (t: ScadObjectDimensionType)
        ensures
            t == crate::model::modifier_children_type(view_modbody(*self), own),
    {
        match self {
            ScadModifierBody::Csg(_) => own,
            ScadModifierBody::Sentence(s) => s.children_type,
        }
    }
}

impl ScadObject {
    /// Renders this object to SCAD code.
    #[verifier::loop_isolation(false)]
    fn render_code(&self) -> (r: String)
        ensures
            r@ == render(view_obj(*self)),
        decreases *self,
    {
        let body_code: String = match &self.body {
            ScadObjectBody::Primitive(p) => {
                let mut c = p.body.clone();
                c.append(";\n");
                c
            },
            ScadObjectBody::Modifier(m) => {
                let head = m.body.repr_head();
                let child_code = m.child.render_code();
                combine_modifier(head, child_code)
            },
            ScadObjectBody::Block(b) => {
                let mut concat = String::new();
                let mut i: usize = 0;
                while i < b.objects.len()
                    invariant
                        i <= b.objects@.len(),
                        concat@ == render_seq(view_seq(b.objects@.take(i as int))),
                    decreases b.objects@.len() - i,
                {
                    let c = b.objects[i].render_code();
                    concat.append(c.as_str());
                    proof {
                        lemma_take_one_more(b.objects@, i as int);
                    }
                    i = i + 1;
                }
                proof {
                    assert(b.objects@.take(b.objects@.len() as int) =~= b.objects@);
                }
                combine_block(concat)
            },
        };
        proof {
            assert(body_code@ == render_node(view_body(self.body)));
        }
        match &self.comment {
            Some(c) => {
                let mut r = "/* ".to_owned();
                r.append(c.as_str());
                r.append(" */\n");
                r.append(body_code.as_str());
                proof {
                    assert(r@ =~= render(view_obj(*self)));
                }
                r
            },
            None => body_code,
        }
    }
}

/// Rendering one more element extends the concatenated renderings by that
/// element's rendering.
proof fn lemma_take_one_more(s: Seq<ScadObject>, i: int)
    requires
        0 <= i < s.len(),
    ensures
        render_seq(view_seq(s.take(i + 1))) == render_seq(view_seq(s.take(i))) + render(
            view_obj(s[i]),
        ),
{
    assert(s.take(i + 1) =~= s.take(i) + seq![s[i]]);
    lemma_view_seq_concat(s.take(i), seq![s[i]]);
    let single = seq![s[i]];
    assert(single.drop_first() =~= Seq::<ScadObject>::empty());
    assert(view_seq(single.drop_first()) == Seq::<ScadModel>::empty());
    assert(view_seq(single) == seq![view_obj(s[i])] + Seq::<ScadModel>::empty());
    assert(view_seq(single) =~= seq![view_obj(s[i])]);
    crate::model::lemma_render_seq_concat(view_seq(s.take(i)), seq![view_obj(s[i])]);
    let msingle = seq![view_obj(s[i])];
    assert(msingle.drop_first() =~= Seq::<ScadModel>::empty());
    assert(render_seq(msingle.drop_first()) == Seq::<char>::empty());
    assert(render_seq(msingle) == render(view_obj(s[i])) + Seq::<char>::empty());
    assert(render_seq(msingle) =~= render(view_obj(s[i])));
}

/// A deep copy of a SCAD object; the copy has the same model.
#[verifier::loop_isolation(false)]
fn clone_obj(o: &ScadObject) -> (r: ScadObject)
    ensures
        view_obj(r) == view_obj(*o),
    decreases *o,
{
    let body: ScadObjectBody = match &o.body {
        ScadObjectBody::Primitive(p) => ScadObjectBody::Primitive(p.clone()),
        ScadObjectBody::Modifier(m) => ScadObjectBody::Modifier(
            ScadModifier {
                dim: m.dim,
                body: m.body.clone(),
                child: Box::new(clone_obj(&m.child)),
            },
        ),
        ScadObjectBody::Block(b) => {
            let mut objects: Vec<ScadObject> = Vec::new();
            let mut i: usize = 0;
            while i < b.objects.len()
                invariant
                    i <= b.objects@.len(),
                    objects@.len() == i,
                    forall|j: int|
                        0 <= j < i ==> view_obj(#[trigger] objects@[j]) == view_obj(
                            b.objects@[j],
                        ),
                decreases b.objects@.len() - i,
            {
                let c = clone_obj(&b.objects[i]);
                objects.push(c);
                i = i + 1;
            }
            proof {
                lemma_view_seq(objects@);
                lemma_view_seq(b.objects@);
                assert forall|j: int| 0 <= j < view_seq(objects@).len() implies view_seq(
                    objects@,
                )[j] == view_seq(b.objects@)[j] by {
                    assert(view_obj(objects@[j]) == view_obj(b.objects@[j]));
                }
                assert(view_seq(objects@) =~= view_seq(b.objects@));
            }
            ScadObjectBody::Block(ScadBlock { dim: b.dim, objects })
        },
    };
    let comment: Option<String> = match &o.comment {
        Some(c) => Some(c.clone()),
        None => None,
    };
    ScadObject { body, comment }
}

impl Clone for ScadObject {
    fn clone(&self) -> (r: Self)
        ensures
            r@ == (*self)@,
    {
        clone_obj(self)
    }
}

impl ScadObjectTrait for ScadObject {
    open spec fn code_spec(&self) -> Seq<char> {
        render(view_obj(*self))
    }

    open spec fn type_spec(&self) -> ScadObjectDimensionType {
        view_obj(*self).dim()
    }

    fn to_code(&self) -> (r: String) {
        self.render_code()
    }

    fn get_type(&self) -> (t: ScadObjectDimensionType) {
        match &self.body {
            ScadObjectBody::Primitive(p) => p.dim,
            ScadObjectBody::Modifier(m) => m.dim,
            ScadObjectBody::Block(b) => b.dim,
        }
    }
}

impl ScadObject {
    /// Creates a new object from a body, with a comment.
    pub fn new(body: ScadObjectBody, comment: &str) -> (r: Self)
        ensures
            r@ == (ScadModel { comment: Some(comment@), node: view_body(body) }),
    {
        ScadObject { body, comment: Some(comment.to_owned()) }
    }

    /// Sets the comment of the object.
    pub fn set_comment(&mut self, comment: &str)
        ensures
            final(self)@ == commented_model(old(self)@, comment@),
    {
        self.comment = Some(comment.to_owned());
    }

    /// Returns this object with its comment replaced.
    pub fn commented(self, comment: &str) -> (r: Self)
        ensures
            r@ == commented_model(self@, comment@),
    {
        ScadObject { body: self.body, comment: Some(comment.to_owned()) }
    }
}

impl ScadModifier {
    /// Replaces the child of this modifier if the replacement's dimension
    /// matches what the modifier expects; an unacceptable replacement
    /// leaves the modifier unchanged.
    pub fn try_set_child(&mut self, child: ScadObject) -> (r: bool)
        ensures
            r == dim_ok(
                modifier_children_type(view_modbody(old(self).body), old(self).dim),
                child@.dim(),
            ),
            r ==> final(self).dim == old(self).dim && final(self).body == old(self).body
                && view_obj(*final(self).child) == child@,
            !r ==> *final(self) == *old(self),
    {
        let expected = self.body.get_children_type(self.dim);
        let actual = child.get_type();
        if expected == ScadObjectDimensionType::ObjectMixed || expected == actual {
            self.child = Box::new(child);
            true
        } else {
            false
        }
    }
}

/// Creates an uncommented modifier object of dimension `dim`, checking the
/// child's dimension against what the modifier expects.
fn try_modifier_with_dim(
    dim: ScadObjectDimensionType,
    body: ScadModifierBody,
    child: ScadObject,
) -> (r: Option<ScadObject>)
    ensures
        r is Some <==> dim_ok(modifier_children_type(view_modbody(body), dim), child@.dim()),
        r matches Some(o) ==> o@ == modifier_model(dim, view_modbody(body), child@),
{
    let expected = body.get_children_type(dim);
    let actual = child.get_type();
    if expected == ScadObjectDimensionType::ObjectMixed || expected == actual {
        Some(
            ScadObject {
                body: ScadObjectBody::Modifier(
                    ScadModifier { dim, body, child: Box::new(child) },
                ),
                comment: None,
            },
        )
    } else {
        None
    }
}

/// Creates an uncommented block object of dimension `dim`, checking every
/// element's dimension; a Mixed block accepts elements of any dimension.
#[verifier::loop_isolation(false)]
fn try_block_with_dim(dim: ScadObjectDimensionType, objects: Vec<ScadObject>) -> (r: Option<
    ScadObject,
>)
    ensures
        r is Some <==> dims_all(dim, view_seq(objects@)),
        r matches Some(o) ==> o@ == block_model(dim, view_seq(objects@)),
{
    proof {
        lemma_view_seq(objects@);
    }
    let mut ok = true;
    let mut i: usize = 0;
    while i < objects.len()
        invariant
            i <= objects@.len(),
            ok <==> (forall|j: int|
                0 <= j < i ==> dim_ok(dim, view_obj(#[trigger] objects@[j]).dim())),
        decreases objects@.len() - i,
    {
        let t = objects[i].get_type();
        if !(dim == ScadObjectDimensionType::ObjectMixed || dim == t) {
            ok = false;
        }
        i = i + 1;
    }
    proof {
        if ok {
            assert forall|j: int| 0 <= j < view_seq(objects@).len() implies dim_ok(
                dim,
                (#[trigger] view_seq(objects@)[j]).dim(),
            ) by {
                assert(view_seq(objects@)[j] == view_obj(objects@[j]));
            }
        } else {
            let j = choose|j: int|
                0 <= j < objects@.len() && !dim_ok(dim, view_obj(#[trigger] objects@[j]).dim());
            assert(view_seq(objects@)[j] == view_obj(objects@[j]));
            assert(!dims_all(dim, view_seq(objects@)));
        }
    }
    if ok {
        Some(
            ScadObject { body: ScadObjectBody::Block(ScadBlock { dim, objects }), comment: None },
        )
    } else {
        None
    }
}

/// Creates a 2D primitive object from its formatted sentence.
pub fn primitive_2d(body: String) -> (r: ScadObject)
    ensures
        r@ == primitive_model(ScadObjectDimensionType::Object2D, body@),
{
    ScadObject {
        body: ScadObjectBody::Primitive(
            ScadPrimitive { dim: ScadObjectDimensionType::Object2D, body },
        ),
        comment: None,
    }
}

/// Creates a 2D primitive object with a comment.
pub fn primitive_2d_commented(body: String, comment: &str) -> (r: ScadObject)
    ensures
        r@ == commented_model(
            primitive_model(ScadObjectDimensionType::Object2D, body@),
            comment@,
        ),
{
    primitive_2d(body).commented(comment)
}

/// Creates a 3D primitive object from its formatted sentence.
pub fn primitive_3d(body: String) -> (r: ScadObject)
    ensures
        r@ == primitive_model(ScadObjectDimensionType::Object3D, body@),
{
    ScadObject {
        body: ScadObjectBody::Primitive(
            ScadPrimitive { dim: ScadObjectDimensionType::Object3D, body },
        ),
        comment: None,
    }
}

/// Creates a 3D primitive object with a comment.
pub fn primitive_3d_commented(body: String, comment: &str) -> (r: ScadObject)
    ensures
        r@ == commented_model(
            primitive_model(ScadObjectDimensionType::Object3D, body@),
            comment@,
        ),
{
    primitive_3d(body).commented(comment)
}

/// Attempts to create a 2D modifier object with a child object; fails
/// exactly when the child's dimension is not what the modifier expects.
pub fn try_modifier_2d(body: ScadModifierBody, child: ScadObject) -> (r: Option<ScadObject>)
    ensures
        r is Some <==> dim_ok(
            modifier_children_type(view_modbody(body), ScadObjectDimensionType::Object2D),
            child@.dim(),
        ),
        r matches Some(o) ==> o@ == modifier_model(
            ScadObjectDimensionType::Object2D,
            view_modbody(body),
            child@,
        ),
{
    try_modifier_with_dim(ScadObjectDimensionType::Object2D, body, child)
}

/// Creates a 2D modifier object with a child object whose dimension is
/// known to be accepted.
pub fn modifier_2d(body: ScadModifierBody, child: ScadObject) -> (r: ScadObject)
    requires
        dim_ok(
            modifier_children_type(view_modbody(body), ScadObjectDimensionType::Object2D),
            child@.dim(),
        ),
    ensures
        r@ == modifier_model(ScadObjectDimensionType::Object2D, view_modbody(body), child@),
{
    try_modifier_with_dim(ScadObjectDimensionType::Object2D, body, child).unwrap()
}

/// Attempts to create a 2D modifier object with a child object and a
/// comment; fails exactly when the child's dimension is not accepted.
pub fn try_modifier_2d_commented(
    body: ScadModifierBody,
    child: ScadObject,
    comment: &str,
) -> (r: Option<ScadObject>)
    ensures
        r is Some <==> dim_ok(
            modifier_children_type(view_modbody(body), ScadObjectDimensionType::Object2D),
            child@.dim(),
        ),
        r matches Some(o) ==> o@ == commented_model(
            modifier_model(ScadObjectDimensionType::Object2D, view_modbody(body), child@),
            comment@,
        ),
{
    match try_modifier_with_dim(ScadObjectDimensionType::Object2D, body, child) {
        Some(o) => Some(o.commented(comment)),
        None => None,
    }
}

/// Creates a commented 2D modifier object with a child object whose
/// dimension is known to be accepted.
pub fn modifier_2d_commented(
    body: ScadModifierBody,
    child: ScadObject,
    comment: &str,
) -> (r: ScadObject)
    requires
        dim_ok(
            modifier_children_type(view_modbody(body), ScadObjectDimensionType::Object2D),
            child@.dim(),
        ),
    ensures
        r@ == commented_model(
            modifier_model(ScadObjectDimensionType::Object2D, view_modbody(body), child@),
            comment@,
        ),
{
    modifier_2d(body, child).commented(comment)
}

/// Attempts to create a 3D modifier object with a child object; fails
/// exactly when the child's dimension is not what the modifier expects.
pub fn try_modifier_3d(body: ScadModifierBody, child: ScadObject) -> (r: Option<ScadObject>)
    ensures
        r is Some <==> dim_ok(
            modifier_children_type(view_modbody(body), ScadObjectDimensionType::Object3D),
            child@.dim(),
        ),
        r matches Some(o) ==> o@ == modifier_model(
            ScadObjectDimensionType::Object3D,
            view_modbody(body),
            child@,
        ),
{
    try_modifier_with_dim(ScadObjectDimensionType::Object3D, body, child)
}

/// Creates a 3D modifier object with a child object whose dimension is
/// known to be accepted.
pub fn modifier_3d(body: ScadModifierBody, child: ScadObject) -> (r: ScadObject)
    requires
        dim_ok(
            modifier_children_type(view_modbody(body), ScadObjectDimensionType::Object3D),
            child@.dim(),
        ),
    ensures
        r@ == modifier_model(ScadObjectDimensionType::Object3D, view_modbody(body), child@),
{
    try_modifier_with_dim(ScadObjectDimensionType::Object3D, body, child).unwrap()
}

/// Attempts to create a 3D modifier object with a child object and a
/// comment; fails exactly when the child's dimension is not accepted.
pub fn try_modifier_3d_commented(
    body: ScadModifierBody,
    child: ScadObject,
    comment: &str,
) -> (r: Option<ScadObject>)
    ensures
        r is Some <==> dim_ok(
            modifier_children_type(view_modbody(body), ScadObjectDimensionType::Object3D),
            child@.dim(),
        ),
        r matches Some(o) ==> o@ == commented_model(
            modifier_model(ScadObjectDimensionType::Object3D, view_modbody(body), child@),
            comment@,
        ),
{
    match try_modifier_with_dim(ScadObjectDimensionType::Object3D, body, child) {
        Some(o) => Some(o.commented(comment)),
        None => None,
    }
}

/// Creates a commented 3D modifier object with a child object whose
/// dimension is known to be accepted.
pub fn modifier_3d_commented(
    body: ScadModifierBody,
    child: ScadObject,
    comment: &str,
) -> (r: ScadObject)
    requires
        dim_ok(
            modifier_children_type(view_modbody(body), ScadObjectDimensionType::Object3D),
            child@.dim(),
        ),
    ensures
        r@ == commented_model(
            modifier_model(ScadObjectDimensionType::Object3D, view_modbody(body), child@),
            comment@,
        ),
{
    modifier_3d(body, child).commented(comment)
}

/// Creates a Mixed modifier object from a formatted sentence; a Mixed
/// modifier accepts a child of any dimension, so this always succeeds.
pub fn modifier_mixed(body: String, child: ScadObject) -> (r: ScadObject)
    ensures
        r@ == modifier_model(
            ScadObjectDimensionType::ObjectMixed,
            ScadModifierModel::Sentence {
                body: body@,
                children_type: ScadObjectDimensionType::ObjectMixed,
            },
            child@,
        ),
{
    let sentence = ScadModifierBody::Sentence(
        ScadModifierSentence { body, children_type: ScadObjectDimensionType::ObjectMixed },
    );
    try_modifier_with_dim(ScadObjectDimensionType::ObjectMixed, sentence, child).unwrap()
}

/// Creates a commented Mixed modifier object from a formatted sentence.
pub fn modifier_mixed_commented(body: String, child: ScadObject, comment: &str) -> (r: ScadObject)
    ensures
        r@ == commented_model(
            modifier_model(
                ScadObjectDimensionType::ObjectMixed,
                ScadModifierModel::Sentence {
                    body: body@,
                    children_type: ScadObjectDimensionType::ObjectMixed,
                },
                child@,
            ),
            comment@,
        ),
{
    modifier_mixed(body, child).commented(comment)
}

/// Attempts to create a 2D block object; fails exactly when some element is
/// not 2D.
pub fn try_block_2d(objects: Vec<ScadObject>) -> (r: Option<ScadObject>)
    ensures
        r is Some <==> dims_all(ScadObjectDimensionType::Object2D, view_seq(objects@)),
        r matches Some(o) ==> o@ == block_model(
            ScadObjectDimensionType::Object2D,
            view_seq(objects@),
        ),
{
    try_block_with_dim(ScadObjectDimensionType::Object2D, objects)
}

/// Creates a 2D block object from elements known to all be 2D.
pub fn block_2d(objects: Vec<ScadObject>) -> (r: ScadObject)
    requires
        dims_all(ScadObjectDimensionType::Object2D, view_seq(objects@)),
    ensures
        r@ == block_model(ScadObjectDimensionType::Object2D, view_seq(objects@)),
{
    try_block_with_dim(ScadObjectDimensionType::Object2D, objects).unwrap()
}

/// Attempts to create a commented 2D block object; fails exactly when some
/// element is not 2D.
pub fn try_block_2d_commented(objects: Vec<ScadObject>, comment: &str) -> (r: Option<ScadObject>)
    ensures
        r is Some <==> dims_all(ScadObjectDimensionType::Object2D, view_seq(objects@)),
        r matches Some(o) ==> o@ == commented_model(
            block_model(ScadObjectDimensionType::Object2D, view_seq(objects@)),
            comment@,
        ),
{
    match try_block_with_dim(ScadObjectDimensionType::Object2D, objects) {
        Some(o) => Some(o.commented(comment)),
        None => None,
    }
}

/// Creates a commented 2D block object from elements known to all be 2D.
pub fn block_2d_commented(objects: Vec<ScadObject>, comment: &str) -> (r: ScadObject)
    requires
        dims_all(ScadObjectDimensionType::Object2D, view_seq(objects@)),
    ensures
        r@ == commented_model(
            block_model(ScadObjectDimensionType::Object2D, view_seq(objects@)),
            comment@,
        ),
{
    block_2d(objects).commented(comment)
}

/// Attempts to create a 3D block object; fails exactly when some element is
/// not 3D.
pub fn try_block_3d(objects: Vec<ScadObject>) -> (r: Option<ScadObject>)
    ensures
        r is Some <==> dims_all(ScadObjectDimensionType::Object3D, view_seq(objects@)),
        r matches Some(o) ==> o@ == block_model(
            ScadObjectDimensionType::Object3D,
            view_seq(objects@),
        ),
{
    try_block_with_dim(ScadObjectDimensionType::Object3D, objects)
}

/// Creates a 3D block object from elements known to all be 3D.
pub fn block_3d(objects: Vec<ScadObject>) -> (r: ScadObject)
    requires
        dims_all(ScadObjectDimensionType::Object3D, view_seq(objects@)),
    ensures
        r@ == block_model(ScadObjectDimensionType::Object3D, view_seq(objects@)),
{
    try_block_with_dim(ScadObjectDimensionType::Object3D, objects).unwrap()
}

/// Attempts to create a commented 3D block object; fails exactly when some
/// element is not 3D.
pub fn try_block_3d_commented(objects: Vec<ScadObject>, comment: &str) -> (r: Option<ScadObject>)
    ensures
        r is Some <==> dims_all(ScadObjectDimensionType::Object3D, view_seq(objects@)),
        r matches Some(o) ==> o@ == commented_model(
            block_model(ScadObjectDimensionType::Object3D, view_seq(objects@)),
            comment@,
        ),
{
    match try_block_with_dim(ScadObjectDimensionType::Object3D, objects) {
        Some(o) => Some(o.commented(comment)),
        None => None,
    }
}

/// Creates a commented 3D block object from elements known to all be 3D.
pub fn block_3d_commented(objects: Vec<ScadObject>, comment: &str) -> (r: ScadObject)
    requires
        dims_all(ScadObjectDimensionType::Object3D, view_seq(objects@)),
    ensures
        r@ == commented_model(
            block_model(ScadObjectDimensionType::Object3D, view_seq(objects@)),
            comment@,
        ),
{
    block_3d(objects).commented(comment)
}

/// Creates a Mixed block object; a Mixed block accepts elements of any
/// dimension, so this always succeeds.
pub fn block_mixed(objects: Vec<ScadObject>) -> (r: ScadObject)
    ensures
        r@ == block_model(ScadObjectDimensionType::ObjectMixed, view_seq(objects@)),
{
    try_block_with_dim(ScadObjectDimensionType::ObjectMixed, objects).unwrap()
}

/// Creates a commented Mixed block object.
pub fn block_mixed_commented(objects: Vec<ScadObject>, comment: &str) -> (r: ScadObject)
    ensures
        r@ == commented_model(
            block_model(ScadObjectDimensionType::ObjectMixed, view_seq(objects@)),
            comment@,
        ),
{
    block_mixed(objects).commented(comment)
}

/// Dimension invariant of modifiers: a modifier node is well-formed
/// exactly when its child is well-formed and has the dimension the
/// modifier declares for its children.
pub proof fn lemma_modifier_wf(
    dim: ScadObjectDimensionType,
    body: ScadModifierModel,
    child: ScadModel,
)
    ensures
        crate::model::wf_model(modifier_model(dim, body, child)) <==> (dim_ok(
            modifier_children_type(body, dim),
            child.dim(),
        ) && crate::model::wf_model(child)),
{
}

/// Dimension invariant of blocks: a block node is well-formed exactly when
/// every element is well-formed and has the block's declared dimension.
pub proof fn lemma_block_wf(dim: ScadObjectDimensionType, objects: Seq<ScadModel>)
    ensures
        crate::model::wf_model(block_model(dim, objects)) <==> (crate::model::wf_seq(
            dim,
            objects,
        )),
        crate::model::wf_seq(dim, objects) <==> (forall|i: int|
            0 <= i < objects.len() ==> dim_ok(dim, (#[trigger] objects[i]).dim())
                && crate::model::wf_model(objects[i])),
{
    crate::model::lemma_wf_seq_forall(dim, objects);
}

/// Renders a primitive sentence as a SCAD statement: the sentence followed
/// by a semicolon and a newline.
pub fn primitive_repr<T: ScadDisplay>(body: &T) -> (r: String)
    ensures
        r@ == body.repr_spec() + ";\n"@,
{
    let mut r = body.repr_scad();
    r.append(";\n");
    r
}

/// Renders a modifier head applied to a child object: the head shares the
/// child's first line when the child's code opens a block, and otherwise
/// precedes the child's code indented one level.
pub fn modifier_repr<T: ScadDisplay, U: ScadObjectTrait>(body: &T, child: &U) -> (r: String)
    ensures
        r@ == modifier_repr_spec(body.repr_spec(), child.code_spec()),
{
    combine_modifier(body.repr_scad(), child.to_code())
}

/// The concatenated rendered codes of a sequence of objects.
pub open spec fn codes_concat_spec<T: ScadObjectTrait>(s: Seq<T>) -> Seq<char>
    decreases s.len(),
{
    if s.len() == 0 {
        Seq::empty()
    } else {
        s[0].code_spec() + codes_concat_spec(s.drop_first())
    }
}

/// Appending one object extends the concatenated codes by that object's
/// code.
proof fn lemma_codes_concat_take<T: ScadObjectTrait>(s: Seq<T>, i: int)
    requires
        0 <= i < s.len(),
    ensures
        codes_concat_spec(s.take(i + 1)) == codes_concat_spec(s.take(i)) + s[i].code_spec(),
    decreases i,
{
    if i == 0 {
        assert(s.take(1).drop_first() =~= Seq::<T>::empty());
        assert(codes_concat_spec(s.take(1).drop_first()) == Seq::<char>::empty());
        assert(s.take(0) =~= Seq::<T>::empty());
        assert(codes_concat_spec(s.take(1)) =~= s[0].code_spec());
    } else {
        lemma_codes_concat_take(s.drop_first(), i - 1);
        assert(s.take(i + 1).drop_first() =~= s.drop_first().take(i));
        assert(s.take(i).drop_first() =~= s.drop_first().take(i - 1));
        assert(s.take(i + 1)[0] == s[0]);
        assert(s.take(i)[0] == s[0]);
        assert(s.drop_first()[i - 1] == s[i]);
        assert(s[0].code_spec() + (codes_concat_spec(s.drop_first().take(i - 1))
            + s[i].code_spec()) =~= (s[0].code_spec() + codes_concat_spec(
            s.drop_first().take(i - 1),
        )) + s[i].code_spec());
    }
}

/// Renders a block of objects: every object's code in order, indented one
/// level and wrapped in braces.
#[verifier::loop_isolation(false)]
pub fn block_repr<T: ScadObjectTrait>(objects: &[T]) -> (r: String)
    ensures
        r@ == block_repr_spec(codes_concat_spec(objects@)),
{
    let mut concat = String::new();
    let mut i: usize = 0;
    proof {
        assert(objects@.take(0) =~= Seq::<T>::empty());
    }
    while i < objects.len()
        invariant
            i <= objects@.len(),
            concat@ == codes_concat_spec(objects@.take(i as int)),
        decreases objects@.len() - i,
    {
        let c = objects[i].to_code();
        concat.append(c.as_str());
        proof {
            lemma_codes_concat_take(objects@, i as int);
        }
        i = i + 1;
    }
    proof {
        assert(objects@.take(objects@.len() as int) =~= objects@);
    }
    combine_block(concat)
}

} // verus!
